use kurv::strcase::{convert, split, StrCase, WordCase};

/// The words of a text, by the patterns themselves.
fn words_by_patterns(s: &str) -> Vec<String> {
    let patterns = [
        r"[\s\-_]",
        r"(?P<lower>[a-z])(?P<upper>[A-Z])",
        r"(?P<upper>[A-Z])(?P<upper2>[A-Z][a-z])",
        r"(?P<upper>[A-Z])(?P<lower>[a-z])",
    ];
    let mut words = vec![s.to_string()];
    for pattern in patterns {
        let re = regex_lite::Regex::new(pattern).unwrap();
        let mut next = Vec::new();
        for word in &words {
            for piece in re.split(word) {
                next.push(piece.to_string());
            }
        }
        words = next;
    }
    words.retain(|w| !w.is_empty());
    words
}

const TEXTS: [&str; 12] = [
    "",
    "hello",
    "hello world",
    "hello_world-and  more",
    "helloWorld",
    "HTTPServer",
    "Hello",
    "a",
    "ABC",
    "élan vital",
    "ßtraße_ǆ",
    " - _ ",
];

#[test]
fn words_are_what_is_left_between_the_boundaries() {
    for text in TEXTS {
        assert_eq!(split(text), words_by_patterns(text), "{:?}", text);
    }
    assert_eq!(split("hello world"), vec!["hello", "world"]);
    assert_eq!(split("hello_world-and  more"), vec!["hello", "world", "and", "more"]);
    // a boundary between letters takes the letters with it
    assert_eq!(split("helloWorld"), vec!["hell", "orld"]);
    assert_eq!(split("Hello"), vec!["llo"]);
    assert!(split(" - _ ").is_empty());
    assert!(split("").is_empty());
}

#[test]
fn words_are_put_in_a_case() {
    assert_eq!(WordCase::Lower.mutate("HeLLo"), "hello");
    assert_eq!(WordCase::Upper.mutate("HeLLo"), "HELLO");
    assert_eq!(WordCase::Capital.mutate("heLLo"), "Hello");
    assert_eq!(WordCase::Capital.mutate(""), "");
    assert_eq!(WordCase::Capital.mutate("x"), "X");
    assert_eq!(WordCase::Capital.mutate("ßA"), "SSa");
    assert_eq!(WordCase::Upper.mutate("straße"), "STRASSE");
    assert_eq!(WordCase::Lower.mutate("ÉCOLE"), "école");
    assert_eq!(WordCase::Capital.mutate("éCOLE"), "École");
}

#[test]
fn texts_are_put_in_a_case() {
    assert_eq!(convert("hello world", Some(WordCase::Upper), "_"), "HELLOWORLD");
    assert_eq!(convert("hello world", Some(WordCase::Capital), " "), "HelloWorld");
    assert_eq!(convert("hello big_world", None, "-"), "hello-big-world");
    assert_eq!(convert("", None, "-"), "");
    assert_eq!(convert("one", None, "-"), "one");
    assert_eq!("foo bar".kebab(), "foobar");
    assert_eq!("Foo-BAR".snake(), "obar");
    assert_eq!("foo bar".camel(), "FooBar");
    assert_eq!("foo bar".pascal(), "FooBar");
    assert_eq!("foo-bar".title(), "FooBar");
    assert_eq!("foo_bar".constant(), "FOOBAR");
    for text in TEXTS {
        let words = words_by_patterns(text);
        let lower: String = words.iter().map(|w| w.to_lowercase()).collect();
        let upper: String = words.iter().map(|w| w.to_uppercase()).collect();
        assert_eq!(text.kebab(), lower, "{:?}", text);
        assert_eq!(text.snake(), lower, "{:?}", text);
        assert_eq!(text.constant(), upper, "{:?}", text);
        assert_eq!(convert(text, None, "+"), words.join("+"), "{:?}", text);
    }
}
