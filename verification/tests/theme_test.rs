use kurv::theme::{build, is_safe_markup, parse, unwrap_wrapper, MarkupToken, ParsedNode};
use crossterm::style::{Attribute, Color};
use kurv::style::{hex_byte, hex_digit, hex_to_rgb, Paint, Style, StyleItem};
use kurv::theme::Theme;

#[test]
fn test_parse_simple_text() {
    let nodes = parse("hello world");
    assert_eq!(nodes.len(), 1);

    match &nodes[0] {
        ParsedNode::Text(text) => assert_eq!(text, "hello world"),
        _ => panic!("Expected Text node"),
    }
}

#[test]
fn test_parse_with_single_tag() {
    let nodes = parse("<error>Error occurred</error>");
    assert_eq!(nodes.len(), 1);

    match &nodes[0] {
        ParsedNode::Tag(tag, children) => {
            assert_eq!(tag, "error");
            assert_eq!(children.len(), 1);
            match &children[0] {
                ParsedNode::Text(text) => assert_eq!(text, "Error occurred"),
                _ => panic!("Expected Text node inside tag"),
            }
        }
        _ => panic!("Expected Tag node"),
    }
}

#[test]
fn test_parse_mixed_text_and_tags() {
    let nodes = parse("Status: <green>OK</green> and running");
    assert_eq!(nodes.len(), 3);

    match &nodes[0] {
        ParsedNode::Text(text) => assert_eq!(text, "Status: "),
        _ => panic!("Expected Text node"),
    }

    match &nodes[1] {
        ParsedNode::Tag(tag, children) => {
            assert_eq!(tag, "green");
            assert_eq!(children.len(), 1);
        }
        _ => panic!("Expected Tag node"),
    }

    match &nodes[2] {
        ParsedNode::Text(text) => assert_eq!(text, " and running"),
        _ => panic!("Expected Text node"),
    }
}

#[test]
fn test_parse_nested_tags() {
    let nodes = parse("<white><b>Bold White</b></white>");
    assert_eq!(nodes.len(), 1);

    match &nodes[0] {
        ParsedNode::Tag(tag, children) => {
            assert_eq!(tag, "white");
            assert_eq!(children.len(), 1);

            match &children[0] {
                ParsedNode::Tag(inner_tag, inner_children) => {
                    assert_eq!(inner_tag, "b");
                    assert_eq!(inner_children.len(), 1);
                    match &inner_children[0] {
                        ParsedNode::Text(text) => assert_eq!(text, "Bold White"),
                        _ => panic!("Expected Text in nested tag"),
                    }
                }
                _ => panic!("Expected nested Tag"),
            }
        }
        _ => panic!("Expected Tag node"),
    }
}

#[test]
fn test_parse_multiple_tags() {
    let nodes = parse("<error>Error</error> <warn>Warning</warn>");
    assert_eq!(nodes.len(), 3); // error tag, space text, warn tag

    match &nodes[0] {
        ParsedNode::Tag(tag, _) => assert_eq!(tag, "error"),
        _ => panic!("Expected Tag node"),
    }

    match &nodes[1] {
        ParsedNode::Text(text) => assert_eq!(text, " "),
        _ => panic!("Expected Text node"),
    }

    match &nodes[2] {
        ParsedNode::Tag(tag, _) => assert_eq!(tag, "warn"),
        _ => panic!("Expected Tag node"),
    }
}

#[test]
fn test_parse_empty_string() {
    let nodes = parse("");
    // empty string might result in empty vec or single empty text node
    // depending on parser implementation
    assert!(
        nodes.is_empty()
            || (nodes.len() == 1 && matches!(&nodes[0], ParsedNode::Text(t) if t.is_empty()))
    );
}

#[test]
fn test_parse_with_special_characters() {
    let nodes = parse("Text with <tag>special & chars</tag>");

    // should handle special characters in text
    let has_ampersand = nodes.iter().any(|node| match node {
        ParsedNode::Tag(_, children) => {
            children.iter().any(|child| matches!(child, ParsedNode::Text(t) if t.contains("&")))
        }
        ParsedNode::Text(t) => t.contains("&"),
    });

    assert!(has_ampersand);
}

#[test]
fn a_closing_tag_names_the_node() {
    let nodes = build(vec![
        MarkupToken::Text("a".to_string()),
        MarkupToken::Start("x".to_string()),
        MarkupToken::Other,
        MarkupToken::Start("y".to_string()),
        MarkupToken::Text("in".to_string()),
        MarkupToken::End("z".to_string()),
        MarkupToken::End("x".to_string()),
        MarkupToken::End("stray".to_string()),
        MarkupToken::Start("open".to_string()),
        MarkupToken::Text("lost".to_string()),
    ]);
    assert_eq!(nodes.len(), 2);
    assert!(matches!(&nodes[0], ParsedNode::Text(t) if t == "a"));
    match &nodes[1] {
        ParsedNode::Tag(name, children) => {
            assert_eq!(name, "x");
            assert_eq!(children.len(), 1);
            match &children[0] {
                ParsedNode::Tag(name, inner) => {
                    assert_eq!(name, "z");
                    assert_eq!(inner.len(), 1);
                    assert!(matches!(&inner[0], ParsedNode::Text(t) if t == "in"));
                }
                _ => panic!("expected a tag"),
            }
        }
        _ => panic!("expected a tag"),
    }
    assert!(build(Vec::new()).is_empty());
}

#[test]
fn the_wrapper_is_taken_off() {
    let nodes = unwrap_wrapper(vec![
        ParsedNode::Text("a".to_string()),
        ParsedNode::Tag(
            "_wrapper_".to_string(),
            vec![
                ParsedNode::Text("b".to_string()),
                ParsedNode::Tag("_wrapper_".to_string(), vec![]),
            ],
        ),
        ParsedNode::Tag("c".to_string(), vec![]),
    ]);
    assert_eq!(nodes.len(), 4);
    assert!(matches!(&nodes[0], ParsedNode::Text(t) if t == "a"));
    assert!(matches!(&nodes[1], ParsedNode::Text(t) if t == "b"));
    assert!(matches!(&nodes[2], ParsedNode::Tag(n, c) if n == "_wrapper_" && c.is_empty()));
    assert!(matches!(&nodes[3], ParsedNode::Tag(n, c) if n == "c" && c.is_empty()));
}

#[test]
fn a_stray_closing_tag_is_no_failure() {
    let nodes = parse("a</x>b");
    assert!(!nodes.is_empty());
    let nodes = parse("<x>never closed");
    assert!(nodes.is_empty() || nodes.len() <= 1);
}

fn is_one_text(nodes: &[ParsedNode], text: &str) -> bool {
    nodes.len() == 1 && matches!(&nodes[0], ParsedNode::Text(t) if t == text)
}

#[test]
fn a_text_that_the_tokenizer_cannot_take_is_one_node() {
    for text in [
        "€>",
        "éa>",
        "<b>x</b> 日本語> y",
        "\u{10348}>",
        "a <![if a]b",
        "<![endifX",
        "<!--[if",
        "x<![if !IE]>y",
        "<b>bold</b><!--<![endif",
    ] {
        assert!(!is_safe_markup(text), "{:?}", text);
        assert!(is_one_text(&parse(text), text), "{:?}", text);
    }
}

#[test]
fn other_texts_are_read_as_markup() {
    for text in [
        "",
        "plain",
        ">",
        "a>",
        "ab>",
        "é>",
        "日本語 <b>x</b>",
        "<b>é</b>",
        "a <!-- comment --> b",
        "<![CDATA[ x ]]>",
        "<!DOCTYPE html>",
        "x < y",
    ] {
        assert!(is_safe_markup(text), "{:?}", text);
        assert!(is_safe_markup(&format!("<_wrapper_>{}</_wrapper_>", text)), "{:?}", text);
    }
    let nodes = parse("é> <b>日本語</b>");
    assert_eq!(nodes.len(), 2);
    assert!(matches!(&nodes[0], ParsedNode::Text(t) if t == "é> "));
    assert!(matches!(&nodes[1], ParsedNode::Tag(n, c) if n == "b" && c.len() == 1));
    let nodes = parse("a <!-- comment --> b");
    assert_eq!(nodes.len(), 2);
    assert!(matches!(&nodes[0], ParsedNode::Text(t) if t == "a "));
    assert!(matches!(&nodes[1], ParsedNode::Text(t) if t == " b"));
    // what the tokenizer gives up on is read as far as it got
    let _ = parse("x ]]> y");
    let _ = parse("<![CDATA[ never closed");
    let _ = parse("<? pi");
    let _ = parse("<a b='c");
    let _ = parse("&#x0; \u{1} <");
}

/// Every text made of at most `length` of the given pieces.
fn texts_of(pieces: &[&str], length: usize) -> Vec<String> {
    let mut all = vec![String::new()];
    let mut last = vec![String::new()];
    for _ in 0..length {
        let mut next = Vec::new();
        for text in &last {
            for piece in pieces {
                next.push(format!("{}{}", text, piece));
            }
        }
        all.extend(next.iter().cloned());
        last = next;
    }
    all
}

#[test]
fn short_texts_of_marks_and_letters_are_all_read() {
    let pieces = ["<", ">", "!", "[", "]", "-", "a", "/", "é", "€", " ", "?", "&", ";", "=", "'"];
    for text in texts_of(&pieces, 4) {
        let nodes = parse(&text);
        if !is_safe_markup(&format!("<_wrapper_>{}</_wrapper_>", text)) {
            assert!(is_one_text(&nodes, &text), "{:?}", text);
        }
    }
}

#[test]
fn texts_of_markup_fragments_are_all_read() {
    let pieces = [
        "<!--", "[if", "<![", "endif", "]", ">", "-->", "<a", " b='c'", "€", "é", "</a>", "<?x", "?>",
        "CDATA[", "]]>",
    ];
    for text in texts_of(&pieces, 4) {
        let nodes = parse(&text);
        if !is_safe_markup(&format!("<_wrapper_>{}</_wrapper_>", text)) {
            assert!(is_one_text(&nodes, &text), "{:?}", text);
        }
    }
}

#[test]
fn test_theme_creation() {
    let mut style_map = Vec::new();
    style_map.push(("test".to_string(), vec![StyleItem::Attr(Attribute::Bold)]));

    let theme = Theme::new(style_map);

    assert!(theme.contains_key("test"));
}

#[test]
fn test_theme_apply_simple_text() {
    let theme = Theme::new(Vec::new());
    let result = theme.apply("hello");

    // without any styles, should return the text as-is (possibly with ANSI resets)
    assert!(result.contains("hello"));
}

#[test]
fn test_theme_apply_with_style() {
    let mut style_map = Vec::new();
    style_map.push(("test".to_string(), vec![StyleItem::Attr(Attribute::Bold)]));

    let theme = Theme::new(style_map);
    let result = theme.apply("<test>Bold Text</test>");

    // should contain the text
    assert!(result.contains("Bold Text"));

    // should contain ANSI codes (basic check)
    assert!(result.len() > "Bold Text".len());
}

#[test]
fn test_theme_apply_unknown_tag() {
    let theme = Theme::new(Vec::new());
    let result = theme.apply("<unknowntag>Text</unknowntag>");

    // unknown tags should still pass through the text
    assert!(result.contains("Text"));
}

#[test]
fn a_theme_that_paints_nothing_gives_the_text_without_its_tags() {
    let empty = Theme::new(Vec::new());
    assert_eq!(empty.apply("hello"), "hello");
    assert_eq!(empty.apply("<a>x<b>y</b>z</a> and <c>w</c>"), "xyz and w");
    assert_eq!(empty.apply(""), "");

    // a colour that is none paints nothing
    let inert = Theme::new(vec![
        ("a".to_string(), vec![StyleItem::Rgb("nothing")]),
        ("b".to_string(), vec![]),
        ("c".to_string(), vec![StyleItem::Rgb("#12"), StyleItem::Rgb("")]),
    ]);
    assert_eq!(inert.apply("<a>x<b>y</b>z</a> and <c>w</c>"), "xyz and w");
}

#[test]
fn a_tag_has_the_style_that_was_put_last() {
    let mut theme = Theme::new(vec![
        ("a".to_string(), vec![StyleItem::Attr(Attribute::Bold), StyleItem::Color(Color::Red)]),
        ("b".to_string(), vec![StyleItem::Attr(Attribute::Dim)]),
    ]);
    assert!(theme.contains_key("a") && theme.contains_key("b") && !theme.contains_key("c"));
    assert_eq!(theme.style_of("a").0.len(), 2);
    assert_eq!(theme.style_of("b").0.len(), 1);
    assert!(theme.style_of("c").0.is_empty());
    theme.insert("a", Style(vec![]));
    assert!(theme.style_of("a").0.is_empty());
    assert_eq!(theme.apply("<a>x</a>"), "x");
    assert_eq!(theme.0.len(), 3);
}

#[test]
fn a_tag_is_painted_over_its_children() {
    let theme = Theme::new(vec![("b".to_string(), vec![StyleItem::Attr(Attribute::Bold)])]);
    let bold = |text: &str| Style(vec![StyleItem::Attr(Attribute::Bold)]).apply_to(text);
    assert_ne!(bold("x"), "x");
    // the text of a tag gets the tag's style, and the tag gets it once more
    assert_eq!(theme.apply("<b>x</b>"), bold(&bold("x")));
    assert_eq!(theme.apply("a<b>x</b>c"), format!("a{}c", bold(&bold("x"))));
    // a tag without a style paints its children as what it stands in does
    assert_eq!(theme.apply("<b><u>x</u></b>"), bold(&bold("x")));
    assert_eq!(theme.apply("<u><b>x</b></u>"), bold(&bold("x")));
    assert_eq!(theme.apply("<b>x<u>y</u></b>"), bold(&format!("{}{}", bold("x"), bold("y"))));
}

#[test]
fn styles_are_merged_in_their_order() {
    let a = Style(vec![StyleItem::Attr(Attribute::Bold), StyleItem::Rgb("#000000")]);
    let b = Style(vec![StyleItem::Color(Color::Green)]);
    let merged = a.merge(&b);
    assert_eq!(merged.0.len(), 3);
    assert!(matches!(merged.0[0], StyleItem::Attr(Attribute::Bold)));
    assert!(matches!(merged.0[1], StyleItem::Rgb("#000000")));
    assert!(matches!(merged.0[2], StyleItem::Color(Color::Green)));
    assert_eq!(a.0.len(), 2);
    assert!(Style::empty().merge(&Style::empty()).0.is_empty());
    assert_eq!(merged.apply_to("x"), b.apply_to(&a.apply_to("x")));
    assert_eq!(merged.clone().0.len(), 3);
}

#[test]
fn a_style_plans_what_it_paints() {
    let style = Style(vec![
        StyleItem::Rgb("#ff8000"),
        StyleItem::Rgb("zzzzzz"),
        StyleItem::Attr(Attribute::Dim),
        StyleItem::Rgb("#12345"),
        StyleItem::Color(Color::Cyan),
        StyleItem::Rgb("0A0b0C and more"),
    ]);
    let plan = style.plan();
    assert_eq!(plan.len(), 4);
    assert!(matches!(plan[0], Paint::Rgb(255, 128, 0)));
    assert!(matches!(plan[1], Paint::Attr(Attribute::Dim)));
    assert!(matches!(plan[2], Paint::Color(Color::Cyan)));
    assert!(matches!(plan[3], Paint::Rgb(10, 11, 12)));
    assert!(Style::empty().plan().is_empty());
    assert_eq!(Style(vec![StyleItem::Rgb("zzzzzz")]).apply_to("text"), "text");
    assert_eq!(Style::empty().apply_to("text"), "text");
    assert_eq!(
        Style(vec![StyleItem::Rgb("#ff8000")]).apply_to("x"),
        Style(vec![StyleItem::Color(Color::Rgb { r: 255, g: 128, b: 0 })]).apply_to("x")
    );
}

#[test]
fn a_colour_is_read_from_its_notation() {
    assert_eq!(hex_to_rgb("#ff0080"), Some((255, 0, 128)));
    assert_eq!(hex_to_rgb("ff0080"), Some((255, 0, 128)));
    assert_eq!(hex_to_rgb("###FF0080"), Some((255, 0, 128)));
    assert_eq!(hex_to_rgb("#000000ff"), Some((0, 0, 0)));
    assert_eq!(hex_to_rgb("#+a+b+c"), Some((10, 11, 12)));
    assert_eq!(hex_to_rgb(""), None);
    assert_eq!(hex_to_rgb("#"), None);
    assert_eq!(hex_to_rgb("#fff"), None);
    assert_eq!(hex_to_rgb("#ff00g0"), None);
    assert_eq!(hex_to_rgb("#ff#080"), None);
    assert_eq!(hex_to_rgb("#-10000"), None);
    assert_eq!(hex_to_rgb("#ffé080"), None);
    assert_eq!(hex_to_rgb("#éééééé"), None);
    assert_eq!(hex_to_rgb(" ff0080"), None);
}

#[test]
fn two_characters_are_read_as_the_standard_library_reads_them() {
    for a in 0u8..128 {
        for b in 0u8..128 {
            let (a, b) = (a as char, b as char);
            let text: String = [a, b].iter().collect();
            assert_eq!(hex_byte(a, b), u8::from_str_radix(&text, 16).ok(), "{:?}", text);
        }
    }
    for c in ['é', 'ａ', '１', '\u{660}'] {
        assert_eq!(hex_digit(c), None);
        assert_eq!(hex_byte(c, '0'), None);
        assert_eq!(hex_byte('0', c), None);
        assert_eq!(hex_byte('+', c), None);
    }
    assert_eq!(hex_digit('f'), Some(15));
    assert_eq!(hex_digit('F'), Some(15));
    assert_eq!(hex_digit('g'), None);
    assert_eq!(hex_digit('+'), None);
}
