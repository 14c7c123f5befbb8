//! Words and cases: a text is taken apart into its words and put together
//! again in another case.

use vstd::prelude::*;
use crate::text::{chars_of, join, joined, string_of_range, texts_view};

verus! {

/// The case that a word is put in.
#[derive(Debug, Eq, PartialEq, Structural, Clone, Copy)]
pub enum WordCase {
    Lower,
    Upper,
    Capital,
}

/// A text in lower case: what `str::to_lowercase` makes of it.
pub uninterp spec fn lowercased(s: Seq<char>) -> Seq<char>;

/// A text in upper case: what `str::to_uppercase` makes of it.
pub uninterp spec fn uppercased(s: Seq<char>) -> Seq<char>;

/// A character in upper case, which may take several characters: what
/// `char::to_uppercase` yields for it.
pub uninterp spec fn char_uppercased(c: char) -> Seq<char>;

/// The pieces of a text between the matches of a pattern, as
/// `regex_lite::Regex::split` yields them; nothing where the pattern does
/// not compile.
pub uninterp spec fn regex_split(pattern: Seq<char>, text: Seq<char>) -> Option<Seq<Seq<char>>>;

/// Puts a text in lower case with `str::to_lowercase`.
#[verifier::external_body]
pub(crate) fn to_lower(s: &str) -> (r: String)
    ensures
        r@ == lowercased(s@),
{
    s.to_lowercase()
}

/// Puts a text in upper case with `str::to_uppercase`.
#[verifier::external_body]
pub(crate) fn to_upper(s: &str) -> (r: String)
    ensures
        r@ == uppercased(s@),
{
    s.to_uppercase()
}

/// Puts a character in upper case with `char::to_uppercase`.
#[verifier::external_body]
pub(crate) fn upper_char(c: char) -> (r: String)
    ensures
        r@ == char_uppercased(c),
{
    c.to_uppercase().collect()
}

/// Splits a text at the matches of a pattern: compiles the pattern with
/// `regex_lite::Regex::new` and takes the pieces that `Regex::split`
/// yields, in their order.
#[verifier::external_body]
pub(crate) fn split_by(pattern: &str, text: &str) -> (r: Option<Vec<String>>)
    ensures
        (match r {
            Some(pieces) => Some(texts_view(pieces@)),
            None => None,
        }) == regex_split(pattern@, text@),
{
    let re = regex_lite::Regex::new(pattern).ok()?;
    let mut pieces = Vec::new();
    for piece in re.split(text) {
        pieces.push(piece.to_string());
    }
    Some(pieces)
}

impl WordCase {
    /// A word in this case.
    pub open spec fn mutated(self, word: Seq<char>) -> Seq<char> {
        match self {
            WordCase::Lower => lowercased(word),
            WordCase::Upper => uppercased(word),
            WordCase::Capital => if word.len() == 0 {
                Seq::empty()
            } else {
                char_uppercased(word[0]) + lowercased(word.drop_first())
            },
        }
    }

    /// Puts a word in this case: all in lower case, all in upper case, or
    /// its first character in upper case and the rest in lower case.
    pub fn mutate(&self, word: &str) -> (r: String)
        ensures
            r@ == self.mutated(word@),
    {
        match self {
            WordCase::Lower => to_lower(word),
            WordCase::Upper => to_upper(word),
            WordCase::Capital => {
                let v = chars_of(word);
                if v.len() == 0 {
                    String::new()
                } else {
                    let mut out = upper_char(v[0]);
                    let rest = string_of_range(&v, 1, v.len());
                    assert(v@.subrange(1, v@.len() as int) =~= word@.drop_first());
                    let low = to_lower(rest.as_str());
                    out.append(low.as_str());
                    out
                }
            },
        }
    }
}

/// The patterns at which a text is taken apart, in the order in which they
/// are applied: white space, hyphens and underscores; a lower-case letter
/// before an upper-case one; an upper-case letter before an upper-case and
/// a lower-case one; an upper-case letter before a lower-case one.
pub open spec fn boundaries() -> Seq<Seq<char>> {
    seq![
        "[\\s\\-_]"@,
        "(?P<lower>[a-z])(?P<upper>[A-Z])"@,
        "(?P<upper>[A-Z])(?P<upper2>[A-Z][a-z])"@,
        "(?P<upper>[A-Z])(?P<lower>[a-z])"@,
    ]
}

/// The pieces of one word at the matches of a pattern; the word itself
/// where the pattern does not compile.
pub open spec fn pieces_of(word: Seq<char>, pattern: Seq<char>) -> Seq<Seq<char>> {
    match regex_split(pattern, word) {
        Some(pieces) => pieces,
        None => seq![word],
    }
}

/// The pieces of every word at the matches of a pattern, in order.
pub open spec fn split_each(words: Seq<Seq<char>>, pattern: Seq<char>) -> Seq<Seq<char>>
    decreases words.len(),
{
    if words.len() == 0 {
        Seq::empty()
    } else {
        split_each(words.drop_last(), pattern) + pieces_of(words.last(), pattern)
    }
}

/// The words split at each of the patterns in turn.
pub open spec fn split_at_all(words: Seq<Seq<char>>, patterns: Seq<Seq<char>>) -> Seq<Seq<char>>
    decreases patterns.len(),
{
    if patterns.len() == 0 {
        words
    } else {
        split_each(split_at_all(words, patterns.drop_last()), patterns.last())
    }
}

/// The words that are not empty, in order.
pub open spec fn without_empty(words: Seq<Seq<char>>) -> Seq<Seq<char>>
    decreases words.len(),
{
    if words.len() == 0 {
        Seq::empty()
    } else if words.last().len() == 0 {
        without_empty(words.drop_last())
    } else {
        without_empty(words.drop_last()).push(words.last())
    }
}

/// The words of a text: what is left between the boundaries, without what
/// is empty.
pub open spec fn words_split(s: Seq<char>) -> Seq<Seq<char>> {
    without_empty(split_at_all(seq![s], boundaries()))
}

fn split_words_at(words: Vec<String>, pattern: &str) -> (r: Vec<String>)
    ensures
        texts_view(r@) == split_each(texts_view(words@), pattern@),
{
    let mut out: Vec<String> = Vec::new();
    let mut i: usize = 0;
    proof {
        assert(texts_view(words@).take(0) =~= Seq::<Seq<char>>::empty());
        assert(texts_view(out@) =~= Seq::<Seq<char>>::empty());
    }
    while i < words.len()
        invariant
            i <= words@.len(),
            texts_view(out@) == split_each(texts_view(words@).take(i as int), pattern@),
        decreases words@.len() - i,
    {
        let ghost before = out@;
        proof {
            let upto = texts_view(words@).take(i + 1);
            assert(upto.drop_last() =~= texts_view(words@).take(i as int));
            assert(upto.last() == words@[i as int]@);
        }
        match split_by(pattern, words[i].as_str()) {
            Some(mut pieces) => {
                let ghost added = pieces@;
                out.append(&mut pieces);
                assert(texts_view(out@) =~= texts_view(before) + texts_view(added));
            },
            None => {
                out.push(words[i].clone());
                assert(texts_view(out@) =~= texts_view(before) + seq![words@[i as int]@]);
            },
        }
        i += 1;
    }
    proof {
        assert(texts_view(words@).take(words@.len() as int) =~= texts_view(words@));
    }
    out
}

/// Takes a text apart into its words.
pub fn split(s: &str) -> (r: Vec<String>)
    ensures
        texts_view(r@) == words_split(s@),
{
    let mut words: Vec<String> = Vec::new();
    words.push(s.to_owned());
    assert(texts_view(words@) =~= seq![s@]);
    let ghost start = texts_view(words@);
    let ghost b = boundaries();
    proof {
        assert(b.take(0) =~= Seq::<Seq<char>>::empty());
        assert(b.take(1).drop_last() =~= b.take(0));
        assert(b.take(2).drop_last() =~= b.take(1));
        assert(b.take(3).drop_last() =~= b.take(2));
        assert(b.take(4).drop_last() =~= b.take(3));
        assert(b.take(4) =~= b);
        assert(b.take(1).last() == b[0]);
        assert(b.take(2).last() == b[1]);
        assert(b.take(3).last() == b[2]);
        assert(b.take(4).last() == b[3]);
    }
    assert(split_at_all(start, b.take(0)) == start);
    assert(b[0] == "[\\s\\-_]"@);
    assert(b[1] == "(?P<lower>[a-z])(?P<upper>[A-Z])"@);
    assert(b[2] == "(?P<upper>[A-Z])(?P<upper2>[A-Z][a-z])"@);
    assert(b[3] == "(?P<upper>[A-Z])(?P<lower>[a-z])"@);
    let words = split_words_at(words, "[\\s\\-_]");
    assert(split_at_all(start, b.take(1)) == split_each(
        split_at_all(start, b.take(1).drop_last()),
        b.take(1).last(),
    ));
    assert(texts_view(words@) == split_at_all(start, b.take(1)));
    let words = split_words_at(words, "(?P<lower>[a-z])(?P<upper>[A-Z])");
    assert(split_at_all(start, b.take(2)) == split_each(
        split_at_all(start, b.take(2).drop_last()),
        b.take(2).last(),
    ));
    assert(texts_view(words@) == split_at_all(start, b.take(2)));
    let words = split_words_at(words, "(?P<upper>[A-Z])(?P<upper2>[A-Z][a-z])");
    assert(split_at_all(start, b.take(3)) == split_each(
        split_at_all(start, b.take(3).drop_last()),
        b.take(3).last(),
    ));
    assert(texts_view(words@) == split_at_all(start, b.take(3)));
    let words = split_words_at(words, "(?P<upper>[A-Z])(?P<lower>[a-z])");
    assert(split_at_all(start, b.take(4)) == split_each(
        split_at_all(start, b.take(4).drop_last()),
        b.take(4).last(),
    ));
    assert(texts_view(words@) == split_at_all(start, b.take(4)));
    let mut out: Vec<String> = Vec::new();
    let mut i: usize = 0;
    proof {
        assert(texts_view(words@).take(0) =~= Seq::<Seq<char>>::empty());
        assert(texts_view(out@) =~= Seq::<Seq<char>>::empty());
    }
    while i < words.len()
        invariant
            i <= words@.len(),
            texts_view(out@) == without_empty(texts_view(words@).take(i as int)),
        decreases words@.len() - i,
    {
        let ghost before = out@;
        proof {
            let upto = texts_view(words@).take(i + 1);
            assert(upto.drop_last() =~= texts_view(words@).take(i as int));
            assert(upto.last() == words@[i as int]@);
        }
        if chars_of(words[i].as_str()).len() > 0 {
            out.push(words[i].clone());
            assert(texts_view(out@) =~= texts_view(before).push(words@[i as int]@));
        }
        i += 1;
    }
    proof {
        assert(texts_view(words@).take(words@.len() as int) =~= texts_view(words@));
    }
    out
}

/// The words, each in the given case, one behind the other.
pub open spec fn all_mutated(words: Seq<Seq<char>>, case: WordCase) -> Seq<char>
    decreases words.len(),
{
    if words.len() == 0 {
        Seq::empty()
    } else {
        all_mutated(words.drop_last(), case) + case.mutated(words.last())
    }
}

/// A text in another case: its words, each in the given case, one behind
/// the other; or, where no case is given, its words as they are with the
/// delimiter between them.
pub open spec fn converted(s: Seq<char>, case: Option<WordCase>, delim: Seq<char>) -> Seq<char> {
    match case {
        Some(c) => all_mutated(words_split(s), c),
        None => joined(words_split(s), delim),
    }
}

/// Puts a text in another case. The delimiter stands between the words
/// only where no case is given.
pub fn convert(s: &str, case: Option<WordCase>, delim: &str) -> (r: String)
    ensures
        r@ == converted(s@, case, delim@),
{
    let words = split(s);
    match case {
        Some(c) => {
            let mut out = String::new();
            let mut i: usize = 0;
            proof {
                assert(texts_view(words@).take(0) =~= Seq::<Seq<char>>::empty());
            }
            while i < words.len()
                invariant
                    i <= words@.len(),
                    out@ == all_mutated(texts_view(words@).take(i as int), c),
                decreases words@.len() - i,
            {
                proof {
                    let upto = texts_view(words@).take(i + 1);
                    assert(upto.drop_last() =~= texts_view(words@).take(i as int));
                    assert(upto.last() == words@[i as int]@);
                }
                let word = c.mutate(words[i].as_str());
                out.append(word.as_str());
                i += 1;
            }
            proof {
                assert(texts_view(words@).take(words@.len() as int) =~= texts_view(words@));
            }
            out
        },
        None => join(&words, delim),
    }
}

/// A text in the cases that names are written in.
pub trait StrCase {
    /// To `kebab-case`.
    fn kebab(&self) -> String;

    /// To `snake_case`.
    fn snake(&self) -> String;

    /// To `camelCase`.
    fn camel(&self) -> String;

    /// To `PascalCase`.
    fn pascal(&self) -> String;

    /// To `Title Case`.
    fn title(&self) -> String;

    /// To `CONSTANT_CASE`.
    fn constant(&self) -> String;
}

impl StrCase for str {
    fn kebab(&self) -> (r: String)
        ensures
            r@ == converted(self@, Some(WordCase::Lower), "-"@),
    {
        convert(self, Some(WordCase::Lower), "-")
    }

    fn snake(&self) -> (r: String)
        ensures
            r@ == converted(self@, Some(WordCase::Lower), "_"@),
    {
        convert(self, Some(WordCase::Lower), "_")
    }

    fn camel(&self) -> (r: String)
        ensures
            r@ == converted(self@, Some(WordCase::Capital), ""@),
    {
        convert(self, Some(WordCase::Capital), "")
    }

    fn pascal(&self) -> (r: String)
        ensures
            r@ == converted(self@, Some(WordCase::Capital), ""@),
    {
        convert(self, Some(WordCase::Capital), "")
    }

    fn title(&self) -> (r: String)
        ensures
            r@ == converted(self@, Some(WordCase::Capital), " "@),
    {
        convert(self, Some(WordCase::Capital), " ")
    }

    fn constant(&self) -> (r: String)
        ensures
            r@ == converted(self@, Some(WordCase::Upper), "_"@),
    {
        convert(self, Some(WordCase::Upper), "_")
    }
}

} // verus!
