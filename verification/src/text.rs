//! Small verified building blocks for working with text: character access,
//! ordering, prefixes, and decimal numbers.

use vstd::prelude::*;

verus! {

/// `String::push` appends one character at the end of the string.
pub assume_specification[ String::push ](s: &mut String, c: char)
    ensures
        final(s)@ == old(s)@.push(c),
;

/// What each text of a list holds.
pub open spec fn texts_view(v: Seq<String>) -> Seq<Seq<char>> {
    v.map_values(|s: String| s@)
}

/// The characters of `s`, in order.
pub fn chars_of(s: &str) -> (r: Vec<char>)
    ensures
        r@ == s@,
{
    broadcast use vstd::string::group_string_axioms;

    let mut out: Vec<char> = Vec::new();
    for c in it: s.chars()
        invariant
            it.seq() == s@,
            out@ == it.seq().take(it.index() as int),
    {
        out.push(c);
    }
    out
}

/// The text made of the characters `v[from..to]`.
pub fn string_of_range(v: &Vec<char>, from: usize, to: usize) -> (r: String)
    requires
        from <= to <= v@.len(),
    ensures
        r@ == v@.subrange(from as int, to as int),
{
    let mut out = String::new();
    let mut i: usize = from;
    while i < to
        invariant
            from <= i <= to <= v@.len(),
            out@ == v@.subrange(from as int, i as int),
        decreases to - i,
    {
        out.push(v[i]);
        i += 1;
    }
    out
}

/// The text made of all the characters of `v`.
pub fn string_of(v: &Vec<char>) -> (r: String)
    ensures
        r@ == v@,
{
    let r = string_of_range(v, 0, v.len());
    assert(v@.subrange(0, v@.len() as int) == v@);
    r
}

/// Whether two texts hold the same characters.
pub fn str_eq(a: &str, b: &str) -> (r: bool)
    ensures
        r == (a@ == b@),
{
    let x = a.to_owned();
    let y = b.to_owned();
    x == y
}

/// `a + b` as a fresh string.
pub fn concat(a: &str, b: &str) -> (r: String)
    ensures
        r@ == a@ + b@,
{
    let mut out = a.to_owned();
    out.append(b);
    out
}

/// Strict lexicographic order on texts, character by character by code point.
/// A proper prefix comes before the longer text.
pub open spec fn lex_lt(a: Seq<char>, b: Seq<char>) -> bool
    decreases a.len(),
{
    if b.len() == 0 {
        false
    } else if a.len() == 0 {
        true
    } else if a[0] != b[0] {
        a[0] < b[0]
    } else {
        lex_lt(a.drop_first(), b.drop_first())
    }
}

/// No text comes before itself.
pub proof fn lemma_lex_lt_irreflexive(a: Seq<char>)
    ensures
        !lex_lt(a, a),
    decreases a.len(),
{
    if a.len() > 0 {
        lemma_lex_lt_irreflexive(a.drop_first());
    }
}

/// Of two different texts exactly one comes before the other.
pub proof fn lemma_lex_lt_total(a: Seq<char>, b: Seq<char>)
    ensures
        a != b ==> (lex_lt(a, b) <==> !lex_lt(b, a)),
        a == b ==> !lex_lt(a, b),
    decreases a.len(),
{
    if a == b {
        lemma_lex_lt_irreflexive(a);
    } else if a.len() == 0 && b.len() == 0 {
        assert(a =~= b);
    } else if a.len() == 0 {
        assert(lex_lt(a, b));
        assert(!lex_lt(b, a));
    } else if b.len() == 0 {
        assert(!lex_lt(a, b));
        assert(lex_lt(b, a));
    } else if a[0] != b[0] {
    } else {
        assert(a.drop_first() != b.drop_first()) by {
            if a.drop_first() == b.drop_first() {
                assert(a =~= seq![a[0]] + a.drop_first());
                assert(b =~= seq![b[0]] + b.drop_first());
            }
        }
        lemma_lex_lt_total(a.drop_first(), b.drop_first());
        assert(lex_lt(a, b) == lex_lt(a.drop_first(), b.drop_first()));
        assert(lex_lt(b, a) == lex_lt(b.drop_first(), a.drop_first()));
    }
}

/// The order is transitive.
pub proof fn lemma_lex_lt_transitive(a: Seq<char>, b: Seq<char>, c: Seq<char>)
    requires
        lex_lt(a, b),
        lex_lt(b, c),
    ensures
        lex_lt(a, c),
    decreases a.len(),
{
    if a.len() == 0 {
    } else if a[0] != b[0] {
    } else if b[0] != c[0] {
    } else {
        lemma_lex_lt_transitive(a.drop_first(), b.drop_first(), c.drop_first());
    }
}

/// Whether `a` comes strictly before `b` in lexicographic order.
pub fn str_lt(a: &str, b: &str) -> (r: bool)
    ensures
        r == lex_lt(a@, b@),
{
    let va = chars_of(a);
    let vb = chars_of(b);
    let mut i: usize = 0;
    assert(a@.skip(0) == a@);
    assert(b@.skip(0) == b@);
    loop
        invariant
            va@ == a@,
            vb@ == b@,
            i <= va.len(),
            i <= vb.len(),
            lex_lt(a@, b@) == lex_lt(a@.skip(i as int), b@.skip(i as int)),
        decreases va.len() - i,
    {
        if i >= vb.len() {
            return false;
        }
        if i >= va.len() {
            return true;
        }
        let x = va[i];
        let y = vb[i];
        if x != y {
            assert(a@.skip(i as int)[0] == x);
            assert(b@.skip(i as int)[0] == y);
            return x < y;
        }
        proof {
            assert(a@.skip(i as int).drop_first() == a@.skip(i + 1));
            assert(b@.skip(i as int).drop_first() == b@.skip(i + 1));
        }
        i += 1;
    }
}

/// Whether `s` begins with `prefix`.
pub fn starts_with(s: &str, prefix: &str) -> (r: bool)
    ensures
        r == prefix@.is_prefix_of(s@),
{
    let vs = chars_of(s);
    let vp = chars_of(prefix);
    if vp.len() > vs.len() {
        return false;
    }
    let mut i: usize = 0;
    while i < vp.len()
        invariant
            vs@ == s@,
            vp@ == prefix@,
            vp.len() <= vs.len(),
            i <= vp.len(),
            forall|j: int| 0 <= j < i ==> vs@[j] == vp@[j],
        decreases vp.len() - i,
    {
        if vs[i] != vp[i] {
            assert(!prefix@.is_prefix_of(s@)) by {
                if prefix@.is_prefix_of(s@) {
                    assert(s@.subrange(0, prefix@.len() as int)[i as int] == prefix@[i as int]);
                }
            }
            return false;
        }
        i += 1;
    }
    assert(s@.subrange(0, prefix@.len() as int) =~= prefix@);
    true
}

/// Whether `s` ends with `suffix`.
pub fn ends_with(s: &str, suffix: &str) -> (r: bool)
    ensures
        r == suffix@.is_suffix_of(s@),
{
    let vs = chars_of(s);
    let vp = chars_of(suffix);
    if vp.len() > vs.len() {
        return false;
    }
    let shift: usize = vs.len() - vp.len();
    let mut i: usize = 0;
    while i < vp.len()
        invariant
            vs@ == s@,
            vp@ == suffix@,
            vp.len() <= vs.len(),
            shift == vs.len() - vp.len(),
            i <= vp.len(),
            forall|j: int| 0 <= j < i ==> vs@[shift + j] == vp@[j],
        decreases vp.len() - i,
    {
        if vs[shift + i] != vp[i] {
            assert(!suffix@.is_suffix_of(s@)) by {
                if suffix@.is_suffix_of(s@) {
                    assert(s@.subrange(s@.len() - suffix@.len(), s@.len() as int)[i as int]
                        == suffix@[i as int]);
                }
            }
            return false;
        }
        i += 1;
    }
    assert(s@.subrange(s@.len() - suffix@.len(), s@.len() as int) =~= suffix@);
    true
}

/// Finds the first `c` in `v`.
pub fn find_char(v: &Vec<char>, c: char) -> (r: Option<usize>)
    ensures
        match r {
            Some(i) => i < v@.len() && v@[i as int] == c && forall|j: int| 0 <= j < i ==> v@[j] != c,
            None => forall|j: int| 0 <= j < v@.len() ==> v@[j] != c,
        },
{
    let mut i: usize = 0;
    while i < v.len()
        invariant
            i <= v.len(),
            forall|j: int| 0 <= j < i ==> v@[j] != c,
        decreases v.len() - i,
    {
        if v[i] == c {
            return Some(i);
        }
        i += 1;
    }
    None
}

/// The character that writes the digit `d`.
pub open spec fn digit_char(d: nat) -> char {
    if d == 0 {
        '0'
    } else if d == 1 {
        '1'
    } else if d == 2 {
        '2'
    } else if d == 3 {
        '3'
    } else if d == 4 {
        '4'
    } else if d == 5 {
        '5'
    } else if d == 6 {
        '6'
    } else if d == 7 {
        '7'
    } else if d == 8 {
        '8'
    } else {
        '9'
    }
}

/// The digit that a character writes, if it is one of `0` to `9`.
pub open spec fn digit_value(c: char) -> Option<nat> {
    if c == '0' {
        Some(0)
    } else if c == '1' {
        Some(1)
    } else if c == '2' {
        Some(2)
    } else if c == '3' {
        Some(3)
    } else if c == '4' {
        Some(4)
    } else if c == '5' {
        Some(5)
    } else if c == '6' {
        Some(6)
    } else if c == '7' {
        Some(7)
    } else if c == '8' {
        Some(8)
    } else if c == '9' {
        Some(9)
    } else {
        None
    }
}

/// The decimal notation of `n`, without sign or leading zeros.
pub open spec fn decimal(n: nat) -> Seq<char>
    decreases n,
{
    if n < 10 {
        seq![digit_char(n)]
    } else {
        decimal(n / 10).push(digit_char(n % 10))
    }
}

/// The decimal notation of an integer, with `-` in front of a negative one.
pub open spec fn signed_decimal(n: int) -> Seq<char> {
    if n < 0 {
        seq!['-'] + decimal((-n) as nat)
    } else {
        decimal(n as nat)
    }
}

fn digit_to_char(d: u64) -> (c: char)
    requires
        d < 10,
    ensures
        c == digit_char(d as nat),
{
    if d == 0 {
        '0'
    } else if d == 1 {
        '1'
    } else if d == 2 {
        '2'
    } else if d == 3 {
        '3'
    } else if d == 4 {
        '4'
    } else if d == 5 {
        '5'
    } else if d == 6 {
        '6'
    } else if d == 7 {
        '7'
    } else if d == 8 {
        '8'
    } else {
        '9'
    }
}

fn char_to_digit(c: char) -> (d: Option<u64>)
    ensures
        match d {
            Some(v) => v < 10 && digit_value(c) == Some(v as nat),
            None => digit_value(c) is None,
        },
{
    if c == '0' {
        Some(0)
    } else if c == '1' {
        Some(1)
    } else if c == '2' {
        Some(2)
    } else if c == '3' {
        Some(3)
    } else if c == '4' {
        Some(4)
    } else if c == '5' {
        Some(5)
    } else if c == '6' {
        Some(6)
    } else if c == '7' {
        Some(7)
    } else if c == '8' {
        Some(8)
    } else if c == '9' {
        Some(9)
    } else {
        None
    }
}

/// Writes `n` in decimal.
pub fn u64_to_string(n: u64) -> (r: String)
    ensures
        r@ == decimal(n as nat),
{
    // digits from the least significant one
    let mut rev: Vec<char> = Vec::new();
    let mut rest: u64 = n;
    while rest >= 10
        invariant
            decimal(n as nat) == decimal(rest as nat) + rev@.reverse(),
        decreases rest,
    {
        let d = rest % 10;
        let c = digit_to_char(d);
        proof {
            let old_rev = rev@;
            assert(decimal(rest as nat) == decimal((rest / 10) as nat).push(c));
            assert(old_rev.push(c).reverse() =~= seq![c] + old_rev.reverse());
            assert(decimal((rest / 10) as nat).push(c) + old_rev.reverse() =~= decimal(
                (rest / 10) as nat,
            ) + (seq![c] + old_rev.reverse()));
        }
        rev.push(c);
        rest = rest / 10;
    }
    let mut out = String::new();
    out.push(digit_to_char(rest));
    let mut i: usize = rev.len();
    while i > 0
        invariant
            i <= rev.len(),
            out@ == decimal(rest as nat) + rev@.reverse().take(rev@.len() - i),
        decreases i,
    {
        i -= 1;
        out.push(rev[i]);
        proof {
            let r = rev@.reverse();
            let k = rev@.len() - i - 1;
            assert(r[k] == rev@[i as int]);
            assert(r.take(k + 1) =~= r.take(k).push(r[k]));
        }
    }
    proof {
        assert(rev@.reverse().take(rev@.len() as int) =~= rev@.reverse());
    }
    out
}

/// Writes `n` in decimal, with `-` in front of a negative number.
pub fn i64_to_string(n: i64) -> (r: String)
    ensures
        r@ == signed_decimal(n as int),
{
    if n < 0 {
        let magnitude: u64 = if n == i64::MIN {
            9223372036854775808u64
        } else {
            (-n) as u64
        };
        let digits = u64_to_string(magnitude);
        let r = concat("-", digits.as_str());
        proof {
            reveal_strlit("-");
            assert("-"@ =~= seq!['-']);
        }
        r
    } else {
        u64_to_string(n as u64)
    }
}

/// The number that a run of decimal digits writes: `None` for an empty run
/// and for one that holds anything but `0` to `9`.
pub open spec fn digits_value(s: Seq<char>) -> Option<nat>
    decreases s.len(),
{
    if s.len() == 0 {
        None
    } else if s.len() == 1 {
        digit_value(s[0])
    } else {
        match (digits_value(s.drop_last()), digit_value(s.last())) {
            (Some(a), Some(d)) => Some(a * 10 + d),
            _ => None,
        }
    }
}

/// What reading `s` as an unsigned decimal number no larger than `max`
/// gives: an optional `+`, then at least one digit, nothing else.
pub open spec fn parse_unsigned(s: Seq<char>, max: nat) -> Option<nat> {
    let body = if s.len() > 0 && s[0] == '+' {
        s.drop_first()
    } else {
        s
    };
    match digits_value(body) {
        Some(v) => if v <= max {
            Some(v)
        } else {
            None
        },
        None => None,
    }
}

/// A run with a character that is no digit writes no number.
proof fn lemma_digits_value_bad_char(s: Seq<char>, k: int)
    requires
        0 <= k < s.len(),
        digit_value(s[k]) is None,
    ensures
        digits_value(s) is None,
    decreases s.len(),
{
    if s.len() > 1 && k < s.len() - 1 {
        lemma_digits_value_bad_char(s.drop_last(), k);
    }
}

/// A run of digits writes at least as much as each of its non-empty prefixes.
proof fn lemma_digits_value_prefix(s: Seq<char>, k: int)
    requires
        1 <= k <= s.len(),
        digits_value(s) is Some,
    ensures
        digits_value(s.take(k)) is Some,
        digits_value(s.take(k))->0 <= digits_value(s)->0,
    decreases s.len(),
{
    if k == s.len() {
        assert(s.take(k) =~= s);
    } else {
        assert(s.drop_last().take(k) =~= s.take(k));
        lemma_digits_value_prefix(s.drop_last(), k);
    }
}

/// Reads `s` as an unsigned decimal number no larger than `max`.
pub fn parse_decimal(s: &str, max: u64) -> (r: Option<u64>)
    ensures
        match r {
            Some(v) => parse_unsigned(s@, max as nat) == Some(v as nat),
            None => parse_unsigned(s@, max as nat) is None,
        },
{
    let v = chars_of(s);
    let start: usize = if v.len() > 0 && v[0] == '+' {
        1
    } else {
        0
    };
    let ghost body = v@.skip(start as int);
    assert(body == if s@.len() > 0 && s@[0] == '+' {
        s@.drop_first()
    } else {
        s@
    });
    if start >= v.len() {
        return None;
    }
    let mut acc: u64 = 0;
    let mut i: usize = start;
    while i < v.len()
        invariant
            start <= i <= v.len(),
            start < v.len(),
            body == v@.skip(start as int),
            body == (if s@.len() > 0 && s@[0] == '+' {
                s@.drop_first()
            } else {
                s@
            }),
            acc <= max,
            i > start ==> digits_value(body.take(i - start)) == Some(acc as nat),
            i == start ==> acc == 0,
        decreases v.len() - i,
    {
        let ghost k = i - start;
        assert(body[k] == v@[i as int]);
        let d = match char_to_digit(v[i]) {
            Some(d) => d,
            None => {
                proof {
                    lemma_digits_value_bad_char(body, k);
                    assert(parse_unsigned(s@, max as nat) is None);
                }
                return None;
            },
        };
        proof {
            assert(body.take(k + 1).drop_last() =~= body.take(k));
            assert(body.take(k + 1).last() == body[k]);
            if k == 0 {
                assert(body.take(1).len() == 1);
                assert(body.take(1)[0] == body[0]);
            }
            assert(digits_value(body.take(k + 1)) == Some((acc * 10 + d) as nat));
        }
        if d > max || acc > (max - d) / 10 {
            proof {
                assert(acc * 10 + d > max);
                if digits_value(body) is Some {
                    lemma_digits_value_prefix(body, k + 1);
                }
                assert(parse_unsigned(s@, max as nat) is None);
            }
            return None;
        }
        acc = acc * 10 + d;
        i += 1;
    }
    proof {
        assert(body.take(v@.len() - start) =~= body);
    }
    Some(acc)
}

/// Whether `c` is white space, as Unicode's property `White_Space` has it.
pub open spec fn is_space(c: char) -> bool {
    c == ' ' || ('\u{9}' <= c && c <= '\u{d}') || c == '\u{85}' || c == '\u{a0}' || c == '\u{1680}' || (
    '\u{2000}' <= c && c <= '\u{200a}') || c == '\u{2028}' || c == '\u{2029}' || c == '\u{202f}' || c
        == '\u{205f}' || c == '\u{3000}'
}

/// Whether `c` is white space.
pub fn is_whitespace(c: char) -> (r: bool)
    ensures
        r == is_space(c),
{
    c == ' ' || ('\u{9}' <= c && c <= '\u{d}') || c == '\u{85}' || c == '\u{a0}' || c == '\u{1680}' || (
    '\u{2000}' <= c && c <= '\u{200a}') || c == '\u{2028}' || c == '\u{2029}' || c == '\u{202f}' || c
        == '\u{205f}' || c == '\u{3000}'
}

/// `s` without the white space at its start.
pub open spec fn trimmed_start(s: Seq<char>) -> Seq<char>
    decreases s.len(),
{
    if s.len() > 0 && is_space(s[0]) {
        trimmed_start(s.drop_first())
    } else {
        s
    }
}

/// `s` without the white space at its end.
pub open spec fn trimmed_end(s: Seq<char>) -> Seq<char>
    decreases s.len(),
{
    if s.len() > 0 && is_space(s.last()) {
        trimmed_end(s.drop_last())
    } else {
        s
    }
}

/// `s` without the white space at its start and at its end.
pub open spec fn trimmed(s: Seq<char>) -> Seq<char> {
    trimmed_end(trimmed_start(s))
}

/// A text whose first `k` characters are white space starts, once
/// trimmed at the start, where what follows them does.
proof fn lemma_trimmed_start_skip(s: Seq<char>, k: int)
    requires
        0 <= k <= s.len(),
        forall|j: int| 0 <= j < k ==> is_space(#[trigger] s[j]),
    ensures
        trimmed_start(s) == trimmed_start(s.skip(k)),
    decreases k,
{
    if k == 0 {
        assert(s.skip(0) =~= s);
    } else {
        let rest = s.drop_first();
        assert forall|j: int| 0 <= j < k - 1 implies is_space(#[trigger] rest[j]) by {
            assert(rest[j] == s[j + 1]);
        }
        lemma_trimmed_start_skip(rest, k - 1);
        assert(rest.skip(k - 1) =~= s.skip(k));
        assert(is_space(s[0]));
    }
}

/// A text whose characters from `k` on are white space ends, once
/// trimmed at the end, where what precedes them does.
proof fn lemma_trimmed_end_take(s: Seq<char>, k: int)
    requires
        0 <= k <= s.len(),
        forall|j: int| k <= j < s.len() ==> is_space(#[trigger] s[j]),
    ensures
        trimmed_end(s) == trimmed_end(s.take(k)),
    decreases s.len() - k,
{
    if k == s.len() {
        assert(s.take(k) =~= s);
    } else {
        let front = s.drop_last();
        assert(is_space(s[s.len() - 1]));
        assert forall|j: int| k <= j < front.len() implies is_space(#[trigger] front[j]) by {
            assert(front[j] == s[j]);
        }
        lemma_trimmed_end_take(front, k);
        assert(front.take(k) =~= s.take(k));
    }
}

/// `s` without the white space at its start and at its end.
pub fn trim(s: &str) -> (r: String)
    ensures
        r@ == trimmed(s@),
{
    let v = chars_of(s);
    let mut a: usize = 0;
    while a < v.len() && is_whitespace(v[a])
        invariant
            a <= v.len(),
            forall|j: int| 0 <= j < a ==> is_space(#[trigger] v@[j]),
        decreases v.len() - a,
    {
        a += 1;
    }
    let mut b: usize = v.len();
    while b > a && is_whitespace(v[b - 1])
        invariant
            a <= b <= v.len(),
            forall|j: int| b <= j < v.len() ==> is_space(#[trigger] v@[j]),
        decreases b,
    {
        b -= 1;
    }
    proof {
        let t = v@.skip(a as int);
        lemma_trimmed_start_skip(v@, a as int);
        assert(trimmed_start(t) == t) by {
            if t.len() > 0 {
                assert(t[0] == v@[a as int]);
            }
        }
        assert forall|j: int| b - a <= j < t.len() implies is_space(#[trigger] t[j]) by {
            assert(t[j] == v@[a + j]);
        }
        lemma_trimmed_end_take(t, b - a);
        let u = t.take(b - a);
        assert(u =~= v@.subrange(a as int, b as int));
        assert(trimmed_end(u) == u) by {
            if u.len() > 0 {
                assert(u.last() == v@[b - 1]);
            }
        }
    }
    string_of_range(&v, a, b)
}

/// The length of the run of characters at the start of `s` that are no
/// white space.
pub open spec fn word_len(s: Seq<char>) -> int
    decreases s.len(),
{
    if s.len() == 0 || is_space(s[0]) {
        0
    } else {
        1 + word_len(s.drop_first())
    }
}

/// The words of `s`: its longest runs of characters that are no white
/// space, in order.
pub open spec fn words_of(s: Seq<char>) -> Seq<Seq<char>>
    decreases s.len(),
{
    if s.len() == 0 {
        Seq::empty()
    } else if is_space(s[0]) {
        words_of(s.drop_first())
    } else {
        proof {
            lemma_word_len_bounds(s);
        }
        seq![s.take(word_len(s))] + words_of(s.skip(word_len(s)))
    }
}

/// The run of characters that are no white space at the start of `s` is
/// no longer than `s`.
pub proof fn lemma_word_len_bounds(s: Seq<char>)
    ensures
        0 <= word_len(s) <= s.len(),
        s.len() > 0 && !is_space(s[0]) ==> word_len(s) >= 1,
    decreases s.len(),
{
    if s.len() > 0 && !is_space(s[0]) {
        lemma_word_len_bounds(s.drop_first());
    }
}

/// A run of `k` characters that are no white space, followed by white
/// space or by the end, is the run that `word_len` measures.
proof fn lemma_word_len_is(s: Seq<char>, k: int)
    requires
        0 <= k <= s.len(),
        forall|j: int| 0 <= j < k ==> !is_space(#[trigger] s[j]),
        k < s.len() ==> is_space(s[k]),
    ensures
        word_len(s) == k,
    decreases k,
{
    if k > 0 {
        let rest = s.drop_first();
        assert(!is_space(s[0]));
        assert forall|j: int| 0 <= j < k - 1 implies !is_space(#[trigger] rest[j]) by {
            assert(rest[j] == s[j + 1]);
        }
        if k - 1 < rest.len() {
            assert(rest[k - 1] == s[k]);
        }
        lemma_word_len_is(rest, k - 1);
    }
}

/// The words of `s`: its longest runs of characters that are no white
/// space, in order.
pub fn split_whitespace(s: &str) -> (r: Vec<String>)
    ensures
        texts_view(r@) == words_of(s@),
{
    let v = chars_of(s);
    let mut out: Vec<String> = Vec::new();
    let mut i: usize = 0;
    proof {
        assert(v@.skip(0) =~= v@);
        assert(texts_view(out@) =~= Seq::<Seq<char>>::empty());
    }
    while i < v.len()
        invariant
            i <= v.len(),
            v@ == s@,
            words_of(s@) == texts_view(out@) + words_of(v@.skip(i as int)),
        decreases v.len() - i,
    {
        let ghost rest = v@.skip(i as int);
        let ghost done = texts_view(out@);
        if is_whitespace(v[i]) {
            proof {
                assert(rest[0] == v@[i as int]);
                assert(rest.drop_first() =~= v@.skip(i + 1));
            }
            i += 1;
        } else {
            let start = i;
            while i < v.len() && !is_whitespace(v[i])
                invariant
                    start <= i <= v.len(),
                    forall|j: int| start <= j < i ==> !is_space(#[trigger] v@[j]),
                decreases v.len() - i,
            {
                i += 1;
            }
            let word = string_of_range(&v, start, i);
            proof {
                assert(rest[0] == v@[start as int]);
                assert forall|j: int| 0 <= j < i - start implies !is_space(#[trigger] rest[j]) by {
                    assert(rest[j] == v@[start + j]);
                }
                if i - start < rest.len() {
                    assert(rest[i - start] == v@[i as int]);
                }
                lemma_word_len_is(rest, i - start);
                assert(rest.take(i - start) =~= v@.subrange(start as int, i as int));
                assert(rest.skip(i - start) =~= v@.skip(i as int));
                assert(texts_view(out@.push(word)) =~= done + seq![word@]);
                assert(done + (seq![word@] + words_of(v@.skip(i as int))) =~= (done + seq![word@]) + words_of(
                    v@.skip(i as int),
                ));
            }
            out.push(word);
        }
    }
    proof {
        assert(v@.skip(v@.len() as int) =~= Seq::<char>::empty());
        assert(texts_view(out@) + Seq::<Seq<char>>::empty() =~= texts_view(out@));
    }
    out
}

/// Whether two characters are the same but for the case of an ASCII
/// letter.
pub open spec fn same_letter(a: char, b: char) -> bool {
    a == b || ('A' <= a && a <= 'Z' && a as u32 + 32 == b as u32) || ('A' <= b && b <= 'Z' && b as u32
        + 32 == a as u32)
}

/// Whether `s` begins with `prefix`, the case of ASCII letters set aside.
pub open spec fn has_prefix_ignoring_case(s: Seq<char>, prefix: Seq<char>) -> bool {
    prefix.len() <= s.len() && forall|i: int| 0 <= i < prefix.len() ==> same_letter(s[i], prefix[i])
}

/// Whether `s` begins with `prefix`, the case of ASCII letters set aside.
pub fn starts_with_ignoring_case(s: &str, prefix: &str) -> (r: bool)
    ensures
        r == has_prefix_ignoring_case(s@, prefix@),
{
    let vs = chars_of(s);
    let vp = chars_of(prefix);
    if vp.len() > vs.len() {
        return false;
    }
    let mut i: usize = 0;
    while i < vp.len()
        invariant
            vs@ == s@,
            vp@ == prefix@,
            vp.len() <= vs.len(),
            i <= vp.len(),
            forall|j: int| 0 <= j < i ==> same_letter(vs@[j], vp@[j]),
        decreases vp.len() - i,
    {
        let a = vs[i];
        let b = vp[i];
        let same = a == b || ('A' <= a && a <= 'Z' && (a as u32) + 32 == (b as u32)) || ('A' <= b && b
            <= 'Z' && (b as u32) + 32 == (a as u32));
        if !same {
            return false;
        }
        i += 1;
    }
    true
}

/// The lines put together, with `sep` between each two.
pub open spec fn joined(lines: Seq<Seq<char>>, sep: Seq<char>) -> Seq<char>
    decreases lines.len(),
{
    if lines.len() == 0 {
        Seq::empty()
    } else if lines.len() == 1 {
        lines[0]
    } else {
        joined(lines.drop_last(), sep) + sep + lines.last()
    }
}

/// The lines put together, with `sep` between each two.
pub fn join(lines: &Vec<String>, sep: &str) -> (r: String)
    ensures
        r@ == joined(texts_view(lines@), sep@),
{
    let ghost texts = texts_view(lines@);
    let mut out = String::new();
    let mut i: usize = 0;
    proof {
        assert(texts.take(0) =~= Seq::<Seq<char>>::empty());
    }
    while i < lines.len()
        invariant
            i <= lines@.len(),
            texts == texts_view(lines@),
            out@ == joined(texts.take(i as int), sep@),
        decreases lines@.len() - i,
    {
        proof {
            let upto = texts.take(i + 1);
            assert(upto.drop_last() =~= texts.take(i as int));
            assert(upto.last() == lines@[i as int]@);
            if i == 0 {
                assert(upto[0] == lines@[0]@);
                assert(Seq::<char>::empty() + lines@[0]@ =~= lines@[0]@);
            }
        }
        if i > 0 {
            out.append(sep);
        }
        out.append(lines[i].as_str());
        i += 1;
    }
    proof {
        assert(texts.take(lines@.len() as int) =~= texts);
    }
    out
}

/// How many characters of `s` stand before the first `c`: all of them
/// where `s` has no `c`.
pub open spec fn position_of(s: Seq<char>, c: char) -> int
    decreases s.len(),
{
    if s.len() == 0 || s[0] == c {
        0
    } else {
        1 + position_of(s.drop_first(), c)
    }
}

/// A position with `c` at it and none before it is what `position_of`
/// gives; so is the length where there is no `c`.
pub proof fn lemma_position_of(s: Seq<char>, c: char, k: int)
    requires
        0 <= k <= s.len(),
        forall|j: int| 0 <= j < k ==> #[trigger] s[j] != c,
        k < s.len() ==> s[k] == c,
    ensures
        position_of(s, c) == k,
    decreases k,
{
    if k > 0 {
        let rest = s.drop_first();
        assert(s[0] != c);
        assert forall|j: int| 0 <= j < k - 1 implies #[trigger] rest[j] != c by {
            assert(rest[j] == s[j + 1]);
        }
        if k - 1 < rest.len() {
            assert(rest[k - 1] == s[k]);
        }
        lemma_position_of(rest, c, k - 1);
    }
}

/// How many characters of `s` stand before the first place at which
/// `pattern` begins: all of them where `pattern` begins nowhere.
pub open spec fn offset_of(s: Seq<char>, pattern: Seq<char>) -> int
    decreases s.len(),
{
    if pattern.is_prefix_of(s) || s.len() == 0 {
        0
    } else {
        1 + offset_of(s.drop_first(), pattern)
    }
}

/// A place at which `pattern` begins, with none before it, is what
/// `offset_of` gives; so is the length where it begins nowhere.
pub proof fn lemma_offset_of(s: Seq<char>, pattern: Seq<char>, k: int)
    requires
        0 <= k <= s.len(),
        forall|j: int| 0 <= j < k ==> !pattern.is_prefix_of(#[trigger] s.skip(j)),
        k < s.len() ==> pattern.is_prefix_of(s.skip(k)),
    ensures
        offset_of(s, pattern) == k,
    decreases k,
{
    assert(s.skip(0) =~= s);
    if k > 0 {
        let rest = s.drop_first();
        assert forall|j: int| 0 <= j < k - 1 implies !pattern.is_prefix_of(#[trigger] rest.skip(j)) by {
            assert(rest.skip(j) =~= s.skip(j + 1));
        }
        assert(rest.skip(k - 1) =~= s.skip(k));
        lemma_offset_of(rest, pattern, k - 1);
    }
}

/// What `offset_of` gives lies within the text, and where it lies before
/// the end, `pattern` begins there.
pub proof fn lemma_offset_found(s: Seq<char>, pattern: Seq<char>)
    ensures
        0 <= offset_of(s, pattern) <= s.len(),
        offset_of(s, pattern) < s.len() ==> pattern.is_prefix_of(s.skip(offset_of(s, pattern))),
    decreases s.len(),
{
    assert(s.skip(0) =~= s);
    if pattern.is_prefix_of(s) || s.len() == 0 {
    } else {
        let k = offset_of(s.drop_first(), pattern);
        lemma_offset_found(s.drop_first(), pattern);
        assert(s.drop_first().skip(k) =~= s.skip(k + 1));
    }
}

fn begins_at(v: &Vec<char>, at: usize, pattern: &Vec<char>) -> (r: bool)
    requires
        at <= v@.len(),
    ensures
        r == pattern@.is_prefix_of(v@.skip(at as int)),
{
    let rest: usize = v.len() - at;
    if pattern.len() > rest {
        return false;
    }
    let mut i: usize = 0;
    while i < pattern.len()
        invariant
            at <= v@.len(),
            v@.len() == v.len(),
            pattern@.len() <= v@.len() - at,
            i <= pattern@.len(),
            forall|j: int| 0 <= j < i ==> v@[at + j] == pattern@[j],
        decreases pattern@.len() - i,
    {
        if v[at + i] != pattern[i] {
            assert(!pattern@.is_prefix_of(v@.skip(at as int))) by {
                if pattern@.is_prefix_of(v@.skip(at as int)) {
                    assert(v@.skip(at as int).subrange(0, pattern@.len() as int)[i as int]
                        == pattern@[i as int]);
                }
            }
            return false;
        }
        i += 1;
    }
    assert(v@.skip(at as int).subrange(0, pattern@.len() as int) =~= pattern@);
    true
}

/// The place at which `pattern` first begins in `v` at or after `from`,
/// counted from `from`; what is left of `v` where it begins nowhere.
pub fn find_from(v: &Vec<char>, from: usize, pattern: &Vec<char>) -> (r: usize)
    requires
        from <= v@.len(),
    ensures
        r == offset_of(v@.skip(from as int), pattern@),
        from + r <= v@.len(),
{
    let ghost tail = v@.skip(from as int);
    let mut k: usize = from;
    while k < v.len()
        invariant
            from <= k <= v@.len(),
            tail == v@.skip(from as int),
            forall|j: int| 0 <= j < k - from ==> !pattern@.is_prefix_of(#[trigger] tail.skip(j)),
        decreases v@.len() - k,
    {
        assert(tail.skip(k - from) =~= v@.skip(k as int));
        if begins_at(v, k, pattern) {
            proof {
                lemma_offset_of(tail, pattern@, k - from);
            }
            return k - from;
        }
        k += 1;
    }
    proof {
        lemma_offset_of(tail, pattern@, tail.len() as int);
    }
    k - from
}

} // verus!
