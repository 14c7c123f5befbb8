//! Styles of themed text: the attributes and colours that are laid over a
//! text when it is printed.

use vstd::prelude::*;
use crossterm::style::{style, Attribute, Color, Stylize};
use crate::text::chars_of;

verus! {

/// A colour of the terminal, as `crossterm` knows it.
#[verifier::external_type_specification]
#[verifier::external_body]
pub struct ExColor(crossterm::style::Color);

/// An attribute of text on the terminal, as `crossterm` knows it.
#[verifier::external_type_specification]
#[verifier::external_body]
pub struct ExAttribute(crossterm::style::Attribute);

/// One item of a style.
pub enum StyleItem {
    Attr(Attribute),
    /// A colour by its notation in base sixteen, as in `#1a2b3c`.
    Rgb(&'static str),
    Color(Color),
}

/// A style: the items that are laid over a text, one after the other.
pub struct Style(pub Vec<StyleItem>);

/// What is handed to the terminal library for one item of a style.
pub enum Paint {
    Attr(Attribute),
    Color(Color),
    /// The colour of these parts of red, green and blue.
    Rgb(u8, u8, u8),
}

/// The value of a digit of base sixteen, in either case.
pub open spec fn hex_value(c: char) -> Option<nat> {
    if c == '0' {
        Some(0)
    } else if c == '1' {
        Some(1)
    } else if c == '2' {
        Some(2)
    } else if c == '3' {
        Some(3)
    } else if c == '4' {
        Some(4)
    } else if c == '5' {
        Some(5)
    } else if c == '6' {
        Some(6)
    } else if c == '7' {
        Some(7)
    } else if c == '8' {
        Some(8)
    } else if c == '9' {
        Some(9)
    } else if c == 'a' || c == 'A' {
        Some(10)
    } else if c == 'b' || c == 'B' {
        Some(11)
    } else if c == 'c' || c == 'C' {
        Some(12)
    } else if c == 'd' || c == 'D' {
        Some(13)
    } else if c == 'e' || c == 'E' {
        Some(14)
    } else if c == 'f' || c == 'F' {
        Some(15)
    } else {
        None
    }
}

/// What two characters say as a number in base sixteen: two digits, or a
/// plus sign and one digit.
pub open spec fn hex_pair(a: char, b: char) -> Option<nat> {
    if a == '+' {
        hex_value(b)
    } else {
        match (hex_value(a), hex_value(b)) {
            (Some(x), Some(y)) => Some(16 * x + y),
            _ => None,
        }
    }
}

/// How many `#` a text begins with.
pub open spec fn leading_hashes(s: Seq<char>) -> nat
    decreases s.len(),
{
    if s.len() > 0 && s[0] == '#' {
        1 + leading_hashes(s.drop_first())
    } else {
        0
    }
}

/// The parts of red, green and blue that a colour's notation says: the
/// `#` at its beginning set aside, its first six characters are read two
/// by two. A text that is too short, or has another character there, says
/// no colour.
pub open spec fn hex_rgb(hex: Seq<char>) -> Option<(u8, u8, u8)> {
    let t = hex.skip(leading_hashes(hex) as int);
    if t.len() < 6 {
        None
    } else {
        match (hex_pair(t[0], t[1]), hex_pair(t[2], t[3]), hex_pair(t[4], t[5])) {
            (Some(r), Some(g), Some(b)) => Some((r as u8, g as u8, b as u8)),
            _ => None,
        }
    }
}

/// What an item of a style paints: nothing where it names a colour by a
/// notation that says none.
pub open spec fn paint_of(item: StyleItem) -> Option<Paint> {
    match item {
        StyleItem::Attr(a) => Some(Paint::Attr(a)),
        StyleItem::Color(c) => Some(Paint::Color(c)),
        StyleItem::Rgb(hex) => match hex_rgb(hex@) {
            Some((r, g, b)) => Some(Paint::Rgb(r, g, b)),
            None => None,
        },
    }
}

/// What the items of a style paint, in their order.
pub open spec fn paints_of(items: Seq<StyleItem>) -> Seq<Paint>
    decreases items.len(),
{
    if items.len() == 0 {
        Seq::empty()
    } else {
        match paint_of(items.last()) {
            Some(p) => paints_of(items.drop_last()).push(p),
            None => paints_of(items.drop_last()),
        }
    }
}

/// What two styles paint, one after the other, is what they paint as one.
pub proof fn lemma_paints_of_add(a: Seq<StyleItem>, b: Seq<StyleItem>)
    ensures
        paints_of(a + b) == paints_of(a) + paints_of(b),
    decreases b.len(),
{
    if b.len() == 0 {
        assert(a + b =~= a);
        assert(paints_of(a) + paints_of(b) =~= paints_of(a));
    } else {
        lemma_paints_of_add(a, b.drop_last());
        assert((a + b).drop_last() =~= a + b.drop_last());
        assert((a + b).last() == b.last());
        match paint_of(b.last()) {
            Some(p) => {
                assert(paints_of(a) + paints_of(b.drop_last()).push(p) =~= (paints_of(a) + paints_of(
                    b.drop_last(),
                )).push(p));
            },
            None => {},
        }
    }
}

/// Lays an attribute over a text: `crossterm::style::style` makes the
/// styled text, `Stylize::attribute` sets the attribute, and the result is
/// written out. Nothing is claimed of the text that comes back: whether it
/// holds any codes depends on the environment of the process.
#[verifier::external_body]
fn paint_attribute(text: String, attribute: &Attribute) -> String {
    style(text).attribute(*attribute).to_string()
}

/// Lays a colour over a text: `crossterm::style::style` makes the styled
/// text, `Stylize::with` sets its colour, and the result is written out.
/// Nothing is claimed of the text that comes back.
#[verifier::external_body]
fn paint_color(text: String, color: &Color) -> String {
    style(text).with(*color).to_string()
}

/// Lays the colour of the given parts of red, green and blue over a text,
/// with `crossterm::style::style` and `Stylize::with`. Nothing is claimed
/// of the text that comes back.
#[verifier::external_body]
fn paint_rgb(text: String, r: u8, g: u8, b: u8) -> String {
    style(text).with(Color::Rgb { r, g, b }).to_string()
}

/// The value of a digit of base sixteen.
pub fn hex_digit(c: char) -> (r: Option<u8>)
    ensures
        match r {
            Some(v) => hex_value(c) == Some(v as nat),
            None => hex_value(c) is None,
        },
{
    if c == '0' {
        Some(0)
    } else if c == '1' {
        Some(1)
    } else if c == '2' {
        Some(2)
    } else if c == '3' {
        Some(3)
    } else if c == '4' {
        Some(4)
    } else if c == '5' {
        Some(5)
    } else if c == '6' {
        Some(6)
    } else if c == '7' {
        Some(7)
    } else if c == '8' {
        Some(8)
    } else if c == '9' {
        Some(9)
    } else if c == 'a' || c == 'A' {
        Some(10)
    } else if c == 'b' || c == 'B' {
        Some(11)
    } else if c == 'c' || c == 'C' {
        Some(12)
    } else if c == 'd' || c == 'D' {
        Some(13)
    } else if c == 'e' || c == 'E' {
        Some(14)
    } else if c == 'f' || c == 'F' {
        Some(15)
    } else {
        None
    }
}

/// What two characters say as a number in base sixteen.
pub fn hex_byte(a: char, b: char) -> (r: Option<u8>)
    ensures
        match r {
            Some(v) => hex_pair(a, b) == Some(v as nat),
            None => hex_pair(a, b) is None,
        },
{
    if a == '+' {
        return hex_digit(b);
    }
    match (hex_digit(a), hex_digit(b)) {
        (Some(x), Some(y)) => {
            assert(x < 16 && y < 16);
            Some(16 * x + y)
        },
        _ => None,
    }
}

/// Reads the notation of a colour in base sixteen.
pub fn hex_to_rgb(hex: &str) -> (r: Option<(u8, u8, u8)>)
    ensures
        r == hex_rgb(hex@),
{
    let v = chars_of(hex);
    let mut from: usize = 0;
    proof {
        assert(v@.skip(0) =~= v@);
    }
    while from < v.len() && v[from] == '#'
        invariant
            from <= v@.len(),
            v@ == hex@,
            leading_hashes(v@) == from + leading_hashes(v@.skip(from as int)),
        decreases v@.len() - from,
    {
        proof {
            assert(v@.skip(from as int)[0] == v@[from as int]);
            assert(v@.skip(from as int).drop_first() =~= v@.skip(from + 1));
        }
        from += 1;
    }
    proof {
        if from < v@.len() {
            assert(v@.skip(from as int)[0] == v@[from as int]);
        }
        assert(leading_hashes(v@.skip(from as int)) == 0);
    }
    if v.len() - from < 6 {
        return None;
    }
    let ghost t = v@.skip(from as int);
    proof {
        assert(t[0] == v@[from as int] && t[1] == v@[from + 1] && t[2] == v@[from + 2]);
        assert(t[3] == v@[from + 3] && t[4] == v@[from + 4] && t[5] == v@[from + 5]);
    }
    match (hex_byte(v[from], v[from + 1]), hex_byte(v[from + 2], v[from + 3]), hex_byte(v[from + 4], v[from + 5])) {
        (Some(r), Some(g), Some(b)) => Some((r, g, b)),
        _ => None,
    }
}

impl Clone for StyleItem {
    fn clone(&self) -> (r: StyleItem)
        ensures
            r == *self,
    {
        match self {
            StyleItem::Attr(a) => StyleItem::Attr(*a),
            StyleItem::Rgb(hex) => StyleItem::Rgb(*hex),
            StyleItem::Color(c) => StyleItem::Color(*c),
        }
    }
}

impl Clone for Style {
    fn clone(&self) -> (r: Style)
        ensures
            r.0@ == self.0@,
    {
        Style(Vec::new()).merge(self)
    }
}

impl Style {
    /// The style that paints nothing.
    pub fn empty() -> (r: Style)
        ensures
            r.0@ == Seq::<StyleItem>::empty(),
    {
        Style(Vec::new())
    }

    /// Two styles as one: the items of the first, then those of the
    /// second.
    pub fn merge(&self, other: &Style) -> (r: Style)
        ensures
            r.0@ == self.0@ + other.0@,
    {
        let mut items: Vec<StyleItem> = Vec::new();
        let mut i: usize = 0;
        while i < self.0.len()
            invariant
                i <= self.0@.len(),
                items@ == self.0@.take(i as int),
            decreases self.0@.len() - i,
        {
            items.push(self.0[i].clone());
            proof {
                assert(self.0@.take(i + 1) =~= self.0@.take(i as int).push(self.0@[i as int]));
            }
            i += 1;
        }
        let mut j: usize = 0;
        while j < other.0.len()
            invariant
                j <= other.0@.len(),
                items@ == self.0@ + other.0@.take(j as int),
            decreases other.0@.len() - j,
        {
            items.push(other.0[j].clone());
            proof {
                assert(other.0@.take(j + 1) =~= other.0@.take(j as int).push(other.0@[j as int]));
                assert(self.0@ + other.0@.take(j + 1) =~= (self.0@ + other.0@.take(j as int)).push(
                    other.0@[j as int],
                ));
            }
            j += 1;
        }
        proof {
            assert(self.0@.take(self.0@.len() as int) =~= self.0@);
            assert(other.0@.take(other.0@.len() as int) =~= other.0@);
        }
        Style(items)
    }

    /// What the style hands to the terminal library, item by item: an
    /// item that names a colour by a notation that says none is left out.
    pub fn plan(&self) -> (r: Vec<Paint>)
        ensures
            r@ == paints_of(self.0@),
    {
        let mut out: Vec<Paint> = Vec::new();
        let mut i: usize = 0;
        while i < self.0.len()
            invariant
                i <= self.0@.len(),
                out@ == paints_of(self.0@.take(i as int)),
            decreases self.0@.len() - i,
        {
            proof {
                assert(self.0@.take(i + 1).drop_last() =~= self.0@.take(i as int));
                assert(self.0@.take(i + 1).last() == self.0@[i as int]);
            }
            match &self.0[i] {
                StyleItem::Attr(a) => out.push(Paint::Attr(*a)),
                StyleItem::Color(c) => out.push(Paint::Color(*c)),
                StyleItem::Rgb(hex) => match hex_to_rgb(hex) {
                    Some((r, g, b)) => out.push(Paint::Rgb(r, g, b)),
                    None => {},
                },
            }
            i += 1;
        }
        proof {
            assert(self.0@.take(self.0@.len() as int) =~= self.0@);
        }
        out
    }

    /// Lays the style over the text: what `plan` gives is handed to the
    /// terminal library, one after the other, each over what the one
    /// before made of the text. A style that paints nothing gives the text
    /// back as it is.
    pub fn apply_to(&self, text: &str) -> (r: String)
        ensures
            paints_of(self.0@).len() == 0 ==> r@ == text@,
    {
        let paints = self.plan();
        let mut styled = text.to_string();
        let mut i: usize = 0;
        while i < paints.len()
            invariant
                i <= paints@.len(),
                paints@.len() == 0 ==> styled@ == text@,
            decreases paints@.len() - i,
        {
            styled = match &paints[i] {
                Paint::Attr(a) => paint_attribute(styled, a),
                Paint::Color(c) => paint_color(styled, c),
                Paint::Rgb(r, g, b) => paint_rgb(styled, *r, *g, *b),
            };
            i += 1;
        }
        styled
    }
}

} // verus!
