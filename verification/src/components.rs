//! What the command line prints of itself: the logo and the help.

use vstd::prelude::*;
use crate::text::{chars_of, concat};

verus! {

/// What can be rendered as themed text.
pub trait Component {
    /// The themed text of the component.
    fn render(&self) -> String;
}

/// The logo.
pub struct Logo {}

/// The themed text of the logo.
pub open spec fn logo_text() -> Seq<char> {
    "<dim>\n▀▀████\n  ████\n  ████   ▀█▀  ▀████  ▀███   ▀███ ▄██▄ ▀███▀   ▀▀█▀\n  ████  ▄▀     ████   ███    ███▀ ██▀  ▀██▄    ▞\n  ████▅██▃     ████   ███    ███        ███▄  ▞\n  ████ ▀██▆    ████  ▄███    ███         ███ ▞\n▄▄████▄ ▄███▄   ▀██▅▀ ███▄  ▄███▄▄        ███\n</dim>"@
}

impl Component for Logo {
    fn render(&self) -> (r: String)
        ensures
            r@ == logo_text(),
    {
        "<dim>\n▀▀████\n  ████\n  ████   ▀█▀  ▀████  ▀███   ▀███ ▄██▄ ▀███▀   ▀▀█▀\n  ████  ▄▀     ████   ███    ███▀ ██▀  ▀██▄    ▞\n  ████▅██▃     ████   ███    ███        ███▄  ▞\n  ████ ▀██▆    ████  ▄███    ███         ███ ▞\n▄▄████▄ ▄███▄   ▀██▅▀ ███▄  ▄███▄▄        ███\n</dim>".to_string()
    }
}

/// The help of a command.
pub struct Help<'a> {
    pub command: &'a str,
    pub error: Option<&'a str>,
    pub summary: Option<&'a str>,
    pub options: Option<Vec<(&'a str, Vec<&'a str>, &'a str)>>,
    pub subcommands: Option<Vec<(&'a str, Vec<&'a str>, &'a str)>>,
}

/// What an item of the help says.
pub struct HelpItemView {
    pub item: Seq<char>,
    pub aliases: Seq<Seq<char>>,
    pub description: Seq<char>,
}

/// What each text of a list holds.
pub open spec fn strs_view(v: Seq<&str>) -> Seq<Seq<char>> {
    v.map_values(|s: &str| s@)
}

/// What an item of the help says: its name, its other names, and what
/// it does.
pub open spec fn item_view(i: (&str, Vec<&str>, &str)) -> HelpItemView {
    HelpItemView { item: i.0@, aliases: strs_view(i.1@), description: i.2@ }
}

/// What each item of a list says.
pub open spec fn items_view(items: Seq<(&str, Vec<&str>, &str)>) -> Seq<HelpItemView> {
    items.map_values(|i: (&str, Vec<&str>, &str)| item_view(i))
}

/// The name of an item with its other names behind it.
pub open spec fn with_aliases(name: Seq<char>, aliases: Seq<Seq<char>>, separator: Seq<char>) -> Seq<char>
    decreases aliases.len(),
{
    if aliases.len() == 0 {
        name
    } else {
        with_aliases(name, aliases.drop_last(), separator) + separator + aliases.last()
    }
}

/// That many spaces.
pub open spec fn spaces(n: nat) -> Seq<char> {
    Seq::new(n, |i: int| ' ')
}

/// A text with spaces behind it, so that it has at least `width`
/// characters.
pub open spec fn padded(text: Seq<char>, width: nat) -> Seq<char> {
    if text.len() >= width {
        text
    } else {
        text + spaces((width - text.len()) as nat)
    }
}

/// The largest length in bytes among the names of the items.
pub open spec fn longest_name(items: Seq<HelpItemView>) -> nat
    decreases items.len(),
{
    if items.len() == 0 {
        0
    } else {
        let rest = longest_name(items.drop_last());
        let last = vstd::utf8::encode_utf8(items.last().item).len();
        if last > rest {
            last
        } else {
            rest
        }
    }
}

/// The line of one item: its names in a column of the given width, then
/// what it does.
pub open spec fn item_line(item: HelpItemView, separator: Seq<char>, width: nat) -> Seq<char> {
    "\n  <highlight>"@ + padded(with_aliases(item.item, item.aliases, separator), width) + "</highlight>"@
        + item.description
}

/// The lines of the items in a column of the given width.
pub open spec fn item_lines(items: Seq<HelpItemView>, separator: Seq<char>, width: nat) -> Seq<char>
    decreases items.len(),
{
    if items.len() == 0 {
        Seq::empty()
    } else {
        item_lines(items.drop_last(), separator, width) + item_line(items.last(), separator, width)
    }
}

/// The lines of the items: the column of the names is four wider than the
/// longest name.
pub open spec fn rendered_items(items: Seq<HelpItemView>, separator: Seq<char>) -> Seq<char> {
    item_lines(items, separator, longest_name(items) + 4)
}

/// The themed text of a help.
pub open spec fn rendered_help(
    command: Seq<char>,
    error: Option<Seq<char>>,
    summary: Option<Seq<char>>,
    options: Option<Seq<HelpItemView>>,
    subcommands: Option<Seq<HelpItemView>>,
) -> Seq<char> {
    logo_text() + (match error {
        Some(e) => "\n😱 <error>"@ + e + "</error>\n"@,
        None => Seq::empty(),
    }) + "\n<head>usage</head>\n  <highlight>"@ + command + "</highlight>"@ + (if options is Some {
        " <dim>[options]</dim>"@
    } else {
        Seq::empty()
    }) + (if subcommands is Some {
        " <dim>[command]</dim>"@
    } else {
        Seq::empty()
    }) + " <dim>[args...]</dim>"@ + (match summary {
        Some(s) => "\n\n"@ + s,
        None => Seq::empty(),
    }) + (match options {
        Some(o) => "\n\n<head>options</head>"@ + rendered_items(o, ", "@),
        None => Seq::empty(),
    }) + (match subcommands {
        Some(c) => "\n\n<head>commands</head>"@ + rendered_items(c, "|"@),
        None => Seq::empty(),
    }) + "\n"@
}

fn pad(text: String, width: u128) -> (r: String)
    ensures
        r@ == padded(text@, width as nat),
{
    let mut out = text;
    let mut have: u128 = chars_of(out.as_str()).len() as u128;
    proof {
        assert(spaces(0) =~= Seq::<char>::empty());
        assert(text@ + spaces(0) =~= text@);
    }
    if have >= width {
        return out;
    }
    let ghost start = have;
    while have < width
        invariant
            start <= have <= width,
            start == text@.len(),
            out@ == text@ + spaces((have - start) as nat),
        decreases width - have,
    {
        out.push(' ');
        proof {
            assert(spaces((have - start) as nat).push(' ') =~= spaces((have + 1 - start) as nat));
            assert((text@ + spaces((have - start) as nat)).push(' ') =~= text@ + spaces(
                (have + 1 - start) as nat,
            ));
        }
        have += 1;
    }
    out
}

impl<'a> Help<'a> {
    /// The lines of the items, with `separator` between the names of an
    /// item.
    pub fn render_items(&self, items: &Vec<(&'a str, Vec<&'a str>, &'a str)>, separator: &str) -> (r: String)
        ensures
            r@ == rendered_items(items_view(items@), separator@),
    {
        let ghost views = items_view(items@);
        let mut longest: usize = 0;
        let mut i: usize = 0;
        proof {
            assert(views.take(0) =~= Seq::<HelpItemView>::empty());
        }
        while i < items.len()
            invariant
                i <= items@.len(),
                views == items_view(items@),
                longest == longest_name(views.take(i as int)),
            decreases items@.len() - i,
        {
            proof {
                assert(views.take(i + 1).drop_last() =~= views.take(i as int));
                assert(views.take(i + 1).last() == item_view(items@[i as int]));
            }
            let len = items[i].0.as_bytes().len();
            if len > longest {
                longest = len;
            }
            i += 1;
        }
        proof {
            assert(views.take(items@.len() as int) =~= views);
        }
        let width: u128 = longest as u128 + 4;
        let mut out = String::new();
        let mut i: usize = 0;
        while i < items.len()
            invariant
                i <= items@.len(),
                views == items_view(items@),
                longest == longest_name(views),
                out@ == item_lines(views.take(i as int), separator@, width as nat),
            decreases items@.len() - i,
        {
            proof {
                assert(views.take(i + 1).drop_last() =~= views.take(i as int));
                assert(views.take(i + 1).last() == item_view(items@[i as int]));
            }
            let item = &items[i];
            let mut names = item.0.to_string();
            let mut k: usize = 0;
            proof {
                assert(strs_view(item.1@).take(0) =~= Seq::<Seq<char>>::empty());
            }
            while k < item.1.len()
                invariant
                    k <= item.1@.len(),
                    names@ == with_aliases(item.0@, strs_view(item.1@).take(k as int), separator@),
                decreases item.1@.len() - k,
            {
                proof {
                    let upto = strs_view(item.1@).take(k + 1);
                    assert(upto.drop_last() =~= strs_view(item.1@).take(k as int));
                    assert(upto.last() == item.1@[k as int]@);
                }
                names.append(separator);
                names.append(item.1[k]);
                k += 1;
            }
            proof {
                assert(strs_view(item.1@).take(item.1@.len() as int) =~= strs_view(
                    item.1@,
                ));
            }
            let column = pad(names, width);
            out.append("\n  <highlight>");
            out.append(column.as_str());
            out.append("</highlight>");
            out.append(item.2);
            proof {
                let line = item_line(item_view(items@[i as int]), separator@, width as nat);
                let before = item_lines(views.take(i as int), separator@, width as nat);
                assert(out@ =~= before + line);
            }
            i += 1;
        }
        proof {
            assert(views.take(items@.len() as int) =~= views);
        }
        out
    }
}

impl<'a> Component for Help<'a> {
    fn render(&self) -> (r: String)
        ensures
            r@ == rendered_help(
                self.command@,
                match self.error {
                    Some(e) => Some(e@),
                    None => None,
                },
                match self.summary {
                    Some(s) => Some(s@),
                    None => None,
                },
                match self.options {
                    Some(o) => Some(items_view(o@)),
                    None => None,
                },
                match self.subcommands {
                    Some(c) => Some(items_view(c@)),
                    None => None,
                },
            ),
    {
        let logo = Logo {};
        let mut help = logo.render();
        let error = match self.error {
            Some(e) => {
                let a = concat("\n😱 <error>", e);
                concat(a.as_str(), "</error>\n")
            },
            None => String::new(),
        };
        let options_mark = if self.options.is_some() {
            " <dim>[options]</dim>".to_string()
        } else {
            String::new()
        };
        let commands_mark = if self.subcommands.is_some() {
            " <dim>[command]</dim>".to_string()
        } else {
            String::new()
        };
        let summary = match self.summary {
            Some(s) => concat("\n\n", s),
            None => String::new(),
        };
        let options = match &self.options {
            Some(o) => {
                let lines = self.render_items(o, ", ");
                concat("\n\n<head>options</head>", lines.as_str())
            },
            None => String::new(),
        };
        let subcommands = match &self.subcommands {
            Some(c) => {
                let lines = self.render_items(c, "|");
                concat("\n\n<head>commands</head>", lines.as_str())
            },
            None => String::new(),
        };
        help.append(error.as_str());
        help.append("\n<head>usage</head>\n  <highlight>");
        help.append(self.command);
        help.append("</highlight>");
        help.append(options_mark.as_str());
        help.append(commands_mark.as_str());
        help.append(" <dim>[args...]</dim>");
        help.append(summary.as_str());
        help.append(options.as_str());
        help.append(subcommands.as_str());
        help.append("\n");
        help
    }
}

} // verus!
