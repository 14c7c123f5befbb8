//! Themed text: text marked up with tags, as it is printed by the command
//! line, taken apart into its nodes.

use vstd::prelude::*;
use htmlparser::{ElementEnd, Token};
use crate::style::{lemma_paints_of_add, paints_of, Style, StyleItem};
use crate::text::{chars_of, concat, find_from, offset_of, str_eq};

verus! {

/// A node of themed text: plain text, or a tag around nodes.
#[derive(Debug)]
pub enum ParsedNode {
    Text(String),
    Tag(String, Vec<ParsedNode>),
}

/// The mathematical value of a [`ParsedNode`].
pub enum NodeView {
    Text(Seq<char>),
    Tag(Seq<char>, Seq<NodeView>),
}

/// What a node holds.
pub open spec fn node_view(n: ParsedNode) -> NodeView
    decreases n, 0nat,
{
    match n {
        ParsedNode::Text(t) => NodeView::Text(t@),
        ParsedNode::Tag(name, children) => NodeView::Tag(name@, nodes_view(children@)),
    }
}

/// What each node of a run holds.
pub open spec fn nodes_view(s: Seq<ParsedNode>) -> Seq<NodeView>
    decreases s, s.len(),
{
    if s.len() == 0 {
        Seq::empty()
    } else {
        nodes_view(s.drop_last()).push(node_view(s.last()))
    }
}

/// One token of marked-up text, as far as the nodes depend on it.
#[derive(Debug)]
pub enum MarkupToken {
    /// The start of an element of that name.
    Start(String),
    /// The closing tag of that name.
    End(String),
    Text(String),
    /// Anything else, and what could not be read.
    Other,
}

/// The mathematical value of a [`MarkupToken`].
pub enum MarkupTokenView {
    Start(Seq<char>),
    End(Seq<char>),
    Text(Seq<char>),
    Other,
}

impl View for MarkupToken {
    type V = MarkupTokenView;

    open spec fn view(&self) -> MarkupTokenView {
        match self {
            MarkupToken::Start(n) => MarkupTokenView::Start(n@),
            MarkupToken::End(n) => MarkupTokenView::End(n@),
            MarkupToken::Text(t) => MarkupTokenView::Text(t@),
            MarkupToken::Other => MarkupTokenView::Other,
        }
    }
}

/// What each token of a run holds.
pub open spec fn tokens_view(s: Seq<MarkupToken>) -> Seq<MarkupTokenView> {
    s.map_values(|t: MarkupToken| t@)
}

/// The tokens that `htmlparser::Tokenizer` yields for a text, one for
/// each item: the local name of an element's start, the local name of a
/// closing tag, a text, or `Other` for every other token and for an error.
pub uninterp spec fn markup_tokens(text: Seq<char>) -> Seq<MarkupTokenView>;

/// Whether a character takes one byte in UTF-8.
pub open spec fn is_one_byte(c: char) -> bool {
    c <= '\u{7f}'
}

/// Whether a character takes two bytes in UTF-8.
pub open spec fn is_two_bytes(c: char) -> bool {
    '\u{80}' <= c && c <= '\u{7ff}'
}

/// Whether the two bytes before position `i` of the text are whole
/// characters: there is nothing before `i`, or the character before it
/// takes two bytes, or it takes one and so does the one before that, if
/// there is one.
pub open spec fn two_bytes_back_is_whole(s: Seq<char>, i: int) -> bool {
    i <= 0 || is_two_bytes(s[i - 1]) || (is_one_byte(s[i - 1]) && (i == 1 || is_one_byte(s[i - 2])))
}

/// Whether `pattern` begins somewhere in `s`.
pub open spec fn occurs_in(s: Seq<char>, pattern: Seq<char>) -> bool {
    offset_of(s, pattern) < s.len()
}

/// Whether the tokenizer reads the text to its end without giving up
/// half-way. It does where
/// - the two bytes before every `>` are whole characters, since it looks
///   two bytes behind the first `>` of a run of text; and
/// - no conditional comment begins in the text (`<!--[if`, `<![if`,
///   `<![endif`), since it does not read on behind one that does not end
///   as it expects.
pub open spec fn tokenizes_safely(s: Seq<char>) -> bool {
    &&& forall|i: int| 0 <= i < s.len() && #[trigger] s[i] == '>' ==> two_bytes_back_is_whole(s, i)
    &&& !occurs_in(s, "<!--[if"@)
    &&& !occurs_in(s, "<![if"@)
    &&& !occurs_in(s, "<![endif"@)
}

/// Reads marked-up text with `htmlparser::Tokenizer`: the result holds one
/// token for each item that the tokenizer yields, in their order. The
/// tokenizer panics on some texts; `requires` leaves out every text on
/// which it can: it slices a run of text two bytes before its first `>`,
/// and it panics in a conditional comment that does not end as expected.
#[verifier::external_body]
pub(crate) fn tokenize(text: &str) -> (r: Vec<MarkupToken>)
    requires
        tokenizes_safely(text@),
    ensures
        tokens_view(r@) == markup_tokens(text@),
{
    let mut out = Vec::new();
    for token in htmlparser::Tokenizer::from(text) {
        out.push(match token {
            Ok(Token::ElementStart { local, .. }) => MarkupToken::Start(local.as_str().to_string()),
            Ok(Token::ElementEnd { end: ElementEnd::Close(_, local), .. }) => {
                MarkupToken::End(local.as_str().to_string())
            },
            Ok(Token::Text { text }) => MarkupToken::Text(text.as_str().to_string()),
            _ => MarkupToken::Other,
        });
    }
    out
}

/// The open elements after one more token, each as the nodes gathered in
/// it so far; the first holds the nodes outside every element. A start
/// opens an element; a closing tag makes a tag of the innermost open
/// element, under the closing tag's name, and is passed over where no
/// element is open; a text is a node of the innermost open element.
pub open spec fn fed(frames: Seq<Seq<NodeView>>, token: MarkupTokenView) -> Seq<Seq<NodeView>> {
    match token {
        MarkupTokenView::Start(_) => frames.push(Seq::empty()),
        MarkupTokenView::End(name) => if frames.len() > 1 {
            let content = frames.last();
            let rest = frames.drop_last();
            rest.drop_last().push(rest.last().push(NodeView::Tag(name, content)))
        } else {
            frames
        },
        MarkupTokenView::Text(t) => if frames.len() > 0 {
            frames.drop_last().push(frames.last().push(NodeView::Text(t)))
        } else {
            frames
        },
        MarkupTokenView::Other => frames,
    }
}

/// The open elements after a run of tokens.
pub open spec fn fed_all(frames: Seq<Seq<NodeView>>, tokens: Seq<MarkupTokenView>) -> Seq<Seq<NodeView>>
    decreases tokens.len(),
{
    if tokens.len() == 0 {
        frames
    } else {
        fed(fed_all(frames, tokens.drop_last()), tokens.last())
    }
}

/// The nodes that a run of tokens makes: those outside every element;
/// what is gathered in an element that is never closed is left out.
pub open spec fn built(tokens: Seq<MarkupTokenView>) -> Seq<NodeView> {
    fed_all(seq![Seq::<NodeView>::empty()], tokens)[0]
}

/// The name of the element that is put around a text before it is read.
pub open spec fn wrapper_name() -> Seq<char> {
    "_wrapper_"@
}

/// The nodes with every tag of the wrapper's name replaced by what it
/// holds.
pub open spec fn unwrapped(nodes: Seq<NodeView>) -> Seq<NodeView>
    decreases nodes.len(),
{
    if nodes.len() == 0 {
        Seq::empty()
    } else {
        unwrapped(nodes.drop_last()) + (match nodes.last() {
            NodeView::Tag(name, content) => if name == wrapper_name() {
                content
            } else {
                seq![nodes.last()]
            },
            NodeView::Text(_) => seq![nodes.last()],
        })
    }
}

/// A themed text inside the wrapper element.
pub open spec fn wrapped(text: Seq<char>) -> Seq<char> {
    "<_wrapper_>"@ + text + "</_wrapper_>"@
}

/// The nodes of a themed text: what its tokens make once the text is put
/// inside the wrapper element, without the wrapper. A text that the
/// tokenizer cannot be trusted with is one node of plain text.
pub open spec fn parsed(text: Seq<char>) -> Seq<NodeView> {
    if tokenizes_safely(wrapped(text)) {
        unwrapped(built(markup_tokens(wrapped(text))))
    } else {
        seq![NodeView::Text(text)]
    }
}

/// What each open element of a run holds.
pub open spec fn frames_view(frames: Seq<Vec<ParsedNode>>) -> Seq<Seq<NodeView>> {
    frames.map_values(|f: Vec<ParsedNode>| nodes_view(f@))
}

/// The view of a run of nodes with one more node.
proof fn lemma_nodes_view_push(s: Seq<ParsedNode>, n: ParsedNode)
    ensures
        nodes_view(s.push(n)) == nodes_view(s).push(node_view(n)),
{
    assert(s.push(n).drop_last() =~= s);
}

/// The view of two runs of nodes put together.
proof fn lemma_nodes_view_add(a: Seq<ParsedNode>, b: Seq<ParsedNode>)
    ensures
        nodes_view(a + b) == nodes_view(a) + nodes_view(b),
    decreases b.len(),
{
    if b.len() == 0 {
        assert(a + b =~= a);
        assert(nodes_view(a) + nodes_view(b) =~= nodes_view(a));
    } else {
        lemma_nodes_view_add(a, b.drop_last());
        assert((a + b).drop_last() =~= a + b.drop_last());
        assert((a + b).last() == b.last());
        assert(nodes_view(a + b) =~= nodes_view(a) + nodes_view(b));
    }
}

/// Makes nodes of a run of tokens.
pub fn build(tokens: Vec<MarkupToken>) -> (r: Vec<ParsedNode>)
    ensures
        nodes_view(r@) == built(tokens_view(tokens@)),
{
    let ghost all = tokens_view(tokens@);
    let ghost n = tokens@.len();
    let mut frames: Vec<Vec<ParsedNode>> = Vec::new();
    frames.push(Vec::new());
    proof {
        assert(all.take(0) =~= Seq::<MarkupTokenView>::empty());
        assert(frames_view(frames@) =~= seq![Seq::<NodeView>::empty()]);
    }
    for token in it: tokens
        invariant
            n == all.len(),
            tokens_view(it.seq()) == all,
            frames@.len() >= 1,
            frames_view(frames@) == fed_all(seq![Seq::<NodeView>::empty()], all.take(it.index() as int)),
    {
        let ghost before = frames_view(frames@);
        let ghost i = it.index();
        proof {
            assert(token@ == all[i as int]);
            assert(all.take(i + 1).drop_last() =~= all.take(i as int));
            assert(all.take(i + 1).last() == all[i as int]);
        }
        match token {
            MarkupToken::Start(_) => {
                frames.push(Vec::new());
                proof {
                    assert(frames_view(frames@) =~= before.push(Seq::empty()));
                }
            },
            MarkupToken::End(name) => {
                if frames.len() > 1 {
                    let content = match frames.pop() {
                        Some(c) => c,
                        None => Vec::new(),
                    };
                    let mut top = match frames.pop() {
                        Some(t) => t,
                        None => Vec::new(),
                    };
                    let ghost top_before = top@;
                    let node = ParsedNode::Tag(name, content);
                    top.push(node);
                    frames.push(top);
                    proof {
                        lemma_nodes_view_push(top_before, node);
                        let rest = before.drop_last();
                        assert(before.last() == nodes_view(content@));
                        assert(rest.last() == nodes_view(top_before));
                        assert(frames_view(frames@) =~= rest.drop_last().push(
                            rest.last().push(NodeView::Tag(name@, before.last())),
                        ));
                    }
                }
            },
            MarkupToken::Text(text) => {
                let mut top = match frames.pop() {
                    Some(t) => t,
                    None => Vec::new(),
                };
                let ghost top_before = top@;
                let node = ParsedNode::Text(text);
                top.push(node);
                frames.push(top);
                proof {
                    lemma_nodes_view_push(top_before, node);
                    assert(before.last() == nodes_view(top_before));
                    assert(frames_view(frames@) =~= before.drop_last().push(
                        before.last().push(NodeView::Text(text@)),
                    ));
                }
            },
            MarkupToken::Other => {},
        }
    }
    proof {
        assert(all.take(n as int) =~= all);
    }
    let ghost done = frames@;
    frames.truncate(1);
    let r = match frames.pop() {
        Some(nodes) => nodes,
        None => Vec::new(),
    };
    proof {
        assert(frames_view(done)[0] == nodes_view(done[0]@));
    }
    r
}

/// Replaces every tag of the wrapper's name by what it holds.
pub fn unwrap_wrapper(nodes: Vec<ParsedNode>) -> (r: Vec<ParsedNode>)
    ensures
        nodes_view(r@) == unwrapped(nodes_view(nodes@)),
{
    let ghost all = nodes@;
    let ghost n = nodes@.len();
    let mut out: Vec<ParsedNode> = Vec::new();
    proof {
        assert(all.take(0) =~= Seq::<ParsedNode>::empty());
    }
    for node in it: nodes
        invariant
            n == all.len(),
            it.seq() == all,
            nodes_view(out@) == unwrapped(nodes_view(all.take(it.index() as int))),
    {
        let ghost out_before = out@;
        let ghost i = it.index();
        proof {
            assert(node == all[i as int]);
            assert(all.take(i + 1) =~= all.take(i as int).push(node));
            lemma_nodes_view_push(all.take(i as int), node);
            assert(nodes_view(all.take(i + 1)).drop_last() =~= nodes_view(all.take(i as int)));
        }
        match node {
            ParsedNode::Tag(name, content) => {
                if str_eq(name.as_str(), "_wrapper_") {
                    let mut content = content;
                    let ghost inner = content@;
                    out.append(&mut content);
                    proof {
                        lemma_nodes_view_add(out_before, inner);
                    }
                } else {
                    let kept = ParsedNode::Tag(name, content);
                    out.push(kept);
                    proof {
                        lemma_nodes_view_push(out_before, kept);
                        assert(nodes_view(out_before).push(node_view(kept)) =~= nodes_view(out_before)
                            + seq![node_view(kept)]);
                    }
                }
            },
            ParsedNode::Text(text) => {
                let kept = ParsedNode::Text(text);
                out.push(kept);
                proof {
                    lemma_nodes_view_push(out_before, kept);
                    assert(nodes_view(out_before).push(node_view(kept)) =~= nodes_view(out_before)
                        + seq![node_view(kept)]);
                }
            },
        }
    }
    proof {
        assert(all.take(n as int) =~= all);
    }
    out
}

fn begins_nowhere(v: &Vec<char>, pattern: &str) -> (r: bool)
    ensures
        r == !occurs_in(v@, pattern@),
{
    let p = chars_of(pattern);
    assert(v@.skip(0) =~= v@);
    find_from(v, 0, &p) >= v.len()
}

/// Says whether the tokenizer can be trusted with a text.
pub fn is_safe_markup(text: &str) -> (r: bool)
    ensures
        r == tokenizes_safely(text@),
{
    let v = chars_of(text);
    let mut i: usize = 0;
    while i < v.len()
        invariant
            i <= v@.len(),
            v@ == text@,
            forall|j: int| 0 <= j < i && #[trigger] v@[j] == '>' ==> two_bytes_back_is_whole(v@, j),
        decreases v@.len() - i,
    {
        if v[i] == '>' && i > 0 {
            let before = v[i - 1];
            let whole = if '\u{80}' <= before && before <= '\u{7ff}' {
                true
            } else if before <= '\u{7f}' {
                i == 1 || v[i - 2] <= '\u{7f}'
            } else {
                false
            };
            if !whole {
                assert(!two_bytes_back_is_whole(v@, i as int));
                return false;
            }
        }
        i += 1;
    }
    begins_nowhere(&v, "<!--[if") && begins_nowhere(&v, "<![if") && begins_nowhere(&v, "<![endif")
}

/// Takes a themed text apart into its nodes. A text that the tokenizer
/// cannot be trusted with is handed back as one node of plain text.
pub fn parse(string: &str) -> (r: Vec<ParsedNode>)
    ensures
        nodes_view(r@) == parsed(string@),
{
    let a = concat("<_wrapper_>", string);
    let text = concat(a.as_str(), "</_wrapper_>");
    if is_safe_markup(text.as_str()) {
        let tokens = tokenize(text.as_str());
        unwrap_wrapper(build(tokens))
    } else {
        let mut nodes: Vec<ParsedNode> = Vec::new();
        let node = ParsedNode::Text(string.to_owned());
        nodes.push(node);
        proof {
            lemma_nodes_view_push(Seq::<ParsedNode>::empty(), node);
            assert(Seq::<ParsedNode>::empty().push(node) =~= nodes@);
            assert(nodes_view(Seq::<ParsedNode>::empty()) =~= Seq::<NodeView>::empty());
            assert(nodes_view(nodes@) =~= seq![NodeView::Text(string@)]);
        }
        nodes
    }
}

/// A theme: a style for each tag of themed text. A tag that is put twice
/// has the style that was put last.
pub struct Theme(pub Vec<(String, Style)>);

/// The style that a theme has for a tag: that of the last entry under the
/// tag's name, and the style that paints nothing where there is none.
pub open spec fn style_at(entries: Seq<(String, Style)>, tag: Seq<char>) -> Seq<StyleItem>
    decreases entries.len(),
{
    if entries.len() == 0 {
        Seq::empty()
    } else if entries.last().0@ == tag {
        entries.last().1.0@
    } else {
        style_at(entries.drop_last(), tag)
    }
}

/// Whether a theme has a style for a tag.
pub open spec fn has_style(entries: Seq<(String, Style)>, tag: Seq<char>) -> bool {
    exists|i: int| 0 <= i < entries.len() && (#[trigger] entries[i]).0@ == tag
}

/// Whether no style of a theme paints anything.
pub open spec fn paints_nothing(entries: Seq<(String, Style)>) -> bool {
    forall|i: int| 0 <= i < entries.len() ==> paints_of((#[trigger] entries[i]).1.0@).len() == 0
}

/// The text of a node without its tags.
pub open spec fn node_text(n: NodeView) -> Seq<char>
    decreases n, 0nat,
{
    match n {
        NodeView::Text(t) => t,
        NodeView::Tag(_, children) => nodes_text(children),
    }
}

/// The text of a run of nodes without their tags.
pub open spec fn nodes_text(s: Seq<NodeView>) -> Seq<char>
    decreases s, s.len(),
{
    if s.len() == 0 {
        Seq::empty()
    } else {
        nodes_text(s.drop_last()) + node_text(s.last())
    }
}

/// In a theme that paints nothing, the style of every tag paints nothing.
pub proof fn lemma_plain_theme(entries: Seq<(String, Style)>, tag: Seq<char>)
    requires
        paints_nothing(entries),
    ensures
        paints_of(style_at(entries, tag)).len() == 0,
    decreases entries.len(),
{
    if entries.len() > 0 {
        if entries.last().0@ == tag {
            assert(entries[entries.len() - 1].1.0@ == entries.last().1.0@);
        } else {
            assert forall|i: int| 0 <= i < entries.drop_last().len() implies paints_of(
                (#[trigger] entries.drop_last()[i]).1.0@,
            ).len() == 0 by {
                assert(entries.drop_last()[i] == entries[i]);
            }
            lemma_plain_theme(entries.drop_last(), tag);
        }
    }
}

impl Theme {
    /// The theme of the given styles, put in their order.
    pub fn new(map: Vec<(String, Vec<StyleItem>)>) -> (r: Theme)
        ensures
            r.0@.len() == map@.len(),
            forall|i: int|
                0 <= i < map@.len() ==> (#[trigger] r.0@[i]).0@ == map@[i].0@ && r.0@[i].1.0@ == map@[i].1@,
    {
        let ghost all = map@;
        let mut theme = Theme(Vec::new());
        for entry in it: map
            invariant
                it.seq() == all,
                theme.0@.len() == it.index(),
                forall|i: int|
                    0 <= i < it.index() ==> (#[trigger] theme.0@[i]).0@ == all[i].0@ && theme.0@[i].1.0@
                        == all[i].1@,
        {
            let ghost before = theme.0@;
            let (key, items) = entry;
            theme.insert(key.as_str(), Style(items));
            proof {
                assert(theme.0@.drop_last() == before);
                assert forall|i: int| 0 <= i < it.index() + 1 implies (#[trigger] theme.0@[i]).0@
                    == all[i].0@ && theme.0@[i].1.0@ == all[i].1@ by {
                    if i < it.index() {
                        assert(theme.0@[i] == theme.0@.drop_last()[i]);
                    }
                }
            }
        }
        theme
    }

    /// Puts a style under a tag's name.
    pub fn insert(&mut self, key: &str, style: Style)
        ensures
            final(self).0@.len() == old(self).0@.len() + 1,
            final(self).0@.drop_last() == old(self).0@,
            final(self).0@.last().0@ == key@,
            final(self).0@.last().1 == style,
            style_at(final(self).0@, key@) == style.0@,
            has_style(final(self).0@, key@),
    {
        let ghost before = self.0@;
        self.0.push((key.to_string(), style));
        proof {
            assert(self.0@.drop_last() =~= before);
            assert(self.0@[self.0@.len() - 1].0@ == key@);
        }
    }

    /// Whether the theme has a style for a tag.
    pub fn contains_key(&self, key: &str) -> (r: bool)
        ensures
            r == has_style(self.0@, key@),
    {
        let mut i: usize = 0;
        while i < self.0.len()
            invariant
                i <= self.0@.len(),
                forall|j: int| 0 <= j < i ==> (#[trigger] self.0@[j]).0@ != key@,
            decreases self.0@.len() - i,
        {
            if str_eq(self.0[i].0.as_str(), key) {
                return true;
            }
            i += 1;
        }
        false
    }

    /// The style that the theme has for a tag; the style that paints
    /// nothing where it has none.
    pub fn style_of(&self, tag: &str) -> (r: Style)
        ensures
            r.0@ == style_at(self.0@, tag@),
    {
        let mut i: usize = self.0.len();
        proof {
            assert(self.0@.take(i as int) =~= self.0@);
        }
        while i > 0
            invariant
                i <= self.0@.len(),
                style_at(self.0@, tag@) == style_at(self.0@.take(i as int), tag@),
            decreases i,
        {
            proof {
                assert(self.0@.take(i as int).last() == self.0@[i - 1]);
                assert(self.0@.take(i as int).drop_last() =~= self.0@.take(i - 1));
            }
            if str_eq(self.0[i - 1].0.as_str(), tag) {
                return self.0[i - 1].1.clone();
            }
            i -= 1;
        }
        Style::empty()
    }

    /// Lays the theme over a node: a text gets the style `parent` of what
    /// it stands in; a tag gets that style and then its own, over its
    /// children, each of which was given the tag's own style. Where
    /// neither the theme nor `parent` paints anything, the result is the
    /// node's text.
    pub fn apply_node(&self, node: &ParsedNode, parent: &Style) -> (r: String)
        ensures
            paints_nothing(self.0@) && paints_of(parent.0@).len() == 0 ==> r@ == node_text(node_view(*node)),
        decreases node,
    {
        match node {
            ParsedNode::Text(text) => parent.apply_to(text.as_str()),
            ParsedNode::Tag(tag, children) => {
                let node_style = self.style_of(tag.as_str());
                let mut styled = String::new();
                let mut i: usize = 0;
                proof {
                    assert(nodes_view(children@.take(0)) =~= Seq::<NodeView>::empty());
                    if paints_nothing(self.0@) {
                        lemma_plain_theme(self.0@, tag@);
                    }
                }
                while i < children.len()
                    invariant
                        i <= children@.len(),
                        *node == ParsedNode::Tag(*tag, *children),
                        paints_nothing(self.0@) ==> paints_of(node_style.0@).len() == 0,
                        paints_nothing(self.0@) ==> styled@ == nodes_text(
                            nodes_view(children@.take(i as int)),
                        ),
                    decreases children@.len() - i,
                {
                    proof {
                        vstd::std_specs::vec::axiom_vec_index_decreases(*children, i as int);
                        assert(decreases_to!(*children => children[i as int]));
                        assert(node->Tag_1 == *children);
                        assert(decreases_to!(*node => node->Tag_1));
                    }
                    let piece = self.apply_node(&children[i], &node_style);
                    proof {
                        lemma_nodes_view_push(children@.take(i as int), children@[i as int]);
                        assert(children@.take(i + 1) =~= children@.take(i as int).push(children@[i as int]));
                        assert(nodes_view(children@.take(i + 1)).drop_last() =~= nodes_view(
                            children@.take(i as int),
                        ));
                    }
                    styled = concat(styled.as_str(), piece.as_str());
                    i += 1;
                }
                proof {
                    assert(children@.take(children@.len() as int) =~= children@);
                    lemma_paints_of_add(parent.0@, node_style.0@);
                }
                parent.merge(&node_style).apply_to(styled.as_str())
            },
        }
    }

    /// Lays the theme over a themed text: over each of its nodes, one
    /// after the other. Where the theme paints nothing, the result is the
    /// text without its tags.
    pub fn apply(&self, text: &str) -> (r: String)
        ensures
            paints_nothing(self.0@) ==> r@ == nodes_text(parsed(text@)),
    {
        let nodes = parse(text);
        let plain = Style::empty();
        let mut styled = String::new();
        let mut i: usize = 0;
        proof {
            assert(nodes_view(nodes@.take(0)) =~= Seq::<NodeView>::empty());
        }
        while i < nodes.len()
            invariant
                i <= nodes@.len(),
                plain.0@.len() == 0,
                paints_nothing(self.0@) ==> styled@ == nodes_text(nodes_view(nodes@.take(i as int))),
            decreases nodes@.len() - i,
        {
            let piece = self.apply_node(&nodes[i], &plain);
            proof {
                lemma_nodes_view_push(nodes@.take(i as int), nodes@[i as int]);
                assert(nodes@.take(i + 1) =~= nodes@.take(i as int).push(nodes@[i as int]));
                assert(nodes_view(nodes@.take(i + 1)).drop_last() =~= nodes_view(nodes@.take(i as int)));
            }
            styled = concat(styled.as_str(), piece.as_str());
            i += 1;
        }
        proof {
            assert(nodes@.take(nodes@.len() as int) =~= nodes@);
        }
        styled
    }
}

} // verus!
