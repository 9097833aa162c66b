//! The syntax tree of a document: kinded nodes over tokens that carry every
//! character of the source, whitespace and comments included.

use crate::text::{copy_chars, string_of};
use vstd::prelude::*;

verus! {

/// The kinds of syntax element that the editor tells apart.
#[derive(Clone, Copy, Debug, PartialEq, Eq, Structural)]
pub enum SyntaxKind {
    /// A token of blanks and line breaks.
    Whitespace,
    /// The root of a parsed text.
    Root,
    /// A function, `param: body`.
    Lambda,
    /// A set pattern, `{ a, b }`.
    Pattern,
    /// An attribute set, `{ key = value; }`.
    AttrSet,
    /// One `key = value;` member of an attribute set.
    AttrpathValue,
    /// A list, `[ a b ]`.
    List,
    /// A function application, `f x`.
    Apply,
    /// An attribute selection, `a.b.c`.
    Select,
    /// Any other kind, with the parser's own number for it.
    Other(u16),
}

/// The number that the parser gives to a kind.
pub uninterp spec fn syntax_kind_code(kind: SyntaxKind) -> u16;

/// Reads the discriminant of `rnix::SyntaxKind` for a kind. Trusted: the
/// result is the parser's number for that kind, the same on every call, and
/// an unnamed kind keeps the number it carries.
#[verifier::external_body]
fn kind_code(kind: SyntaxKind) -> (code: u16)
    ensures
        code == syntax_kind_code(kind),
        kind matches SyntaxKind::Other(raw) ==> code == raw,
{
    match kind {
        SyntaxKind::Whitespace => rnix::SyntaxKind::TOKEN_WHITESPACE as u16,
        SyntaxKind::Root => rnix::SyntaxKind::NODE_ROOT as u16,
        SyntaxKind::Lambda => rnix::SyntaxKind::NODE_LAMBDA as u16,
        SyntaxKind::Pattern => rnix::SyntaxKind::NODE_PATTERN as u16,
        SyntaxKind::AttrSet => rnix::SyntaxKind::NODE_ATTR_SET as u16,
        SyntaxKind::AttrpathValue => rnix::SyntaxKind::NODE_ATTRPATH_VALUE as u16,
        SyntaxKind::List => rnix::SyntaxKind::NODE_LIST as u16,
        SyntaxKind::Apply => rnix::SyntaxKind::NODE_APPLY as u16,
        SyntaxKind::Select => rnix::SyntaxKind::NODE_SELECT as u16,
        SyntaxKind::Other(raw) => raw,
    }
}

/// The kind that a parser number stands for.
pub open spec fn kind_of_raw(raw: u16) -> SyntaxKind {
    if raw == syntax_kind_code(SyntaxKind::Whitespace) {
        SyntaxKind::Whitespace
    } else if raw == syntax_kind_code(SyntaxKind::Root) {
        SyntaxKind::Root
    } else if raw == syntax_kind_code(SyntaxKind::Lambda) {
        SyntaxKind::Lambda
    } else if raw == syntax_kind_code(SyntaxKind::Pattern) {
        SyntaxKind::Pattern
    } else if raw == syntax_kind_code(SyntaxKind::AttrSet) {
        SyntaxKind::AttrSet
    } else if raw == syntax_kind_code(SyntaxKind::AttrpathValue) {
        SyntaxKind::AttrpathValue
    } else if raw == syntax_kind_code(SyntaxKind::List) {
        SyntaxKind::List
    } else if raw == syntax_kind_code(SyntaxKind::Apply) {
        SyntaxKind::Apply
    } else if raw == syntax_kind_code(SyntaxKind::Select) {
        SyntaxKind::Select
    } else {
        SyntaxKind::Other(raw)
    }
}

/// Names the kind of a parser number.
pub fn kind_of(raw: u16) -> (kind: SyntaxKind)
    ensures
        kind == kind_of_raw(raw),
{
    if raw == kind_code(SyntaxKind::Whitespace) {
        SyntaxKind::Whitespace
    } else if raw == kind_code(SyntaxKind::Root) {
        SyntaxKind::Root
    } else if raw == kind_code(SyntaxKind::Lambda) {
        SyntaxKind::Lambda
    } else if raw == kind_code(SyntaxKind::Pattern) {
        SyntaxKind::Pattern
    } else if raw == kind_code(SyntaxKind::AttrSet) {
        SyntaxKind::AttrSet
    } else if raw == kind_code(SyntaxKind::AttrpathValue) {
        SyntaxKind::AttrpathValue
    } else if raw == kind_code(SyntaxKind::List) {
        SyntaxKind::List
    } else if raw == kind_code(SyntaxKind::Apply) {
        SyntaxKind::Apply
    } else if raw == kind_code(SyntaxKind::Select) {
        SyntaxKind::Select
    } else {
        SyntaxKind::Other(raw)
    }
}

/// The mathematical model of a syntax element.
pub enum Syntax {
    /// A leaf with its source characters.
    Token { raw: u16, text: Seq<char> },
    /// An inner node with its children in document order.
    Node { raw: u16, children: Seq<Syntax> },
}

impl Syntax {
    /// The parser's number for the element's kind.
    pub open spec fn raw(self) -> u16 {
        match self {
            Syntax::Token { raw, .. } => raw,
            Syntax::Node { raw, .. } => raw,
        }
    }

    /// The element's kind.
    pub open spec fn kind(self) -> SyntaxKind {
        kind_of_raw(self.raw())
    }

    /// The children of a node; a token has none.
    pub open spec fn children(self) -> Seq<Syntax> {
        match self {
            Syntax::Token { .. } => Seq::empty(),
            Syntax::Node { children, .. } => children,
        }
    }

    /// The source characters that the element covers.
    pub open spec fn text(self) -> Seq<char>
        decreases self, 0nat,
    {
        match self {
            Syntax::Token { text, .. } => text,
            Syntax::Node { children, .. } => texts(children),
        }
    }

    /// The child nodes, tokens left out, in document order.
    pub open spec fn child_nodes(self) -> Seq<Syntax> {
        nodes_of(self.children())
    }

    /// The source text of each child node, in document order.
    pub open spec fn child_texts(self) -> Seq<Seq<char>> {
        self.child_nodes().map_values(|child: Syntax| child.text())
    }
}

/// The concatenated source characters of a run of elements.
pub open spec fn texts(items: Seq<Syntax>) -> Seq<char>
    decreases items, 1nat,
{
    if items.len() == 0 {
        Seq::empty()
    } else {
        texts(items.drop_last()) + items.last().text()
    }
}

/// The nodes among a run of elements, in order.
pub open spec fn nodes_of(items: Seq<Syntax>) -> Seq<Syntax>
    decreases items.len(),
{
    if items.len() == 0 {
        Seq::empty()
    } else if items.last() is Node {
        nodes_of(items.drop_last()).push(items.last())
    } else {
        nodes_of(items.drop_last())
    }
}

/// The position, among `items`, of the node that `skip` nodes precede,
/// looking from `from` on.
pub open spec fn node_position(items: Seq<Syntax>, from: int, skip: nat) -> Option<int>
    decreases items.len() - from,
{
    if from < 0 || from >= items.len() {
        None
    } else if !(items[from] is Node) {
        node_position(items, from + 1, skip)
    } else if skip == 0 {
        Some(from)
    } else {
        node_position(items, from + 1, (skip - 1) as nat)
    }
}

/// A leaf of the tree.
pub struct SyntaxToken {
    pub raw: u16,
    pub text: Vec<char>,
}

/// An inner node of the tree.
pub struct SyntaxNode {
    pub raw: u16,
    pub children: Vec<SyntaxElement>,
}

/// A child of a node.
pub enum SyntaxElement {
    Node(SyntaxNode),
    Token(SyntaxToken),
}

impl View for SyntaxToken {
    type V = Syntax;

    open spec fn view(&self) -> Syntax {
        Syntax::Token { raw: self.raw, text: self.text@ }
    }
}

impl View for SyntaxNode {
    type V = Syntax;

    open spec fn view(&self) -> Syntax
        decreases self,
    {
        Syntax::Node { raw: self.raw, children: views(self.children@) }
    }
}

impl View for SyntaxElement {
    type V = Syntax;

    open spec fn view(&self) -> Syntax
        decreases self,
    {
        match self {
            SyntaxElement::Node(node) => node@,
            SyntaxElement::Token(token) => token@,
        }
    }
}

/// The models of a run of elements.
pub open spec fn views(items: Seq<SyntaxElement>) -> Seq<Syntax>
    decreases items,
{
    Seq::new(
        items.len(),
        |i: int|
            if 0 <= i < items.len() {
                items[i]@
            } else {
                arbitrary()
            },
    )
}

/// The models of a run of nodes.
pub open spec fn node_views(nodes: Seq<SyntaxNode>) -> Seq<Syntax> {
    nodes.map_values(|node: SyntaxNode| node@)
}

/// The children of a node's model are the models of its children.
pub broadcast proof fn lemma_children(node: SyntaxNode)
    ensures
        #[trigger] node@.children() == views(node.children@),
        node@ is Node,
        node@.raw() == node.raw,
{
}

/// The models of a run of elements, one by one.
pub broadcast proof fn lemma_views(items: Seq<SyntaxElement>)
    ensures
        (#[trigger] views(items)).len() == items.len(),
        forall|i: int| 0 <= i < items.len() ==> (#[trigger] views(items)[i]) == items[i]@,
{
}

/// The model of an element is that of the node or token it holds.
pub broadcast proof fn lemma_element(element: SyntaxElement)
    ensures
        #[trigger] element@ == match element {
            SyntaxElement::Node(node) => node@,
            SyntaxElement::Token(token) => token@,
        },
        element is Node <==> element@ is Node,
{
}

/// The model of a node's child is the child of the node's model.
pub proof fn lemma_child(node: SyntaxNode, at: int)
    requires
        0 <= at < node.children.len(),
    ensures
        node@ is Node,
        node@.children().len() == node.children.len(),
        node@.children()[at] == node.children[at]@,
        node@.children()[at] is Node <==> node.children[at] is Node,
        node.children[at]@ == match node.children[at] {
            SyntaxElement::Node(child) => child@,
            SyntaxElement::Token(child) => child@,
        },
{
    broadcast use group_syntax_views;

}

pub broadcast group group_syntax_views {
    lemma_children,
    lemma_views,
    lemma_element,
}

/// The text of a run that grew by one element grows by that element's text.
pub proof fn lemma_texts_push(items: Seq<Syntax>, last: Syntax)
    ensures
        texts(items.push(last)) == texts(items) + last.text(),
{
    assert(items.push(last).drop_last() =~= items);
}

/// The text of two runs laid end to end is the two texts laid end to end.
pub proof fn lemma_texts_concat(left: Seq<Syntax>, right: Seq<Syntax>)
    ensures
        texts(left + right) == texts(left) + texts(right),
    decreases right.len(),
{
    if right.len() > 0 {
        lemma_texts_concat(left, right.drop_last());
        assert((left + right).drop_last() =~= left + right.drop_last());
    }
}

/// The text of a run of elements, split at one of them.
pub proof fn lemma_texts_split(items: Seq<Syntax>, at: int)
    requires
        0 <= at < items.len(),
    ensures
        texts(items) == texts(items.take(at)) + items[at].text() + texts(items.skip(at + 1)),
{
    lemma_texts_concat(items.take(at + 1), items.skip(at + 1));
    assert(items.take(at + 1) + items.skip(at + 1) =~= items);
    lemma_texts_push(items.take(at), items[at]);
    assert(items.take(at + 1) =~= items.take(at).push(items[at]));
}

/// The nodes of two runs laid end to end are the nodes of each, in order.
pub proof fn lemma_nodes_concat(left: Seq<Syntax>, right: Seq<Syntax>)
    ensures
        nodes_of(left + right) == nodes_of(left) + nodes_of(right),
    decreases right.len(),
{
    if right.len() > 0 {
        lemma_nodes_concat(left, right.drop_last());
        assert((left + right).drop_last() =~= left + right.drop_last());
    }
}

impl SyntaxToken {
    /// The token's kind.
    pub fn kind(&self) -> (kind: SyntaxKind)
        ensures
            kind == self@.kind(),
    {
        kind_of(self.raw)
    }

    /// A copy of the token.
    pub fn duplicate(&self) -> (copy: SyntaxToken)
        ensures
            copy@ == self@,
    {
        SyntaxToken { raw: self.raw, text: copy_chars(&self.text) }
    }

    /// The token's source text.
    pub fn text(&self) -> (text: String)
        ensures
            text@ == self@.text(),
    {
        string_of(&self.text)
    }

    /// The token's source text.
    pub fn to_string(&self) -> (text: String)
        ensures
            text@ == self@.text(),
    {
        string_of(&self.text)
    }
}

impl SyntaxElement {
    /// A copy of the element.
    pub fn duplicate(&self) -> (copy: SyntaxElement)
        ensures
            copy@ == self@,
        decreases self,
    {
        match self {
            SyntaxElement::Node(node) => SyntaxElement::Node(node.duplicate()),
            SyntaxElement::Token(token) => SyntaxElement::Token(token.duplicate()),
        }
    }

    /// Appends the element's source characters to `out`.
    pub fn write_text(&self, out: &mut Vec<char>)
        ensures
            final(out)@ == old(out)@ + self@.text(),
        decreases self,
    {
        match self {
            SyntaxElement::Node(node) => node.write_text(out),
            SyntaxElement::Token(token) => {
                let mut i: usize = 0;
                while i < token.text.len()
                    invariant
                        i <= token.text.len(),
                        out@ == old(out)@ + token.text@.take(i as int),
                    decreases token.text.len() - i,
                {
                    out.push(token.text[i]);
                    i += 1;
                }
            },
        }
    }
}

impl SyntaxNode {
    /// The node's kind.
    pub fn kind(&self) -> (kind: SyntaxKind)
        ensures
            kind == self@.kind(),
    {
        kind_of(self.raw)
    }

    /// A copy of the node and of everything below it.
    pub fn duplicate(&self) -> (copy: SyntaxNode)
        ensures
            copy@ == self@,
        decreases self,
    {
        broadcast use group_syntax_views;

        let mut children: Vec<SyntaxElement> = Vec::new();
        let mut i: usize = 0;
        while i < self.children.len()
            invariant
                i <= self.children.len(),
                views(children@) == views(self.children@).take(i as int),
            decreases self.children.len() - i,
        {
            let child = self.children[i].duplicate();
            let ghost before = children@;
            children.push(child);
            i += 1;
            assert(views(children@) =~= views(before).push(child@));
        }
        assert(views(self.children@).take(i as int) =~= views(self.children@));
        SyntaxNode { raw: self.raw, children }
    }

    /// Appends the node's source characters to `out`.
    pub fn write_text(&self, out: &mut Vec<char>)
        ensures
            final(out)@ == old(out)@ + self@.text(),
        decreases self,
    {
        broadcast use group_syntax_views;

        let mut i: usize = 0;
        while i < self.children.len()
            invariant
                i <= self.children.len(),
                out@ == old(out)@ + texts(views(self.children@).take(i as int)),
            decreases self.children.len() - i,
        {
            self.children[i].write_text(out);
            proof {
                let all = views(self.children@);
                lemma_texts_push(all.take(i as int), all[i as int]);
                assert(all.take(i + 1) =~= all.take(i as int).push(all[i as int]));
            }
            i += 1;
        }
        assert(views(self.children@).take(i as int) =~= views(self.children@));
    }

    /// The node's source characters.
    pub fn chars(&self) -> (text: Vec<char>)
        ensures
            text@ == self@.text(),
    {
        let mut text: Vec<char> = Vec::new();
        self.write_text(&mut text);
        text
    }

    /// The node's source text.
    pub fn text(&self) -> (text: String)
        ensures
            text@ == self@.text(),
    {
        string_of(&self.chars())
    }

    /// The node's source text.
    pub fn to_string(&self) -> (text: String)
        ensures
            text@ == self@.text(),
    {
        string_of(&self.chars())
    }

    /// Copies of the child nodes, tokens left out, in document order.
    pub fn children(&self) -> (nodes: Vec<SyntaxNode>)
        ensures
            node_views(nodes@) == self@.child_nodes(),
    {
        broadcast use group_syntax_views;

        let mut nodes: Vec<SyntaxNode> = Vec::new();
        let mut i: usize = 0;
        let ghost items = self@.children();
        while i < self.children.len()
            invariant
                i <= self.children.len(),
                items == self@.children(),
                items.len() == self.children.len(),
                node_views(nodes@) == nodes_of(items.take(i as int)),
            decreases self.children.len() - i,
        {
            proof {
                lemma_child(*self, i as int);
                assert(items.take(i + 1).drop_last() =~= items.take(i as int));
            }
            match &self.children[i] {
                SyntaxElement::Node(child) => {
                    let copy = child.duplicate();
                    nodes.push(copy);
                },
                SyntaxElement::Token(_) => {},
            }
            i += 1;
        }
        assert(items.take(i as int) =~= items);
        nodes
    }

    /// The child node that `index` child nodes precede, with its position
    /// among the children.
    pub fn nth_child(&self, index: usize) -> (found: Option<(usize, &SyntaxNode)>)
        ensures
            match found {
                Some((at, child)) => node_position(self@.children(), 0, index as nat) == Some(
                    at as int,
                ) && at < self.children.len() && self@.children()[at as int] == child@
                    && self.children[at as int] == SyntaxElement::Node(*child),
                None => node_position(self@.children(), 0, index as nat) is None,
            },
    {
        broadcast use group_syntax_views;

        let mut at: usize = 0;
        let mut skip: usize = index;
        while at < self.children.len()
            invariant
                at <= self.children.len(),
                node_position(self@.children(), 0, index as nat) == node_position(
                    self@.children(),
                    at as int,
                    skip as nat,
                ),
            decreases self.children.len() - at,
        {
            proof {
                lemma_child(*self, at as int);
            }
            match &self.children[at] {
                SyntaxElement::Node(child) => {
                    if skip == 0 {
                        return Some((at, child));
                    }
                    skip -= 1;
                },
                SyntaxElement::Token(_) => {},
            }
            at += 1;
        }
        None
    }

    /// The child node at a position, if a node stands there.
    pub fn child_node(&self, at: usize) -> (child: Option<&SyntaxNode>)
        ensures
            match child {
                Some(node) => at < self.children.len() && self.children[at as int]
                    == SyntaxElement::Node(*node) && self@.children()[at as int] == node@,
                None => at >= self.children.len() || !(self@.children()[at as int] is Node),
            },
    {
        broadcast use group_syntax_views;

        if at >= self.children.len() {
            return None;
        }
        match &self.children[at] {
            SyntaxElement::Node(node) => Some(node),
            SyntaxElement::Token(_) => None,
        }
    }
}

} // verus!
