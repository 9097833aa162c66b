//! From source text to a syntax tree. The Nix grammar is the parser crate's;
//! this module reads the parser's walk over its tree and rebuilds the tree
//! from it. A text that is longer than the parser can measure is not
//! handed to it.

use crate::syntax::{
    group_syntax_views, lemma_texts_concat, lemma_texts_push, texts, views, Syntax, SyntaxElement,
    SyntaxNode, SyntaxToken,
};
use crate::text::copy_chars;
use vstd::prelude::*;
use vstd::string::StrSliceExecFns;

verus! {

broadcast use group_syntax_views;

/// The mathematical model of one step of the parser's walk over its tree.
pub enum Event {
    /// The walk enters a node of the given kind.
    Open(u16),
    /// The walk enters a token of the given kind and text.
    Token(u16, Seq<char>),
    /// The walk leaves the token it entered last.
    TokenEnd,
    /// The walk leaves the innermost open node.
    Close,
}

/// One step of the parser's walk over its tree.
pub enum SyntaxEvent {
    Open(u16),
    Token(u16, Vec<char>),
    TokenEnd,
    Close,
}

impl View for SyntaxEvent {
    type V = Event;

    open spec fn view(&self) -> Event {
        match self {
            SyntaxEvent::Open(raw) => Event::Open(*raw),
            SyntaxEvent::Token(raw, text) => Event::Token(*raw, text@),
            SyntaxEvent::TokenEnd => Event::TokenEnd,
            SyntaxEvent::Close => Event::Close,
        }
    }
}

/// The models of a run of steps.
pub open spec fn event_views(events: Seq<SyntaxEvent>) -> Seq<Event> {
    events.map_values(|event: SyntaxEvent| event@)
}

/// The characters that a run of steps passes over.
pub open spec fn event_text(events: Seq<Event>) -> Seq<char>
    decreases events.len(),
{
    if events.len() == 0 {
        Seq::empty()
    } else {
        event_text(events.drop_last()) + match events.last() {
            Event::Token(_, text) => text,
            _ => Seq::empty(),
        }
    }
}

/// The longest text that is parsed, in characters. The parser measures a
/// text in bytes, in 32 bits; a character takes four bytes at most.
pub const MAX_TEXT: usize = 0x3fff_ffff;

/// The walk of the Nix parser over the tree that it builds for a text.
pub uninterp spec fn nix_events(text: Seq<char>) -> Seq<Event>;

/// The number of syntax errors that the Nix parser reports for a text.
pub uninterp spec fn nix_error_count(text: Seq<char>) -> usize;

/// Parses `text` with `rnix::Root::parse`, walks the tree with
/// `preorder_with_tokens`, and counts what `errors` lists. Trusted: the walk
/// and the count depend on the text alone; the walk enters and leaves each
/// element below one root, so that it describes a tree; and its tokens, read
/// in order, spell the text (the parser keeps every character, also of text
/// that is no valid Nix). A longer text is kept out: the parser adds up
/// lengths in 32 bits and stops the program where they do not fit.
#[verifier::external_body]
fn parse_events(text: &str) -> (parsed: (Vec<SyntaxEvent>, usize))
    requires
        text@.len() <= MAX_TEXT,
    ensures
        event_views(parsed.0@) == nix_events(text@),
        event_text(event_views(parsed.0@)) == text@,
        tree_of(event_views(parsed.0@)) is Some,
        parsed.1 == nix_error_count(text@),
{
    let parsed = rnix::Root::parse(text);
    let walk = parsed.syntax().preorder_with_tokens().map(
        |event| match event {
            rnix::WalkEvent::Enter(rnix::NodeOrToken::Node(node)) => {
                SyntaxEvent::Open(node.kind() as u16)
            },
            rnix::WalkEvent::Enter(rnix::NodeOrToken::Token(token)) => {
                SyntaxEvent::Token(token.kind() as u16, token.text().chars().collect())
            },
            rnix::WalkEvent::Leave(rnix::NodeOrToken::Node(_)) => SyntaxEvent::Close,
            rnix::WalkEvent::Leave(rnix::NodeOrToken::Token(_)) => SyntaxEvent::TokenEnd,
        },
    );
    (walk.collect(), parsed.errors().len())
}

/// The walk over an element: into it, over its children, and out of it.
pub open spec fn events_of(item: Syntax) -> Seq<Event>
    decreases item, 0nat,
{
    match item {
        Syntax::Token { raw, text } => seq![Event::Token(raw, text), Event::TokenEnd],
        Syntax::Node { raw, children } => seq![Event::Open(raw)] + events_of_all(children)
            + seq![Event::Close],
    }
}

/// The walk over a run of elements, one after the other.
pub open spec fn events_of_all(items: Seq<Syntax>) -> Seq<Event>
    decreases items, 1nat,
{
    if items.len() == 0 {
        Seq::empty()
    } else {
        events_of(items[0]) + events_of_all(items.drop_first())
    }
}

/// The element that the steps from `pos` on describe, with the position
/// behind its last step.
pub open spec fn element_at(events: Seq<Event>, pos: int) -> Option<(Syntax, int)>
    decreases events.len() - pos, 0nat,
{
    if pos < 0 || pos >= events.len() {
        None
    } else {
        match events[pos] {
            Event::Token(raw, text) => {
                if pos + 1 < events.len() && events[pos + 1] is TokenEnd {
                    Some((Syntax::Token { raw, text }, pos + 2))
                } else {
                    None
                }
            },
            Event::Open(raw) => {
                match children_at(events, pos + 1) {
                    Some((children, end)) => {
                        if end < events.len() && events[end] is Close {
                            Some((Syntax::Node { raw, children }, end + 1))
                        } else {
                            None
                        }
                    },
                    None => None,
                }
            },
            _ => None,
        }
    }
}

/// The elements that the steps from `pos` on describe, up to the step that
/// closes their parent, with the position of that step.
pub open spec fn children_at(events: Seq<Event>, pos: int) -> Option<(Seq<Syntax>, int)>
    decreases events.len() - pos, 1nat,
{
    if pos < 0 || pos >= events.len() || events[pos] is Close || events[pos] is TokenEnd {
        Some((Seq::empty(), pos))
    } else {
        match element_at(events, pos) {
            Some((first, next)) => {
                if pos < next <= events.len() {
                    match children_at(events, next) {
                        Some((rest, end)) => Some((seq![first] + rest, end)),
                        None => None,
                    }
                } else {
                    None
                }
            },
            None => None,
        }
    }
}

/// The tree that a walk describes: one node, and nothing behind it.
pub open spec fn tree_of(events: Seq<Event>) -> Option<Syntax> {
    match element_at(events, 0) {
        Some((root, end)) => {
            if end == events.len() && root is Node {
                Some(root)
            } else {
                None
            }
        },
        None => None,
    }
}

/// The syntax tree of a text.
pub open spec fn syntax_tree(text: Seq<char>) -> Option<Syntax> {
    if text.len() <= MAX_TEXT {
        tree_of(nix_events(text))
    } else {
        None
    }
}

/// The syntax tree of a document: that of its text, where the parser
/// reports no syntax error in it.
pub open spec fn document_tree(text: Seq<char>) -> Option<Syntax> {
    if nix_error_count(text) == 0 {
        syntax_tree(text)
    } else {
        None
    }
}

/// `children` in front of what a rest of the walk describes.
pub open spec fn after(children: Seq<Syntax>, rest: Option<(Seq<Syntax>, int)>) -> Option<
    (Seq<Syntax>, int),
> {
    match rest {
        Some((more, end)) => Some((children + more, end)),
        None => None,
    }
}

/// Rebuilds the element that starts at `pos`.
fn build_element(events: &Vec<SyntaxEvent>, pos: usize) -> (built: Option<(SyntaxElement, usize)>)
    ensures
        match built {
            Some((element, end)) => element_at(event_views(events@), pos as int) == Some(
                (element@, end as int),
            ) && pos < end <= events.len(),
            None => element_at(event_views(events@), pos as int) is None,
        },
    decreases events.len() - pos, 0nat,
{
    if pos >= events.len() {
        return None;
    }
    match &events[pos] {
        SyntaxEvent::Token(raw, text) => {
            if pos + 1 < events.len() {
                match &events[pos + 1] {
                    SyntaxEvent::TokenEnd => Some(
                        (
                            SyntaxElement::Token(SyntaxToken { raw: *raw, text: copy_chars(text) }),
                            pos + 2,
                        ),
                    ),
                    _ => None,
                }
            } else {
                None
            }
        },
        SyntaxEvent::Open(raw) => {
            match build_children(events, pos + 1) {
                Some((children, end)) => {
                    if end < events.len() {
                        match &events[end] {
                            SyntaxEvent::Close => Some(
                                (SyntaxElement::Node(SyntaxNode { raw: *raw, children }), end + 1),
                            ),
                            _ => None,
                        }
                    } else {
                        None
                    }
                },
                None => None,
            }
        },
        _ => None,
    }
}

/// Rebuilds the elements from `start` up to the step that closes their parent.
fn build_children(events: &Vec<SyntaxEvent>, start: usize) -> (built: Option<
    (Vec<SyntaxElement>, usize),
>)
    requires
        start <= events.len(),
    ensures
        match built {
            Some((children, end)) => children_at(event_views(events@), start as int) == Some(
                (views(children@), end as int),
            ) && start <= end <= events.len(),
            None => children_at(event_views(events@), start as int) is None,
        },
    decreases events.len() - start, 1nat,
{
    let ghost all = event_views(events@);
    let mut children: Vec<SyntaxElement> = Vec::new();
    let mut pos: usize = start;
    assert(after(views(children@), children_at(all, pos as int)) == children_at(all, pos as int));
    loop
        invariant
            all == event_views(events@),
            start <= pos <= events.len(),
            children_at(all, start as int) == after(views(children@), children_at(all, pos as int)),
        decreases events.len() - pos,
    {
        if pos >= events.len() {
            return Some((children, pos));
        }
        match &events[pos] {
            SyntaxEvent::Close | SyntaxEvent::TokenEnd => {
                return Some((children, pos));
            },
            _ => {},
        }
        match build_element(events, pos) {
            Some((element, next)) => {
                children.push(element);
                pos = next;
            },
            None => {
                return None;
            },
        }
    }
}

/// Rebuilds the tree that a walk describes.
pub fn build_tree(events: &Vec<SyntaxEvent>) -> (tree: Option<SyntaxNode>)
    ensures
        match tree {
            Some(root) => tree_of(event_views(events@)) == Some(root@),
            None => tree_of(event_views(events@)) is None,
        },
{
    match build_element(events, 0) {
        Some((SyntaxElement::Node(root), end)) => {
            if end == events.len() {
                Some(root)
            } else {
                None
            }
        },
        _ => None,
    }
}

/// The tree of a text and the number of syntax errors in it. `None` for a
/// text of more than `MAX_TEXT` characters.
fn parse_counted(text: &str) -> (parsed: Option<(SyntaxNode, usize)>)
    ensures
        match parsed {
            Some((root, errors)) => syntax_tree(text@) == Some(root@) && root@.text() == text@
                && errors == nix_error_count(text@),
            None => syntax_tree(text@) is None,
        },
        parsed is Some <==> text@.len() <= MAX_TEXT,
{
    if text.unicode_len() > MAX_TEXT {
        return None;
    }
    let (events, errors) = parse_events(text);
    proof {
        lemma_tree_text(event_views(events@));
    }
    match build_tree(&events) {
        Some(root) => Some((root, errors)),
        None => None,
    }
}

/// Parses a text into its syntax tree, which holds every character of the
/// text, whether or not the text is valid. `None` for a text of more than
/// `MAX_TEXT` characters, and for no other.
pub fn parse(text: &str) -> (tree: Option<SyntaxNode>)
    ensures
        match tree {
            Some(root) => syntax_tree(text@) == Some(root@) && root@.text() == text@,
            None => syntax_tree(text@) is None,
        },
        tree is Some <==> text@.len() <= MAX_TEXT,
{
    match parse_counted(text) {
        Some((root, _)) => Some(root),
        None => None,
    }
}

/// Parses the text of a document into its syntax tree. `None` where the
/// parser reports a syntax error, and for a text of more than `MAX_TEXT`
/// characters.
pub fn parse_document(text: &str) -> (tree: Option<SyntaxNode>)
    ensures
        match tree {
            Some(root) => document_tree(text@) == Some(root@) && root@.text() == text@,
            None => document_tree(text@) is None,
        },
        tree is Some <==> text@.len() <= MAX_TEXT && nix_error_count(text@) == 0,
{
    match parse_counted(text) {
        Some((root, errors)) => if errors == 0 {
            Some(root)
        } else {
            None
        },
        None => None,
    }
}

/// The characters that two runs of steps pass over, one behind the other.
pub proof fn lemma_event_text_concat(left: Seq<Event>, right: Seq<Event>)
    ensures
        event_text(left + right) == event_text(left) + event_text(right),
    decreases right.len(),
{
    if right.len() > 0 {
        lemma_event_text_concat(left, right.drop_last());
        assert((left + right).drop_last() =~= left + right.drop_last());
    }
}

/// The characters that one step passes over.
pub open spec fn step_text(event: Event) -> Seq<char> {
    match event {
        Event::Token(_, text) => text,
        _ => Seq::empty(),
    }
}

/// The characters that a run of one step passes over.
pub proof fn lemma_event_text_one(event: Event)
    ensures
        event_text(seq![event]) == step_text(event),
{
    assert(seq![event].drop_last() =~= Seq::<Event>::empty());
    assert(event_text(Seq::<Event>::empty()) =~= Seq::<char>::empty());
}

/// The text of an element is what the steps that describe it pass over.
pub proof fn lemma_element_text(events: Seq<Event>, pos: int)
    requires
        element_at(events, pos) is Some,
    ensures
        pos < element_at(events, pos).unwrap().1 <= events.len(),
        element_at(events, pos).unwrap().0.text() == event_text(
            events.subrange(pos, element_at(events, pos).unwrap().1),
        ),
    decreases events.len() - pos, 0nat,
{
    let end = element_at(events, pos).unwrap().1;
    match events[pos] {
        Event::Token(raw, text) => {
            lemma_event_text_one(events[pos]);
            lemma_event_text_one(events[pos + 1]);
            lemma_event_text_concat(seq![events[pos]], seq![events[pos + 1]]);
            assert(events.subrange(pos, end) =~= seq![events[pos]] + seq![events[pos + 1]]);
        },
        Event::Open(raw) => {
            lemma_children_text(events, pos + 1);
            let inner = children_at(events, pos + 1).unwrap().1;
            lemma_event_text_one(events[pos]);
            lemma_event_text_one(events[inner]);
            lemma_event_text_concat(seq![events[pos]], events.subrange(pos + 1, inner));
            lemma_event_text_concat(
                seq![events[pos]] + events.subrange(pos + 1, inner),
                seq![events[inner]],
            );
            assert(events.subrange(pos, end) =~= seq![events[pos]] + events.subrange(
                pos + 1,
                inner,
            ) + seq![events[inner]]);
        },
        _ => {},
    }
}

/// The text of a run of elements is what the steps that describe them pass
/// over.
pub proof fn lemma_children_text(events: Seq<Event>, pos: int)
    requires
        0 <= pos <= events.len(),
        children_at(events, pos) is Some,
    ensures
        pos <= children_at(events, pos).unwrap().1 <= events.len(),
        texts(children_at(events, pos).unwrap().0) == event_text(
            events.subrange(pos, children_at(events, pos).unwrap().1),
        ),
    decreases events.len() - pos, 1nat,
{
    if pos < events.len() && !closes(events.skip(pos)) {
        lemma_element_text(events, pos);
        let (first, next) = element_at(events, pos).unwrap();
        lemma_children_text(events, next);
        let (rest, end) = children_at(events, next).unwrap();
        lemma_texts_concat(seq![first], rest);
        lemma_texts_push(Seq::<Syntax>::empty(), first);
        lemma_event_text_concat(events.subrange(pos, next), events.subrange(next, end));
        assert(events.subrange(pos, end) =~= events.subrange(pos, next) + events.subrange(
            next,
            end,
        ));
    }
}

/// The text of the tree that a walk describes is what the walk passes over.
pub proof fn lemma_tree_text(events: Seq<Event>)
    requires
        tree_of(events) is Some,
    ensures
        tree_of(events).unwrap().text() == event_text(events),
{
    lemma_element_text(events, 0);
    assert(events.subrange(0, events.len() as int) =~= events);
}

/// Whether a run of steps starts with no element: it is at its end, or
/// starts with a step out.
pub open spec fn closes(events: Seq<Event>) -> bool {
    events.len() == 0 || events[0] is Close || events[0] is TokenEnd
}

/// The element that a walk describes is the element that was walked over,
/// whatever stands in front of the walk and behind it.
pub proof fn lemma_element_of_walk(before: Seq<Event>, item: Syntax, after: Seq<Event>)
    ensures
        events_of(item).len() >= 2,
        !closes(events_of(item)),
        element_at(before + events_of(item) + after, before.len() as int) == Some(
            (item, (before.len() + events_of(item).len()) as int),
        ),
    decreases item, 0nat,
{
    let events = before + events_of(item) + after;
    match item {
        Syntax::Token { .. } => {},
        Syntax::Node { raw, children } => {
            let inner = events_of_all(children);
            lemma_children_of_walk(
                before + seq![Event::Open(raw)],
                children,
                seq![Event::Close] + after,
            );
            assert(events =~= before + seq![Event::Open(raw)] + inner + (seq![Event::Close]
                + after));
        },
    }
}

/// The elements that a walk describes are the elements that were walked
/// over, if a step out follows the walk or nothing does.
pub proof fn lemma_children_of_walk(before: Seq<Event>, items: Seq<Syntax>, after: Seq<Event>)
    requires
        closes(after),
    ensures
        children_at(before + events_of_all(items) + after, before.len() as int) == Some(
            (items, (before.len() + events_of_all(items).len()) as int),
        ),
    decreases items, 1nat,
{
    let events = before + events_of_all(items) + after;
    if items.len() > 0 {
        let first = items[0];
        let rest = items.drop_first();
        lemma_element_of_walk(before, first, events_of_all(rest) + after);
        lemma_children_of_walk(before + events_of(first), rest, after);
        assert(events =~= before + events_of(first) + (events_of_all(rest) + after));
        assert(events =~= before + events_of(first) + events_of_all(rest) + after);
    }
}

/// The tree that the walk over a node describes is that node: no other
/// tree has this walk.
pub proof fn law_tree_of_walk(root: Syntax)
    requires
        root is Node,
    ensures
        tree_of(events_of(root)) == Some(root),
{
    lemma_element_of_walk(Seq::empty(), root, Seq::empty());
}

} // verus!
