//! Inserting an entry into a located list. An entry that the list holds
//! already is not inserted again.

use crate::parser::{parse, syntax_tree, MAX_TEXT};
use crate::syntax::{
    group_syntax_views, lemma_texts_concat, texts, views, Syntax, SyntaxElement, SyntaxNode,
};
use crate::text::{blanks, chars_of, has_line_break, indent_width, push_indent, string_of};
use crate::verify_getter::{
    find_child_with_value, named_child, token_view, SyntaxNodeAndWhitespace,
};
use vstd::prelude::*;

verus! {

broadcast use group_syntax_views;

/// Why an insertion or a removal did not take place.
#[derive(Clone, Copy, Debug, PartialEq, Eq)]
pub enum EditError {
    /// No entry was given, or an empty one.
    NoEntry,
    /// The list holds no such entry.
    NotFound,
    /// The new text for the entry is longer than a text that is parsed.
    Malformed,
}

/// The characters of an optional entry; none where it is absent.
pub open spec fn entry_text(entry: Option<String>) -> Seq<char> {
    match entry {
        Some(entry) => entry@,
        None => Seq::empty(),
    }
}

/// The width of the indentation that governs a list: the characters of the
/// whitespace in front of its member, line breaks left out.
pub open spec fn base_indent(anchor: Option<Syntax>) -> nat {
    match anchor {
        Some(token) => indent_width(token.text()),
        None => 0,
    }
}

/// The text that goes into the list for a new entry: a line break, the
/// entry two blanks deeper than its list, and, for a list that stood on one
/// line, a line break and the list's own indentation for the closing
/// bracket.
pub open spec fn fragment_text(base: nat, entry: Seq<char>, single_line: bool) -> Seq<char> {
    seq!['\n'] + blanks(base + 2) + entry + if single_line {
        seq!['\n'] + blanks(base)
    } else {
        Seq::empty()
    }
}

/// Where a new entry goes: behind the opening bracket.
pub open spec fn entry_slot(items: Seq<Syntax>) -> int {
    if items.len() > 0 {
        1
    } else {
        0
    }
}

/// The list with the elements of a fragment in front of its entries.
pub open spec fn with_fragment(list: Syntax, fragment: Seq<Syntax>) -> Syntax {
    let slot = entry_slot(list.children());
    Syntax::Node {
        raw: list.raw(),
        children: list.children().take(slot) + fragment + list.children().skip(slot),
    }
}

/// The list after the insertion of an entry.
pub open spec fn added(list: Syntax, anchor: Option<Syntax>, entry: Seq<char>) -> Result<
    Syntax,
    EditError,
> {
    if entry.len() == 0 {
        Err(EditError::NoEntry)
    } else if named_child(list.children(), entry, 0) is Some {
        Ok(list)
    } else {
        match syntax_tree(
            fragment_text(base_indent(anchor), entry, !list.text().contains('\n')),
        ) {
            Some(root) => Ok(with_fragment(list, root.children())),
            None => Err(EditError::Malformed),
        }
    }
}

/// The text of the list after the insertion of an entry: the text of the
/// list, with the new text for the entry behind the opening bracket, unless
/// the list holds the entry already.
pub open spec fn added_text(list: Syntax, anchor: Option<Syntax>, entry: Seq<char>) -> Seq<char> {
    if named_child(list.children(), entry, 0) is Some {
        list.text()
    } else {
        let slot = entry_slot(list.children());
        texts(list.children().take(slot)) + fragment_text(
            base_indent(anchor),
            entry,
            !list.text().contains('\n'),
        ) + texts(list.children().skip(slot))
    }
}

/// Puts the elements of a parsed fragment into a list, behind its opening
/// bracket and in front of its entries.
pub fn insert_fragment(list: SyntaxNode, fragment: Vec<SyntaxElement>) -> (grown: SyntaxNode)
    ensures
        grown@ == with_fragment(list@, views(fragment@)),
        grown@.text() == texts(list@.children().take(entry_slot(list@.children()))) + texts(
            views(fragment@),
        ) + texts(list@.children().skip(entry_slot(list@.children()))),
{
    let slot: usize = if list.children.len() > 0 {
        1
    } else {
        0
    };
    let ghost before = list@.children();
    let ghost added = views(fragment@);
    let SyntaxNode { raw, children } = list;
    let mut children = children;
    let mut fragment = fragment;
    let mut rest = children.split_off(slot);
    children.append(&mut fragment);
    children.append(&mut rest);
    let grown = SyntaxNode { raw, children };
    assert(grown@.children() =~= before.take(slot as int) + added + before.skip(slot as int));
    proof {
        lemma_texts_concat(before.take(slot as int), added);
        lemma_texts_concat(before.take(slot as int) + added, before.skip(slot as int));
    }
    grown
}

/// The text that goes into a list for a new entry.
fn fragment_for(deps_list: &SyntaxNodeAndWhitespace, entry: &Vec<char>) -> (text: Vec<char>)
    ensures
        text@ == fragment_text(
            base_indent(token_view(deps_list.whitespace)),
            entry@,
            !deps_list.node@.text().contains('\n'),
        ),
{
    let ghost base = base_indent(token_view(deps_list.whitespace));
    let mut text: Vec<char> = Vec::new();
    text.push('\n');
    match &deps_list.whitespace {
        Some(token) => {
            push_indent(&mut text, &token.text);
        },
        None => {},
    }
    text.push(' ');
    text.push(' ');
    let mut i: usize = 0;
    while i < entry.len()
        invariant
            i <= entry.len(),
            text@ == seq!['\n'] + blanks(base + 2) + entry@.take(i as int),
        decreases entry.len() - i,
    {
        text.push(entry[i]);
        i += 1;
    }
    let own = deps_list.node.chars();
    if !has_line_break(&own) {
        text.push('\n');
        match &deps_list.whitespace {
            Some(token) => {
                push_indent(&mut text, &token.text);
            },
            None => {},
        }
    }
    text
}

/// Inserts an entry into the located list and hands back the list. The
/// entry becomes the first of the list, on a line of its own, two blanks
/// deeper than the member that owns the list; a list that stood on one line
/// is spread over several. A list that holds the entry already comes back
/// as it is.
pub fn add_dep(deps_list: SyntaxNodeAndWhitespace, new_dep_opt: Option<String>) -> (grown: Result<
    SyntaxNode,
    EditError,
>)
    ensures
        match grown {
            Ok(list) => added(
                deps_list.node@,
                token_view(deps_list.whitespace),
                entry_text(new_dep_opt),
            ) == Ok::<Syntax, EditError>(list@),
            Err(error) => added(
                deps_list.node@,
                token_view(deps_list.whitespace),
                entry_text(new_dep_opt),
            ) == Err::<Syntax, EditError>(error),
        },
        grown is Err ==> entry_text(new_dep_opt).len() == 0 || fragment_text(
            base_indent(token_view(deps_list.whitespace)),
            entry_text(new_dep_opt),
            !deps_list.node@.text().contains('\n'),
        ).len() > MAX_TEXT,
        grown matches Ok(list) ==> list@.text() == added_text(
            deps_list.node@,
            token_view(deps_list.whitespace),
            entry_text(new_dep_opt),
        ),
{
    let entry = match &new_dep_opt {
        Some(entry) => chars_of(entry.as_str()),
        None => {
            return Err(EditError::NoEntry);
        },
    };
    if entry.len() == 0 {
        return Err(EditError::NoEntry);
    }
    if find_child_with_value(&deps_list.node, &entry).is_some() {
        return Ok(deps_list.node);
    }
    let text = fragment_for(&deps_list, &entry);
    let source = string_of(&text);
    match parse(source.as_str()) {
        Some(root) => Ok(insert_fragment(deps_list.node, root.children)),
        None => Err(EditError::Malformed),
    }
}

} // verus!
