//! What holds of the operations whatever the document: a document of
//! another shape is refused, an entry is never inserted twice, an entry that
//! was inserted is there once, and removing it gives back the entries that
//! were there before.

use crate::adder::{
    added, added_text, base_indent, entry_slot, fragment_text, with_fragment, EditError,
};
use crate::editor::{
    added_document_text, added_tree, entries_of, failure, planned, removed_text, target, OpError,
    OpKind, NOT_VERIFIED,
};
use crate::remover::{removed, trimmed_start};
use crate::text::{blanks, is_whitespace};
use crate::parser::{document_tree, nix_error_count, syntax_tree};
use crate::stability::{lemma_locate_stable, stands_for};
use crate::path::{
    lemma_node_at_is_node, lemma_replace_at_around, lemma_replace_at_found, lemma_replace_at_same,
    lemma_replace_at_text, lemma_text_around, replace_at, text_after, text_before,
};
use crate::syntax::{
    lemma_nodes_concat, lemma_texts_concat, lemma_texts_push, lemma_texts_split, node_position,
    nodes_of, texts, Syntax, SyntaxKind,
};
use crate::verify_getter::{locate, named_child, PARAMETER};
use crate::DepType;
use vstd::prelude::*;

verus! {

/// Whether a document is one function whose parameter pattern binds `pkgs`
/// and whose body is an attribute set.
pub open spec fn has_shape(root: Syntax) -> bool {
    &&& root is Node
    &&& root.kind() == SyntaxKind::Root
    &&& node_position(root.children(), 0, 0) matches Some(function)
    &&& root.children()[function].kind() == SyntaxKind::Lambda
    &&& node_position(root.children()[function].children(), 0, 0) matches Some(pattern)
    &&& root.children()[function].children()[pattern].kind() == SyntaxKind::Pattern
    &&& named_child(root.children()[function].children()[pattern].children(), PARAMETER@, 0) is Some
    &&& node_position(root.children()[function].children(), 0, 1) matches Some(body)
    &&& root.children()[function].children()[body].kind() == SyntaxKind::AttrSet
}

/// A document of another shape than the one to work on is refused, for
/// either category, with the mismatch or the missing parameter.
pub proof fn law_shape_rejection(root: Syntax, dep_type: DepType)
    requires
        !has_shape(root),
    ensures
        locate(root, dep_type) is Err,
        locate(root, dep_type)->Err_0 is ShapeMismatch || locate(root, dep_type)->Err_0
            is MissingParameter,
{
}

/// No operation asks for a document of another shape to be written.
pub proof fn law_rejected_is_not_written(
    op: OpKind,
    entry: Seq<char>,
    dep_type: DepType,
    contents: Seq<char>,
    return_output: bool,
)
    requires
        document_tree(contents) matches Some(root) && !has_shape(root),
    ensures
        planned(op, entry, dep_type, contents, return_output) == failure(NOT_VERIFIED@),
        planned(op, entry, dep_type, contents, return_output).write is None,
{
    law_shape_rejection(document_tree(contents).unwrap(), dep_type);
}

/// No operation changes a document in which the parser reports a syntax
/// error: it answers with a failure and asks for nothing to be written.
pub proof fn law_syntax_error_is_not_written(
    op: OpKind,
    entry: Seq<char>,
    dep_type: DepType,
    contents: Seq<char>,
    return_output: bool,
)
    requires
        nix_error_count(contents) > 0,
    ensures
        planned(op, entry, dep_type, contents, return_output) == failure(NOT_VERIFIED@),
        planned(op, entry, dep_type, contents, return_output).write is None,
{
}

/// How often an entry stands among the nodes of a run of elements.
pub open spec fn occurrences(items: Seq<Syntax>, entry: Seq<char>) -> nat
    decreases items.len(),
{
    if items.len() == 0 {
        0
    } else if items.last() is Node && items.last().text() == entry {
        occurrences(items.drop_last(), entry) + 1
    } else {
        occurrences(items.drop_last(), entry)
    }
}

/// How often an entry stands among the entries of a list.
pub open spec fn times(entries: Seq<Seq<char>>, entry: Seq<char>) -> nat
    decreases entries.len(),
{
    if entries.len() == 0 {
        0
    } else if entries.last() == entry {
        times(entries.drop_last(), entry) + 1
    } else {
        times(entries.drop_last(), entry)
    }
}

/// The source text of each node of a run of elements.
pub open spec fn entry_texts(items: Seq<Syntax>) -> Seq<Seq<char>> {
    nodes_of(items).map_values(|child: Syntax| child.text())
}

/// The occurrences in two runs laid end to end are those of each.
pub proof fn lemma_occurrences_concat(left: Seq<Syntax>, right: Seq<Syntax>, entry: Seq<char>)
    ensures
        occurrences(left + right, entry) == occurrences(left, entry) + occurrences(right, entry),
    decreases right.len(),
{
    if right.len() > 0 {
        lemma_occurrences_concat(left, right.drop_last(), entry);
        assert((left + right).drop_last() =~= left + right.drop_last());
    }
}

/// The occurrences of an entry in a run are those among its nodes.
pub proof fn lemma_occurrences_nodes(items: Seq<Syntax>, entry: Seq<char>)
    ensures
        occurrences(items, entry) == occurrences(nodes_of(items), entry),
    decreases items.len(),
{
    if items.len() > 0 {
        lemma_occurrences_nodes(items.drop_last(), entry);
        if items.last() is Node {
            assert(nodes_of(items).drop_last() =~= nodes_of(items.drop_last()));
        }
    }
}

/// An entry occurs among the nodes of a run as often as its text stands
/// among their texts.
pub proof fn lemma_occurrences_times(items: Seq<Syntax>, entry: Seq<char>)
    ensures
        occurrences(items, entry) == times(entry_texts(items), entry),
    decreases items.len(),
{
    if items.len() > 0 {
        lemma_occurrences_times(items.drop_last(), entry);
        if items.last() is Node {
            assert(entry_texts(items).drop_last() =~= entry_texts(items.drop_last()));
        }
    }
}

/// An entry is found in a run from `from` on just when it occurs there.
pub proof fn lemma_named_child_occurs(items: Seq<Syntax>, entry: Seq<char>, from: int)
    requires
        0 <= from <= items.len(),
    ensures
        named_child(items, entry, from) is Some <==> occurrences(items.skip(from), entry) > 0,
    decreases items.len() - from,
{
    if from < items.len() {
        lemma_named_child_occurs(items, entry, from + 1);
        let one = seq![items[from]];
        lemma_occurrences_concat(one, items.skip(from + 1), entry);
        assert(one + items.skip(from + 1) =~= items.skip(from));
        assert(occurrences(one.drop_last(), entry) == 0);
    }
}

/// The nodes of a run are nodes.
pub proof fn lemma_nodes_are_nodes(items: Seq<Syntax>)
    ensures
        forall|i: int| 0 <= i < nodes_of(items).len() ==> (#[trigger] nodes_of(items)[i]) is Node,
    decreases items.len(),
{
    if items.len() > 0 {
        lemma_nodes_are_nodes(items.drop_last());
    }
}

/// Whether the parser reads the new text for an entry as that entry alone:
/// one node between tokens, whose source text is the entry.
pub open spec fn reads_as_entry(fragment: Seq<Syntax>, entry: Seq<char>) -> bool {
    &&& nodes_of(fragment).len() == 1
    &&& nodes_of(fragment)[0].text() == entry
}

/// Whether an entry is found in a list after its insertion: the list holds
/// it already, or the parser reads the new text as the entry alone.
pub open spec fn insertable(list: Syntax, anchor: Option<Syntax>, entry: Seq<char>) -> bool {
    ||| named_child(list.children(), entry, 0) is Some
    ||| syntax_tree(
        fragment_text(base_indent(anchor), entry, !list.text().contains('\n')),
    ) matches Some(root) && reads_as_entry(root.children(), entry)
}

/// The occurrences of an entry in a list grow by those in the fragment
/// that is put into it.
pub proof fn lemma_occurrences_with_fragment(list: Syntax, fragment: Seq<Syntax>, entry: Seq<char>)
    ensures
        occurrences(with_fragment(list, fragment).children(), entry) == occurrences(
            list.children(),
            entry,
        ) + occurrences(fragment, entry),
{
    let items = list.children();
    let slot = entry_slot(items);
    lemma_occurrences_concat(items.take(slot), fragment, entry);
    lemma_occurrences_concat(items.take(slot) + fragment, items.skip(slot), entry);
    lemma_occurrences_concat(items.take(slot), items.skip(slot), entry);
    assert(items.take(slot) + items.skip(slot) =~= items);
}

/// A fragment that the parser reads as an entry holds that entry once.
pub proof fn lemma_fragment_holds_entry(fragment: Seq<Syntax>, entry: Seq<char>)
    requires
        reads_as_entry(fragment, entry),
    ensures
        occurrences(fragment, entry) == 1,
{
    lemma_occurrences_nodes(fragment, entry);
    lemma_nodes_are_nodes(fragment);
    let nodes = nodes_of(fragment);
    assert(occurrences(nodes.drop_last(), entry) == 0);
}

/// Inserting an entry into a list that just got it changes nothing: an
/// entry is never inserted twice.
pub proof fn law_insert_is_idempotent(list: Syntax, anchor: Option<Syntax>, entry: Seq<char>)
    requires
        insertable(list, anchor, entry),
        added(list, anchor, entry) is Ok,
    ensures
        added(added(list, anchor, entry)->Ok_0, anchor, entry) == added(list, anchor, entry),
{
    let grown = added(list, anchor, entry)->Ok_0;
    if named_child(list.children(), entry, 0) is None {
        let root = syntax_tree(
            fragment_text(base_indent(anchor), entry, !list.text().contains('\n')),
        ).unwrap();
        lemma_occurrences_with_fragment(list, root.children(), entry);
        lemma_fragment_holds_entry(root.children(), entry);
        lemma_named_child_occurs(grown.children(), entry, 0);
        assert(grown.children().skip(0) =~= grown.children());
    }
}

/// After the insertion of an entry the list holds it once, if it held it
/// once at most before; every other entry is there as often as before.
pub proof fn lemma_inserted_once(
    list: Syntax,
    anchor: Option<Syntax>,
    entry: Seq<char>,
    other: Seq<char>,
)
    requires
        insertable(list, anchor, entry),
        added(list, anchor, entry) is Ok,
        occurrences(list.children(), entry) <= 1,
        other != entry,
    ensures
        occurrences(added(list, anchor, entry)->Ok_0.children(), entry) == 1,
        occurrences(added(list, anchor, entry)->Ok_0.children(), other) == occurrences(
            list.children(),
            other,
        ),
{
    lemma_named_child_occurs(list.children(), entry, 0);
    assert(list.children().skip(0) =~= list.children());
    if named_child(list.children(), entry, 0) is None {
        let root = syntax_tree(
            fragment_text(base_indent(anchor), entry, !list.text().contains('\n')),
        ).unwrap();
        lemma_occurrences_with_fragment(list, root.children(), entry);
        lemma_occurrences_with_fragment(list, root.children(), other);
        lemma_fragment_holds_entry(root.children(), entry);
        lemma_occurrences_nodes(root.children(), other);
        let nodes = nodes_of(root.children());
        assert(occurrences(nodes.drop_last(), other) == 0);
    }
}

/// After the insertion of an entry the list holds it once, if it held it
/// once at most before, and every other entry as often as before: this is
/// what the enumeration of the list gives.
pub proof fn law_enumerated_once(
    list: Syntax,
    anchor: Option<Syntax>,
    entry: Seq<char>,
    other: Seq<char>,
)
    requires
        insertable(list, anchor, entry),
        added(list, anchor, entry) is Ok,
        times(list.child_texts(), entry) <= 1,
        other != entry,
    ensures
        times(added(list, anchor, entry)->Ok_0.child_texts(), entry) == 1,
        times(added(list, anchor, entry)->Ok_0.child_texts(), other) == times(
            list.child_texts(),
            other,
        ),
{
    let grown = added(list, anchor, entry)->Ok_0;
    lemma_occurrences_times(list.children(), entry);
    lemma_occurrences_times(list.children(), other);
    lemma_occurrences_times(grown.children(), entry);
    lemma_occurrences_times(grown.children(), other);
    lemma_inserted_once(list, anchor, entry, other);
}

/// A new entry becomes the first of its list, and the entries that the list
/// held follow it in their order.
pub proof fn law_inserted_first(list: Syntax, anchor: Option<Syntax>, entry: Seq<char>)
    requires
        insertable(list, anchor, entry),
        added(list, anchor, entry) is Ok,
        named_child(list.children(), entry, 0) is None,
        list.children().len() > 0 ==> list.children()[0] is Token,
    ensures
        added(list, anchor, entry)->Ok_0.child_texts() == seq![entry] + list.child_texts(),
{
    let fragment = syntax_tree(
        fragment_text(base_indent(anchor), entry, !list.text().contains('\n')),
    ).unwrap().children();
    let items = list.children();
    let slot = entry_slot(items);
    lemma_nodes_concat(items.take(slot), fragment);
    lemma_nodes_concat(items.take(slot) + fragment, items.skip(slot));
    lemma_nodes_concat(items.take(slot), items.skip(slot));
    assert(items.take(slot) + items.skip(slot) =~= items);
    assert(nodes_of(Seq::<Syntax>::empty()) =~= Seq::<Syntax>::empty());
    if slot == 1 {
        assert(items.take(slot).drop_last() =~= Seq::<Syntax>::empty());
    }
}

/// Inserting an entry into the document that just got it changes nothing,
/// whatever the category: the search finds the list where it was, and the
/// list holds the entry.
pub proof fn law_add_is_idempotent(root: Syntax, dep_type: DepType, entry: Seq<char>)
    requires
        added_tree(root, dep_type, entry) is Ok,
        insertable(
            target(locate(root, dep_type)->Ok_0),
            locate(root, dep_type)->Ok_0.anchor,
            entry,
        ),
    ensures
        added_tree(added_tree(root, dep_type, entry)->Ok_0, dep_type, entry) == added_tree(
            root,
            dep_type,
            entry,
        ),
{
    let found = locate(root, dep_type)->Ok_0;
    let list = target(found);
    let grown = added(list, found.anchor, entry)->Ok_0;
    let tree = added_tree(root, dep_type, entry)->Ok_0;
    lemma_locate_stable(root, dep_type, grown);
    lemma_node_at_is_node(found.root, found.path);
    lemma_replace_at_found(found.root, found.path, grown);
    law_insert_is_idempotent(list, found.anchor, entry);
    lemma_replace_at_same(tree, found.path);
}

/// After the insertion of an entry the enumeration of the document gives
/// the entry once, if the document held it once at most before, and every
/// other entry as often as before.
pub proof fn law_add_then_get(root: Syntax, dep_type: DepType, entry: Seq<char>, other: Seq<char>)
    requires
        added_tree(root, dep_type, entry) is Ok,
        insertable(
            target(locate(root, dep_type)->Ok_0),
            locate(root, dep_type)->Ok_0.anchor,
            entry,
        ),
        times(entries_of(root, dep_type)->Ok_0, entry) <= 1,
        other != entry,
    ensures
        entries_of(added_tree(root, dep_type, entry)->Ok_0, dep_type) is Ok,
        times(entries_of(added_tree(root, dep_type, entry)->Ok_0, dep_type)->Ok_0, entry) == 1,
        times(entries_of(added_tree(root, dep_type, entry)->Ok_0, dep_type)->Ok_0, other) == times(
            entries_of(root, dep_type)->Ok_0,
            other,
        ),
{
    let found = locate(root, dep_type)->Ok_0;
    let list = target(found);
    let grown = added(list, found.anchor, entry)->Ok_0;
    lemma_locate_stable(root, dep_type, grown);
    lemma_node_at_is_node(found.root, found.path);
    lemma_replace_at_found(found.root, found.path, grown);
    law_enumerated_once(list, found.anchor, entry, other);
}

/// The new text for an entry goes behind the bracket that opens its list:
/// a list that stood on one line is spread over lines, the entry two blanks
/// deeper than the member that owns the list and the rest of the list on a
/// line of its own; a list that was spread gets one line more.
pub proof fn law_entry_goes_behind_the_bracket(
    list: Syntax,
    anchor: Option<Syntax>,
    entry: Seq<char>,
)
    requires
        named_child(list.children(), entry, 0) is None,
        list.children().len() > 0,
        list.children()[0].text() == seq!['['],
    ensures
        added_text(list, anchor, entry) == seq!['['] + fragment_text(
            base_indent(anchor),
            entry,
            !list.text().contains('\n'),
        ) + list.text().skip(1),
        !list.text().contains('\n') ==> added_text(list, anchor, entry) == seq!['['] + seq!['\n']
            + blanks(base_indent(anchor) + 2) + entry + seq!['\n'] + blanks(base_indent(anchor))
            + list.text().skip(1),
{
    let items = list.children();
    lemma_texts_split(items, 0);
    assert(items.take(0) =~= Seq::<Syntax>::empty());
    lemma_texts_push(Seq::<Syntax>::empty(), items[0]);
    assert(items.take(1) =~= Seq::<Syntax>::empty().push(items[0]));
    assert(list.text() =~= seq!['['] + texts(items.skip(1)));
    assert(list.text().skip(1) =~= texts(items.skip(1)));
    let new = fragment_text(base_indent(anchor), entry, !list.text().contains('\n'));
    if !list.text().contains('\n') {
        assert(seq!['['] + new + list.text().skip(1) =~= seq!['['] + seq!['\n'] + blanks(
            base_indent(anchor) + 2,
        ) + entry + seq!['\n'] + blanks(base_indent(anchor)) + list.text().skip(1));
    }
}

/// After the insertion of an entry that the document did not hold, the
/// enumeration of the document gives the entry first and behind it the
/// entries of before, in their order.
pub proof fn law_add_puts_entry_first(root: Syntax, dep_type: DepType, entry: Seq<char>)
    requires
        added_tree(root, dep_type, entry) is Ok,
        insertable(
            target(locate(root, dep_type)->Ok_0),
            locate(root, dep_type)->Ok_0.anchor,
            entry,
        ),
        named_child(target(locate(root, dep_type)->Ok_0).children(), entry, 0) is None,
        target(locate(root, dep_type)->Ok_0).children().len() > 0 ==> target(
            locate(root, dep_type)->Ok_0,
        ).children()[0] is Token,
    ensures
        entries_of(added_tree(root, dep_type, entry)->Ok_0, dep_type) == Ok::<
            Seq<Seq<char>>,
            OpError,
        >(seq![entry] + entries_of(root, dep_type)->Ok_0),
{
    let found = locate(root, dep_type)->Ok_0;
    let list = target(found);
    let grown = added(list, found.anchor, entry)->Ok_0;
    lemma_locate_stable(root, dep_type, grown);
    lemma_node_at_is_node(found.root, found.path);
    assert(stands_for(grown, list));
    lemma_replace_at_found(found.root, found.path, grown);
    law_inserted_first(list, found.anchor, entry);
}

/// The document tree after a number of insertions of one entry, each into
/// the tree that the insertion before it gave.
pub open spec fn added_often(root: Syntax, dep_type: DepType, entry: Seq<char>, count: nat)
    -> Result<Syntax, OpError>
    decreases count,
{
    if count == 0 {
        Ok(root)
    } else {
        match added_often(root, dep_type, entry, (count - 1) as nat) {
            Ok(tree) => added_tree(tree, dep_type, entry),
            Err(error) => Err(error),
        }
    }
}

/// However often an entry is inserted, the document is the one that the
/// first insertion gave; so its enumeration gives the entry as often as
/// after the first.
pub proof fn law_add_often_is_add_once(
    root: Syntax,
    dep_type: DepType,
    entry: Seq<char>,
    count: nat,
)
    requires
        count >= 1,
        added_tree(root, dep_type, entry) is Ok,
        insertable(
            target(locate(root, dep_type)->Ok_0),
            locate(root, dep_type)->Ok_0.anchor,
            entry,
        ),
    ensures
        added_often(root, dep_type, entry, count) == added_tree(root, dep_type, entry),
    decreases count,
{
    if count > 1 {
        law_add_often_is_add_once(root, dep_type, entry, (count - 1) as nat);
        law_add_is_idempotent(root, dep_type, entry);
    } else {
        assert(added_often(root, dep_type, entry, 0) == Ok::<Syntax, OpError>(root));
    }
}

/// Inserting an entry that the document holds, in a list that is there
/// already, leaves the tree of the document as it is.
pub proof fn law_present_entry_changes_nothing(root: Syntax, dep_type: DepType, entry: Seq<char>)
    requires
        locate(root, dep_type) is Ok,
        locate(root, dep_type)->Ok_0.root == root,
        entry.len() > 0,
        named_child(target(locate(root, dep_type)->Ok_0).children(), entry, 0) is Some,
    ensures
        added_tree(root, dep_type, entry) == Ok::<Syntax, OpError>(root),
{
    let found = locate(root, dep_type)->Ok_0;
    lemma_locate_stable(root, dep_type, target(found));
    lemma_replace_at_same(root, found.path);
}

/// A text put into another at a position, in terms of the parts in front
/// of and behind that position.
pub proof fn lemma_put_in(
    before: Seq<char>,
    head: Seq<char>,
    new: Seq<char>,
    tail: Seq<char>,
    after: Seq<char>,
)
    ensures
        ({
            let whole = before + (head + tail) + after;
            let at = (before.len() + head.len()) as int;
            before + (head + new + tail) + after == whole.take(at) + new + whole.skip(at)
        }),
{
}

/// Inserting an entry into a list that the document holds puts the new
/// text for the entry into the text of the document, behind the opening
/// bracket of the list, and changes no other character.
pub proof fn law_add_puts_text_in(root: Syntax, dep_type: DepType, entry: Seq<char>)
    requires
        locate(root, dep_type) is Ok,
        locate(root, dep_type)->Ok_0.root == root,
        named_child(target(locate(root, dep_type)->Ok_0).children(), entry, 0) is None,
    ensures
        ({
            let found = locate(root, dep_type)->Ok_0;
            let list = target(found);
            let at = text_before(root, found.path).len() + texts(
                list.children().take(entry_slot(list.children())),
            ).len();
            added_document_text(root, dep_type, entry) == root.text().take(at as int)
                + fragment_text(base_indent(found.anchor), entry, !list.text().contains('\n'))
                + root.text().skip(at as int)
        }),
{
    let found = locate(root, dep_type)->Ok_0;
    let list = target(found);
    let slot = entry_slot(list.children());
    let head = texts(list.children().take(slot));
    let tail = texts(list.children().skip(slot));
    let before = text_before(root, found.path);
    let after = text_after(root, found.path);
    let new = fragment_text(base_indent(found.anchor), entry, !list.text().contains('\n'));
    lemma_locate_stable(root, dep_type, list);
    lemma_node_at_is_node(root, found.path);
    lemma_text_around(root, found.path);
    lemma_texts_concat(list.children().take(slot), list.children().skip(slot));
    assert(list.children().take(slot) + list.children().skip(slot) =~= list.children());
    lemma_put_in(before, head, new, tail, after);
}

/// Whether a text is white space throughout.
pub open spec fn is_blank(text: Seq<char>) -> bool {
    forall|i: int| 0 <= i < text.len() ==> is_whitespace(#[trigger] text[i])
}

/// Whether the parser reads the new text for an entry as it was written:
/// white space, then the entry as one node, then no further node.
pub open spec fn reads_as_indented(fragment: Seq<Syntax>, entry: Seq<char>) -> bool {
    &&& fragment.len() >= 2
    &&& fragment[0] is Token
    &&& is_blank(fragment[0].text())
    &&& fragment[1] is Node
    &&& fragment[1].text() == entry
    &&& nodes_of(fragment.skip(2)).len() == 0
}

/// Whether a list opens with a token that does not end in white space, as
/// a list that opens with its bracket does.
pub open spec fn opens(list: Syntax) -> bool {
    &&& list.children().len() > 0
    &&& list.children()[0] is Token
    &&& list.children()[0].text().len() > 0
    &&& !is_whitespace(list.children()[0].text().last())
}

/// Stepping back over a run of white space ends where the run starts.
pub proof fn lemma_trimmed_run(text: Seq<char>, low: int, high: int)
    requires
        0 <= low <= high <= text.len(),
        forall|i: int| low <= i < high ==> is_whitespace(#[trigger] text[i]),
        low == 0 || !is_whitespace(text[low - 1]),
    ensures
        trimmed_start(text, high) == low,
    decreases high - low,
{
    if low < high {
        lemma_trimmed_run(text, low, high - 1);
    }
}

/// Removing an entry from the list that just got it gives the text of the
/// document with the list as it was, but for the white space that came with
/// the entry and stood behind it; and that list holds the entries that it
/// held before.
pub proof fn law_remove_undoes_insert(
    before: Seq<char>,
    after: Seq<char>,
    list: Syntax,
    fragment: Seq<Syntax>,
    entry: Seq<char>,
)
    requires
        opens(list),
        reads_as_indented(fragment, entry),
        named_child(list.children(), entry, 0) is None,
        entry.len() > 0,
    ensures
        removed(
            before + with_fragment(list, fragment).text() + after,
            with_fragment(list, fragment),
            before.len() as int,
            entry,
        ) == Ok::<Seq<char>, EditError>(
            before + with_fragment(list, fragment.skip(2)).text() + after,
        ),
        with_fragment(list, fragment.skip(2)).child_texts() == list.child_texts(),
{
    let items = list.children();
    let grown = with_fragment(list, fragment);
    let rest = with_fragment(list, fragment.skip(2));
    let all = grown.children();
    let open = items[0].text();
    let blank = fragment[0].text();
    let contents = before + grown.text() + after;
    // The entry is the third element of the list, behind the opening and
    // the white space.
    assert(named_child(all, entry, 2) == Some(2int));
    assert(named_child(all, entry, 1) == Some(2int));
    // The text of the list around the entry.
    lemma_texts_split(all, 2);
    lemma_texts_push(all.take(1), all[1]);
    lemma_texts_push(Seq::<Syntax>::empty(), all[0]);
    assert(all.take(2) =~= all.take(1).push(all[1]));
    assert(all.take(1) =~= Seq::<Syntax>::empty().push(all[0]));
    // The text of the list without the entry.
    let fewer = rest.children();
    lemma_texts_split(fewer, 0);
    assert(fewer.skip(1) =~= all.skip(3));
    // Stepping back from the entry stops behind the opening.
    let start = (before.len() + open.len() + blank.len()) as int;
    let low = (before.len() + open.len()) as int;
    lemma_trimmed_run(contents, low, start);
    assert(contents.take(low) + contents.skip(start + entry.len()) =~= before + rest.text()
        + after);
    // The entries are those of the list.
    lemma_nodes_concat(items.take(1), fragment.skip(2));
    lemma_nodes_concat(items.take(1) + fragment.skip(2), items.skip(1));
    lemma_nodes_concat(items.take(1), items.skip(1));
    assert(items.take(1) + items.skip(1) =~= items);
}

/// The document as the search for a category leaves it, with the white
/// space in its list that the insertion of an entry and the removal of that
/// entry leave there.
pub open spec fn without_entry(root: Syntax, dep_type: DepType, entry: Seq<char>) -> Syntax {
    let found = locate(root, dep_type)->Ok_0;
    let list = target(found);
    let fragment = syntax_tree(
        fragment_text(base_indent(found.anchor), entry, !list.text().contains('\n')),
    ).unwrap().children();
    replace_at(found.root, found.path, with_fragment(list, fragment.skip(2)))
}

/// Removing an entry from the document that just got it gives the text of
/// the document as the search left it, but for white space in the list, and
/// the enumeration of that document gives the entries of the first.
pub proof fn law_remove_undoes_add(root: Syntax, dep_type: DepType, entry: Seq<char>)
    requires
        locate(root, dep_type) is Ok,
        entry.len() > 0,
        named_child(target(locate(root, dep_type)->Ok_0).children(), entry, 0) is None,
        opens(target(locate(root, dep_type)->Ok_0)),
        syntax_tree(
            fragment_text(
                base_indent(locate(root, dep_type)->Ok_0.anchor),
                entry,
                !target(locate(root, dep_type)->Ok_0).text().contains('\n'),
            ),
        ) matches Some(parsed) && reads_as_indented(parsed.children(), entry),
    ensures
        added_tree(root, dep_type, entry) is Ok,
        removed_text(added_tree(root, dep_type, entry)->Ok_0, dep_type, entry) == Ok::<
            Seq<char>,
            OpError,
        >(without_entry(root, dep_type, entry).text()),
        entries_of(without_entry(root, dep_type, entry), dep_type) == entries_of(root, dep_type),
{
    let found = locate(root, dep_type)->Ok_0;
    let list = target(found);
    let fragment = syntax_tree(
        fragment_text(base_indent(found.anchor), entry, !list.text().contains('\n')),
    ).unwrap().children();
    let grown = with_fragment(list, fragment);
    let fewer = with_fragment(list, fragment.skip(2));
    lemma_locate_stable(root, dep_type, grown);
    lemma_locate_stable(root, dep_type, fewer);
    lemma_node_at_is_node(found.root, found.path);
    lemma_replace_at_found(found.root, found.path, grown);
    lemma_replace_at_found(found.root, found.path, fewer);
    lemma_replace_at_around(found.root, found.path, grown);
    lemma_replace_at_text(found.root, found.path, grown);
    lemma_replace_at_text(found.root, found.path, fewer);
    law_remove_undoes_insert(
        text_before(found.root, found.path),
        text_after(found.root, found.path),
        list,
        fragment,
        entry,
    );
}

} // verus!
