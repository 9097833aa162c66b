//! A search finds the list where it found it before, after the list was
//! exchanged for another list: nothing that the search looks at lies in the
//! list itself.

use crate::path::{
    lemma_node_at_child, lemma_node_at_concat, lemma_node_at_step, lemma_replace_at_around,
    lemma_replace_at_found, lemma_replace_at_same, lemma_replace_at_step, lemma_replace_at_twice,
    node_at, replace_at,
};
use crate::syntax::{node_position, Syntax, SyntaxKind};
use crate::verify_getter::{
    anchor_position, env_member, expected_child, find_member, is_break, is_member, item_at, locate,
    locate_in_body, locate_library_path, locate_python, locate_regular, member_position,
    with_member, Location, SchemaError, SchemaStep, DEPS_KEY, ENV_KEY, PYTHON_KEY,
};
use crate::DepType;
use vstd::prelude::*;

verus! {

/// A node with one of its children exchanged.
pub open spec fn with_child(tree: Syntax, at: int, child: Syntax) -> Syntax {
    Syntax::Node { raw: tree.raw(), children: tree.children().update(at, child) }
}

/// Whether a node can stand in for another: it is a node of the same kind.
pub open spec fn stands_for(new: Syntax, old: Syntax) -> bool {
    new is Node && old is Node && new.raw() == old.raw()
}

/// A position that `node_position` gives is that of a node.
pub proof fn lemma_node_position_found(items: Seq<Syntax>, from: int, skip: nat)
    requires
        0 <= from,
        node_position(items, from, skip) is Some,
    ensures
        from <= node_position(items, from, skip).unwrap() < items.len(),
        items[node_position(items, from, skip).unwrap()] is Node,
    decreases items.len() - from,
{
    if from < items.len() {
        if !(items[from] is Node) {
            lemma_node_position_found(items, from + 1, skip);
        } else if skip > 0 {
            lemma_node_position_found(items, from + 1, (skip - 1) as nat);
        }
    }
}

/// A node that fewer nodes precede stands further to the front.
pub proof fn lemma_node_position_order(items: Seq<Syntax>, from: int, lower: nat, upper: nat)
    requires
        0 <= from,
        lower < upper,
        node_position(items, from, upper) is Some,
    ensures
        node_position(items, from, lower) is Some,
        node_position(items, from, lower).unwrap() < node_position(items, from, upper).unwrap(),
    decreases items.len() - from,
{
    if from < items.len() {
        if !(items[from] is Node) {
            lemma_node_position_order(items, from + 1, lower, upper);
        } else if lower == 0 {
            lemma_node_position_found(items, from + 1, (upper - 1) as nat);
        } else {
            lemma_node_position_order(
                items,
                from + 1,
                (lower - 1) as nat,
                (upper - 1) as nat,
            );
        }
    }
}

/// Exchanging a node for a node moves no node.
pub proof fn lemma_node_position_update(
    items: Seq<Syntax>,
    at: int,
    new: Syntax,
    from: int,
    skip: nat,
)
    requires
        0 <= at < items.len(),
        items[at] is Node,
        new is Node,
    ensures
        node_position(items.update(at, new), from, skip) == node_position(items, from, skip),
    decreases items.len() - from,
{
    if 0 <= from < items.len() {
        if !(items[from] is Node) {
            lemma_node_position_update(items, at, new, from + 1, skip);
        } else if skip > 0 {
            lemma_node_position_update(items, at, new, from + 1, (skip - 1) as nat);
        }
    }
}

/// A position that `member_position` gives is that of a member with the
/// key.
pub proof fn lemma_member_position_found(items: Seq<Syntax>, key: Seq<char>, from: int)
    requires
        0 <= from,
        member_position(items, key, from) is Some,
    ensures
        from <= member_position(items, key, from).unwrap() < items.len(),
        is_member(items[member_position(items, key, from).unwrap()], key),
    decreases items.len() - from,
{
    if from < items.len() && !is_member(items[from], key) {
        lemma_member_position_found(items, key, from + 1);
    }
}

/// Exchanging an element for one that is a member with the key just when
/// the first was one moves no member with that key.
pub proof fn lemma_member_position_update(
    items: Seq<Syntax>,
    key: Seq<char>,
    at: int,
    new: Syntax,
    from: int,
)
    requires
        0 <= at < items.len(),
        is_member(new, key) == is_member(items[at], key),
    ensures
        member_position(items.update(at, new), key, from) == member_position(items, key, from),
    decreases items.len() - from,
{
    if 0 <= from < items.len() && !is_member(items[from], key) {
        lemma_member_position_update(items, key, at, new, from + 1);
    }
}

/// A position that `anchor_position` gives lies in front of the bound.
pub proof fn lemma_anchor_position_found(items: Seq<Syntax>, before: int)
    requires
        anchor_position(items, before) is Some,
    ensures
        0 <= anchor_position(items, before).unwrap() < before <= items.len(),
        is_break(items[anchor_position(items, before).unwrap()]),
    decreases before,
{
    if 0 < before <= items.len() && !is_break(items[before - 1]) {
        lemma_anchor_position_found(items, before - 1);
    }
}

/// Exchanging a node for a node moves no whitespace.
pub proof fn lemma_anchor_position_update(items: Seq<Syntax>, at: int, new: Syntax, before: int)
    requires
        0 <= at < items.len(),
        items[at] is Node,
        new is Node,
    ensures
        anchor_position(items.update(at, new), before) == anchor_position(items, before),
    decreases before,
{
    if 0 < before <= items.len() && !is_break(items[before - 1]) {
        lemma_anchor_position_update(items, at, new, before - 1);
    }
}

/// Exchanging a child for a node of its kind changes no kind among the
/// children, and so none of the checks on them.
pub proof fn lemma_expected_child_update(
    parent: Syntax,
    at: int,
    new: Syntax,
    index: nat,
    expected: SyntaxKind,
    path: SchemaStep,
)
    requires
        0 <= at < parent.children().len(),
        stands_for(new, parent.children()[at]),
    ensures
        expected_child(with_child(parent, at, new), index, expected, path) == expected_child(
            parent,
            index,
            expected,
            path,
        ),
{
    lemma_node_position_update(parent.children(), at, new, 0, index);
    if node_position(parent.children(), 0, index) is Some {
        lemma_node_position_found(parent.children(), 0, index);
    }
}

/// Exchanging the value of a member for a node keeps the member's key.
pub proof fn lemma_member_value_update(member: Syntax, key: Seq<char>, at: int, new: Syntax)
    requires
        member is Node,
        node_position(member.children(), 0, 1) == Some(at),
        new is Node,
    ensures
        is_member(with_child(member, at, new), key) == is_member(member, key),
        with_child(member, at, new).children()[at] == new,
{
    lemma_node_position_found(member.children(), 0, 1);
    lemma_node_position_order(member.children(), 0, 0, 1);
    lemma_node_position_found(member.children(), 0, 0);
    lemma_node_position_update(member.children(), at, new, 0, 0);
}

/// Exchanging the member of a set for a member with the same key changes
/// nothing of what the search for that key finds.
pub proof fn lemma_find_member_update(set: Syntax, key: Seq<char>, new: Syntax)
    requires
        find_member(set, key) is Some,
        is_member(new, key),
    ensures
        find_member(with_child(set, find_member(set, key).unwrap().0, new), key) == find_member(
            set,
            key,
        ),
        0 <= find_member(set, key).unwrap().0 < set.children().len(),
        is_member(set.children()[find_member(set, key).unwrap().0], key),
        set is Node,
        item_at(
            with_child(set, find_member(set, key).unwrap().0, new).children(),
            find_member(set, key).unwrap().1,
        ) == item_at(set.children(), find_member(set, key).unwrap().1),
        with_member(with_child(set, find_member(set, key).unwrap().0, new), key, None)
            == with_child(set, find_member(set, key).unwrap().0, new),
{
    let at = find_member(set, key).unwrap().0;
    lemma_member_position_found(set.children(), key, 0);
    lemma_member_position_update(set.children(), key, at, new, 0);
    lemma_anchor_position_update(set.children(), at, new, at);
    if anchor_position(set.children(), at) is Some {
        lemma_anchor_position_found(set.children(), at);
    }
}

/// Whether a search ended at a list below the node it started from.
pub open spec fn settled(found: Location, origin: Syntax) -> bool {
    &&& found.root is Node
    &&& found.root.raw() == origin.raw()
    &&& found.path.len() > 0
    &&& node_at(found.root, found.path) is Some
    &&& node_at(found.root, found.path).unwrap().kind() == SyntaxKind::List
}

/// What a search found, with the list exchanged.
pub open spec fn exchanged(found: Location, new: Syntax) -> Location {
    Location {
        root: replace_at(found.root, found.path, new),
        path: found.path,
        anchor: found.anchor,
    }
}

/// Exchanging the node at the end of a path of two steps.
pub proof fn lemma_replace_two(tree: Syntax, first: int, second: int, new: Syntax)
    requires
        tree is Node,
        0 <= first < tree.children().len(),
        tree.children()[first] is Node,
        0 <= second < tree.children()[first].children().len(),
        tree.children()[first].children()[second] is Node,
    ensures
        replace_at(tree, seq![first, second], new) == with_child(
            tree,
            first,
            with_child(tree.children()[first], second, new),
        ),
        node_at(tree, seq![first, second]) == Some(tree.children()[first].children()[second]),
{
    let child = tree.children()[first];
    lemma_replace_at_step(tree, first, seq![second], new);
    lemma_replace_at_step(child, second, Seq::empty(), new);
    lemma_node_at_step(tree, first, seq![second]);
    lemma_node_at_child(child, second);
    assert(seq![first] + seq![second] =~= seq![first, second]);
}

/// The search for the dependency list in a body finds the list again after
/// the list was exchanged.
pub proof fn lemma_regular_stable(set: Syntax, new: Syntax)
    requires
        locate_regular(set) is Ok,
    ensures
        settled(locate_regular(set)->Ok_0, set),
        stands_for(
            new,
            node_at(locate_regular(set)->Ok_0.root, locate_regular(set)->Ok_0.path).unwrap(),
        ) ==> locate_regular(
            replace_at(locate_regular(set)->Ok_0.root, locate_regular(set)->Ok_0.path, new),
        ) == Ok::<Location, SchemaError>(exchanged(locate_regular(set)->Ok_0, new)),
{
    let found = locate_regular(set)->Ok_0;
    let grown = found.root;
    let key = DEPS_KEY@;
    let at = find_member(grown, key).unwrap().0;
    lemma_member_position_found(grown.children(), key, 0);
    let member = grown.children()[at];
    let value = node_position(member.children(), 0, 1).unwrap();
    lemma_node_position_found(member.children(), 0, 1);
    let list = member.children()[value];
    lemma_replace_two(grown, at, value, new);
    if stands_for(new, list) {
        let changed = with_child(member, value, new);
        lemma_member_value_update(member, key, value, new);
        lemma_find_member_update(grown, key, changed);
        lemma_expected_child_update(member, value, new, 1, SyntaxKind::List, SchemaStep::DepsValue);
    }
}

/// The search for the library search path list in an environment set finds
/// the list again after the list was exchanged.
pub proof fn lemma_library_path_stable(set: Syntax, new: Syntax)
    requires
        locate_library_path(set) is Ok,
    ensures
        settled(locate_library_path(set)->Ok_0, set),
        stands_for(
            new,
            node_at(
                locate_library_path(set)->Ok_0.root,
                locate_library_path(set)->Ok_0.path,
            ).unwrap(),
        ) ==> locate_library_path(
            replace_at(
                locate_library_path(set)->Ok_0.root,
                locate_library_path(set)->Ok_0.path,
                new,
            ),
        ) == Ok::<Location, SchemaError>(exchanged(locate_library_path(set)->Ok_0, new)),
{
    let found = locate_library_path(set)->Ok_0;
    let grown = found.root;
    let key = PYTHON_KEY@;
    let at = find_member(grown, key).unwrap().0;
    lemma_member_position_found(grown.children(), key, 0);
    let member = grown.children()[at];
    let apply = node_position(member.children(), 0, 1).unwrap();
    lemma_node_position_found(member.children(), 0, 1);
    let call = member.children()[apply];
    let value = node_position(call.children(), 0, 1).unwrap();
    lemma_node_position_found(call.children(), 0, 1);
    lemma_node_position_order(call.children(), 0, 0, 1);
    lemma_node_position_found(call.children(), 0, 0);
    let list = call.children()[value];
    lemma_replace_at_step(grown, at, seq![apply, value], new);
    lemma_replace_two(member, apply, value, new);
    lemma_node_at_step(grown, at, seq![apply, value]);
    assert(seq![at] + seq![apply, value] =~= seq![at, apply, value]);
    if stands_for(new, list) {
        let called = with_child(call, value, new);
        let changed = with_child(member, apply, called);
        lemma_expected_child_update(call, value, new, 0, SyntaxKind::Select, SchemaStep::Callee);
        lemma_expected_child_update(call, value, new, 1, SyntaxKind::List, SchemaStep::Argument);
        lemma_member_value_update(member, key, apply, called);
        lemma_expected_child_update(
            member,
            apply,
            called,
            1,
            SyntaxKind::Apply,
            SchemaStep::LibraryPathValue,
        );
        lemma_find_member_update(grown, key, changed);
    }
}

/// The search for the library search path list in a body finds the list
/// again after the list was exchanged.
pub proof fn lemma_python_stable(set: Syntax, new: Syntax)
    requires
        locate_python(set) is Ok,
    ensures
        settled(locate_python(set)->Ok_0, set),
        stands_for(
            new,
            node_at(locate_python(set)->Ok_0.root, locate_python(set)->Ok_0.path).unwrap(),
        ) ==> locate_python(
            replace_at(locate_python(set)->Ok_0.root, locate_python(set)->Ok_0.path, new),
        ) == Ok::<Location, SchemaError>(exchanged(locate_python(set)->Ok_0, new)),
{
    let found = locate_python(set)->Ok_0;
    let key = ENV_KEY@;
    let grown = with_member(set, key, env_member());
    let at = find_member(grown, key).unwrap().0;
    lemma_member_position_found(grown.children(), key, 0);
    let member = grown.children()[at];
    let value = node_position(member.children(), 0, 1).unwrap();
    lemma_node_position_found(member.children(), 0, 1);
    let env = member.children()[value];
    let inner = locate_library_path(env)->Ok_0;
    let outer = seq![at, value];
    lemma_library_path_stable(env, new);
    lemma_replace_two(grown, at, value, inner.root);
    // The list lies below the environment set that the search left.
    lemma_replace_at_found(grown, outer, inner.root);
    lemma_node_at_concat(found.root, outer, inner.path);
    let list = node_at(inner.root, inner.path).unwrap();
    if stands_for(new, list) {
        let below = replace_at(inner.root, inner.path, new);
        lemma_replace_at_twice(grown, outer, inner.root, inner.path, new);
        lemma_replace_at_around(inner.root, inner.path, new);
        lemma_replace_two(grown, at, value, below);
        let changed = with_child(member, value, below);
        let whole = with_child(grown, at, changed);
        lemma_member_value_update(member, key, value, below);
        lemma_expected_child_update(
            member,
            value,
            below,
            1,
            SyntaxKind::AttrSet,
            SchemaStep::EnvValue,
        );
        lemma_find_member_update(grown, key, changed);
        lemma_replace_two(whole, at, value, below);
        lemma_replace_at_same(whole, outer);
    }
}

/// The search for the list of a category in a body finds the list again
/// after the list was exchanged.
pub proof fn lemma_body_stable(set: Syntax, dep_type: DepType, new: Syntax)
    requires
        locate_in_body(set, dep_type) is Ok,
    ensures
        settled(locate_in_body(set, dep_type)->Ok_0, set),
        stands_for(
            new,
            node_at(
                locate_in_body(set, dep_type)->Ok_0.root,
                locate_in_body(set, dep_type)->Ok_0.path,
            ).unwrap(),
        ) ==> locate_in_body(
            replace_at(
                locate_in_body(set, dep_type)->Ok_0.root,
                locate_in_body(set, dep_type)->Ok_0.path,
                new,
            ),
            dep_type,
        ) == Ok::<Location, SchemaError>(exchanged(locate_in_body(set, dep_type)->Ok_0, new)),
{
    match dep_type {
        DepType::Regular => lemma_regular_stable(set, new),
        DepType::Python => lemma_python_stable(set, new),
    }
}

/// The search for the list of a category in a document finds the list
/// again, at the same place and under the same whitespace, after the list
/// was exchanged for another: the search looks at nothing inside the list.
pub proof fn lemma_locate_stable(root: Syntax, dep_type: DepType, new: Syntax)
    requires
        locate(root, dep_type) is Ok,
    ensures
        settled(locate(root, dep_type)->Ok_0, root),
        stands_for(
            new,
            node_at(locate(root, dep_type)->Ok_0.root, locate(root, dep_type)->Ok_0.path).unwrap(),
        ) ==> locate(
            replace_at(locate(root, dep_type)->Ok_0.root, locate(root, dep_type)->Ok_0.path, new),
            dep_type,
        ) == Ok::<Location, SchemaError>(exchanged(locate(root, dep_type)->Ok_0, new)),
{
    let found = locate(root, dep_type)->Ok_0;
    let function = node_position(root.children(), 0, 0).unwrap();
    lemma_node_position_found(root.children(), 0, 0);
    let lambda = root.children()[function];
    let body = node_position(lambda.children(), 0, 1).unwrap();
    lemma_node_position_found(lambda.children(), 0, 1);
    lemma_node_position_order(lambda.children(), 0, 0, 1);
    lemma_node_position_found(lambda.children(), 0, 0);
    let set = lambda.children()[body];
    let inner = locate_in_body(set, dep_type)->Ok_0;
    let outer = seq![function, body];
    lemma_body_stable(set, dep_type, new);
    lemma_replace_two(root, function, body, inner.root);
    lemma_replace_at_found(root, outer, inner.root);
    lemma_node_at_concat(found.root, outer, inner.path);
    let list = node_at(inner.root, inner.path).unwrap();
    if stands_for(new, list) {
        let below = replace_at(inner.root, inner.path, new);
        lemma_replace_at_twice(root, outer, inner.root, inner.path, new);
        lemma_replace_at_around(inner.root, inner.path, new);
        lemma_replace_two(root, function, body, below);
        let changed = with_child(lambda, body, below);
        let whole = with_child(root, function, changed);
        lemma_expected_child_update(
            root,
            function,
            changed,
            0,
            SyntaxKind::Lambda,
            SchemaStep::Function,
        );
        lemma_expected_child_update(
            lambda,
            body,
            below,
            0,
            SyntaxKind::Pattern,
            SchemaStep::Parameter,
        );
        lemma_expected_child_update(lambda, body, below, 1, SyntaxKind::AttrSet, SchemaStep::Body);
        lemma_replace_two(whole, function, body, below);
        lemma_replace_at_same(whole, outer);
    }
}

} // verus!
