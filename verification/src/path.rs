//! Paths into a syntax tree: the child positions that lead from the root to
//! a node, the node that stands there, the text around it, and the tree
//! with another node in its place.

use crate::syntax::{
    group_syntax_views, lemma_child, lemma_texts_push, lemma_texts_split, texts, views, Syntax,
    SyntaxElement, SyntaxNode,
};
use vstd::prelude::*;

verus! {

/// The steps of a path as numbers.
pub open spec fn steps(path: Seq<usize>) -> Seq<int> {
    path.map_values(|at: usize| at as int)
}

/// The node that a path of child positions leads to, if each step of the
/// path is the position of a node.
pub open spec fn node_at(tree: Syntax, path: Seq<int>) -> Option<Syntax>
    decreases path.len(),
{
    if !(tree is Node) {
        None
    } else if path.len() == 0 {
        Some(tree)
    } else if 0 <= path[0] < tree.children().len() {
        node_at(tree.children()[path[0]], path.drop_first())
    } else {
        None
    }
}

/// The tree with the node at the end of `path` exchanged for `new`. A path
/// that leads to no node leaves the tree as it is.
pub open spec fn replace_at(tree: Syntax, path: Seq<int>, new: Syntax) -> Syntax
    decreases path.len(),
{
    if !(tree is Node) {
        tree
    } else if path.len() == 0 {
        new
    } else if 0 <= path[0] < tree.children().len() {
        Syntax::Node {
            raw: tree.raw(),
            children: tree.children().update(
                path[0],
                replace_at(tree.children()[path[0]], path.drop_first(), new),
            ),
        }
    } else {
        tree
    }
}

/// The source characters in front of the node at the end of `path`.
pub open spec fn text_before(tree: Syntax, path: Seq<int>) -> Seq<char>
    decreases path.len(),
{
    if !(tree is Node) || path.len() == 0 || path[0] < 0 || path[0] >= tree.children().len() {
        Seq::empty()
    } else {
        texts(tree.children().take(path[0])) + text_before(
            tree.children()[path[0]],
            path.drop_first(),
        )
    }
}

/// The source characters behind the node at the end of `path`.
pub open spec fn text_after(tree: Syntax, path: Seq<int>) -> Seq<char>
    decreases path.len(),
{
    if !(tree is Node) || path.len() == 0 || path[0] < 0 || path[0] >= tree.children().len() {
        Seq::empty()
    } else {
        text_after(tree.children()[path[0]], path.drop_first()) + texts(
            tree.children().skip(path[0] + 1),
        )
    }
}

impl SyntaxNode {
    /// The node at the end of a path of child positions.
    pub fn node_at(&self, path: &Vec<usize>) -> (found: Option<&SyntaxNode>)
        ensures
            match found {
                Some(node) => node_at(self@, steps(path@)) == Some(node@),
                None => node_at(self@, steps(path@)) is None,
            },
    {
        assert(steps(path@).skip(0) =~= steps(path@));
        self.node_from(path, 0)
    }

    /// Exchanges the node at the end of a path of child positions for
    /// `new`. A path that leads to no node leaves the tree as it is.
    pub fn replace_at(self, path: &Vec<usize>, new: SyntaxNode) -> (tree: SyntaxNode)
        ensures
            tree@ == replace_at(self@, steps(path@), new@),
    {
        assert(steps(path@).skip(0) =~= steps(path@));
        self.replace_from(path, 0, new)
    }

    /// The source characters in front of the node at the end of a path of
    /// child positions.
    pub fn chars_before(&self, path: &Vec<usize>) -> (text: Vec<char>)
        ensures
            text@ == text_before(self@, steps(path@)),
    {
        let mut text: Vec<char> = Vec::new();
        assert(steps(path@).skip(0) =~= steps(path@));
        self.write_text_before_from(path, 0, &mut text);
        text
    }

    /// The node at the end of the part of `path` that starts at `from`.
    fn node_from(&self, path: &Vec<usize>, from: usize) -> (found: Option<&SyntaxNode>)
        requires
            from <= path.len(),
        ensures
            match found {
                Some(node) => node_at(self@, steps(path@).skip(from as int)) == Some(node@),
                None => node_at(self@, steps(path@).skip(from as int)) is None,
            },
        decreases path.len() - from,
    {
        broadcast use group_syntax_views;

        let ghost rest = steps(path@).skip(from as int);
        if from == path.len() {
            return Some(self);
        }
        proof {
            assert(rest.drop_first() =~= steps(path@).skip(from + 1));
        }
        proof {
            if path[from as int] < self.children.len() {
                lemma_child(*self, path[from as int] as int);
            }
        }
        match self.child_node(path[from]) {
            Some(child) => child.node_from(path, from + 1),
            None => None,
        }
    }

    /// Exchanges the node at the end of the part of `path` that starts at
    /// `from` for `new`.
    fn replace_from(self, path: &Vec<usize>, from: usize, new: SyntaxNode) -> (tree: SyntaxNode)
        requires
            from <= path.len(),
        ensures
            tree@ == replace_at(self@, steps(path@).skip(from as int), new@),
        decreases path.len() - from,
    {
        broadcast use group_syntax_views;

        let ghost rest = steps(path@).skip(from as int);
        if from == path.len() {
            return new;
        }
        let at = path[from];
        proof {
            assert(rest.drop_first() =~= steps(path@).skip(from + 1));
        }
        if at >= self.children.len() {
            return self;
        }
        proof {
            lemma_child(self, at as int);
        }
        let mut tree = self;
        let ghost before = views(tree.children@);
        let child = tree.children.remove(at);
        let changed = match child {
            SyntaxElement::Node(node) => {
                SyntaxElement::Node(node.replace_from(path, from + 1, new))
            },
            SyntaxElement::Token(token) => SyntaxElement::Token(token),
        };
        tree.children.insert(at, changed);
        assert(views(tree.children@) =~= before.update(at as int, changed@));
        proof {
            let below = replace_at(self@.children()[at as int], rest.drop_first(), new@);
            assert(self@.children() == before);
            assert(changed@ == below);
            assert(tree@ == Syntax::Node {
                raw: self.raw,
                children: before.update(at as int, below),
            });
        }
        tree
    }

    /// The source characters in front of the node at the end of the part of
    /// `path` that starts at `from`, appended to `out`.
    fn write_text_before_from(&self, path: &Vec<usize>, from: usize, out: &mut Vec<char>)
        requires
            from <= path.len(),
        ensures
            final(out)@ == old(out)@ + text_before(self@, steps(path@).skip(from as int)),
        decreases path.len() - from,
    {
        broadcast use group_syntax_views;

        let ghost rest = steps(path@).skip(from as int);
        proof {
            if from < path.len() {
                assert(rest.drop_first() =~= steps(path@).skip(from + 1));
            }
        }
        if from == path.len() || path[from] >= self.children.len() {
            return ;
        }
        let at = path[from];
        let mut i: usize = 0;
        while i < at
            invariant
                i <= at < self.children.len(),
                out@ == old(out)@ + texts(views(self.children@).take(i as int)),
            decreases at - i,
        {
            self.children[i].write_text(out);
            proof {
                let all = views(self.children@);
                lemma_texts_push(all.take(i as int), all[i as int]);
                assert(all.take(i + 1) =~= all.take(i as int).push(all[i as int]));
            }
            i += 1;
        }
        proof {
            lemma_child(*self, at as int);
        }
        match &self.children[at] {
            SyntaxElement::Node(node) => {
                node.write_text_before_from(path, from + 1, out);
            },
            SyntaxElement::Token(_) => {},
        }
        proof {
            let child = self@.children()[at as int];
            assert(text_before(self@, rest) == texts(self@.children().take(at as int))
                + text_before(child, rest.drop_first()));
        }
    }
}

/// A path of one step leads to the child at that position.
pub proof fn lemma_node_at_child(tree: Syntax, at: int)
    requires
        tree is Node,
        0 <= at < tree.children().len(),
        tree.children()[at] is Node,
    ensures
        node_at(tree, seq![at]) == Some(tree.children()[at]),
{
    assert(seq![at].drop_first() =~= Seq::<int>::empty());
    assert(node_at(tree.children()[at], Seq::<int>::empty()) == Some(tree.children()[at]));
}

/// A path whose first step is `at` leads through the child at that
/// position.
pub proof fn lemma_node_at_step(tree: Syntax, at: int, rest: Seq<int>)
    requires
        tree is Node,
        0 <= at < tree.children().len(),
    ensures
        node_at(tree, seq![at] + rest) == node_at(tree.children()[at], rest),
{
    assert((seq![at] + rest).drop_first() =~= rest);
}

/// Following one path and then another is following the two laid end to end.
pub proof fn lemma_node_at_concat(tree: Syntax, first: Seq<int>, second: Seq<int>)
    requires
        node_at(tree, first) is Some,
    ensures
        node_at(tree, first + second) == node_at(node_at(tree, first).unwrap(), second),
    decreases first.len(),
{
    if first.len() > 0 {
        assert((first + second).drop_first() =~= first.drop_first() + second);
        lemma_node_at_concat(tree.children()[first[0]], first.drop_first(), second);
    }
}

/// What stands at the end of a path is a node.
pub proof fn lemma_node_at_is_node(tree: Syntax, path: Seq<int>)
    requires
        node_at(tree, path) is Some,
    ensures
        node_at(tree, path).unwrap() is Node,
    decreases path.len(),
{
    if path.len() > 0 {
        lemma_node_at_is_node(tree.children()[path[0]], path.drop_first());
    }
}

/// The node that was put at the end of a path is found there.
pub proof fn lemma_replace_at_found(tree: Syntax, path: Seq<int>, new: Syntax)
    requires
        node_at(tree, path) is Some,
        new is Node,
    ensures
        node_at(replace_at(tree, path, new), path) == Some(new),
    decreases path.len(),
{
    if path.len() > 0 {
        lemma_replace_at_found(tree.children()[path[0]], path.drop_first(), new);
    }
}

/// A path whose first step is `at` exchanges a node below the child at
/// that position.
pub proof fn lemma_replace_at_step(tree: Syntax, at: int, rest: Seq<int>, new: Syntax)
    requires
        tree is Node,
        0 <= at < tree.children().len(),
    ensures
        replace_at(tree, seq![at] + rest, new) == (Syntax::Node {
            raw: tree.raw(),
            children: tree.children().update(at, replace_at(tree.children()[at], rest, new)),
        }),
{
    assert((seq![at] + rest).drop_first() =~= rest);
}

/// Putting a node where it stands changes nothing.
pub proof fn lemma_replace_at_same(tree: Syntax, path: Seq<int>)
    requires
        node_at(tree, path) is Some,
    ensures
        replace_at(tree, path, node_at(tree, path).unwrap()) == tree,
    decreases path.len(),
{
    if path.len() > 0 {
        let at = path[0];
        lemma_replace_at_same(tree.children()[at], path.drop_first());
        assert(tree.children().update(at, tree.children()[at]) =~= tree.children());
    }
}

/// Exchanging a node below a node that was exchanged is exchanging that
/// node for the changed one.
pub proof fn lemma_replace_at_twice(
    tree: Syntax,
    first: Seq<int>,
    middle: Syntax,
    second: Seq<int>,
    new: Syntax,
)
    requires
        node_at(tree, first) is Some,
    ensures
        replace_at(replace_at(tree, first, middle), first + second, new) == replace_at(
            tree,
            first,
            replace_at(middle, second, new),
        ),
    decreases first.len(),
{
    if first.len() > 0 {
        let at = first[0];
        let child = tree.children()[at];
        lemma_replace_at_twice(child, first.drop_first(), middle, second, new);
        assert((first + second).drop_first() =~= first.drop_first() + second);
        let once = tree.children().update(at, replace_at(child, first.drop_first(), middle));
        assert(once.update(
            at,
            replace_at(
                replace_at(child, first.drop_first(), middle),
                first.drop_first() + second,
                new,
            ),
        ) =~= tree.children().update(
            at,
            replace_at(child, first.drop_first(), replace_at(middle, second, new)),
        ));
    }
}

/// Exchanging a node for a node keeps the kind of the tree and the text in
/// front of and behind the node.
pub proof fn lemma_replace_at_around(tree: Syntax, path: Seq<int>, new: Syntax)
    requires
        node_at(tree, path) is Some,
        new is Node,
        new.raw() == node_at(tree, path).unwrap().raw(),
    ensures
        replace_at(tree, path, new) is Node,
        replace_at(tree, path, new).raw() == tree.raw(),
        replace_at(tree, path, new).children().len() == tree.children().len() || path.len() == 0,
        text_before(replace_at(tree, path, new), path) == text_before(tree, path),
        text_after(replace_at(tree, path, new), path) == text_after(tree, path),
    decreases path.len(),
{
    if path.len() > 0 {
        let at = path[0];
        let child = tree.children()[at];
        lemma_replace_at_around(child, path.drop_first(), new);
        let changed = replace_at(child, path.drop_first(), new);
        let items = tree.children().update(at, changed);
        assert(items.take(at) =~= tree.children().take(at));
        assert(items.skip(at + 1) =~= tree.children().skip(at + 1));
    }
}

/// The text of a tree is the text in front of one of its nodes, the text
/// of that node, and the text behind it.
pub proof fn lemma_text_around(tree: Syntax, path: Seq<int>)
    requires
        node_at(tree, path) is Some,
    ensures
        tree.text() == text_before(tree, path) + node_at(tree, path).unwrap().text() + text_after(
            tree,
            path,
        ),
    decreases path.len(),
{
    if path.len() > 0 {
        let at = path[0];
        let child = tree.children()[at];
        lemma_text_around(child, path.drop_first());
        lemma_texts_split(tree.children(), at);
    }
}

/// Exchanging a node changes the text of the tree in the place of that
/// node and nowhere else.
pub proof fn lemma_replace_at_text(tree: Syntax, path: Seq<int>, new: Syntax)
    requires
        node_at(tree, path) is Some,
    ensures
        replace_at(tree, path, new).text() == text_before(tree, path) + new.text() + text_after(
            tree,
            path,
        ),
    decreases path.len(),
{
    if path.len() > 0 {
        let at = path[0];
        let child = tree.children()[at];
        let changed = replace_at(child, path.drop_first(), new);
        lemma_replace_at_text(child, path.drop_first(), new);
        let items = tree.children().update(at, changed);
        lemma_texts_split(items, at);
        assert(items.take(at) =~= tree.children().take(at));
        assert(items.skip(at + 1) =~= tree.children().skip(at + 1));
    }
}

} // verus!
