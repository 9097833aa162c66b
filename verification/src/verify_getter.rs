//! Locating the target list. The document must have one exact shape; where
//! it has another, the search fails and leaves the tree as it was. A key
//! that the shape allows to be absent is created on the way.

use crate::parser::{parse, syntax_tree};
use crate::path::{
    lemma_node_at_child, lemma_node_at_concat, lemma_replace_at_found, lemma_replace_at_text,
    node_at, replace_at, steps, text_after, text_before,
};
use crate::syntax::{
    group_syntax_views, lemma_child, lemma_texts_concat, lemma_texts_push, node_position, texts,
    views, Syntax, SyntaxElement, SyntaxKind, SyntaxNode, SyntaxToken,
};
use crate::text::{
    blanks, chars_equal, chars_of, has_line_break, indent_width, push_indent, string_of,
};
use crate::DepType;
use vstd::prelude::*;

verus! {

broadcast use group_syntax_views;

/// The name that the function's parameter pattern must bind.
pub const PARAMETER: &'static str = "pkgs";

/// The key of the dependency list.
pub const DEPS_KEY: &'static str = "deps";

/// The key of the environment set.
pub const ENV_KEY: &'static str = "env";

/// The key of the library search path.
pub const PYTHON_KEY: &'static str = "PYTHON_LD_LIBRARY_PATH";

/// The function that the library search path must apply to its list.
pub const CALLEE: &'static str = "pkgs.lib.makeLibraryPath";

/// The token that opens an attribute set.
pub const BRACE: &'static str = "{";

/// A set whose one member is the dependency list, empty.
pub const DEPS_TEMPLATE: &'static str = "{\n  deps = [];\n}";

/// That member.
pub const DEPS_MEMBER: &'static str = "deps = [];";

/// A set whose one member is the environment set with an empty library
/// search path.
pub const ENV_TEMPLATE: &'static str =
    "{\n  env = {\n    PYTHON_LD_LIBRARY_PATH = pkgs.lib.makeLibraryPath [];\n  };\n}";

/// That member.
pub const ENV_MEMBER: &'static str =
    "env = {\n    PYTHON_LD_LIBRARY_PATH = pkgs.lib.makeLibraryPath [];\n  };";

/// A set whose one member is an empty library search path.
pub const PYTHON_TEMPLATE: &'static str =
    "{\n    PYTHON_LD_LIBRARY_PATH = pkgs.lib.makeLibraryPath [];\n}";

/// That member.
pub const PYTHON_MEMBER: &'static str = "PYTHON_LD_LIBRARY_PATH = pkgs.lib.makeLibraryPath [];";

/// A place in the shape that a document must have.
#[derive(Clone, Copy, Debug, PartialEq, Eq)]
pub enum SchemaStep {
    /// The root of the document.
    Root,
    /// The function that the document consists of.
    Function,
    /// The function's parameter pattern.
    Parameter,
    /// The function's body.
    Body,
    /// The value of `deps`.
    DepsValue,
    /// The value of `env`.
    EnvValue,
    /// The value of `PYTHON_LD_LIBRARY_PATH`.
    LibraryPathValue,
    /// The function that the library search path applies.
    Callee,
    /// The text of that function.
    CalleeText,
    /// The list that the library search path is applied to.
    Argument,
}

/// A key of the shape.
#[derive(Clone, Copy, Debug, PartialEq, Eq)]
pub enum Key {
    Deps,
    Env,
    LibraryPath,
}

/// Why a document has not the shape that the editor works on.
#[derive(Clone, Copy, Debug, PartialEq, Eq)]
pub enum SchemaError {
    /// At `path` a node of kind `expected` must stand; `found` is the kind
    /// that stands there, or `None` where nothing does.
    ShapeMismatch { expected: SyntaxKind, found: Option<SyntaxKind>, path: SchemaStep },
    /// The parameter pattern does not bind `pkgs`.
    MissingParameter,
    /// The key is absent and could not be created.
    MissingKey { key: Key },
}

/// The target list and the whitespace that governs its indentation.
pub struct SyntaxNodeAndWhitespace {
    /// The last whitespace token with a line break in front of the member
    /// that owns the list, among that member's siblings.
    pub whitespace: Option<SyntaxToken>,
    /// The list.
    pub node: SyntaxNode,
    /// The child positions that lead from the root to the list.
    pub path: Vec<usize>,
    /// The number of characters of the document in front of the list.
    pub offset: usize,
}

/// The mathematical model of a successful search: the document as the
/// search leaves it, the way to the list, and the governing whitespace.
pub struct Location {
    pub root: Syntax,
    pub path: Seq<int>,
    pub anchor: Option<Syntax>,
}

/// A list that a search in a part of the document found, with its place in
/// that part.
struct Found {
    whitespace: Option<SyntaxToken>,
    node: SyntaxNode,
    path: Vec<usize>,
}

/// The model of an optional token.
pub open spec fn token_view(token: Option<SyntaxToken>) -> Option<Syntax> {
    match token {
        Some(token) => Some(token@),
        None => None,
    }
}

/// The model of an optional node.
pub open spec fn node_view(node: Option<SyntaxNode>) -> Option<Syntax> {
    match node {
        Some(node) => Some(node@),
        None => None,
    }
}

/// The first position from `from` on of a node with the source text `name`.
pub open spec fn named_child(items: Seq<Syntax>, name: Seq<char>, from: int) -> Option<int>
    decreases items.len() - from,
{
    if from < 0 || from >= items.len() {
        None
    } else if items[from] is Node && items[from].text() == name {
        Some(from)
    } else {
        named_child(items, name, from + 1)
    }
}

/// Whether an element is a member `key = value;` with the given key.
pub open spec fn is_member(item: Syntax, key: Seq<char>) -> bool {
    &&& item is Node
    &&& item.kind() == SyntaxKind::AttrpathValue
    &&& match node_position(item.children(), 0, 0) {
        Some(at) => item.children()[at].text() == key,
        None => false,
    }
}

/// Whether an element is a whitespace token that holds a line break.
pub open spec fn is_break(item: Syntax) -> bool {
    &&& item is Token
    &&& item.kind() == SyntaxKind::Whitespace
    &&& item.text().contains('\n')
}

/// The first position from `from` on of a member with the given key.
pub open spec fn member_position(items: Seq<Syntax>, key: Seq<char>, from: int) -> Option<int>
    decreases items.len() - from,
{
    if from < 0 || from >= items.len() {
        None
    } else if is_member(items[from], key) {
        Some(from)
    } else {
        member_position(items, key, from + 1)
    }
}

/// The last position in front of `before` of a whitespace token that holds
/// a line break.
pub open spec fn anchor_position(items: Seq<Syntax>, before: int) -> Option<int>
    decreases before,
{
    if before <= 0 || before > items.len() {
        None
    } else if is_break(items[before - 1]) {
        Some(before - 1)
    } else {
        anchor_position(items, before - 1)
    }
}

/// The last position in front of `before` of a node.
pub open spec fn last_node(items: Seq<Syntax>, before: int) -> Option<int>
    decreases before,
{
    if before <= 0 || before > items.len() {
        None
    } else if items[before - 1] is Node {
        Some(before - 1)
    } else {
        last_node(items, before - 1)
    }
}

/// The element at an optional position.
pub open spec fn item_at(items: Seq<Syntax>, at: Option<int>) -> Option<Syntax> {
    match at {
        Some(at) => Some(items[at]),
        None => None,
    }
}

/// The member of an attribute set with the given key: its position and the
/// position of the whitespace that governs it. A node of another kind has
/// no members.
pub open spec fn find_member(set: Syntax, key: Seq<char>) -> Option<(int, Option<int>)> {
    if set.kind() != SyntaxKind::AttrSet {
        None
    } else {
        match member_position(set.children(), key, 0) {
            Some(at) => Some((at, anchor_position(set.children(), at))),
            None => None,
        }
    }
}

/// The first position from `from` on of a token `{`.
pub open spec fn brace_position(items: Seq<Syntax>, from: int) -> Option<int>
    decreases items.len() - from,
{
    if from < 0 || from >= items.len() {
        None
    } else if items[from] is Token && items[from].text() == BRACE@ {
        Some(from)
    } else {
        brace_position(items, from + 1)
    }
}

/// Where a new last member goes: behind the last child node; in a set that
/// has none, behind the opening brace; and at the end where no brace
/// stands.
pub open spec fn member_slot(items: Seq<Syntax>) -> int {
    match last_node(items, items.len() as int) {
        Some(last) => last + 1,
        None => match brace_position(items, 0) {
            Some(brace) => brace + 1,
            None => items.len() as int,
        },
    }
}

/// The indentation of a new last member: that of the last child node, as
/// the whitespace that governs it tells, and two blanks in a set that has
/// no child node.
pub open spec fn member_indent(items: Seq<Syntax>) -> nat {
    match last_node(items, items.len() as int) {
        Some(last) => match anchor_position(items, last) {
            Some(anchor) => indent_width(items[anchor].text()),
            None => 0,
        },
        None => 2,
    }
}

/// A line break and an indentation.
pub open spec fn gap_text(indent: nat) -> Seq<char> {
    seq!['\n'] + blanks(indent)
}

/// The set with `gap` and `member` as its new last member.
pub open spec fn with_new_member(set: Syntax, gap: Seq<Syntax>, member: Syntax) -> Syntax {
    let slot = member_slot(set.children());
    Syntax::Node {
        raw: set.raw(),
        children: set.children().take(slot) + gap + seq![member] + set.children().skip(slot),
    }
}

/// The elements that the parser makes of a line break and an indentation.
pub open spec fn gap_elements(indent: nat) -> Option<Seq<Syntax>> {
    match syntax_tree(gap_text(indent)) {
        Some(root) => Some(root.children()),
        None => None,
    }
}

/// The attribute set with a member for `key`: the set itself where it has
/// one, else the set with `template` as its new last member, on a line of
/// its own. Without a template, or where the line break and the
/// indentation are longer than a text that is parsed, the set stays as it
/// is.
pub open spec fn with_member(set: Syntax, key: Seq<char>, template: Option<Syntax>) -> Syntax {
    if set.kind() != SyntaxKind::AttrSet || find_member(set, key) is Some {
        set
    } else {
        match (template, gap_elements(member_indent(set.children()))) {
            (Some(member), Some(gap)) => with_new_member(set, gap, member),
            _ => set,
        }
    }
}

/// The one member of the set that a template text consists of, if the
/// parser reads it with the text `member`.
pub open spec fn member_of_template(text: Seq<char>, member: Seq<char>) -> Option<Syntax> {
    match syntax_tree(text) {
        Some(root) => match node_position(root.children(), 0, 0) {
            Some(first) => match node_position(root.children()[first].children(), 0, 0) {
                Some(second) => if root.children()[first].children()[second].text() == member {
                    Some(root.children()[first].children()[second])
                } else {
                    None
                },
                None => None,
            },
            None => None,
        },
        None => None,
    }
}

/// The member `deps = [];`, as the parser reads it.
pub open spec fn deps_member() -> Option<Syntax> {
    member_of_template(DEPS_TEMPLATE@, DEPS_MEMBER@)
}

/// The member `env` with an empty library search path, as the parser reads
/// it.
pub open spec fn env_member() -> Option<Syntax> {
    member_of_template(ENV_TEMPLATE@, ENV_MEMBER@)
}

/// The member `PYTHON_LD_LIBRARY_PATH` with an empty list, as the parser
/// reads it.
pub open spec fn python_member() -> Option<Syntax> {
    member_of_template(PYTHON_TEMPLATE@, PYTHON_MEMBER@)
}

/// The text of the attribute set with a member for `key`: where the set
/// has none, the text of the set with a line break, the indentation and
/// the text of the new member behind its last child node.
pub open spec fn text_with_member(set: Syntax, key: Seq<char>, template: Option<Syntax>) -> Seq<
    char,
> {
    if set.kind() != SyntaxKind::AttrSet || find_member(set, key) is Some {
        set.text()
    } else {
        let slot = member_slot(set.children());
        let indent = member_indent(set.children());
        match (template, gap_elements(indent)) {
            (Some(member), Some(_)) => texts(set.children().take(slot)) + gap_text(indent)
                + member.text() + texts(set.children().skip(slot)),
            _ => set.text(),
        }
    }
}

/// A mismatch of kinds at a place of the shape.
pub open spec fn mismatch(expected: SyntaxKind, found: Option<Syntax>, path: SchemaStep)
    -> SchemaError {
    SchemaError::ShapeMismatch {
        expected,
        found: match found {
            Some(item) => Some(item.kind()),
            None => None,
        },
        path,
    }
}

/// The child node of `parent` that `index` child nodes precede, if it has
/// the kind `expected`: its position, or the mismatch.
pub open spec fn expected_child(
    parent: Syntax,
    index: nat,
    expected: SyntaxKind,
    path: SchemaStep,
) -> Result<int, SchemaError> {
    match node_position(parent.children(), 0, index) {
        Some(at) => if parent.children()[at].kind() == expected {
            Ok(at)
        } else {
            Err(mismatch(expected, Some(parent.children()[at]), path))
        },
        None => Err(mismatch(expected, None, path)),
    }
}

/// The search for the dependency list in the body of the function.
pub open spec fn locate_regular(set: Syntax) -> Result<Location, SchemaError> {
    let set = with_member(set, DEPS_KEY@, deps_member());
    match find_member(set, DEPS_KEY@) {
        None => Err(SchemaError::MissingKey { key: Key::Deps }),
        Some((member, anchor)) => match expected_child(
            set.children()[member],
            1,
            SyntaxKind::List,
            SchemaStep::DepsValue,
        ) {
            Err(error) => Err(error),
            Ok(list) => Ok(
                Location {
                    root: set,
                    path: seq![member, list],
                    anchor: item_at(set.children(), anchor),
                },
            ),
        },
    }
}

/// The search for the library search path list in the body of the function.
pub open spec fn locate_python(set: Syntax) -> Result<Location, SchemaError> {
    let set = with_member(set, ENV_KEY@, env_member());
    match find_member(set, ENV_KEY@) {
        None => Err(SchemaError::MissingKey { key: Key::Env }),
        Some((env, _)) => match expected_child(
            set.children()[env],
            1,
            SyntaxKind::AttrSet,
            SchemaStep::EnvValue,
        ) {
            Err(error) => Err(error),
            Ok(value) => match locate_library_path(set.children()[env].children()[value]) {
                Err(error) => Err(error),
                Ok(inner) => Ok(
                    Location {
                        root: replace_at(set, seq![env, value], inner.root),
                        path: seq![env, value] + inner.path,
                        anchor: inner.anchor,
                    },
                ),
            },
        },
    }
}

/// The search for the library search path list in the environment set.
pub open spec fn locate_library_path(set: Syntax) -> Result<Location, SchemaError> {
    let set = with_member(set, PYTHON_KEY@, python_member());
    match find_member(set, PYTHON_KEY@) {
        None => Err(SchemaError::MissingKey { key: Key::LibraryPath }),
        Some((member, anchor)) => match expected_child(
            set.children()[member],
            1,
            SyntaxKind::Apply,
            SchemaStep::LibraryPathValue,
        ) {
            Err(error) => Err(error),
            Ok(apply) => {
                let call = set.children()[member].children()[apply];
                match expected_child(call, 0, SyntaxKind::Select, SchemaStep::Callee) {
                    Err(error) => Err(error),
                    Ok(callee) => if call.children()[callee].text() != CALLEE@ {
                        Err(
                            mismatch(
                                SyntaxKind::Select,
                                Some(call.children()[callee]),
                                SchemaStep::CalleeText,
                            ),
                        )
                    } else {
                        match expected_child(call, 1, SyntaxKind::List, SchemaStep::Argument) {
                            Err(error) => Err(error),
                            Ok(list) => Ok(
                                Location {
                                    root: set,
                                    path: seq![member, apply, list],
                                    anchor: item_at(set.children(), anchor),
                                },
                            ),
                        }
                    },
                }
            },
        },
    }
}

/// The search for the list of a category in the body of the function.
pub open spec fn locate_in_body(set: Syntax, dep_type: DepType) -> Result<Location, SchemaError> {
    match dep_type {
        DepType::Regular => locate_regular(set),
        DepType::Python => locate_python(set),
    }
}

/// The search for the list of a category in a document: the root holds a
/// function, whose parameter pattern binds `pkgs` and whose body is an
/// attribute set, and the set holds the list, or gets it.
pub open spec fn locate(root: Syntax, dep_type: DepType) -> Result<Location, SchemaError> {
    if !(root is Node) || root.kind() != SyntaxKind::Root {
        Err(mismatch(SyntaxKind::Root, Some(root), SchemaStep::Root))
    } else {
        match expected_child(root, 0, SyntaxKind::Lambda, SchemaStep::Function) {
            Err(error) => Err(error),
            Ok(function) => {
                let lambda = root.children()[function];
                match expected_child(lambda, 0, SyntaxKind::Pattern, SchemaStep::Parameter) {
                    Err(error) => Err(error),
                    Ok(pattern) => if named_child(
                        lambda.children()[pattern].children(),
                        PARAMETER@,
                        0,
                    ) is None {
                        Err(SchemaError::MissingParameter)
                    } else {
                        match expected_child(lambda, 1, SyntaxKind::AttrSet, SchemaStep::Body) {
                            Err(error) => Err(error),
                            Ok(body) => match locate_in_body(lambda.children()[body], dep_type) {
                                Err(error) => Err(error),
                                Ok(inner) => Ok(
                                    Location {
                                        root: replace_at(
                                            root,
                                            seq![function, body],
                                            inner.root,
                                        ),
                                        path: seq![function, body] + inner.path,
                                        anchor: inner.anchor,
                                    },
                                ),
                            },
                        }
                    },
                }
            },
        }
    }
}

/// The text of the body of the function as the search for the library
/// search path leaves it: the text of the body with `env`, and in it the
/// text of the environment set with `PYTHON_LD_LIBRARY_PATH`.
pub open spec fn python_text(set: Syntax) -> Seq<char> {
    let set = with_member(set, ENV_KEY@, env_member());
    match find_member(set, ENV_KEY@) {
        None => set.text(),
        Some((env, _)) => match expected_child(
            set.children()[env],
            1,
            SyntaxKind::AttrSet,
            SchemaStep::EnvValue,
        ) {
            Err(_) => set.text(),
            Ok(value) => text_before(set, seq![env, value]) + text_with_member(
                set.children()[env].children()[value],
                PYTHON_KEY@,
                python_member(),
            ) + text_after(set, seq![env, value]),
        },
    }
}

/// The text of the body of the function as the search for the list of a
/// category leaves it.
pub open spec fn body_text(set: Syntax, dep_type: DepType) -> Seq<char> {
    match dep_type {
        DepType::Regular => text_with_member(set, DEPS_KEY@, deps_member()),
        DepType::Python => python_text(set),
    }
}

/// The text of a document as a successful search leaves it: the text of the
/// document, with the keys that the search created in its body.
pub open spec fn searched_text(root: Syntax, dep_type: DepType) -> Seq<char> {
    match expected_child(root, 0, SyntaxKind::Lambda, SchemaStep::Function) {
        Err(_) => root.text(),
        Ok(function) => match expected_child(
            root.children()[function],
            1,
            SyntaxKind::AttrSet,
            SchemaStep::Body,
        ) {
            Err(_) => root.text(),
            Ok(body) => text_before(root, seq![function, body]) + body_text(
                root.children()[function].children()[body],
                dep_type,
            ) + text_after(root, seq![function, body]),
        },
    }
}

/// The child node of `node` that `index` child nodes precede, with its
/// position among the children.
fn get_nth_child(node: &SyntaxNode, index: usize) -> (found: Option<(usize, &SyntaxNode)>)
    ensures
        match found {
            Some((at, child)) => node_position(node@.children(), 0, index as nat) == Some(
                at as int,
            ) && at < node.children.len() && node@.children()[at as int] == child@
                && node.children[at as int] == SyntaxElement::Node(*child),
            None => node_position(node@.children(), 0, index as nat) is None,
        },
{
    node.nth_child(index)
}

/// Checks that the child node of `parent` that `index` child nodes precede
/// has the kind `expected`, and hands it out with its position.
pub fn expect_child(
    parent: &SyntaxNode,
    index: usize,
    expected: SyntaxKind,
    path: SchemaStep,
) -> (found: Result<(usize, &SyntaxNode), SchemaError>)
    ensures
        match found {
            Ok((at, child)) => expected_child(parent@, index as nat, expected, path) == Ok::<
                int,
                SchemaError,
            >(at as int) && at < parent.children.len() && parent@.children()[at as int] == child@
                && parent.children[at as int] == SyntaxElement::Node(*child) && child@.kind()
                == expected,
            Err(error) => expected_child(parent@, index as nat, expected, path) == Err::<
                int,
                SchemaError,
            >(error),
        },
{
    match get_nth_child(parent, index) {
        Some((at, child)) => {
            let kind = child.kind();
            if kind == expected {
                Ok((at, child))
            } else {
                Err(SchemaError::ShapeMismatch { expected, found: Some(kind), path })
            }
        },
        None => Err(SchemaError::ShapeMismatch { expected, found: None, path }),
    }
}

/// Whether the node's source text is `text`.
fn text_is(node: &SyntaxNode, text: &Vec<char>) -> (same: bool)
    ensures
        same == (node@.text() == text@),
{
    let own = node.chars();
    chars_equal(&own, text)
}

/// The first child node of `node` whose source text is `name`.
pub fn find_child_with_value(node: &SyntaxNode, name: &Vec<char>) -> (found: Option<usize>)
    ensures
        match found {
            Some(at) => named_child(node@.children(), name@, 0) == Some(at as int) && at
                < node.children.len() && node@.children()[at as int] is Node
                && node@.children()[at as int].text() == name@,
            None => named_child(node@.children(), name@, 0) is None,
        },
{
    let mut at: usize = 0;
    while at < node.children.len()
        invariant
            at <= node.children.len(),
            named_child(node@.children(), name@, 0) == named_child(
                node@.children(),
                name@,
                at as int,
            ),
        decreases node.children.len() - at,
    {
        proof {
            lemma_child(*node, at as int);
        }
        match &node.children[at] {
            SyntaxElement::Node(child) => {
                if text_is(child, name) {
                    return Some(at);
                }
            },
            SyntaxElement::Token(_) => {},
        }
        at += 1;
    }
    None
}

/// Whether the node is a member `key = value;` with the given key.
fn has_key(node: &SyntaxNode, key: &Vec<char>) -> (member: bool)
    ensures
        member == is_member(node@, key@),
{
    if node.kind() != SyntaxKind::AttrpathValue {
        return false;
    }
    match get_nth_child(node, 0) {
        Some((_, name)) => text_is(name, key),
        None => false,
    }
}

/// Whether the token is whitespace that holds a line break.
fn holds_break(token: &SyntaxToken) -> (found: bool)
    ensures
        found == is_break(token@),
{
    token.kind() == SyntaxKind::Whitespace && has_line_break(&token.text)
}

/// The model of an optional token behind a reference.
pub open spec fn token_ref_view(token: Option<&SyntaxToken>) -> Option<Syntax> {
    match token {
        Some(token) => Some(token@),
        None => None,
    }
}

/// The member of an attribute set with the given key: its position, the
/// member, and the last whitespace token with a line break in front of it.
pub fn find_key_value_with_key<'a>(node: &'a SyntaxNode, key: &Vec<char>) -> (found: Option<
    (usize, &'a SyntaxNode, Option<&'a SyntaxToken>),
>)
    ensures
        match found {
            Some((at, member, whitespace)) => find_member(node@, key@) is Some && find_member(
                node@,
                key@,
            ).unwrap().0 == at && at < node.children.len() && node.children[at as int]
                == SyntaxElement::Node(*member) && node@.children()[at as int] == member@
                && is_member(member@, key@) && token_ref_view(whitespace) == item_at(
                node@.children(),
                find_member(node@, key@).unwrap().1,
            ),
            None => find_member(node@, key@) is None,
        },
{
    if node.kind() != SyntaxKind::AttrSet {
        return None;
    }
    let mut last_whitespace: Option<&SyntaxToken> = None;
    let mut at: usize = 0;
    while at < node.children.len()
        invariant
            at <= node.children.len(),
            node@.kind() == SyntaxKind::AttrSet,
            member_position(node@.children(), key@, 0) == member_position(
                node@.children(),
                key@,
                at as int,
            ),
            token_ref_view(last_whitespace) == item_at(
                node@.children(),
                anchor_position(node@.children(), at as int),
            ),
        decreases node.children.len() - at,
    {
        proof {
            lemma_child(*node, at as int);
        }
        match &node.children[at] {
            SyntaxElement::Node(member) => {
                if has_key(member, key) {
                    return Some((at, member, last_whitespace));
                }
            },
            SyntaxElement::Token(token) => {
                if holds_break(token) {
                    last_whitespace = Some(token);
                }
            },
        }
        at += 1;
    }
    None
}

/// The position of the last child node, and the last whitespace token with
/// a line break in front of it.
fn last_child_node(node: &SyntaxNode) -> (found: Option<(usize, Option<&SyntaxToken>)>)
    ensures
        match found {
            Some((at, whitespace)) => last_node(node@.children(), node.children.len() as int)
                == Some(at as int) && at < node.children.len() && token_ref_view(whitespace)
                == item_at(node@.children(), anchor_position(node@.children(), at as int)),
            None => last_node(node@.children(), node.children.len() as int) is None,
        },
{
    let mut last: Option<(usize, Option<&SyntaxToken>)> = None;
    let mut last_whitespace: Option<&SyntaxToken> = None;
    let mut at: usize = 0;
    while at < node.children.len()
        invariant
            at <= node.children.len(),
            token_ref_view(last_whitespace) == item_at(
                node@.children(),
                anchor_position(node@.children(), at as int),
            ),
            match last {
                Some((last, whitespace)) => last_node(node@.children(), at as int) == Some(
                    last as int,
                ) && last < at && token_ref_view(whitespace) == item_at(
                    node@.children(),
                    anchor_position(node@.children(), last as int),
                ),
                None => last_node(node@.children(), at as int) is None,
            },
        decreases node.children.len() - at,
    {
        proof {
            lemma_child(*node, at as int);
        }
        match &node.children[at] {
            SyntaxElement::Node(_) => {
                last = Some((at, last_whitespace));
            },
            SyntaxElement::Token(token) => {
                if holds_break(token) {
                    last_whitespace = Some(token);
                }
            },
        }
        at += 1;
    }
    last
}

/// Where a new member goes in a set without child node: behind the opening
/// brace, and at the end where no brace stands.
fn brace_slot(node: &SyntaxNode) -> (slot: usize)
    ensures
        slot <= node.children.len(),
        slot == match brace_position(node@.children(), 0) {
            Some(brace) => brace + 1,
            None => node.children.len() as int,
        },
{
    let brace = chars_of(BRACE);
    let mut at: usize = 0;
    while at < node.children.len()
        invariant
            at <= node.children.len(),
            brace@ == BRACE@,
            brace_position(node@.children(), 0) == brace_position(node@.children(), at as int),
        decreases node.children.len() - at,
    {
        proof {
            lemma_child(*node, at as int);
        }
        match &node.children[at] {
            SyntaxElement::Token(token) => {
                if chars_equal(&token.text, &brace) {
                    return at + 1;
                }
            },
            SyntaxElement::Node(_) => {},
        }
        at += 1;
    }
    node.children.len()
}

/// Puts `gap` and `member` into an attribute set as its new last member:
/// behind the last child node, or behind the opening brace of a set that
/// has none.
pub fn insert_member(set: SyntaxNode, gap: Vec<SyntaxElement>, member: SyntaxNode) -> (grown:
    SyntaxNode)
    ensures
        grown@ == with_new_member(set@, views(gap@), member@),
        grown@.text() == texts(set@.children().take(member_slot(set@.children()))) + texts(
            views(gap@),
        ) + member@.text() + texts(set@.children().skip(member_slot(set@.children()))),
{
    let slot: usize = match last_child_node(&set) {
        Some((last, _)) => last + 1,
        None => brace_slot(&set),
    };
    let ghost before = set@.children();
    let SyntaxNode { raw, children } = set;
    let mut children = children;
    let mut gap = gap;
    let ghost gap_before = views(gap@);
    let mut rest = children.split_off(slot);
    children.append(&mut gap);
    children.push(SyntaxElement::Node(member));
    children.append(&mut rest);
    let grown = SyntaxNode { raw, children };
    assert(grown@.children() =~= before.take(slot as int) + gap_before + seq![member@]
        + before.skip(slot as int));
    proof {
        let head = before.take(slot as int);
        lemma_texts_concat(head, gap_before);
        lemma_texts_push(head + gap_before, member@);
        lemma_texts_concat(head + gap_before + seq![member@], before.skip(slot as int));
        assert((head + gap_before).push(member@) =~= head + gap_before + seq![member@]);
    }
    grown
}

/// A line break and the indentation of a new last member of the set.
fn gap_for(set: &SyntaxNode) -> (text: Vec<char>)
    ensures
        text@ == gap_text(member_indent(set@.children())),
{
    let mut text: Vec<char> = Vec::new();
    text.push('\n');
    match last_child_node(set) {
        Some((_, Some(whitespace))) => {
            push_indent(&mut text, &whitespace.text);
        },
        Some((_, None)) => {},
        None => {
            text.push(' ');
            text.push(' ');
        },
    }
    text
}

/// The attribute set with a member for `key`. Where the set has none,
/// `template` becomes its new last member, behind a line break and the
/// indentation of the member before it.
pub fn find_or_insert_key_value_with_key(
    set: SyntaxNode,
    key: &Vec<char>,
    template: Option<SyntaxNode>,
) -> (grown: SyntaxNode)
    ensures
        grown@ == with_member(set@, key@, node_view(template)),
        grown@.text() == text_with_member(set@, key@, node_view(template)),
{
    if set.kind() != SyntaxKind::AttrSet {
        return set;
    }
    if find_key_value_with_key(&set, key).is_some() {
        return set;
    }
    let source = string_of(&gap_for(&set));
    match (template, parse(source.as_str())) {
        (Some(member), Some(gap)) => insert_member(set, gap.children, member),
        _ => set,
    }
}

/// The one member of the set that a template text consists of, if the
/// parser reads it with the text `member`.
fn template_member(text: &str, member: &str) -> (found: Option<SyntaxNode>)
    ensures
        node_view(found) == member_of_template(text@, member@),
        found matches Some(node) ==> node@.text() == member@,
{
    match parse(text) {
        Some(root) => match get_nth_child(&root, 0) {
            Some((_, first)) => match get_nth_child(first, 0) {
                Some((_, second)) => if text_is(second, &chars_of(member)) {
                    Some(second.duplicate())
                } else {
                    None
                },
                None => None,
            },
            None => None,
        },
        None => None,
    }
}

/// The member `deps = [];`.
pub fn template_deps() -> (member: Option<SyntaxNode>)
    ensures
        node_view(member) == deps_member(),
        member matches Some(node) ==> node@.text() == DEPS_MEMBER@,
{
    template_member(DEPS_TEMPLATE, DEPS_MEMBER)
}

/// The member `env` with an empty library search path.
pub fn template_env() -> (member: Option<SyntaxNode>)
    ensures
        node_view(member) == env_member(),
        member matches Some(node) ==> node@.text() == ENV_MEMBER@,
{
    template_member(ENV_TEMPLATE, ENV_MEMBER)
}

/// The member `PYTHON_LD_LIBRARY_PATH` with an empty list.
pub fn template_python() -> (member: Option<SyntaxNode>)
    ensures
        node_view(member) == python_member(),
        member matches Some(node) ==> node@.text() == PYTHON_MEMBER@,
{
    template_member(PYTHON_TEMPLATE, PYTHON_MEMBER)
}

/// A copy of an optional token.
fn token_copy(token: Option<&SyntaxToken>) -> (copy: Option<SyntaxToken>)
    ensures
        token_view(copy) == token_ref_view(token),
{
    match token {
        Some(token) => Some(token.duplicate()),
        None => None,
    }
}

/// One path behind another.
fn join_paths(first: Vec<usize>, second: &Vec<usize>) -> (joined: Vec<usize>)
    ensures
        joined@ == first@ + second@,
        steps(joined@) == steps(first@) + steps(second@),
{
    let mut joined = first;
    let mut i: usize = 0;
    while i < second.len()
        invariant
            i <= second.len(),
            joined@ == first@ + second@.take(i as int),
        decreases second.len() - i,
    {
        joined.push(second[i]);
        i += 1;
    }
    joined
}

/// A path of two steps.
fn two_steps(first: usize, second: usize) -> (path: Vec<usize>)
    ensures
        path@ == seq![first, second],
        steps(path@) == seq![first as int, second as int],
{
    let mut path: Vec<usize> = Vec::new();
    path.push(first);
    path.push(second);
    path
}

/// Finds the dependency list in the body of the function, and creates it
/// where the body has no `deps`. Hands back the body as the search leaves
/// it, and the list with its place in that body.
fn verify_get_regular(set: SyntaxNode) -> (found: Result<(SyntaxNode, Found), SchemaError>)
    ensures
        match found {
            Ok((grown, list)) => locate_regular(set@) == Ok::<Location, SchemaError>(
                Location {
                    root: grown@,
                    path: steps(list.path@),
                    anchor: token_view(list.whitespace),
                },
            ) && node_at(grown@, steps(list.path@)) == Some(list.node@) && list.node@.kind()
                == SyntaxKind::List && grown@.text() == text_with_member(
                set@,
                DEPS_KEY@,
                deps_member(),
            ),
            Err(error) => locate_regular(set@) == Err::<Location, SchemaError>(error),
        },
{
    let key = chars_of(DEPS_KEY);
    let grown = find_or_insert_key_value_with_key(set, &key, template_deps());
    let list = match find_key_value_with_key(&grown, &key) {
        None => {
            return Err(SchemaError::MissingKey { key: Key::Deps });
        },
        Some((at, member, whitespace)) => match expect_child(
            member,
            1,
            SyntaxKind::List,
            SchemaStep::DepsValue,
        ) {
            Err(error) => {
                return Err(error);
            },
            Ok((value, list)) => {
                proof {
                    lemma_node_at_child(grown@, at as int);
                    lemma_node_at_child(member@, value as int);
                    lemma_node_at_concat(grown@, seq![at as int], seq![value as int]);
                    assert(seq![at as int] + seq![value as int] =~= seq![at as int, value as int]);
                }
                Found {
                    whitespace: token_copy(whitespace),
                    node: list.duplicate(),
                    path: two_steps(at, value),
                }
            },
        },
    };
    Ok((grown, list))
}

/// Finds the library search path list in the environment set, and creates
/// it where the set has no `PYTHON_LD_LIBRARY_PATH`.
fn verify_get_library_path(set: SyntaxNode) -> (found: Result<(SyntaxNode, Found), SchemaError>)
    ensures
        match found {
            Ok((grown, list)) => locate_library_path(set@) == Ok::<Location, SchemaError>(
                Location {
                    root: grown@,
                    path: steps(list.path@),
                    anchor: token_view(list.whitespace),
                },
            ) && node_at(grown@, steps(list.path@)) == Some(list.node@) && list.node@.kind()
                == SyntaxKind::List && grown@.text() == text_with_member(
                set@,
                PYTHON_KEY@,
                python_member(),
            ),
            Err(error) => locate_library_path(set@) == Err::<Location, SchemaError>(error),
        },
{
    let key = chars_of(PYTHON_KEY);
    let grown = find_or_insert_key_value_with_key(set, &key, template_python());
    let list = match find_key_value_with_key(&grown, &key) {
        None => {
            return Err(SchemaError::MissingKey { key: Key::LibraryPath });
        },
        Some((at, member, whitespace)) => {
            let (apply, call) = match expect_child(
                member,
                1,
                SyntaxKind::Apply,
                SchemaStep::LibraryPathValue,
            ) {
                Err(error) => {
                    return Err(error);
                },
                Ok(found) => found,
            };
            match expect_child(call, 0, SyntaxKind::Select, SchemaStep::Callee) {
                Err(error) => {
                    return Err(error);
                },
                Ok((_, select)) => {
                    if !text_is(select, &chars_of(CALLEE)) {
                        return Err(
                            SchemaError::ShapeMismatch {
                                expected: SyntaxKind::Select,
                                found: Some(select.kind()),
                                path: SchemaStep::CalleeText,
                            },
                        );
                    }
                },
            }
            match expect_child(call, 1, SyntaxKind::List, SchemaStep::Argument) {
                Err(error) => {
                    return Err(error);
                },
                Ok((value, list)) => {
                    let mut path = two_steps(at, apply);
                    path.push(value);
                    proof {
                        let first = seq![at as int];
                        let second = seq![apply as int];
                        let third = seq![value as int];
                        lemma_node_at_child(grown@, at as int);
                        lemma_node_at_child(member@, apply as int);
                        lemma_node_at_child(call@, value as int);
                        lemma_node_at_concat(grown@, first, second);
                        lemma_node_at_concat(grown@, first + second, third);
                        assert(steps(path@) =~= first + second + third);
                        assert(steps(path@) =~= seq![at as int, apply as int, value as int]);
                    }
                    Found { whitespace: token_copy(whitespace), node: list.duplicate(), path }
                },
            }
        },
    };
    Ok((grown, list))
}

/// Finds the library search path list in the body of the function, and
/// creates `env` and the list where they are absent.
fn verify_get_python(set: SyntaxNode) -> (found: Result<(SyntaxNode, Found), SchemaError>)
    ensures
        match found {
            Ok((grown, list)) => locate_python(set@) == Ok::<Location, SchemaError>(
                Location {
                    root: grown@,
                    path: steps(list.path@),
                    anchor: token_view(list.whitespace),
                },
            ) && node_at(grown@, steps(list.path@)) == Some(list.node@) && list.node@.kind()
                == SyntaxKind::List && grown@.text() == python_text(set@),
            Err(error) => locate_python(set@) == Err::<Location, SchemaError>(error),
        },
{
    let key = chars_of(ENV_KEY);
    let grown = find_or_insert_key_value_with_key(set, &key, template_env());
    let (outer, inner, list) = match find_key_value_with_key(&grown, &key) {
        None => {
            return Err(SchemaError::MissingKey { key: Key::Env });
        },
        Some((at, member, _)) => match expect_child(
            member,
            1,
            SyntaxKind::AttrSet,
            SchemaStep::EnvValue,
        ) {
            Err(error) => {
                return Err(error);
            },
            Ok((value, env)) => match verify_get_library_path(env.duplicate()) {
                Err(error) => {
                    return Err(error);
                },
                Ok((inner, list)) => {
                    let outer = two_steps(at, value);
                    proof {
                        lemma_node_at_child(grown@, at as int);
                        lemma_node_at_child(member@, value as int);
                        lemma_node_at_concat(grown@, seq![at as int], seq![value as int]);
                        assert(seq![at as int] + seq![value as int] =~= steps(outer@));
                        lemma_replace_at_found(grown@, steps(outer@), inner@);
                        lemma_node_at_concat(
                            replace_at(grown@, steps(outer@), inner@),
                            steps(outer@),
                            steps(list.path@),
                        );
                        lemma_replace_at_text(grown@, steps(outer@), inner@);
                    }
                    (outer, inner, list)
                },
            },
        },
    };
    let whole = grown.replace_at(&outer, inner);
    let path = join_paths(outer, &list.path);
    Ok((whole, Found { whitespace: list.whitespace, node: list.node, path }))
}

/// Finds the list of a category in a document and hands it out with the
/// whitespace that governs its indentation. The document must be one
/// function whose parameter pattern binds `pkgs` and whose body is an
/// attribute set; the keys on the way to the list are created where they
/// are absent. A document of another shape is refused and stays as it is.
pub fn verify_get(root: &mut SyntaxNode, dep_type: DepType) -> (found: Result<
    SyntaxNodeAndWhitespace,
    SchemaError,
>)
    ensures
        match found {
            Ok(list) => locate(old(root)@, dep_type) == Ok::<Location, SchemaError>(
                Location {
                    root: final(root)@,
                    path: steps(list.path@),
                    anchor: token_view(list.whitespace),
                },
            ) && node_at(final(root)@, steps(list.path@)) == Some(list.node@) && list.node@.kind()
                == SyntaxKind::List && list.offset == text_before(
                final(root)@,
                steps(list.path@),
            ).len() && final(root)@.text() == searched_text(old(root)@, dep_type),
            Err(error) => locate(old(root)@, dep_type) == Err::<Location, SchemaError>(error)
                && final(root)@ == old(root)@,
        },
{
    let kind = root.kind();
    if kind != SyntaxKind::Root {
        return Err(
            SchemaError::ShapeMismatch {
                expected: SyntaxKind::Root,
                found: Some(kind),
                path: SchemaStep::Root,
            },
        );
    }
    let (function, lambda) = match expect_child(
        root,
        0,
        SyntaxKind::Lambda,
        SchemaStep::Function,
    ) {
        Err(error) => {
            return Err(error);
        },
        Ok(found) => found,
    };
    match expect_child(lambda, 0, SyntaxKind::Pattern, SchemaStep::Parameter) {
        Err(error) => {
            return Err(error);
        },
        Ok((_, pattern)) => {
            if find_child_with_value(pattern, &chars_of(PARAMETER)).is_none() {
                return Err(SchemaError::MissingParameter);
            }
        },
    }
    let (body, set) = match expect_child(lambda, 1, SyntaxKind::AttrSet, SchemaStep::Body) {
        Err(error) => {
            return Err(error);
        },
        Ok((body, set)) => (body, set.duplicate()),
    };
    let outer = two_steps(function, body);
    proof {
        lemma_node_at_child(root@, function as int);
        lemma_node_at_child(lambda@, body as int);
        lemma_node_at_concat(root@, seq![function as int], seq![body as int]);
        assert(seq![function as int] + seq![body as int] =~= steps(outer@));
    }
    let located = match dep_type {
        DepType::Regular => verify_get_regular(set),
        DepType::Python => verify_get_python(set),
    };
    match located {
        Err(error) => Err(error),
        Ok((grown, list)) => {
            proof {
                lemma_replace_at_found(root@, steps(outer@), grown@);
                lemma_node_at_concat(
                    replace_at(root@, steps(outer@), grown@),
                    steps(outer@),
                    steps(list.path@),
                );
                lemma_replace_at_text(root@, steps(outer@), grown@);
            }
            let mut tree = SyntaxNode { raw: 0, children: Vec::new() };
            core::mem::swap(root, &mut tree);
            *root = tree.replace_at(&outer, grown);
            let path = join_paths(outer, &list.path);
            let offset = root.chars_before(&path).len();
            Ok(
                SyntaxNodeAndWhitespace {
                    whitespace: list.whitespace,
                    node: list.node,
                    path,
                    offset,
                },
            )
        },
    }
}

} // verus!
