//! The three operations on the text of a document: add an entry, remove
//! one, list them; and what an operation answers and whether it asks for
//! the document to be written back.

use crate::adder::{add_dep, added, added_text, entry_text, EditError};
use crate::parser::{document_tree, nix_error_count, parse_document};
use crate::remover::{remove_dep, removed};
use crate::path::{
    lemma_replace_at_text, lemma_text_around, node_at, replace_at, steps, text_after, text_before,
};
use crate::syntax::{group_syntax_views, lemma_child, nodes_of, Syntax, SyntaxElement, SyntaxNode};
use crate::text::{string_of};
use crate::verify_getter::{locate, verify_get, Location, SchemaError};
use crate::DepType;
use vstd::prelude::*;
use vstd::string::StringExecFns;

verus! {

broadcast use group_syntax_views;

/// The document that stands for a file that does not exist yet.
pub const EMPTY_TEMPLATE: &'static str = "{pkgs}: {\n  deps = [];\n}\n";

/// What is said of a document that has not the shape to work on.
pub const NOT_VERIFIED: &'static str = "Could not verify and get";

/// What is said where an insertion or a removal fails.
pub const NOT_PERFORMED: &'static str = "Could not perform op";

/// What stands between the status and the data of a readable answer.
pub const SEPARATOR: &'static str = ": ";

/// The operations.
#[derive(Clone, Copy, Debug, PartialEq, Eq, Structural)]
pub enum OpKind {
    Add,
    Remove,
    Get,
}

/// How an operation ended.
#[derive(Clone, Copy, Debug, PartialEq, Eq, Structural)]
pub enum Status {
    Success,
    Error,
}

/// Why an operation on a text failed.
#[derive(Clone, Copy, Debug, PartialEq, Eq)]
pub enum OpError {
    /// The parser reports a syntax error in the text, or the text is
    /// longer than a text that is parsed.
    Malformed,
    /// The document has not the shape to work on.
    Schema(SchemaError),
    /// The list could not be changed as asked.
    Edit(EditError),
}

/// The list that a search found.
pub open spec fn target(found: Location) -> Syntax {
    node_at(found.root, found.path).unwrap()
}

/// The document tree after the insertion of an entry into the list of a
/// category.
pub open spec fn added_tree(root: Syntax, dep_type: DepType, entry: Seq<char>) -> Result<
    Syntax,
    OpError,
> {
    match locate(root, dep_type) {
        Err(error) => Err(OpError::Schema(error)),
        Ok(found) => match added(target(found), found.anchor, entry) {
            Err(error) => Err(OpError::Edit(error)),
            Ok(list) => Ok(replace_at(found.root, found.path, list)),
        },
    }
}

/// The text of the document after the removal of an entry from the list of
/// a category.
pub open spec fn removed_text(root: Syntax, dep_type: DepType, entry: Seq<char>) -> Result<
    Seq<char>,
    OpError,
> {
    match locate(root, dep_type) {
        Err(error) => Err(OpError::Schema(error)),
        Ok(found) => match removed(
            found.root.text(),
            target(found),
            text_before(found.root, found.path).len() as int,
            entry,
        ) {
            Err(error) => Err(OpError::Edit(error)),
            Ok(text) => Ok(text),
        },
    }
}

/// The entries of the list of a category, in document order.
pub open spec fn entries_of(root: Syntax, dep_type: DepType) -> Result<Seq<Seq<char>>, OpError> {
    match locate(root, dep_type) {
        Err(error) => Err(OpError::Schema(error)),
        Ok(found) => Ok(target(found).child_texts()),
    }
}

/// The text of a document after the insertion of an entry into the list of
/// a category: the text around the list as the search leaves it, and the
/// text of the list with the entry.
pub open spec fn added_document_text(root: Syntax, dep_type: DepType, entry: Seq<char>) -> Seq<
    char,
> {
    let found = locate(root, dep_type)->Ok_0;
    text_before(found.root, found.path) + added_text(target(found), found.anchor, entry)
        + text_after(found.root, found.path)
}

/// Whether the insertion of an entry leaves the tree of a document as it
/// is: the document holds the entry, in a list that is there already.
pub open spec fn leaves_as_is(contents: Seq<char>, dep_type: DepType, entry: Seq<char>) -> bool {
    document_tree(contents) matches Some(root) && added_tree(root, dep_type, entry) == Ok::<
        Syntax,
        OpError,
    >(root)
}

/// The text of a document after the insertion of an entry.
pub open spec fn add_result(contents: Seq<char>, dep_type: DepType, entry: Seq<char>) -> Result<
    Seq<char>,
    OpError,
> {
    match document_tree(contents) {
        None => Err(OpError::Malformed),
        Some(root) => match added_tree(root, dep_type, entry) {
            Err(error) => Err(error),
            Ok(tree) => Ok(tree.text()),
        },
    }
}

/// The text of a document after the removal of an entry.
pub open spec fn remove_result(contents: Seq<char>, dep_type: DepType, entry: Seq<char>)
    -> Result<Seq<char>, OpError> {
    match document_tree(contents) {
        None => Err(OpError::Malformed),
        Some(root) => removed_text(root, dep_type, entry),
    }
}

/// The entries that a document holds.
pub open spec fn get_result(contents: Seq<char>, dep_type: DepType) -> Result<
    Seq<Seq<char>>,
    OpError,
> {
    match document_tree(contents) {
        None => Err(OpError::Malformed),
        Some(root) => entries_of(root, dep_type),
    }
}

/// The characters of each string of a run.
pub open spec fn string_views(strings: Seq<String>) -> Seq<Seq<char>> {
    strings.map_values(|s: String| s@)
}

/// The entries of a list: the source text of each child node, in document
/// order.
pub fn get_deps(deps_list: &SyntaxNode) -> (deps: Vec<String>)
    ensures
        string_views(deps@) == deps_list@.child_texts(),
{
    let mut deps: Vec<String> = Vec::new();
    let mut i: usize = 0;
    let ghost items = deps_list@.children();
    while i < deps_list.children.len()
        invariant
            i <= deps_list.children.len(),
            items == deps_list@.children(),
            string_views(deps@) == nodes_of(items.take(i as int)).map_values(
                |child: Syntax| child.text(),
            ),
        decreases deps_list.children.len() - i,
    {
        proof {
            lemma_child(*deps_list, i as int);
            assert(items.take(i + 1).drop_last() =~= items.take(i as int));
        }
        let ghost before = string_views(deps@);
        match &deps_list.children[i] {
            SyntaxElement::Node(child) => {
                let text = string_of(&child.chars());
                deps.push(text);
                assert(string_views(deps@) =~= before.push(child@.text()));
            },
            SyntaxElement::Token(_) => {},
        }
        i += 1;
    }
    assert(items.take(i as int) =~= items);
    deps
}

/// Inserts an entry into the list of a category and hands back the new
/// text of the document.
pub fn add_entry(contents: &str, dep_type: DepType, dep: Option<String>) -> (text: Result<
    String,
    OpError,
>)
    ensures
        match text {
            Ok(text) => add_result(contents@, dep_type, entry_text(dep)) == Ok::<
                Seq<char>,
                OpError,
            >(text@),
            Err(error) => add_result(contents@, dep_type, entry_text(dep)) == Err::<
                Seq<char>,
                OpError,
            >(error),
        },
        leaves_as_is(contents@, dep_type, entry_text(dep)) ==> text is Ok && text->Ok_0@
            == contents@,
        text matches Ok(new) ==> new@ == added_document_text(
            document_tree(contents@).unwrap(),
            dep_type,
            entry_text(dep),
        ),
{
    let mut root = match parse_document(contents) {
        Some(root) => root,
        None => {
            return Err(OpError::Malformed);
        },
    };
    let deps_list = match verify_get(&mut root, dep_type) {
        Ok(deps_list) => deps_list,
        Err(error) => {
            return Err(OpError::Schema(error));
        },
    };
    let path = deps_list.path.clone();
    match add_dep(deps_list, dep) {
        Ok(list) => {
            proof {
                lemma_replace_at_text(root@, steps(path@), list@);
            }
            let root = root.replace_at(&path, list);
            Ok(string_of(&root.chars()))
        },
        Err(error) => Err(OpError::Edit(error)),
    }
}

/// Removes an entry from the list of a category and hands back the new
/// text of the document.
pub fn remove_entry(contents: &str, dep_type: DepType, dep: Option<String>) -> (text: Result<
    String,
    OpError,
>)
    ensures
        match text {
            Ok(text) => remove_result(contents@, dep_type, entry_text(dep)) == Ok::<
                Seq<char>,
                OpError,
            >(text@),
            Err(error) => remove_result(contents@, dep_type, entry_text(dep)) == Err::<
                Seq<char>,
                OpError,
            >(error),
        },
{
    let mut root = match parse_document(contents) {
        Some(root) => root,
        None => {
            return Err(OpError::Malformed);
        },
    };
    let deps_list = match verify_get(&mut root, dep_type) {
        Ok(deps_list) => deps_list,
        Err(error) => {
            return Err(OpError::Schema(error));
        },
    };
    let located = string_of(&root.chars());
    proof {
        lemma_text_around(root@, steps(deps_list.path@));
    }
    match remove_dep(located.as_str(), &deps_list, dep) {
        Ok(text) => Ok(text),
        Err(error) => Err(OpError::Edit(error)),
    }
}

/// The entries of the list of a category.
pub fn get_entries(contents: &str, dep_type: DepType) -> (deps: Result<Vec<String>, OpError>)
    ensures
        match deps {
            Ok(deps) => get_result(contents@, dep_type) == Ok::<Seq<Seq<char>>, OpError>(
                string_views(deps@),
            ),
            Err(error) => get_result(contents@, dep_type) == Err::<Seq<Seq<char>>, OpError>(error),
        },
{
    let mut root = match parse_document(contents) {
        Some(root) => root,
        None => {
            return Err(OpError::Malformed);
        },
    };
    match verify_get(&mut root, dep_type) {
        Ok(deps_list) => Ok(get_deps(&deps_list.node)),
        Err(error) => Err(OpError::Schema(error)),
    }
}

/// The entries of a list in one line, with a comma between each two.
pub open spec fn joined(entries: Seq<Seq<char>>) -> Seq<char>
    decreases entries.len(),
{
    if entries.len() == 0 {
        Seq::empty()
    } else if entries.len() == 1 {
        entries[0]
    } else {
        joined(entries.drop_last()) + seq![','] + entries.last()
    }
}

/// Writes the entries in one line, with a comma between each two.
pub fn join_deps(deps: &Vec<String>) -> (line: String)
    ensures
        line@ == joined(string_views(deps@)),
{
    let mut line = String::new();
    let mut i: usize = 0;
    let ghost entries = string_views(deps@);
    while i < deps.len()
        invariant
            i <= deps.len(),
            entries == string_views(deps@),
            line@ == joined(entries.take(i as int)),
        decreases deps.len() - i,
    {
        proof {
            assert(entries.take(i + 1).drop_last() =~= entries.take(i as int));
        }
        if i > 0 {
            line.push(',');
        }
        line.append(deps[i].as_str());
        i += 1;
    }
    assert(entries.take(i as int) =~= entries);
    line
}

/// What an operation answers, and the text that it asks to be written back.
pub struct OpResult {
    /// Whether the operation succeeded.
    pub status: Status,
    /// The entries, the new text where it was asked for, or what went
    /// wrong.
    pub data: Option<String>,
    /// The new text of the document, where it is to be written.
    pub write: Option<String>,
}

/// The mathematical model of what an operation answers.
pub struct Plan {
    pub status: Status,
    pub data: Option<Seq<char>>,
    pub write: Option<Seq<char>>,
}

/// The characters of an optional string.
pub open spec fn option_view(text: Option<String>) -> Option<Seq<char>> {
    match text {
        Some(text) => Some(text@),
        None => None,
    }
}

impl View for OpResult {
    type V = Plan;

    open spec fn view(&self) -> Plan {
        Plan {
            status: self.status,
            data: option_view(self.data),
            write: option_view(self.write),
        }
    }
}

/// The answer to a failed operation.
pub open spec fn failure(message: Seq<char>) -> Plan {
    Plan { status: Status::Error, data: Some(message), write: None }
}

/// The answer to an insertion or a removal that gave the text `new`: the
/// text itself where it was asked for; else nothing, and the text to write
/// unless it is the text that was read.
pub open spec fn change(contents: Seq<char>, new: Seq<char>, return_output: bool) -> Plan {
    if return_output {
        Plan { status: Status::Success, data: Some(new), write: None }
    } else if new == contents {
        Plan { status: Status::Success, data: None, write: None }
    } else {
        Plan { status: Status::Success, data: None, write: Some(new) }
    }
}

/// What an operation on the text of a document answers.
pub open spec fn planned(
    op: OpKind,
    entry: Seq<char>,
    dep_type: DepType,
    contents: Seq<char>,
    return_output: bool,
) -> Plan {
    match document_tree(contents) {
        None => failure(NOT_VERIFIED@),
        Some(root) => match locate(root, dep_type) {
            Err(_) => failure(NOT_VERIFIED@),
            Ok(found) => match op {
                OpKind::Get => Plan {
                    status: Status::Success,
                    data: Some(joined(target(found).child_texts())),
                    write: None,
                },
                OpKind::Add => match added_tree(root, dep_type, entry) {
                    Ok(tree) => change(contents, tree.text(), return_output),
                    Err(_) => failure(NOT_PERFORMED@),
                },
                OpKind::Remove => match removed_text(root, dep_type, entry) {
                    Ok(text) => change(contents, text, return_output),
                    Err(_) => failure(NOT_PERFORMED@),
                },
            },
        },
    }
}

/// The answer to a failed operation.
fn fail(message: &str) -> (result: OpResult)
    ensures
        result@ == failure(message@),
{
    OpResult { status: Status::Error, data: Some(String::from_str(message)), write: None }
}

/// The answer to an insertion or a removal, and whether the new text is to
/// be written: not where the text was asked for, and not where it is the
/// text that was read.
pub fn plan_change(contents: &str, new: String, return_output: bool) -> (result: OpResult)
    ensures
        result@ == change(contents@, new@, return_output),
{
    if return_output {
        OpResult { status: Status::Success, data: Some(new), write: None }
    } else if new == String::from_str(contents) {
        OpResult { status: Status::Success, data: None, write: None }
    } else {
        OpResult { status: Status::Success, data: None, write: Some(new) }
    }
}

/// Performs an operation on the text of a document. The answer holds the
/// entries for `Get`; for `Add` and `Remove` it holds the new text where
/// `return_output` asks for it, and else names the text to write, if the
/// operation changed the document at all. A document of another shape, and
/// an operation that fails, change nothing.
pub fn perform_op(
    op: OpKind,
    dep: Option<String>,
    dep_type: DepType,
    contents: &str,
    return_output: bool,
) -> (result: OpResult)
    ensures
        result@ == planned(op, entry_text(dep), dep_type, contents@, return_output),
        result.status == Status::Error ==> result.write is None,
        op == OpKind::Get ==> result.write is None,
        nix_error_count(contents@) > 0 ==> result@ == failure(NOT_VERIFIED@),
        op == OpKind::Add && leaves_as_is(contents@, dep_type, entry_text(dep)) ==> result.status
            == Status::Success && result.write is None,
{
    match op {
        OpKind::Get => match get_entries(contents, dep_type) {
            Ok(deps) => OpResult {
                status: Status::Success,
                data: Some(join_deps(&deps)),
                write: None,
            },
            Err(_) => fail(NOT_VERIFIED),
        },
        OpKind::Add => match add_entry(contents, dep_type, dep) {
            Ok(text) => plan_change(contents, text, return_output),
            Err(OpError::Edit(_)) => fail(NOT_PERFORMED),
            Err(_) => fail(NOT_VERIFIED),
        },
        OpKind::Remove => match remove_entry(contents, dep_type, dep) {
            Ok(text) => plan_change(contents, text, return_output),
            Err(OpError::Edit(_)) => fail(NOT_PERFORMED),
            Err(_) => fail(NOT_VERIFIED),
        },
    }
}

impl Status {
    /// The word for the status.
    pub open spec fn word(self) -> Seq<char> {
        match self {
            Status::Success => "success"@,
            Status::Error => "error"@,
        }
    }

    /// The word for the status.
    pub fn as_str(&self) -> (word: &'static str)
        ensures
            word@ == self.word(),
    {
        match self {
            Status::Success => "success",
            Status::Error => "error",
        }
    }
}

/// An answer in readable form.
pub open spec fn rendered(status: Status, data: Option<Seq<char>>) -> Seq<char> {
    match data {
        Some(data) => status.word() + SEPARATOR@ + data,
        None => status.word(),
    }
}

/// Writes an answer in readable form: the status, and behind a colon the
/// data, where there is any.
pub fn render(status: Status, data: &Option<String>) -> (line: String)
    ensures
        line@ == rendered(status, option_view(*data)),
{
    let mut line = String::from_str(status.as_str());
    match data {
        Some(data) => {
            line.append(SEPARATOR);
            line.append(data.as_str());
        },
        None => {},
    }
    line
}

} // verus!
