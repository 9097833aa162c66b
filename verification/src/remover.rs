//! Removing an entry from a located list. The entry leaves the text with
//! the whitespace in front of it, so that no empty line stays behind.

use crate::adder::{entry_text, EditError};
use crate::syntax::{
    group_syntax_views, lemma_child, lemma_texts_concat, lemma_texts_push, texts, views, Syntax,
};
use crate::text::{chars_of, is_whitespace, whitespace};
use crate::verify_getter::{find_child_with_value, named_child, SyntaxNodeAndWhitespace};
use vstd::prelude::*;
use vstd::string::StrSliceExecFns;
use vstd::string::StringExecFns;

verus! {

broadcast use group_syntax_views;

/// The position that is left of `start` by all the white space that ends
/// there.
pub open spec fn trimmed_start(text: Seq<char>, start: int) -> int
    decreases start,
{
    if start <= 0 {
        0
    } else if start <= text.len() && is_whitespace(text[start - 1]) {
        trimmed_start(text, start - 1)
    } else {
        start
    }
}

/// The range of characters that an entry of the list takes in the
/// document, where the list starts at `offset`: the first child node whose
/// source text is `entry`.
pub open spec fn entry_range(list: Syntax, offset: int, entry: Seq<char>) -> Option<(int, int)> {
    match named_child(list.children(), entry, 0) {
        Some(at) => {
            let start = offset + texts(list.children().take(at)).len();
            Some((start, start + entry.len()))
        },
        None => None,
    }
}

/// The document without an entry of the list and without the white space
/// in front of that entry.
pub open spec fn removed(contents: Seq<char>, list: Syntax, offset: int, entry: Seq<char>)
    -> Result<Seq<char>, EditError> {
    if entry.len() == 0 {
        Err(EditError::NoEntry)
    } else {
        match entry_range(list, offset, entry) {
            Some((start, end)) => Ok(
                contents.take(trimmed_start(contents, start)) + contents.skip(end),
            ),
            None => Err(EditError::NotFound),
        }
    }
}

/// The text of a run of elements holds the text of each of its front parts.
pub proof fn lemma_texts_take(items: Seq<Syntax>, count: int)
    requires
        0 <= count <= items.len(),
    ensures
        texts(items) == texts(items.take(count)) + texts(items.skip(count)),
        count < items.len() ==> texts(items.take(count + 1)) == texts(items.take(count))
            + items[count].text(),
{
    lemma_texts_concat(items.take(count), items.skip(count));
    assert(items.take(count) + items.skip(count) =~= items);
    if count < items.len() {
        lemma_texts_push(items.take(count), items[count]);
        assert(items.take(count + 1) =~= items.take(count).push(items[count]));
    }
}

/// Steps back from `start_pos` over white space, and stops behind the first
/// character that is none, or at the start of the text.
pub fn search_backwards_non_whitespace(start_pos: usize, contents: &str) -> (pos: usize)
    requires
        start_pos <= contents@.len(),
    ensures
        pos == trimmed_start(contents@, start_pos as int),
        pos <= start_pos,
{
    let mut pos = start_pos;
    while pos > 0
        invariant
            pos <= start_pos <= contents@.len(),
            trimmed_start(contents@, start_pos as int) == trimmed_start(contents@, pos as int),
        decreases pos,
    {
        let c = contents.get_char(pos - 1);
        if !whitespace(c) {
            return pos;
        }
        pos -= 1;
    }
    0
}

/// The range of characters of the entry to remove.
fn find_remove_dep(deps_list: &SyntaxNodeAndWhitespace, remove_dep: &Vec<char>) -> (range: Option<
    (usize, usize),
>)
    requires
        deps_list.offset + deps_list.node@.text().len() <= usize::MAX,
    ensures
        match range {
            Some((start, end)) => entry_range(
                deps_list.node@,
                deps_list.offset as int,
                remove_dep@,
            ) == Some((start as int, end as int)) && deps_list.offset <= start <= end
                <= deps_list.offset + deps_list.node@.text().len(),
            None => entry_range(deps_list.node@, deps_list.offset as int, remove_dep@) is None,
        },
{
    match find_child_with_value(&deps_list.node, remove_dep) {
        Some(at) => {
            let list = &deps_list.node;
            let mut before: Vec<char> = Vec::new();
            let mut i: usize = 0;
            while i < at
                invariant
                    i <= at < list.children.len(),
                    before@ == texts(views(list.children@).take(i as int)),
                decreases at - i,
            {
                list.children[i].write_text(&mut before);
                proof {
                    lemma_texts_take(views(list.children@), i as int);
                }
                i += 1;
            }
            proof {
                lemma_child(*list, at as int);
                lemma_texts_take(list@.children(), at as int);
                lemma_texts_take(list@.children(), at + 1);
            }
            let start = deps_list.offset + before.len();
            Some((start, start + remove_dep.len()))
        },
        None => None,
    }
}

/// Removes an entry from the located list, in the text of the document.
/// The first child of the list whose source text is the entry leaves the
/// text, and with it the white space in front of it.
pub fn remove_dep(
    contents: &str,
    deps_list: &SyntaxNodeAndWhitespace,
    remove_dep_opt: Option<String>,
) -> (shrunk: Result<String, EditError>)
    requires
        deps_list.offset + deps_list.node@.text().len() <= contents@.len(),
    ensures
        match shrunk {
            Ok(text) => removed(
                contents@,
                deps_list.node@,
                deps_list.offset as int,
                entry_text(remove_dep_opt),
            ) == Ok::<Seq<char>, EditError>(text@),
            Err(error) => removed(
                contents@,
                deps_list.node@,
                deps_list.offset as int,
                entry_text(remove_dep_opt),
            ) == Err::<Seq<char>, EditError>(error),
        },
{
    let remove_dep = match &remove_dep_opt {
        Some(entry) => chars_of(entry.as_str()),
        None => {
            return Err(EditError::NoEntry);
        },
    };
    if remove_dep.len() == 0 {
        return Err(EditError::NoEntry);
    }
    let length = contents.unicode_len();
    match find_remove_dep(deps_list, &remove_dep) {
        Some((text_start, remove_end)) => {
            let remove_start = search_backwards_non_whitespace(text_start, contents);
            let before = contents.substring_char(0, remove_start);
            let after = contents.substring_char(remove_end, length);
            let shrunk = String::from_str(before).concat(after);
            Ok(shrunk)
        },
        None => Err(EditError::NotFound),
    }
}

} // verus!
