use nix_editor::adder::{add_dep, insert_fragment, EditError};
use nix_editor::parser::{build_tree, parse, parse_document, SyntaxEvent, MAX_TEXT};
use nix_editor::syntax::{kind_of, SyntaxElement, SyntaxKind, SyntaxNode};
use nix_editor::text::chars_of;
use nix_editor::verify_getter::{
    expect_child, find_child_with_value, find_key_value_with_key,
    find_or_insert_key_value_with_key, insert_member, template_deps, template_env,
    template_python, verify_get, SchemaError, SchemaStep,
};
use nix_editor::DepType;

fn node<'a>(parent: &'a SyntaxNode, at: usize) -> &'a SyntaxNode {
    parent.child_node(at).unwrap()
}

#[test]
fn tree_spells_the_text() {
    for text in [
        "",
        "{ pkgs }: {\n  deps = [\n    pkgs.a # one\n  ];\n}\n",
        "{ pkgs }: { deps = [ \"${pkgs.a}/b\" ''x'' ./p <q> ]; }",
        "}}} not nix at all [[[ = ; é",
    ] {
        assert_eq!(parse(text).unwrap().to_string(), text);
    }
}

#[test]
fn tree_spells_every_prefix_of_a_document() {
    let text = "{ pkgs }: {\n  deps = [\n    pkgs.a # é\n    \"${pkgs.b}/c\"\n  ];\n  env = {\n    X = f [ ''y'' ];\n  };\n}\n";
    let chars: Vec<char> = text.chars().collect();
    for end in 0..=chars.len() {
        let prefix: String = chars[..end].iter().collect();
        assert_eq!(parse(&prefix).unwrap().to_string(), prefix);
    }
}

#[test]
fn tree_of_a_deeply_nested_text_spells_it() {
    let text = "[".repeat(3000) + &"]".repeat(3000);
    assert_eq!(parse(&text).unwrap().to_string(), text);
}

#[test]
fn text_that_is_too_long_is_not_parsed() {
    assert_eq!(MAX_TEXT, 0x3fff_ffff);
    let mut text = " ".repeat(MAX_TEXT);
    text.push('1');
    assert!(parse(&text).is_none());
    assert!(parse_document(&text).is_none());
}

#[test]
fn document_with_a_syntax_error_has_no_tree() {
    assert!(parse_document("{ pkgs }: { deps = []; }").is_some());
    assert_eq!(
        parse_document("{ pkgs }: {\n  deps = [];\n}\n").unwrap().to_string(),
        "{ pkgs }: {\n  deps = [];\n}\n"
    );
    assert!(parse_document("{ pkgs }: { deps = []; ").is_none());
    assert!(parse_document("{ pkgs }: { deps = [] }").is_none());
    assert!(parse_document("").is_none());
    assert!(parse("{ pkgs }: { deps = []; ").is_some());
}

#[test]
fn member_goes_behind_the_brace_of_a_set_without_member() {
    for (set, grown) in [
        ("{}", "{\n  deps = [];}"),
        ("{ }", "{\n  deps = []; }"),
        ("rec { }", "rec {\n  deps = []; }"),
        ("rec\n{\n}", "rec\n{\n  deps = [];\n}"),
    ] {
        let gap = parse("\n  ").unwrap().children;
        let set = parse(set).unwrap().nth_child(0).unwrap().1.duplicate();
        assert_eq!(insert_member(set, gap, template_deps().unwrap()).to_string(), grown);
    }
}

#[test]
fn kinds_are_told_apart() {
    let root = parse("{ pkgs }: { a = f [ pkgs.x ]; }").unwrap();
    assert_eq!(root.kind(), SyntaxKind::Root);
    let lambda = node(&root, 0);
    assert_eq!(lambda.kind(), SyntaxKind::Lambda);
    assert_eq!(node(lambda, 0).kind(), SyntaxKind::Pattern);
    let set = lambda.nth_child(1).unwrap().1;
    assert_eq!(set.kind(), SyntaxKind::AttrSet);
    let member = set.nth_child(0).unwrap().1;
    assert_eq!(member.kind(), SyntaxKind::AttrpathValue);
    let apply = member.nth_child(1).unwrap().1;
    assert_eq!(apply.kind(), SyntaxKind::Apply);
    assert!(matches!(node(apply, 0).kind(), SyntaxKind::Other(_)));
    let list = apply.nth_child(1).unwrap().1;
    assert_eq!(list.kind(), SyntaxKind::List);
    let select = list.nth_child(0).unwrap().1;
    assert_eq!(select.kind(), SyntaxKind::Select);
    assert_eq!(select.text(), "pkgs.x");
    match &list.children[1] {
        SyntaxElement::Token(token) => {
            assert_eq!(token.kind(), SyntaxKind::Whitespace);
            assert_eq!(token.text(), " ");
        }
        SyntaxElement::Node(_) => panic!("a node"),
    }
    match &list.children[0] {
        SyntaxElement::Token(token) => {
            assert!(matches!(token.kind(), SyntaxKind::Other(_)));
            assert_eq!(token.to_string(), "[");
        }
        SyntaxElement::Node(_) => panic!("a node"),
    }
}

#[test]
fn unnamed_kind_keeps_its_number() {
    let root = parse("1").unwrap();
    let literal = node(&root, 0);
    assert_eq!(literal.kind(), SyntaxKind::Other(literal.raw));
    assert_eq!(kind_of(literal.raw), literal.kind());
    assert_ne!(literal.raw, root.raw);
}

#[test]
fn walk_that_describes_no_tree_gives_none() {
    assert!(build_tree(&vec![]).is_none());
    assert!(build_tree(&vec![SyntaxEvent::Open(1)]).is_none());
    assert!(build_tree(&vec![SyntaxEvent::Close]).is_none());
    assert!(build_tree(&vec![SyntaxEvent::Token(1, chars_of("a")), SyntaxEvent::TokenEnd]).is_none());
    assert!(build_tree(&vec![
        SyntaxEvent::Open(1),
        SyntaxEvent::Token(2, chars_of("a")),
        SyntaxEvent::Close
    ])
    .is_none());
    assert!(build_tree(&vec![
        SyntaxEvent::Open(1),
        SyntaxEvent::Close,
        SyntaxEvent::Open(1),
        SyntaxEvent::Close
    ])
    .is_none());
}

#[test]
fn walk_builds_the_tree_it_describes() {
    let tree = build_tree(&vec![
        SyntaxEvent::Open(7),
        SyntaxEvent::Token(2, chars_of("ab")),
        SyntaxEvent::TokenEnd,
        SyntaxEvent::Open(8),
        SyntaxEvent::Token(3, chars_of("c")),
        SyntaxEvent::TokenEnd,
        SyntaxEvent::Close,
        SyntaxEvent::Open(9),
        SyntaxEvent::Close,
        SyntaxEvent::Close,
    ])
    .unwrap();
    assert_eq!(tree.raw, 7);
    assert_eq!(tree.children.len(), 3);
    assert_eq!(tree.to_string(), "abc");
    assert_eq!(tree.nth_child(0).unwrap().0, 1);
    assert_eq!(tree.nth_child(1).unwrap().0, 2);
    assert!(tree.nth_child(2).is_none());
    assert_eq!(node(&tree, 1).raw, 8);
    assert_eq!(node(&tree, 1).text(), "c");
    assert_eq!(node(&tree, 2).children.len(), 0);
    assert!(tree.child_node(0).is_none());
    assert!(tree.child_node(3).is_none());
}

#[test]
fn paths_lead_to_nodes() {
    let tree = parse("{ pkgs }: { deps = [ a ]; }").unwrap();
    assert_eq!(tree.node_at(&vec![]).unwrap().to_string(), "{ pkgs }: { deps = [ a ]; }");
    assert_eq!(tree.node_at(&vec![0, 0]).unwrap().to_string(), "{ pkgs }");
    assert!(tree.node_at(&vec![0, 1]).is_none());
    assert!(tree.node_at(&vec![0, 9]).is_none());
    assert_eq!(tree.chars_before(&vec![0, 3]), chars_of("{ pkgs }: "));
    assert_eq!(tree.chars_before(&vec![0, 3, 2, 4]), chars_of("{ pkgs }: { deps = "));

    let other = parse("x").unwrap();
    let copy = tree.duplicate();
    let changed = tree.replace_at(&vec![0, 3, 2, 4], other);
    assert_eq!(changed.to_string(), "{ pkgs }: { deps = x; }");
    assert_eq!(copy.to_string(), "{ pkgs }: { deps = [ a ]; }");
    let same = copy.replace_at(&vec![0, 1], parse("x").unwrap());
    assert_eq!(same.to_string(), "{ pkgs }: { deps = [ a ]; }");
}

fn member(set: &SyntaxNode, key: &str) -> Option<(usize, String, Option<String>)> {
    find_key_value_with_key(set, &chars_of(key)).map(|(at, member, whitespace)| {
        (at, member.to_string(), whitespace.map(|token| token.to_string()))
    })
}

fn found(at: usize, member: &str, whitespace: Option<&str>) -> Option<(usize, String, Option<String>)> {
    Some((at, member.to_string(), whitespace.map(|text| text.to_string())))
}

#[test]
fn member_is_found_with_its_whitespace() {
    let tree = parse("{\n  a = 1;\n\n    b = 2; c = 3;\n}").unwrap();
    let set = node(&tree, 0);
    assert_eq!(member(set, "a"), found(2, "a = 1;", Some("\n  ")));
    assert_eq!(member(set, "b"), found(4, "b = 2;", Some("\n\n    ")));
    assert_eq!(member(set, "c"), found(6, "c = 3;", Some("\n\n    ")));
    assert_eq!(member(set, "d"), None);
    assert_eq!(member(&tree, "a"), None);

    let flat = parse("{ a = 1; }").unwrap();
    assert_eq!(member(node(&flat, 0), "a"), found(2, "a = 1;", None));
}

#[test]
fn first_of_two_members_with_one_key_is_found() {
    let tree = parse("{\n  a.b = 1;\n  a = 2;\n  a = 3;\n}").unwrap();
    let set = node(&tree, 0);
    assert_eq!(member(set, "a"), found(4, "a = 2;", Some("\n  ")));
    assert_eq!(member(set, "a.b"), found(2, "a.b = 1;", Some("\n  ")));
}

#[test]
fn child_is_found_by_its_text() {
    let tree = parse("{ lib, pkgs, ... }: 1").unwrap();
    let pattern = node(node(&tree, 0), 0);
    assert_eq!(find_child_with_value(pattern, &chars_of("pkgs")), Some(5));
    assert_eq!(find_child_with_value(pattern, &chars_of("lib")), Some(2));
    assert_eq!(find_child_with_value(pattern, &chars_of("pkg")), None);
    assert_eq!(find_child_with_value(pattern, &chars_of(",")), None);
}

#[test]
fn child_of_another_kind_is_a_mismatch() {
    let tree = parse("{ pkgs }: [ ]").unwrap();
    let lambda = node(&tree, 0);
    let found = expect_child(lambda, 1, SyntaxKind::List, SchemaStep::Body).unwrap();
    assert_eq!(found.0, 3);
    assert_eq!(found.1.to_string(), "[ ]");
    assert_eq!(
        expect_child(lambda, 1, SyntaxKind::AttrSet, SchemaStep::Body).err(),
        Some(SchemaError::ShapeMismatch {
            expected: SyntaxKind::AttrSet,
            found: Some(SyntaxKind::List),
            path: SchemaStep::Body,
        })
    );
    assert_eq!(
        expect_child(lambda, 2, SyntaxKind::AttrSet, SchemaStep::Body).err(),
        Some(SchemaError::ShapeMismatch {
            expected: SyntaxKind::AttrSet,
            found: None,
            path: SchemaStep::Body,
        })
    );
}

#[test]
fn templates_are_single_members() {
    assert_eq!(template_deps().unwrap().to_string(), "deps = [];");
    assert_eq!(
        template_env().unwrap().to_string(),
        "env = {\n    PYTHON_LD_LIBRARY_PATH = pkgs.lib.makeLibraryPath [];\n  };"
    );
    assert_eq!(
        template_python().unwrap().to_string(),
        "PYTHON_LD_LIBRARY_PATH = pkgs.lib.makeLibraryPath [];"
    );
    assert_eq!(template_deps().unwrap().kind(), SyntaxKind::AttrpathValue);
}

fn set_of(text: &str) -> SyntaxNode {
    node(&parse(text).unwrap(), 0).duplicate()
}

#[test]
fn member_goes_behind_the_last_node() {
    let gap = parse("\n  ").unwrap().children;
    let grown = insert_member(set_of("{\n  a = 1;\n  b = 2;\n}"), gap, template_deps().unwrap());
    assert_eq!(grown.to_string(), "{\n  a = 1;\n  b = 2;\n  deps = [];\n}");

    let gap = parse("\n  ").unwrap().children;
    let grown = insert_member(set_of("{}"), gap, template_deps().unwrap());
    assert_eq!(grown.to_string(), "{\n  deps = [];}");
}

#[test]
fn member_is_created_once() {
    let key = chars_of("deps");
    let grown = find_or_insert_key_value_with_key(
        set_of("{\n      a = 1;\n}"),
        &key,
        template_deps(),
    );
    assert_eq!(grown.to_string(), "{\n      a = 1;\n      deps = [];\n}");
    assert_eq!(member(&grown, "deps"), found(4, "deps = [];", Some("\n      ")));
    let again = find_or_insert_key_value_with_key(grown, &key, template_deps());
    assert_eq!(again.to_string(), "{\n      a = 1;\n      deps = [];\n}");

    let without = find_or_insert_key_value_with_key(set_of("{ }"), &key, None);
    assert_eq!(without.to_string(), "{ }");

    let no_set = find_or_insert_key_value_with_key(parse("[ ]").unwrap(), &key, template_deps());
    assert_eq!(no_set.to_string(), "[ ]");
}

#[test]
fn search_gives_the_list_and_where_it_stands() {
    let text = "{ pkgs }: {\n  deps = [\n    a\n  ];\n}";
    let mut tree = parse(text).unwrap();
    let found = verify_get(&mut tree, DepType::Regular).unwrap();
    assert_eq!(found.path, vec![0, 3, 2, 4]);
    assert_eq!(found.offset, 21);
    assert_eq!(found.node.to_string(), "[\n    a\n  ]");
    assert_eq!(found.node.kind(), SyntaxKind::List);
    assert_eq!(found.whitespace.unwrap().to_string(), "\n  ");
    assert_eq!(tree.node_at(&found.path).unwrap().to_string(), "[\n    a\n  ]");
    assert_eq!(tree.to_string(), text);
}

#[test]
fn search_that_creates_changes_the_tree() {
    let mut tree = parse("{ pkgs }: {\n  deps = [];\n  env = {};\n}").unwrap();
    let found = verify_get(&mut tree, DepType::Python).unwrap();
    assert_eq!(
        tree.to_string(),
        "{ pkgs }: {\n  deps = [];\n  env = {\n  PYTHON_LD_LIBRARY_PATH = pkgs.lib.makeLibraryPath [];};\n}"
    );
    assert_eq!(found.node.to_string(), "[]");
    assert_eq!(found.whitespace.unwrap().to_string(), "\n  ");
    assert_eq!(tree.node_at(&found.path).unwrap().to_string(), "[]");
}

#[test]
fn search_that_fails_leaves_the_tree() {
    let text = "{ pkgs }: {\n  env = { PYTHON_LD_LIBRARY_PATH = [ ]; };\n}";
    let mut tree = parse(text).unwrap();
    assert!(verify_get(&mut tree, DepType::Python).is_err());
    assert_eq!(tree.to_string(), text);

    let text = "{ pkgs }: {\n  env = [ ];\n}";
    let mut tree = parse(text).unwrap();
    assert!(verify_get(&mut tree, DepType::Python).is_err());
    assert_eq!(tree.to_string(), text);
}

#[test]
fn fragment_goes_behind_the_opening_bracket() {
    let list = parse("[ a ]").unwrap();
    let list = node(&list, 0).duplicate();
    let grown = insert_fragment(list, parse("\n  b").unwrap().children);
    assert_eq!(grown.to_string(), "[\n  b a ]");
    assert_eq!(
        grown.children().iter().map(|child| child.text()).collect::<Vec<_>>(),
        vec!["b", "a"]
    );
}

#[test]
fn entry_is_indented_two_blanks_past_its_member() {
    let mut tree = parse("{ pkgs }: {\n\n\t deps = [ a ];\n}").unwrap();
    let found = verify_get(&mut tree, DepType::Regular).unwrap();
    let grown = add_dep(found, Some("b".to_string())).unwrap();
    assert_eq!(grown.to_string(), "[\n    b\n   a ]");
}

#[test]
fn entry_that_is_there_leaves_the_list() {
    let mut tree = parse("{ pkgs }: { deps = [ a b ]; }").unwrap();
    let found = verify_get(&mut tree, DepType::Regular).unwrap();
    let same = add_dep(found, Some("b".to_string())).unwrap();
    assert_eq!(same.to_string(), "[ a b ]");
    assert_eq!(same.children.len(), 7);
}

#[test]
fn no_entry_is_an_error() {
    let mut tree = parse("{ pkgs }: { deps = [ a b ]; }").unwrap();
    let found = verify_get(&mut tree, DepType::Regular).unwrap();
    assert_eq!(add_dep(found, None).err(), Some(EditError::NoEntry));
    let found = verify_get(&mut tree, DepType::Regular).unwrap();
    assert_eq!(add_dep(found, Some(String::new())).err(), Some(EditError::NoEntry));
}
