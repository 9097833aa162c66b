use nix_editor::adder::EditError;
use nix_editor::editor::{
    add_entry, get_entries, join_deps, perform_op, remove_entry, render, OpError, OpKind, Status,
    EMPTY_TEMPLATE,
};
use nix_editor::syntax::SyntaxKind;
use nix_editor::verify_getter::{SchemaError, SchemaStep};
use nix_editor::DepType;

const TEMPLATE: &str = r#"{pkgs}: {
  deps = [
    pkgs.cowsay
  ];
}
"#;

const PYTHON_REPLIT_NIX: &str = r#"{ pkgs }: {
  deps = [
    pkgs.python38Full
  ];
  env = {
    PYTHON_LD_LIBRARY_PATH = pkgs.lib.makeLibraryPath [
      pkgs.stdenv.cc.cc.lib
      pkgs.zlib
      pkgs.glib
      pkgs.xorg.libX11
    ];
    PYTHONBIN = "${pkgs.python38Full}/bin/python3.8";
    LANG = "en_US.UTF-8";
  };
}"#;

fn some(text: &str) -> Option<String> {
    Some(text.to_string())
}

fn strings(texts: &[&str]) -> Vec<String> {
    texts.iter().map(|text| text.to_string()).collect()
}

#[test]
fn skeleton_of_a_missing_file_gets_the_entry() {
    let result = perform_op(
        OpKind::Add,
        some("pkgs.ncdu"),
        DepType::default(),
        EMPTY_TEMPLATE,
        false,
    );
    assert_eq!(result.status, Status::Success);
    assert_eq!(result.data, None);
    assert_eq!(
        result.write,
        some(
            r#"{pkgs}: {
  deps = [
    pkgs.ncdu
  ];
}
"#
        )
    );
}

#[test]
fn missing_library_path_is_created() {
    let result = perform_op(
        OpKind::Add,
        some("pkgs.zlib"),
        DepType::Python,
        EMPTY_TEMPLATE,
        false,
    );
    assert_eq!(result.status, Status::Success);
    assert_eq!(
        result.write,
        some(
            r#"{pkgs}: {
  deps = [];
  env = {
    PYTHON_LD_LIBRARY_PATH = pkgs.lib.makeLibraryPath [
      pkgs.zlib
    ];
  };
}
"#
        )
    );
}

#[test]
fn second_add_writes_nothing() {
    let first = perform_op(
        OpKind::Add,
        some("pkgs.zlib"),
        DepType::Python,
        EMPTY_TEMPLATE,
        false,
    );
    let written = first.write.unwrap();

    let second = perform_op(OpKind::Add, some("pkgs.zlib"), DepType::Python, &written, false);
    assert_eq!(second.status, Status::Success);
    assert_eq!(second.data, None);
    assert_eq!(second.write, None);
}

#[test]
fn remove_names_the_text_to_write() {
    let result = perform_op(
        OpKind::Remove,
        some("pkgs.cowsay"),
        DepType::Regular,
        TEMPLATE,
        false,
    );
    assert_eq!(result.status, Status::Success);
    assert_eq!(result.write, some("{pkgs}: {\n  deps = [\n  ];\n}\n"));
}

#[test]
fn get_answers_with_the_entries() {
    let result = perform_op(OpKind::Get, None, DepType::default(), TEMPLATE, false);
    assert_eq!(result.status.as_str(), "success");
    assert_eq!(result.data, some("pkgs.cowsay"));
    assert_eq!(result.write, None);
}

#[test]
fn add_twice_is_add_once() {
    for dep_type in [DepType::Regular, DepType::Python] {
        for contents in [EMPTY_TEMPLATE, TEMPLATE, PYTHON_REPLIT_NIX, "{ pkgs }: { deps = []; }"] {
            let once = add_entry(contents, dep_type, some("pkgs.test")).unwrap();
            let twice = add_entry(&once, dep_type, some("pkgs.test")).unwrap();
            assert_eq!(twice, once);
        }
    }
}

#[test]
fn added_entry_is_listed_once() {
    for dep_type in [DepType::Regular, DepType::Python] {
        let mut contents = PYTHON_REPLIT_NIX.to_string();
        for _ in 0..3 {
            contents = add_entry(&contents, dep_type, some("pkgs.test")).unwrap();
            let entries = get_entries(&contents, dep_type).unwrap();
            assert_eq!(entries.iter().filter(|entry| *entry == "pkgs.test").count(), 1);
        }
    }
}

#[test]
fn added_entry_is_first_and_the_rest_keep_their_order() {
    let contents = add_entry(PYTHON_REPLIT_NIX, DepType::Python, some("pkgs.test")).unwrap();
    assert_eq!(
        get_entries(&contents, DepType::Python).unwrap(),
        strings(&[
            "pkgs.test",
            "pkgs.stdenv.cc.cc.lib",
            "pkgs.zlib",
            "pkgs.glib",
            "pkgs.xorg.libX11"
        ])
    );
    assert_eq!(
        get_entries(&contents, DepType::Regular).unwrap(),
        strings(&["pkgs.python38Full"])
    );
}

#[test]
fn remove_after_add_gives_back_the_entries() {
    for dep_type in [DepType::Regular, DepType::Python] {
        for contents in [EMPTY_TEMPLATE, TEMPLATE, PYTHON_REPLIT_NIX, "{ pkgs }: { deps = []; }"] {
            let before = get_entries(contents, dep_type).unwrap();
            let added = add_entry(contents, dep_type, some("pkgs.test")).unwrap();
            let removed = remove_entry(&added, dep_type, some("pkgs.test")).unwrap();
            assert_eq!(get_entries(&removed, dep_type).unwrap(), before);
        }
    }
}

#[test]
fn remove_after_add_to_a_spread_list_gives_back_the_text() {
    let added = add_entry(PYTHON_REPLIT_NIX, DepType::Python, some("pkgs.test")).unwrap();
    let removed = remove_entry(&added, DepType::Python, some("pkgs.test")).unwrap();
    assert_eq!(removed, PYTHON_REPLIT_NIX);
}

#[test]
fn empty_list_is_spread_over_lines() {
    let added = add_entry(
        "{ pkgs }: {\n  deps = [];\n}\n",
        DepType::Regular,
        some("pkgs.test"),
    );
    assert_eq!(
        added,
        Ok("{ pkgs }: {\n  deps = [\n    pkgs.test\n  ];\n}\n".to_string())
    );
}

#[test]
fn missing_deps_is_created() {
    let added = add_entry("{pkgs}: {}", DepType::Regular, some("pkgs.test")).unwrap();
    assert_eq!(added, "{pkgs}: {\n  deps = [\n    pkgs.test\n  ];}");
    assert_eq!(
        get_entries(&added, DepType::Regular).unwrap(),
        strings(&["pkgs.test"])
    );
}

#[test]
fn missing_deps_is_created_behind_the_last_member() {
    let contents = "{ pkgs }: {\n    a = 1;\n    b = 2;\n}\n";
    assert_eq!(
        perform_op(OpKind::Add, some("pkgs.test"), DepType::Regular, contents, true).data,
        some("{ pkgs }: {\n    a = 1;\n    b = 2;\n    deps = [\n      pkgs.test\n    ];\n}\n")
    );
}

#[test]
fn missing_deps_in_a_set_on_one_line() {
    assert_eq!(
        add_entry("{ pkgs }: { a = 1; }", DepType::Regular, some("x")),
        Ok("{ pkgs }: { a = 1;\ndeps = [\n  x\n]; }".to_string())
    );
}

#[test]
fn get_creates_nothing_in_the_text() {
    let result = perform_op(OpKind::Get, None, DepType::Python, EMPTY_TEMPLATE, false);
    assert_eq!(result.status, Status::Success);
    assert_eq!(result.data, some(""));
    assert_eq!(result.write, None);
}

#[test]
fn get_joins_the_entries_with_commas() {
    let result = perform_op(OpKind::Get, None, DepType::Python, PYTHON_REPLIT_NIX, false);
    assert_eq!(
        result.data,
        some("pkgs.stdenv.cc.cc.lib,pkgs.zlib,pkgs.glib,pkgs.xorg.libX11")
    );
}

#[test]
fn join_deps_puts_commas_between() {
    assert_eq!(join_deps(&strings(&[])), "");
    assert_eq!(join_deps(&strings(&["a"])), "a");
    assert_eq!(join_deps(&strings(&["a", "b", "c"])), "a,b,c");
}

#[test]
fn render_puts_a_colon_before_the_data() {
    assert_eq!(render(Status::Success, &None), "success");
    assert_eq!(render(Status::Error, &some("Invalid JSON")), "error: Invalid JSON");
    assert_eq!(render(Status::Success, &some("")), "success: ");
}

#[test]
fn return_output_hands_the_text_back_and_writes_nothing() {
    let result = perform_op(OpKind::Add, some("pkgs.ncdu"), DepType::Regular, TEMPLATE, true);
    assert_eq!(result.status, Status::Success);
    assert_eq!(
        result.data,
        some("{pkgs}: {\n  deps = [\n    pkgs.ncdu\n    pkgs.cowsay\n  ];\n}\n")
    );
    assert_eq!(result.write, None);

    let result = perform_op(OpKind::Remove, some("pkgs.cowsay"), DepType::Regular, TEMPLATE, true);
    assert_eq!(result.data, some("{pkgs}: {\n  deps = [\n  ];\n}\n"));
    assert_eq!(result.write, None);
}

#[test]
fn readding_an_entry_writes_nothing() {
    let result = perform_op(OpKind::Add, some("pkgs.cowsay"), DepType::Regular, TEMPLATE, false);
    assert_eq!(result.status, Status::Success);
    assert_eq!(result.data, None);
    assert_eq!(result.write, None);
    assert_eq!(
        add_entry(TEMPLATE, DepType::Regular, some("pkgs.cowsay")),
        Ok(TEMPLATE.to_string())
    );
}

#[test]
fn entry_is_wanted() {
    for dep in [None, some("")] {
        assert_eq!(
            add_entry(TEMPLATE, DepType::Regular, dep.clone()),
            Err(OpError::Edit(EditError::NoEntry))
        );
        assert_eq!(
            remove_entry(TEMPLATE, DepType::Regular, dep.clone()),
            Err(OpError::Edit(EditError::NoEntry))
        );
        let result = perform_op(OpKind::Add, dep.clone(), DepType::Regular, TEMPLATE, false);
        assert_eq!(result.status, Status::Error);
        assert_eq!(result.data, some("Could not perform op"));
        assert_eq!(result.write, None);
    }
}

#[test]
fn removing_what_is_not_there_fails() {
    assert_eq!(
        remove_entry(TEMPLATE, DepType::Regular, some("pkgs.ncdu")),
        Err(OpError::Edit(EditError::NotFound))
    );
    assert_eq!(
        remove_entry(TEMPLATE, DepType::Regular, some("pkgs")),
        Err(OpError::Edit(EditError::NotFound))
    );
    let result = perform_op(OpKind::Remove, some("pkgs.ncdu"), DepType::Regular, TEMPLATE, false);
    assert_eq!(result.status, Status::Error);
    assert_eq!(result.data, some("Could not perform op"));
    assert_eq!(result.write, None);
}

#[test]
fn removing_takes_the_first_of_two_equal_entries() {
    let contents = "{ pkgs }: {\n  deps = [\n    a\n    b\n    a\n  ];\n}\n";
    assert_eq!(
        remove_entry(contents, DepType::Regular, some("a")),
        Ok("{ pkgs }: {\n  deps = [\n    b\n    a\n  ];\n}\n".to_string())
    );
}

#[test]
fn removing_counts_characters_not_bytes() {
    let contents = "# é ü\n{ pkgs }: {\n  deps = [\n    \"ä\"\n    b\n  ];\n}\n";
    assert_eq!(
        remove_entry(contents, DepType::Regular, some("b")),
        Ok("# é ü\n{ pkgs }: {\n  deps = [\n    \"ä\"\n  ];\n}\n".to_string())
    );
    assert_eq!(
        remove_entry(contents, DepType::Regular, some("\"ä\"")),
        Ok("# é ü\n{ pkgs }: {\n  deps = [\n    b\n  ];\n}\n".to_string())
    );
}

fn refused(contents: &str, dep_type: DepType) -> SchemaError {
    for op in [OpKind::Add, OpKind::Remove, OpKind::Get] {
        let result = perform_op(op, some("pkgs.test"), dep_type, contents, false);
        assert_eq!(result.status, Status::Error);
        assert_eq!(result.data, some("Could not verify and get"));
        assert_eq!(result.write, None);
    }
    match add_entry(contents, dep_type, some("pkgs.test")) {
        Err(OpError::Schema(error)) => error,
        other => panic!("not refused: {:?}", other),
    }
}

#[test]
fn document_that_is_no_function_is_refused() {
    for dep_type in [DepType::Regular, DepType::Python] {
        assert!(matches!(
            refused("{ deps = []; }", dep_type),
            SchemaError::ShapeMismatch {
                expected: SyntaxKind::Lambda,
                found: Some(SyntaxKind::AttrSet),
                path: SchemaStep::Function,
            }
        ));
    }
}

#[test]
fn function_of_a_plain_parameter_is_refused() {
    assert!(matches!(
        refused("pkgs: { deps = []; }", DepType::Regular),
        SchemaError::ShapeMismatch {
            expected: SyntaxKind::Pattern,
            found: Some(SyntaxKind::Other(_)),
            path: SchemaStep::Parameter,
        }
    ));
}

#[test]
fn pattern_without_pkgs_is_refused() {
    assert_eq!(
        refused("{ lib }: { deps = []; }", DepType::Regular),
        SchemaError::MissingParameter
    );
    assert_eq!(
        refused("{ pkgs ? 1 }: { deps = []; }", DepType::Python),
        SchemaError::MissingParameter
    );
}

#[test]
fn body_that_is_no_set_is_refused() {
    assert_eq!(
        refused("{ pkgs }: [ pkgs.a ]", DepType::Regular),
        SchemaError::ShapeMismatch {
            expected: SyntaxKind::AttrSet,
            found: Some(SyntaxKind::List),
            path: SchemaStep::Body,
        }
    );
}

#[test]
fn deps_that_is_no_list_is_refused() {
    assert_eq!(
        refused("{ pkgs }: { deps = { }; }", DepType::Regular),
        SchemaError::ShapeMismatch {
            expected: SyntaxKind::List,
            found: Some(SyntaxKind::AttrSet),
            path: SchemaStep::DepsValue,
        }
    );
}

#[test]
fn env_that_is_no_set_is_refused() {
    assert_eq!(
        refused("{ pkgs }: { env = [ ]; }", DepType::Python),
        SchemaError::ShapeMismatch {
            expected: SyntaxKind::AttrSet,
            found: Some(SyntaxKind::List),
            path: SchemaStep::EnvValue,
        }
    );
}

#[test]
fn library_path_of_another_shape_is_refused() {
    assert_eq!(
        refused(
            "{ pkgs }: { env = { PYTHON_LD_LIBRARY_PATH = [ ]; }; }",
            DepType::Python
        ),
        SchemaError::ShapeMismatch {
            expected: SyntaxKind::Apply,
            found: Some(SyntaxKind::List),
            path: SchemaStep::LibraryPathValue,
        }
    );
    assert!(matches!(
        refused(
            "{ pkgs }: { env = { PYTHON_LD_LIBRARY_PATH = f [ ]; }; }",
            DepType::Python
        ),
        SchemaError::ShapeMismatch {
            expected: SyntaxKind::Select,
            found: Some(SyntaxKind::Other(_)),
            path: SchemaStep::Callee,
        }
    ));
    assert_eq!(
        refused(
            "{ pkgs }: { env = { PYTHON_LD_LIBRARY_PATH = pkgs.lib.makeBinPath [ ]; }; }",
            DepType::Python
        ),
        SchemaError::ShapeMismatch {
            expected: SyntaxKind::Select,
            found: Some(SyntaxKind::Select),
            path: SchemaStep::CalleeText,
        }
    );
    assert_eq!(
        refused(
            "{ pkgs }: { env = { PYTHON_LD_LIBRARY_PATH = pkgs.lib.makeLibraryPath { }; }; }",
            DepType::Python
        ),
        SchemaError::ShapeMismatch {
            expected: SyntaxKind::List,
            found: Some(SyntaxKind::AttrSet),
            path: SchemaStep::Argument,
        }
    );
}

#[test]
fn document_with_a_syntax_error_is_not_changed() {
    for contents in [
        "{ pkgs }: {\n  deps = [];\n",
        "{ pkgs }: {\n  deps = [\n    pkgs.a\n  ;\n}\n",
        "{ pkgs }: {\n  deps = [];\n} }",
        "",
    ] {
        for dep_type in [DepType::Regular, DepType::Python] {
            for return_output in [false, true] {
                for op in [OpKind::Add, OpKind::Remove, OpKind::Get] {
                    let result = perform_op(op, some("pkgs.a"), dep_type, contents, return_output);
                    assert_eq!(result.status, Status::Error);
                    assert_eq!(result.data, some("Could not verify and get"));
                    assert_eq!(result.write, None);
                }
            }
            assert_eq!(
                add_entry(contents, dep_type, some("pkgs.test")),
                Err(OpError::Malformed)
            );
            assert_eq!(
                remove_entry(contents, dep_type, some("pkgs.a")),
                Err(OpError::Malformed)
            );
            assert_eq!(get_entries(contents, dep_type), Err(OpError::Malformed));
        }
    }
}

#[test]
fn missing_deps_is_created_behind_the_brace_of_a_recursive_set() {
    let added = add_entry("{ pkgs }: rec { }", DepType::Regular, some("pkgs.test")).unwrap();
    assert_eq!(added, "{ pkgs }: rec {\n  deps = [\n    pkgs.test\n  ]; }");
    assert_eq!(
        get_entries(&added, DepType::Regular).unwrap(),
        strings(&["pkgs.test"])
    );
}

#[test]
fn dep_type_is_regular_by_default() {
    assert_eq!(DepType::default(), DepType::Regular);
}
