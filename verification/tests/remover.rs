use nix_editor::parser::parse;
use nix_editor::remover::remove_dep;
use nix_editor::syntax::SyntaxKind;
use nix_editor::verify_getter::{verify_get, SchemaError, SchemaStep, SyntaxNodeAndWhitespace};
use nix_editor::DepType;

fn python_replit_nix() -> String {
    r#"
{ pkgs }: {
  deps = [
    pkgs.python38Full
  ];
  env = {
    PYTHON_LD_LIBRARY_PATH = pkgs.lib.makeLibraryPath [
      pkgs.stdenv.cc.cc.lib
      pkgs.zlib
      pkgs.glib
      pkgs.xorg.libX11
    ];
    PYTHONBIN = "${pkgs.python38Full}/bin/python3.8";
    LANG = "en_US.UTF-8";
  };
}
        "#
    .to_string()
}

#[test]
fn test_regular_remove_with_pkgs_dep() {
    let contents = r#"{ pkgs }: {
  deps = with pkgs; [
    pkgs.ncdu
    test
  ];
}
        "#;

    let tree = parse(contents).unwrap();
    let path = vec![0, 3, 2, 4, 5];
    let node = tree.node_at(&path).unwrap().duplicate();
    assert_eq!(node.kind(), SyntaxKind::List);
    let deps_list = SyntaxNodeAndWhitespace {
        whitespace: None,
        node,
        offset: tree.chars_before(&path).len(),
        path,
    };

    let dep_to_remove = "pkgs.ncdu";

    let new_contents = remove_dep(contents, &deps_list, Some(dep_to_remove.to_string()));
    assert!(new_contents.is_ok());

    let new_contents = new_contents.unwrap();

    let expected_contents = r#"{ pkgs }: {
  deps = with pkgs; [
    test
  ];
}
        "#;
    assert_eq!(new_contents, expected_contents);
}

#[test]
fn remove_first_of_two_leaves_no_blank_line() {
    let contents = r#"{ pkgs }: {
  deps = [
    pkgs.ncdu
    test
  ];
}
        "#;

    let mut tree = parse(contents).unwrap();
    let deps_list = verify_get(&mut tree, DepType::Regular).unwrap();

    let new_contents = remove_dep(contents, &deps_list, Some("pkgs.ncdu".to_string()));

    let expected_contents = r#"{ pkgs }: {
  deps = [
    test
  ];
}
        "#;
    assert_eq!(new_contents, Ok(expected_contents.to_string()));
}

#[test]
fn list_under_with_is_no_list() {
    let contents = r#"{ pkgs }: {
  deps = with pkgs; [
    pkgs.ncdu
    test
  ];
}
        "#;

    let mut tree = parse(contents).unwrap();
    let found = verify_get(&mut tree, DepType::Regular);
    assert!(matches!(
        found,
        Err(SchemaError::ShapeMismatch {
            expected: SyntaxKind::List,
            found: Some(SyntaxKind::Other(_)),
            path: SchemaStep::DepsValue,
        })
    ));
    assert_eq!(tree.to_string(), contents);
}

#[test]
fn test_regular_remove_dep() {
    let contents = python_replit_nix();
    let mut tree = parse(&contents).unwrap();
    let deps_list_res = verify_get(&mut tree, DepType::Regular);
    assert!(deps_list_res.is_ok());

    let deps_list = deps_list_res.unwrap();

    let dep_to_remove = "pkgs.python38Full";

    let new_contents = remove_dep(&contents, &deps_list, Some(dep_to_remove.to_string()));
    assert!(new_contents.is_ok());

    let new_contents = new_contents.unwrap();

    let expected_contents = r#"
{ pkgs }: {
  deps = [
  ];
  env = {
    PYTHON_LD_LIBRARY_PATH = pkgs.lib.makeLibraryPath [
      pkgs.stdenv.cc.cc.lib
      pkgs.zlib
      pkgs.glib
      pkgs.xorg.libX11
    ];
    PYTHONBIN = "${pkgs.python38Full}/bin/python3.8";
    LANG = "en_US.UTF-8";
  };
}
        "#
    .to_string();
    assert_eq!(new_contents, expected_contents);
}

#[test]
fn test_python_remove_dep() {
    let contents = python_replit_nix();
    let mut tree = parse(&contents).unwrap();
    let deps_list_res = verify_get(&mut tree, DepType::Python);
    assert!(deps_list_res.is_ok());

    let deps_list = deps_list_res.unwrap();

    let dep_to_remove = "pkgs.glib";

    let new_contents = remove_dep(&contents, &deps_list, Some(dep_to_remove.to_string()));
    assert!(new_contents.is_ok());

    let new_contents = new_contents.unwrap();

    let expected_contents = r#"
{ pkgs }: {
  deps = [
    pkgs.python38Full
  ];
  env = {
    PYTHON_LD_LIBRARY_PATH = pkgs.lib.makeLibraryPath [
      pkgs.stdenv.cc.cc.lib
      pkgs.zlib
      pkgs.xorg.libX11
    ];
    PYTHONBIN = "${pkgs.python38Full}/bin/python3.8";
    LANG = "en_US.UTF-8";
  };
}
        "#
    .to_string();
    assert_eq!(new_contents, expected_contents);
}
