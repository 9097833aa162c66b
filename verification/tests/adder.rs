use nix_editor::adder::add_dep;
use nix_editor::parser::parse;
use nix_editor::verify_getter::verify_get;
use nix_editor::DepType;

fn test_add(dep_type: DepType, new_dep: &str, initial_contents: &str, expected_contents: &str) {
    let mut tree = parse(initial_contents).unwrap();

    let deps_list_res = verify_get(&mut tree, dep_type);
    assert!(deps_list_res.is_ok());

    let deps_list = deps_list_res.unwrap();
    let path = deps_list.path.clone();

    let new_deps_list = add_dep(deps_list, Some(new_dep.to_string()));
    assert!(new_deps_list.is_ok());

    let tree = tree.replace_at(&path, new_deps_list.unwrap());
    assert_eq!(tree.to_string(), expected_contents.to_string());
}

#[test]
fn test_empty_regular_add_dep() {
    test_add(
        DepType::Regular,
        "pkgs.test",
        r#"{ pkgs }: {
    deps = [];
}
        "#,
        r#"{ pkgs }: {
    deps = [
      pkgs.test
    ];
}
        "#,
    )
}

#[test]
fn test_weird_empty_regular_add_dep() {
    test_add(
        DepType::Regular,
        "pkgs.test",
        r#"{ pkgs }: { deps = []; }"#,
        r#"{ pkgs }: { deps = [
  pkgs.test
]; }"#,
    )
}

#[test]
fn test_empty_but_expanded_regular_add_dep() {
    test_add(
        DepType::Regular,
        "pkgs.test",
        r#"{ pkgs }: {
  deps = [
  ];
}"#,
        r#"{ pkgs }: {
  deps = [
    pkgs.test
  ];
}"#,
    )
}

#[test]
fn test_duplicate_add() {
    test_add(
        DepType::Regular,
        "pkgs.test",
        r#"{ pkgs }: {
  deps = [
    pkgs.test
  ];
}
        "#,
        r#"{ pkgs }: {
  deps = [
    pkgs.test
  ];
}
        "#,
    )
}

const PYTHON_REPLIT_NIX: &str = r#"{ pkgs }: {
  deps = [
    pkgs.python38Full
  ];
  env = {
    PYTHON_LD_LIBRARY_PATH = pkgs.lib.makeLibraryPath [
      pkgs.stdenv.cc.cc.lib
      pkgs.zlib
      pkgs.glib
      pkgs.xorg.libX11
    ];
    PYTHONBIN = "${pkgs.python38Full}/bin/python3.8";
    LANG = "en_US.UTF-8";
  };
}"#;

#[test]
fn test_regular_add_dep() {
    test_add(
        DepType::Regular,
        "pkgs.test",
        PYTHON_REPLIT_NIX,
        r#"{ pkgs }: {
  deps = [
    pkgs.test
    pkgs.python38Full
  ];
  env = {
    PYTHON_LD_LIBRARY_PATH = pkgs.lib.makeLibraryPath [
      pkgs.stdenv.cc.cc.lib
      pkgs.zlib
      pkgs.glib
      pkgs.xorg.libX11
    ];
    PYTHONBIN = "${pkgs.python38Full}/bin/python3.8";
    LANG = "en_US.UTF-8";
  };
}"#,
    );
}

#[test]
fn test_python_add_dep() {
    test_add(
        DepType::Python,
        "pkgs.test",
        PYTHON_REPLIT_NIX,
        r#"{ pkgs }: {
  deps = [
    pkgs.python38Full
  ];
  env = {
    PYTHON_LD_LIBRARY_PATH = pkgs.lib.makeLibraryPath [
      pkgs.test
      pkgs.stdenv.cc.cc.lib
      pkgs.zlib
      pkgs.glib
      pkgs.xorg.libX11
    ];
    PYTHONBIN = "${pkgs.python38Full}/bin/python3.8";
    LANG = "en_US.UTF-8";
  };
}"#,
    );
}
