use distenv::brew::calculate_cflags;
use distenv::brew::calculate_ldflags;
use distenv::brew::formulas_from_env;
use distenv::brew::select_brew_env;
use distenv::snapshot::parse_env;
use distenv::snapshot::EnvSnapshot;

fn homebrew_snapshot() -> EnvSnapshot {
    parse_env("HOMEBREW_DEPENDENCIES=tapname/foo,bar\nHOMEBREW_OPT=/opt/homebrew/opt\n").unwrap()
}

#[test]
fn parse_yields_both_entries() {
    let snap = parse_env("A=1\nB=2\n").unwrap();
    assert_eq!(snap.get("A").unwrap().as_str(), "1");
    assert_eq!(snap.get("B").unwrap().as_str(), "2");
    assert!(snap.get("C").is_none());
}

#[test]
fn parse_line_without_equals_fails() {
    let err = parse_env("A=1\nBADLINE\n").unwrap_err();
    assert_eq!(err.line.as_str(), "BADLINE");
}

#[test]
fn parse_empty_text_fails() {
    let err = parse_env("").unwrap_err();
    assert_eq!(err.line.as_str(), "");
}

#[test]
fn parse_duplicate_key_last_wins() {
    let snap = parse_env("A=1\nA=2\n").unwrap();
    assert_eq!(snap.get("A").unwrap().as_str(), "2");
}

#[test]
fn parse_splits_at_first_equals() {
    let snap = parse_env("A=b=c\n").unwrap();
    assert_eq!(snap.get("A").unwrap().as_str(), "b=c");
}

#[test]
fn parse_trims_trailing_whitespace() {
    let snap = parse_env("A=1\nB=2\n\n").unwrap();
    assert_eq!(snap.get("A").unwrap().as_str(), "1");
    assert_eq!(snap.get("B").unwrap().as_str(), "2");
}

#[test]
fn formulas_strip_tap_namespace() {
    let snap = homebrew_snapshot();
    let formulas = formulas_from_env(&snap);
    assert_eq!(
        formulas,
        vec![
            ("tapname/foo".to_owned(), "/opt/homebrew/opt/foo".to_owned()),
            ("bar".to_owned(), "/opt/homebrew/opt/bar".to_owned()),
        ]
    );
}

#[test]
fn formulas_empty_when_either_variable_is_absent() {
    let snap = parse_env("HOMEBREW_DEPENDENCIES=foo\n").unwrap();
    assert!(formulas_from_env(&snap).is_empty());
    let snap = parse_env("HOMEBREW_OPT=/opt/homebrew/opt\n").unwrap();
    assert!(formulas_from_env(&snap).is_empty());
}

#[test]
fn ldflags_point_at_lib_dirs() {
    let snap = homebrew_snapshot();
    assert_eq!(
        calculate_ldflags(&snap),
        "-L/opt/homebrew/opt/foo/lib -L/opt/homebrew/opt/bar/lib"
    );
}

#[test]
fn cflags_point_at_include_dirs() {
    let snap = homebrew_snapshot();
    assert_eq!(
        calculate_cflags(&snap),
        "-I/opt/homebrew/opt/foo/include -I/opt/homebrew/opt/bar/include"
    );
}

#[test]
fn flags_empty_without_dependencies() {
    let snap = parse_env("A=1\n").unwrap();
    assert_eq!(calculate_ldflags(&snap), "");
    assert_eq!(calculate_cflags(&snap), "");
}

#[test]
fn select_prepends_augmented_path_first() {
    let snap = parse_env(
        "HOMEBREW_DEPENDENCIES=tapname/foo,bar\nHOMEBREW_OPT=/opt/homebrew/opt\nPKG_CONFIG_PATH=/pc\n",
    )
    .unwrap();
    let env = select_brew_env(&snap, Some("/usr/bin"));
    assert_eq!(
        env[0],
        (
            "PATH".to_owned(),
            "/usr/bin:/opt/homebrew/opt/foo/bin:/opt/homebrew/opt/foo/sbin:/opt/homebrew/opt/bar/bin:/opt/homebrew/opt/bar/sbin"
                .to_owned()
        )
    );
    assert_eq!(env[1], ("PKG_CONFIG_PATH".to_owned(), "/pc".to_owned()));
    assert_eq!(env.len(), 2);
}

#[test]
fn select_omits_path_without_current_path() {
    let snap = homebrew_snapshot();
    let env = select_brew_env(&snap, None);
    assert!(env.iter().all(|(k, _)| k != "PATH"));
    assert!(env.is_empty());
}

#[test]
fn select_omits_path_without_dependency_prefixes() {
    let snap = parse_env("PKG_CONFIG_PATH=/pc\n").unwrap();
    let env = select_brew_env(&snap, Some("/usr/bin"));
    assert_eq!(env, vec![("PKG_CONFIG_PATH".to_owned(), "/pc".to_owned())]);
}

#[test]
fn select_copies_allowlist_in_order() {
    let snap = parse_env(
        "CMAKE_LIBRARY_PATH=/cl\nCMAKE_INCLUDE_PATH=/ci\nPKG_CONFIG_LIBDIR=/pl\nPKG_CONFIG_PATH=/pp\nOTHER=x\n",
    )
    .unwrap();
    let env = select_brew_env(&snap, Some("/usr/bin"));
    assert_eq!(
        env,
        vec![
            ("PKG_CONFIG_PATH".to_owned(), "/pp".to_owned()),
            ("PKG_CONFIG_LIBDIR".to_owned(), "/pl".to_owned()),
            ("CMAKE_INCLUDE_PATH".to_owned(), "/ci".to_owned()),
            ("CMAKE_LIBRARY_PATH".to_owned(), "/cl".to_owned()),
        ]
    );
}
