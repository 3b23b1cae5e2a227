use cargo_clean_artifact::naming::{artifact_stem, crate_key, normalize_name, parse_artifact};

// -- artifact_stem ----------------------------------------------------------

#[test]
fn clean_artifact_stem_rlib() {
    assert_eq!(
        artifact_stem("libserde-abc123.rlib"),
        Some("serde-abc123".to_string())
    );
}

#[test]
fn clean_artifact_stem_rmeta() {
    assert_eq!(
        artifact_stem("libregex_automata-0b81c4f4.rmeta"),
        Some("regex_automata-0b81c4f4".to_string())
    );
}

#[test]
fn clean_artifact_stem_d_file_no_lib() {
    assert_eq!(
        artifact_stem("cargo_clean-abc.d"),
        Some("cargo_clean-abc".to_string())
    );
}

#[test]
fn clean_artifact_stem_multi_ext() {
    assert_eq!(
        artifact_stem("foo-HASH.foo.cgu.00.rcgu.dwo"),
        Some("foo-HASH".to_string())
    );
}

#[test]
fn clean_artifact_stem_no_hash_returns_none() {
    assert_eq!(artifact_stem("libserde.rlib"), None);
}

#[test]
fn clean_artifact_stem_strips_lib_prefix() {
    let s = artifact_stem("libfoo-abc.rlib").unwrap();
    assert_eq!(s, "foo-abc");
    assert!(!s.starts_with("lib"));
}

#[test]
fn scan_artifact_stem_rlib() {
    assert_eq!(
        artifact_stem("libserde-abc123.rlib"),
        Some("serde-abc123".to_string())
    );
}

#[test]
fn scan_artifact_stem_rmeta() {
    assert_eq!(
        artifact_stem("libregex_automata-0b81c4f4.rmeta"),
        Some("regex_automata-0b81c4f4".to_string())
    );
}

#[test]
fn scan_artifact_stem_d_file_no_lib() {
    assert_eq!(
        artifact_stem("cargo_clean-abc.d"),
        Some("cargo_clean-abc".to_string())
    );
}

#[test]
fn scan_artifact_stem_multi_ext() {
    assert_eq!(
        artifact_stem("foo-HASH.foo.cgu.00.rcgu.dwo"),
        Some("foo-HASH".to_string())
    );
}

#[test]
fn scan_artifact_stem_no_hash_returns_none() {
    assert_eq!(artifact_stem("libserde.rlib"), None);
}

#[test]
fn scan_artifact_stem_strips_lib_prefix() {
    let s = artifact_stem("libfoo-abc.rlib").unwrap();
    assert_eq!(s, "foo-abc");
    assert!(!s.starts_with("lib"));
}

#[test]
fn artifact_stem_leading_dash_unrecognized() {
    // a dash at the stem's front delimits no hash: no crate name would remain
    assert_eq!(artifact_stem("lib-abc.rlib"), None);
    assert_eq!(artifact_stem("-abc.rlib"), None);
}

#[test]
fn artifact_stem_full_path() {
    assert_eq!(
        artifact_stem("/project/target/debug/deps/libserde-abc123.rlib"),
        Some("serde-abc123".to_string())
    );
}

// -- crate_key --------------------------------------------------------------

#[test]
fn crate_key_strips_lib_prefix_and_hash() {
    assert_eq!(crate_key("libserde-abc123.rlib"), "serde");
    assert_eq!(crate_key("libregex_automata-0b81c4f4.rlib"), "regex_automata");
    assert_eq!(crate_key("libfoo-HASH.rmeta"), "foo");
}

#[test]
fn crate_key_no_lib_prefix() {
    assert_eq!(crate_key("cargo_clean-abc.d"), "cargo_clean");
}

#[test]
fn crate_key_no_hash() {
    assert_eq!(crate_key("libserde.rlib"), "serde");
}

#[test]
fn crate_key_never_empty() {
    // a leading dash delimits no hash, and a bare lib prefix stays
    assert_eq!(crate_key("lib-abc.rlib"), "-abc");
    assert_eq!(crate_key("lib.rlib"), "lib");
}

// -- normalize_name ---------------------------------------------------------

#[test]
fn normalize_name_replaces_hyphens() {
    assert_eq!(normalize_name("my-cool-app"), "my_cool_app");
    assert_eq!(normalize_name("plain"), "plain");
}

// -- parse_artifact ---------------------------------------------------------

#[test]
fn parse_artifact_rlib() {
    let p = parse_artifact("libregex_automata-0b81c4f47542bec9.rlib");
    assert!(p.lib_prefix);
    assert_eq!(p.crate_name, "regex_automata");
    assert_eq!(p.hash, Some("0b81c4f47542bec9"));
    assert_eq!(p.ext, Some("rlib"));
}

#[test]
fn parse_artifact_rmeta() {
    let p = parse_artifact("libserde-abc123.rmeta");
    assert!(p.lib_prefix);
    assert_eq!(p.crate_name, "serde");
    assert_eq!(p.hash, Some("abc123"));
    assert_eq!(p.ext, Some("rmeta"));
}

#[test]
fn parse_artifact_so_no_lib() {
    let p = parse_artifact("libserde_derive-abc.so");
    assert!(p.lib_prefix);
    assert_eq!(p.crate_name, "serde_derive");
}

#[test]
fn parse_artifact_no_hash() {
    let p = parse_artifact("libserde.rlib");
    assert!(p.lib_prefix);
    assert_eq!(p.crate_name, "serde");
    assert_eq!(p.hash, None);
    assert_eq!(p.ext, Some("rlib"));
}

#[test]
fn parse_artifact_no_lib_prefix() {
    let p = parse_artifact("cargo_clean-abc.d");
    assert!(!p.lib_prefix);
    assert_eq!(p.crate_name, "cargo_clean");
    assert_eq!(p.hash, Some("abc"));
}

#[test]
fn parse_artifact_multi_ext() {
    let p = parse_artifact("foo-HASH.foo.cgu.00.rcgu.dwo");
    assert!(!p.lib_prefix);
    assert_eq!(p.crate_name, "foo");
    assert_eq!(p.hash, Some("HASH"));
    assert_eq!(p.ext, Some("foo.cgu.00.rcgu.dwo"));
}

#[test]
fn parse_artifact_crate_name_never_empty() {
    // a dash at the stem's front delimits no hash
    let p = parse_artifact("lib-abc.rlib");
    assert!(p.lib_prefix);
    assert_eq!(p.crate_name, "-abc");
    assert_eq!(p.hash, None);
    assert_eq!(p.ext, Some("rlib"));
    // a bare lib prefix is part of the name, not a prefix
    let p = parse_artifact("lib");
    assert!(!p.lib_prefix);
    assert_eq!(p.crate_name, "lib");
    // a leading dot starts no extension
    let p = parse_artifact(".rlib");
    assert!(!p.lib_prefix);
    assert_eq!(p.crate_name, ".rlib");
    assert_eq!(p.ext, None);
}
