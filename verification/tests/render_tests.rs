use cargo_clean_artifact::render::format_bytes;
use cargo_clean_artifact::theme::{
    ext_color, format_artifact_line, format_more_line, in_use_theme, profile_color,
    to_remove_theme,
};

// -- format_bytes -----------------------------------------------------------

#[test]
fn format_bytes_units() {
    assert_eq!(format_bytes(0), "0 B");
    assert_eq!(format_bytes(512), "512 B");
    assert_eq!(format_bytes(1024), "1.00 KiB");
    assert_eq!(format_bytes(1024 * 1024), "1.00 MiB");
    assert_eq!(format_bytes(1024 * 1024 * 1024), "1.00 GiB");
    assert_eq!(format_bytes(1536), "1.50 KiB");
}

#[test]
fn format_bytes_rounding() {
    // 1555 B = 1.5185... KiB, rounds to 1.52
    assert_eq!(format_bytes(1555), "1.52 KiB");
    // just below the next unit stays in the smaller one
    assert_eq!(format_bytes(1023), "1023 B");
    // 2.5 MiB exactly
    assert_eq!(format_bytes(5 * 1024 * 1024 / 2), "2.50 MiB");
}

// -- profile_color ----------------------------------------------------------

#[test]
fn profile_color_is_stable() {
    assert_eq!(profile_color("debug"), profile_color("debug"));
    assert_eq!(profile_color("release"), profile_color("release"));
}

#[test]
fn profile_color_different_profiles_can_differ() {
    let colors: Vec<&str> = [
        "debug",
        "release",
        "wasm-dev",
        "wasm-release",
        "wasm32-unknown-unknown/wasm-dev",
    ]
    .iter()
    .map(|p| profile_color(p))
    .collect();
    let unique: std::collections::HashSet<_> = colors.iter().collect();
    assert!(
        unique.len() >= 2,
        "expected distinct colors for different profiles"
    );
}

#[test]
fn ext_color_known_and_fallback() {
    assert_eq!(ext_color("rlib"), "\x1b[38;5;75m");
    assert_eq!(ext_color("d"), "\x1b[38;5;241m");
    // unknown extensions get a stable fallback color
    assert_eq!(ext_color("wasm"), ext_color("wasm"));
}

// -- format_artifact_line ---------------------------------------------------

#[test]
fn format_artifact_line_in_use_contains_crate_name() {
    let line = format_artifact_line(1, "debug", "libserde-abc123.rlib", 1024, None, &in_use_theme());
    assert!(line.contains("serde"), "line: {line:?}");
    assert!(line.contains("debug"), "line: {line:?}");
    assert!(line.contains("1.00 KiB"), "line: {line:?}");
}

#[test]
fn format_artifact_line_to_remove_has_no_index() {
    let line = format_artifact_line(
        3,
        "release",
        "libfoo-hash.rmeta",
        2048,
        None,
        &to_remove_theme(),
    );
    assert!(!line.contains("  3."), "should not have index: {line:?}");
    assert!(line.contains("foo"), "line: {line:?}");
}

#[test]
fn format_artifact_line_in_use_shows_index() {
    let line = format_artifact_line(7, "debug", "libfoo-hash.rlib", 512, None, &in_use_theme());
    assert!(line.contains("7."), "should contain index: {line:?}");
}

#[test]
fn format_artifact_line_used_by_annotation() {
    let users = vec!["my_crate".to_string()];
    let line = format_artifact_line(
        1,
        "debug",
        "libserde-abc.rlib",
        100,
        Some(&users),
        &in_use_theme(),
    );
    assert!(line.contains("my_crate"), "line: {line:?}");
}

#[test]
fn format_artifact_line_used_by_sorted_and_truncated() {
    let users = vec![
        "zeta".to_string(),
        "alpha".to_string(),
        "zeta".to_string(),
        "mid".to_string(),
        "beta".to_string(),
    ];
    let line = format_artifact_line(
        1,
        "debug",
        "libserde-abc.rlib",
        100,
        Some(&users),
        &in_use_theme(),
    );
    // five entries, one duplicate: three shown ascending, two counted
    assert!(line.contains("alpha, beta, mid"), "line: {line:?}");
    assert!(line.contains(", +2"), "line: {line:?}");
    assert!(!line.contains("zeta"), "line: {line:?}");
}

// -- format_more_line -------------------------------------------------------

#[test]
fn format_more_line_output() {
    let line = format_more_line(42, "files");
    assert!(line.contains("42"), "line: {line:?}");
    assert!(line.contains("files"), "line: {line:?}");
}
