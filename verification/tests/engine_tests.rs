use cargo_clean_artifact::command::{gone_branch_of_line, find_owning_dir, CleanCommand};
use cargo_clean_artifact::correlate::{correlate_deps_dir, protected_names, used_stems_in_dir, DepsEntry};
use cargo_clean_artifact::depfile::{dep_file_references_dirs, is_legacy_removable, parse_dep_file};
use cargo_clean_artifact::features::{detect_features, resolve_features};
use cargo_clean_artifact::incremental::{reduce_incremental_sessions, SessionDir};
use cargo_clean_artifact::removal::{removal_outcome_stats, RemovalSelection};
use cargo_clean_artifact::stats::{CleanupStats, CrateStat, ProfileStat};
use cargo_clean_artifact::trace::{derive_scan_dirs, TraceParser, TraceResult};

/// A deps-directory file modified well before any trace in these tests.
fn entry(path: &str, size: u64) -> DepsEntry {
    DepsEntry { path: path.to_string(), size, mtime: 50 }
}

/// The moment the traced build began, in these tests: after every old file's
/// modification time.
const TRACE_START: u64 = 1_000;

fn strings(v: &[&str]) -> Vec<String> {
    v.iter().map(|s| s.to_string()).collect()
}

// -- liveness correlation ----------------------------------------------------

/// Stem sharing: the traced archive keeps its metadata sibling and object
/// fragment; an unrelated stem is removed.
#[test]
fn stem_sharing_keeps_family_removes_stranger() {
    let used = strings(&["/t/debug/deps/libfoo-abc123.rlib"]);
    let used_stems = used_stems_in_dir(&used, "/t/debug/deps");
    assert_eq!(used_stems, strings(&["foo-abc123"]));

    let files = vec![
        entry("/t/debug/deps/libfoo-abc123.rlib", 100),
        entry("/t/debug/deps/libfoo-abc123.rmeta", 10),
        entry("/t/debug/deps/foo-abc123.o", 5),
        entry("/t/debug/deps/libbar-def456.rlib", 70),
    ];
    let stats = correlate_deps_dir(&files, &used_stems, &Vec::new(), TRACE_START, "debug");

    assert_eq!(stats.files_to_remove.len(), 1);
    assert_eq!(stats.files_to_remove[0].path, "/t/debug/deps/libbar-def456.rlib");
    assert_eq!(stats.files_to_remove[0].size, 70);
    assert_eq!(stats.files_to_remove[0].profile, "debug");
    assert_eq!(stats.files, 1);
    assert_eq!(stats.bytes, 70);
    assert_eq!(stats.used_bytes, 115);
}

/// Root-output protection: a final build product in the profile root shields
/// its deps-directory intermediates although no trace mentions them.
#[test]
fn root_output_protects_untraced_intermediates() {
    let protected = protected_names(&strings(&["/t/debug/my-app", "/t/debug/libhelper.so"]));
    assert_eq!(protected, strings(&["my_app", "helper"]));

    let files = vec![
        entry("/t/debug/deps/my_app-1a2b3c.d", 1),
        entry("/t/debug/deps/libhelper-9f8e.rlib", 50),
        entry("/t/debug/deps/libgone-0000.rlib", 9),
    ];
    let stats = correlate_deps_dir(&files, &Vec::new(), &protected, TRACE_START, "debug");

    assert_eq!(stats.files_to_remove.len(), 1);
    assert_eq!(stats.files_to_remove[0].path, "/t/debug/deps/libgone-0000.rlib");
    assert_eq!(stats.used_bytes, 51);
}

/// Unrecognized-name safety: a file without a hash-bearing stem is neither
/// kept nor removable.
#[test]
fn unrecognized_names_left_alone() {
    let files = vec![
        entry("/t/debug/deps/README.txt", 400),
        entry("/t/debug/deps/Cargo.lock", 300),
        entry("/t/debug/deps/libserde.rlib", 200),
    ];
    let stats = correlate_deps_dir(&files, &Vec::new(), &Vec::new(), TRACE_START, "debug");
    assert_eq!(stats.files_to_remove.len(), 0);
    assert_eq!(stats.files, 0);
    assert_eq!(stats.bytes, 0);
    assert_eq!(stats.used_bytes, 0);
}

/// A recognized artifact written during or after the trace is kept although
/// nothing traced it and nothing protects it: fresh is not stale.
#[test]
fn fresh_artifact_kept() {
    let files = vec![
        DepsEntry {
            path: "/t/debug/deps/libjustbuilt-9.rlib".to_string(),
            size: 25,
            mtime: TRACE_START + 5,
        },
        entry("/t/debug/deps/libold-8.rlib", 40),
    ];
    let stats = correlate_deps_dir(&files, &Vec::new(), &Vec::new(), TRACE_START, "debug");
    assert_eq!(stats.files_to_remove.len(), 1);
    assert_eq!(stats.files_to_remove[0].path, "/t/debug/deps/libold-8.rlib");
    assert_eq!(stats.used_bytes, 25);
}

/// Idempotence: scanning what the first pass left behind finds nothing more.
#[test]
fn second_scan_reports_nothing() {
    let used = strings(&["/t/debug/deps/libfoo-abc123.rlib"]);
    let used_stems = used_stems_in_dir(&used, "/t/debug/deps");
    let files = vec![
        entry("/t/debug/deps/libfoo-abc123.rlib", 100),
        entry("/t/debug/deps/libbar-def456.rlib", 70),
        entry("/t/debug/deps/libbaz-777.rmeta", 7),
    ];
    let first = correlate_deps_dir(&files, &used_stems, &Vec::new(), TRACE_START, "debug");
    assert_eq!(first.files, 2);

    let survivors: Vec<DepsEntry> = files
        .iter()
        .filter(|f| {
            !first
                .files_to_remove
                .iter()
                .any(|r| r.path == f.path)
        })
        .map(|f| entry(&f.path, f.size))
        .collect();
    let second = correlate_deps_dir(&survivors, &used_stems, &Vec::new(), TRACE_START, "debug");
    assert_eq!(second.files_to_remove.len(), 0);
    assert_eq!(second.files, 0);
    assert_eq!(second.bytes, 0);
}

/// The per-crate and per-profile breakdowns attribute removals exactly.
#[test]
fn breakdown_by_crate_and_profile() {
    let files = vec![
        entry("/t/debug/deps/libbar-def456.rlib", 70),
        entry("/t/debug/deps/libbar-002.rmeta", 30),
        entry("/t/debug/deps/libqux-1.rlib", 5),
    ];
    let stats = correlate_deps_dir(&files, &Vec::new(), &Vec::new(), TRACE_START, "debug");
    assert_eq!(stats.files, 3);
    assert_eq!(stats.bytes, 105);
    let bar = stats
        .per_crate
        .iter()
        .find(|(k, _)| k == "bar")
        .map(|(_, s)| *s)
        .unwrap();
    assert_eq!(bar, CrateStat { files: 2, bytes: 100 });
    let profile = stats
        .per_profile
        .iter()
        .find(|(k, _)| k == "debug")
        .map(|(_, s)| *s)
        .unwrap();
    assert_eq!(
        profile,
        ProfileStat { files: 3, bytes: 105, used_bytes: 0, total_dir_bytes: 0 }
    );
}

// -- incremental reducer -----------------------------------------------------

fn session(path: &str, mtime: u64, size: u64) -> SessionDir {
    SessionDir { path: path.to_string(), mtime, size }
}

/// Three sessions of one crate and a lone session of another: exactly the two
/// older sessions of the first crate go.
#[test]
fn reducer_keeps_newest_session_per_crate() {
    let sessions = vec![
        session("/t/debug/incremental/bevy_pbr-1aaaaaaaaaaaa", 1000, 64),
        session("/t/debug/incremental/bevy_pbr-2bbbbbbbbbbb", 1100, 32),
        session("/t/debug/incremental/bevy_pbr-3ccccccccccc", 1290, 16),
        session("/t/debug/incremental/serde-4ddddddddddd", 1150, 8),
    ];
    let stats = reduce_incremental_sessions(&sessions, "debug");

    let removed: Vec<&str> = stats.dirs_to_remove.iter().map(|d| d.path.as_str()).collect();
    assert_eq!(removed.len(), 2, "dirs_to_remove: {removed:?}");
    assert!(removed.iter().any(|n| n.contains("1aaaaaaaaaaaa")));
    assert!(removed.iter().any(|n| n.contains("2bbbbbbbbbbb")));
    assert!(!removed.iter().any(|n| n.contains("3ccccccccccc")));
    assert!(!removed.iter().any(|n| n.contains("serde")));
    assert_eq!(stats.files, 2);
    assert_eq!(stats.bytes, 96);
}

#[test]
fn reducer_single_session_untouched() {
    let sessions = vec![session("/t/debug/incremental/my_crate-1aaaaaaaaaaaa", 500, 1024)];
    let stats = reduce_incremental_sessions(&sessions, "debug");
    assert!(stats.dirs_to_remove.is_empty());
    assert_eq!(stats.bytes, 0);
}

#[test]
fn reducer_empty_listing() {
    let stats = reduce_incremental_sessions(&Vec::new(), "debug");
    assert!(stats.dirs_to_remove.is_empty());
    assert_eq!(stats.files, 0);
}

/// Reducing what a reduction left in place finds nothing more.
#[test]
fn second_reduction_reports_nothing() {
    let sessions = vec![
        session("/t/debug/incremental/bevy_pbr-1aaaaaaaaaaaa", 1000, 64),
        session("/t/debug/incremental/bevy_pbr-3ccccccccccc", 1290, 16),
        session("/t/debug/incremental/serde-4ddddddddddd", 1150, 8),
    ];
    let first = reduce_incremental_sessions(&sessions, "debug");
    let survivors: Vec<SessionDir> = sessions
        .iter()
        .filter(|s| !first.dirs_to_remove.iter().any(|d| d.path == s.path))
        .map(|s| session(&s.path, s.mtime, s.size))
        .collect();
    let second = reduce_incremental_sessions(&survivors, "debug");
    assert!(second.dirs_to_remove.is_empty());
    assert_eq!(second.files, 0);
}

// -- merge algebra -----------------------------------------------------------

fn crate_map(stats: &CleanupStats) -> std::collections::HashMap<String, CrateStat> {
    stats.per_crate.iter().map(|(k, v)| (k.clone(), *v)).collect()
}

fn profile_map(stats: &CleanupStats) -> std::collections::HashMap<String, ProfileStat> {
    stats.per_profile.iter().map(|(k, v)| (k.clone(), *v)).collect()
}

fn removal_paths(stats: &CleanupStats) -> Vec<String> {
    stats.files_to_remove.iter().map(|f| f.path.clone()).collect()
}

fn make_a() -> CleanupStats {
    let mut a = CleanupStats::new();
    a.add_removal_file("/t/debug/deps/libx-1.rlib".to_string(), 10, "debug");
    a.add_used_file(100, "debug");
    a
}

fn make_b() -> CleanupStats {
    let mut b = CleanupStats::new();
    b.add_removal_file("/t/debug/deps/libx-2.rlib".to_string(), 20, "debug");
    b.add_removal_dir("/t/debug/incremental/x-1".to_string(), 40, "debug");
    b
}

fn make_c() -> CleanupStats {
    let mut c = CleanupStats::new();
    c.add_removal_file("/t/release/deps/liby-3.rlib".to_string(), 30, "release");
    c.set_profile_total_dir_bytes("release", 999);
    c
}

/// Merge associativity, field for field, on concrete aggregates.
#[test]
fn merge_is_associative() {
    let a = make_a();
    let b = make_b();
    let c = make_c();
    // (a + b) + c
    let mut left = a.duplicate();
    left.merge_from(b.duplicate());
    left.merge_from(c.duplicate());
    // a + (b + c)
    let mut bc = b.duplicate();
    bc.merge_from(c.duplicate());
    let mut right = a.duplicate();
    right.merge_from(bc);

    assert_eq!(left.files, right.files);
    assert_eq!(left.bytes, right.bytes);
    assert_eq!(left.used_bytes, right.used_bytes);
    assert_eq!(crate_map(&left), crate_map(&right));
    assert_eq!(profile_map(&left), profile_map(&right));
    assert_eq!(removal_paths(&left), removal_paths(&right));
    assert_eq!(left.dirs_to_remove.len(), right.dirs_to_remove.len());
}

/// Merging totals sums every counter.
#[test]
fn merge_sums_counters() {
    let mut a = CleanupStats::new();
    a.add_removal_file("/t/debug/deps/libx-1.rlib".to_string(), 10, "debug");
    let mut b = CleanupStats::new();
    b.add_removal_file("/t/debug/deps/libx-2.rlib".to_string(), 20, "debug");
    a.merge_from(b);
    assert_eq!(a.files, 2);
    assert_eq!(a.bytes, 30);
    let x = crate_map(&a)["x"];
    assert_eq!(x, CrateStat { files: 2, bytes: 30 });
}

// -- removal executor --------------------------------------------------------

/// Partial-failure isolation: the failing item lands in the failure map and
/// every later item is still counted.
#[test]
fn failed_deletion_isolated() {
    let mut plan = CleanupStats::new();
    plan.add_removal_file("/t/debug/deps/liba-1.rlib".to_string(), 10, "debug");
    plan.add_removal_file("/t/debug/deps/libb-2.rlib".to_string(), 20, "debug");
    plan.add_removal_file("/t/debug/deps/libc-3.rlib".to_string(), 30, "debug");

    let outcomes = vec![None, Some("permission denied".to_string()), None];
    let sel = RemovalSelection { remove_files: true, remove_dirs: false };
    let r = removal_outcome_stats(&plan, &sel, &outcomes, &Vec::new());

    assert_eq!(r.files, 2);
    assert_eq!(r.bytes, 40);
    assert_eq!(r.errors.len(), 1);
    let e = &r.errors[0];
    assert_eq!(e.crate_key, "b");
    assert_eq!(e.profile, "debug");
    assert_eq!(e.path, "/t/debug/deps/libb-2.rlib");
    assert_eq!(e.message, "permission denied");
    assert!(r.files_to_remove.is_empty());
}

/// A dry-run selection attempts nothing.
#[test]
fn dry_run_selection_removes_nothing() {
    let mut plan = CleanupStats::new();
    plan.add_removal_file("/t/debug/deps/liba-1.rlib".to_string(), 10, "debug");
    let sel = RemovalSelection::none();
    assert!(!clone_selection(&sel).any());
    let r = removal_outcome_stats(&plan, &sel, &Vec::new(), &Vec::new());
    assert_eq!(r.files, 0);
    assert_eq!(r.errors.len(), 0);
}

fn clone_selection(s: &RemovalSelection) -> RemovalSelection {
    RemovalSelection { remove_files: s.remove_files, remove_dirs: s.remove_dirs }
}

/// Directory removals land under the incremental marker on failure.
#[test]
fn failed_dir_removal_filed_under_incremental() {
    let mut plan = CleanupStats::new();
    plan.add_removal_dir("/t/debug/incremental/x-1".to_string(), 40, "debug");
    let sel = RemovalSelection { remove_files: false, remove_dirs: true };
    let r = removal_outcome_stats(&plan, &sel, &Vec::new(), &vec![Some("busy".to_string())]);
    assert_eq!(r.files, 0);
    assert_eq!(r.errors.len(), 1);
    assert_eq!(r.errors[0].crate_key, "incremental");
    assert_eq!(r.errors[0].message, "busy");
}

// -- trace parsing -----------------------------------------------------------

#[test]
fn test_extract_artifact_path() {
    let parser = TraceParser::new("/project/target".to_string());

    let line =
        r#"max output mtime for "foo" is "/project/target/debug/deps/libfoo-abc123.rlib" 123s"#;
    let path = parser.extract_artifact_path(line);
    assert_eq!(
        path,
        Some("/project/target/debug/deps/libfoo-abc123.rlib".to_string())
    );

    let line =
        r#"max dep mtime for "bar" is "/project/target/debug/deps/libbar-xyz789.rmeta" 456s"#;
    let path = parser.extract_artifact_path(line);
    assert_eq!(
        path,
        Some("/project/target/debug/deps/libbar-xyz789.rmeta".to_string())
    );

    let line = "Some other log line without artifacts";
    let path = parser.extract_artifact_path(line);
    assert_eq!(path, None);

    let line = r#"max output mtime is "/other/path/libfoo-abc123.rlib" 123s"#;
    let path = parser.extract_artifact_path(line);
    assert_eq!(path, None);
}

#[test]
fn process_line_records_artifact_and_consumer() {
    let parser = TraceParser::new("/project/target".to_string());
    let mut result = TraceResult::new();
    let line =
        r#"max output mtime for "foo v0.1.0" is "/project/target/debug/deps/libdep-1.rlib" 9s"#;
    assert!(parser.process_line(&mut result, line));
    // the same line again adds nothing new
    assert!(parser.process_line(&mut result, line));
    assert_eq!(result.used_artifacts.len(), 1);
    assert_eq!(result.used_artifacts[0], "/project/target/debug/deps/libdep-1.rlib");
    assert_eq!(result.used_by.len(), 1);
    assert_eq!(result.used_by[0].0, "/project/target/debug/deps/libdep-1.rlib");
    assert_eq!(result.used_by[0].1, "foo v0.1.0");

    assert!(!parser.process_line(&mut result, "   Compiling foo v0.1.0"));
    assert_eq!(result.used_artifacts.len(), 1);

    // a line with only the path quoted records the artifact but no consumer
    let line = r#"max dep mtime is "/project/target/debug/deps/libq-1.rlib" 1s"#;
    assert!(parser.process_line(&mut result, line));
    assert_eq!(result.used_artifacts.len(), 2);
    assert_eq!(result.used_by.len(), 1);
}

#[test]
fn scan_dirs_derived_from_trace() {
    let used = strings(&[
        "/t/debug/deps/libfoo-1.rlib",
        "/t/debug/deps/libbar-2.rmeta",
        "/t/wasm32-unknown-unknown/wasm-dev/deps/libbaz-3.rlib",
        "/elsewhere/deps/libqux-4.rlib",
        "/t/debug/libtop.rlib",
    ]);
    let dirs = derive_scan_dirs(&used, "/t");
    assert_eq!(dirs.len(), 2);
    assert!(dirs
        .iter()
        .any(|(d, p)| d == "/t/debug/deps" && p == "debug"));
    assert!(dirs
        .iter()
        .any(|(d, p)| d == "/t/wasm32-unknown-unknown/wasm-dev/deps"
            && p == "wasm32-unknown-unknown/wasm-dev"));
}

// -- dependency files --------------------------------------------------------

#[test]
fn parse_dep_file_rules() {
    let text = "/t/debug/deps/foo.rmeta: /w/src/lib.rs /w/src/util.rs\n\n/t/debug/deps/foo.rlib: /w/src/lib.rs\n";
    let dep = parse_dep_file(text);
    assert_eq!(dep.entries.len(), 2);
    assert_eq!(dep.entries[0].0, "/t/debug/deps/foo.rmeta");
    assert_eq!(dep.entries[0].1, strings(&["/w/src/lib.rs", "/w/src/util.rs"]));
    assert_eq!(dep.entries[1].0, "/t/debug/deps/foo.rlib");
    assert_eq!(dep.entries[1].1, strings(&["/w/src/lib.rs"]));
}

#[test]
fn dep_file_reference_check() {
    let dep = parse_dep_file("/t/debug/deps/foo.rlib: /w/pkg/src/lib.rs\n");
    assert!(dep_file_references_dirs(&dep, &strings(&["/w/pkg"])));
    assert!(!dep_file_references_dirs(&dep, &strings(&["/w/other"])));
}

#[test]
fn legacy_removable_only_libraries_under_root() {
    assert!(is_legacy_removable("/t/debug/deps/libfoo-1.rlib", "/t"));
    assert!(is_legacy_removable("/t/debug/deps/libfoo-1.rmeta", "/t"));
    assert!(!is_legacy_removable("/t/debug/deps/foo-1.d", "/t"));
    assert!(!is_legacy_removable("/elsewhere/libfoo-1.rlib", "/t"));
}

// -- feature detection -------------------------------------------------------

#[test]
fn detect_features_from_fingerprint_lines() {
    let lines = strings(&[
        r#"{"rustc":123,"features":"[\"default\", \"rayon\", \"old_feat\"]","target":1}"#,
        "not json at all",
    ]);
    let available = strings(&["rayon", "extra"]);
    let (config, invalid) = detect_features(&lines, &available);
    assert_eq!(config.features, Some("rayon".to_string()));
    assert!(!config.all_features);
    assert!(!config.no_default_features);
    assert_eq!(invalid, strings(&["old_feat"]));
}

#[test]
fn resolve_features_defaults_when_nothing_survives() {
    let (config, invalid) = resolve_features(
        &strings(&["default", "gone_one", "gone_two", "gone_one"]),
        &strings(&["other"]),
    );
    assert!(config.is_default());
    assert_eq!(invalid, strings(&["gone_one", "gone_two"]));
}

#[test]
fn resolve_features_sorts_and_joins() {
    let (config, invalid) = resolve_features(
        &strings(&["zstd", "alloc", "default", "zstd"]),
        &strings(&["alloc", "zstd"]),
    );
    assert_eq!(config.features, Some("alloc,zstd".to_string()));
    assert!(invalid.is_empty());
}

// -- command decisions -------------------------------------------------------

#[test]
fn gone_branch_lines() {
    assert_eq!(
        gone_branch_of_line("feature-x [gone]"),
        Some("feature-x".to_string())
    );
    assert_eq!(gone_branch_of_line("main"), None);
    assert_eq!(gone_branch_of_line("dev [ahead 1]"), None);
    assert_eq!(gone_branch_of_line(""), None);
}

#[test]
fn owning_dir_walks_ancestors() {
    let dirs = strings(&["/w/pkg", "/w/other"]);
    assert_eq!(
        find_owning_dir("/w/pkg/src/lib.rs", &dirs),
        Some("/w/pkg".to_string())
    );
    assert_eq!(find_owning_dir("/x/src/lib.rs", &dirs), None);
}

#[test]
fn dry_run_policy() {
    let cmd = CleanCommand {
        yes: false,
        dry_run: false,
        dir: ".".to_string(),
        allow_shared_target_dir: false,
        custom_command: None,
        verbose: true,
        trace_stats: 5,
    };
    assert!(cmd.is_dry_run());
    assert!(cmd.is_verbose());
    let confirmed = CleanCommand { yes: true, ..clone_cmd(&cmd) };
    assert!(!confirmed.is_dry_run());
    let sel = confirmed.confirmed_selection();
    assert!(sel.remove_files && sel.remove_dirs);
    let forced = CleanCommand { yes: true, dry_run: true, ..clone_cmd(&cmd) };
    assert!(forced.is_dry_run());
    let sel = forced.confirmed_selection();
    assert!(!clone_selection(&sel).any());
}

/// A failed trace proves nothing dead: the removal policy selects nothing,
/// whatever the flags say.
#[test]
fn failed_trace_selects_nothing() {
    let cmd = CleanCommand {
        yes: true,
        dry_run: false,
        dir: ".".to_string(),
        allow_shared_target_dir: false,
        custom_command: Some("cargo build".to_string()),
        verbose: false,
        trace_stats: 5,
    };
    let after_failure = cmd.removal_policy(false);
    assert!(!after_failure.any());
    let after_success = cmd.removal_policy(true);
    assert!(after_success.remove_files && after_success.remove_dirs);
}

fn clone_cmd(c: &CleanCommand) -> CleanCommand {
    CleanCommand {
        yes: c.yes,
        dry_run: c.dry_run,
        dir: c.dir.clone(),
        allow_shared_target_dir: c.allow_shared_target_dir,
        custom_command: c.custom_command.clone(),
        verbose: c.verbose,
        trace_stats: c.trace_stats,
    }
}
