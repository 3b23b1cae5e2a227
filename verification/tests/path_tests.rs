use cargo_clean_artifact::command::{CleanGitCommand, CliArgs, InnerCmd};
use cargo_clean_artifact::paths::{extension, file_name, file_stem, parent_dir, path_is_in_dir};
use cargo_clean_artifact::strings::{split_words, str_contains, trim};

#[test]
fn file_name_component() {
    assert_eq!(file_name("/a/b/libfoo-1.rlib"), Some("libfoo-1.rlib"));
    assert_eq!(file_name("libfoo-1.rlib"), Some("libfoo-1.rlib"));
    assert_eq!(file_name("/a/b/"), None);
    assert_eq!(file_name("/a/.."), None);
}

#[test]
fn parent_and_stem_and_extension() {
    assert_eq!(parent_dir("/a/b/libfoo-1.rlib"), Some("/a/b"));
    assert_eq!(parent_dir("plain"), None);
    assert_eq!(file_stem("/a/libfoo-1.rlib"), Some("libfoo-1"));
    assert_eq!(file_stem("/a/.hidden"), Some(".hidden"));
    assert_eq!(extension("/a/libfoo-1.rlib"), Some("rlib"));
    assert_eq!(extension("/a/noext"), None);
    assert_eq!(extension("/a/.hidden"), None);
}

#[test]
fn path_containment() {
    assert!(path_is_in_dir("/t/debug/deps/x.rlib", "/t"));
    assert!(path_is_in_dir("/t", "/t"));
    assert!(!path_is_in_dir("/tall/x.rlib", "/t"));
    assert!(!path_is_in_dir("/other/x.rlib", "/t"));
}

#[test]
fn word_splitting_and_trim() {
    assert_eq!(
        split_words("  a\tbb   c "),
        vec!["a".to_string(), "bb".to_string(), "c".to_string()]
    );
    assert_eq!(split_words(""), Vec::<String>::new());
    assert_eq!(trim("  x y\t"), "x y");
    assert_eq!(trim("\r\n"), "");
    assert!(str_contains("max output mtime for", "mtime"));
    assert!(!str_contains("plain line", "mtime"));
}

#[test]
fn cli_verbose_dispatch() {
    let args = CliArgs {
        cmd: InnerCmd::CleanGit(CleanGitCommand {
            yes: false,
            dry_run: false,
            dir: ".".to_string(),
            fetch: true,
        }),
    };
    assert!(!args.is_verbose());
    if let InnerCmd::CleanGit(g) = &args.cmd {
        assert!(g.is_dry_run());
    }
}
