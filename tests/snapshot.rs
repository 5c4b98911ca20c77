use snapshot::cli::{get_exclude_dir, wants_help};
use snapshot::document::{file_section, render_contents, render_document, FileText};
use snapshot::filter::should_ignore;
use snapshot::path::{file_name, get_extension, path_starts_with};
use snapshot::pattern::{get_ignore_patterns, IgnorePattern};
use snapshot::walk::{render_tree, select_files, Entry, EntryKind};

fn args(v: &[&str]) -> Vec<String> {
    v.iter().map(|s| s.to_string()).collect()
}

fn entry(path: &str, depth: usize, kind: EntryKind) -> Entry {
    Entry { path: path.to_string(), depth, kind }
}

fn patterns() -> Vec<IgnorePattern> {
    get_ignore_patterns().expect("built-in patterns compile")
}

#[test]
fn starts_with_compares_components() {
    assert!(path_starts_with("./foo/a.txt", "foo"));
    assert!(path_starts_with("./foo/a.txt", "./foo"));
    assert!(path_starts_with("./foo", "./foo/"));
    assert!(path_starts_with("./foo", "foo"));
    assert!(!path_starts_with("./foo2/a.txt", "foo"));
    assert!(!path_starts_with("./fo", "foo"));
    assert!(!path_starts_with("/foo/a", "foo"));
    assert!(path_starts_with("/foo/a", "/foo"));
    assert!(path_starts_with("./a//b/./c", "a/b"));
}

#[test]
fn file_name_is_last_component() {
    assert_eq!(file_name("./src/main.rs"), Some("main.rs".to_string()));
    assert_eq!(file_name("./src/"), Some("src".to_string()));
    assert_eq!(file_name("."), None);
    assert_eq!(file_name("a/.."), None);
}

#[test]
fn extension_follows_last_dot() {
    assert_eq!(get_extension("./a.txt"), Some("txt".to_string()));
    assert_eq!(get_extension("./dir.d/archive.tar.gz"), Some("gz".to_string()));
    assert_eq!(get_extension("./dir.d/noext"), None);
    assert_eq!(get_extension("./.bashrc"), None);
    assert_eq!(get_extension("./a."), Some("".to_string()));
    assert_eq!(get_extension("."), None);
}

#[test]
fn exclude_dir_is_argument_after_flag() {
    assert_eq!(get_exclude_dir(&args(&["prog", "--exclude", "target"])), Some("target".to_string()));
    assert_eq!(get_exclude_dir(&args(&["prog", "--exclude", "a", "--exclude", "b"])), Some("a".to_string()));
    assert_eq!(get_exclude_dir(&args(&["prog", "--exclude"])), None);
    assert_eq!(get_exclude_dir(&args(&["prog", "x"])), None);
    assert_eq!(get_exclude_dir(&args(&[])), None);
}

#[test]
fn help_wins_over_other_flags() {
    assert!(wants_help(&args(&["prog", "--exclude", "x", "--help"])));
    assert!(wants_help(&args(&["--help"])));
    assert!(!wants_help(&args(&["prog", "--exclude", "--helpme"])));
}

#[test]
fn builtin_patterns_compile_in_order() {
    let ps = patterns();
    assert_eq!(ps.len(), 14);
    assert!(ps[0].is_match("x.pyc"));
    assert!(!ps[0].is_match("x.pyc.txt"));
    assert!(ps[13].is_match("./.git/config"));
    assert!(!ps[13].is_match("./agit/config"));
}

#[test]
fn pattern_rejects_bad_source() {
    assert!(IgnorePattern::new("(").is_none());
    let p = IgnorePattern::new(r"\.log$").expect("valid");
    assert!(p.is_match("./out.log"));
    assert!(!p.is_match("./out.logs"));
}

#[test]
fn should_ignore_vcs_and_caches() {
    let ps = patterns();
    assert!(should_ignore("./.git/config", None, &ps));
    assert!(should_ignore("./pkg/__pycache__/m.cpython.pyc", None, &ps));
    assert!(should_ignore("./.DS_Store", None, &ps));
    assert!(should_ignore("./venv/lib/x.py", None, &ps));
    assert!(!should_ignore("./src/main.rs", None, &ps));
    assert!(!should_ignore("./a.txt", None, &ps));
}

#[test]
fn should_ignore_excluded_subtree() {
    let ps = patterns();
    assert!(should_ignore("./target", Some("target"), &ps));
    assert!(should_ignore("./target/debug/app", Some("target"), &ps));
    assert!(!should_ignore("./target2/app", Some("target"), &ps));
    assert!(!should_ignore("./target/debug/app", None, &ps));
}

#[test]
fn should_ignore_is_deterministic() {
    let ps = patterns();
    for p in ["./a.txt", "./.git/HEAD", "./x/y.pyc", "./target/z"] {
        assert_eq!(should_ignore(p, Some("target"), &ps), should_ignore(p, Some("target"), &ps));
    }
}

#[test]
fn tree_of_one_file() {
    let es = vec![entry(".", 0, EntryKind::Dir), entry("./a.txt", 1, EntryKind::File)];
    let ps = patterns();
    assert_eq!(render_tree(&es, None, &ps), "./\n  a.txt\n");
    assert_eq!(select_files(&es, None, &ps), vec!["./a.txt".to_string()]);
}

#[test]
fn tree_nests_and_prunes() {
    let es = vec![
        entry(".", 0, EntryKind::Dir),
        entry("./.git", 1, EntryKind::Dir),
        entry("./.git/HEAD", 2, EntryKind::File),
        entry("./src", 1, EntryKind::Dir),
        entry("./src/lib.rs", 2, EntryKind::File),
        entry("./src/inner", 2, EntryKind::Dir),
        entry("./src/inner/x.rs", 3, EntryKind::File),
        entry("./target", 1, EntryKind::Dir),
        entry("./target/out", 2, EntryKind::File),
        entry("./z.md", 1, EntryKind::File),
    ];
    let ps = patterns();
    let tree = render_tree(&es, Some("target"), &ps);
    assert_eq!(
        tree,
        "./\n  ./src/\n    lib.rs\n    ./src/inner/\n      x.rs\n  z.md\n"
    );
    assert_eq!(
        select_files(&es, Some("target"), &ps),
        vec!["./src/lib.rs".to_string(), "./src/inner/x.rs".to_string(), "./z.md".to_string()]
    );
}

#[test]
fn contents_filter_each_file_alone() {
    // A directory that a pattern prunes from the tree does not take the
    // files below it out of the contents unless they match themselves.
    let es = vec![
        entry(".", 0, EntryKind::Dir),
        entry("./old.pyc", 1, EntryKind::Dir),
        entry("./old.pyc/keep.txt", 2, EntryKind::File),
        entry("./link", 1, EntryKind::Other),
    ];
    let ps = patterns();
    assert_eq!(render_tree(&es, None, &ps), "./\n  link\n");
    assert_eq!(select_files(&es, None, &ps), vec!["./old.pyc/keep.txt".to_string()]);
}

#[test]
fn excluded_root_itself_still_listed() {
    let es = vec![entry(".", 0, EntryKind::Dir), entry("./a", 1, EntryKind::File)];
    let ps = patterns();
    assert_eq!(render_tree(&es, Some("."), &ps), "./\n");
    assert!(select_files(&es, Some("."), &ps).is_empty());
}

#[test]
fn section_of_readable_file() {
    assert_eq!(file_section("./a.txt", Some("hello")), "### a.txt\n\n```txt\nhello\n```\n\n");
}

#[test]
fn section_of_unreadable_file() {
    assert_eq!(file_section("./broken.bin", None), "### broken.bin\n\n```bin\n\n```\n\n");
}

#[test]
fn section_without_extension() {
    assert_eq!(file_section("./sub/Makefile", Some("all:")), "### Makefile\n\n```\nall:\n```\n\n");
}

#[test]
fn document_of_one_file() {
    let es = vec![entry(".", 0, EntryKind::Dir), entry("./a.txt", 1, EntryKind::File)];
    let ps = patterns();
    let tree = render_tree(&es, None, &ps);
    let files: Vec<FileText> = select_files(&es, None, &ps)
        .into_iter()
        .map(|path| FileText { path, content: Some("hello".to_string()) })
        .collect();
    let contents = render_contents(&files);
    let doc = render_document(&tree, &contents);
    assert_eq!(
        doc,
        "## Directory Tree\n\n./\n  a.txt\n\n## File Contents\n\n### a.txt\n\n```txt\nhello\n```\n\n"
    );
}

#[test]
fn contents_keep_order_and_empty_sections() {
    let files = vec![
        FileText { path: "./b.rs".to_string(), content: Some("fn b() {}".to_string()) },
        FileText { path: "./broken.bin".to_string(), content: None },
    ];
    assert_eq!(
        render_contents(&files),
        "### b.rs\n\n```rs\nfn b() {}\n```\n\n### broken.bin\n\n```bin\n\n```\n\n"
    );
    assert_eq!(render_contents(&[]), "");
}

#[test]
fn headers_are_the_unignored_files() {
    let es = vec![
        entry(".", 0, EntryKind::Dir),
        entry("./a.txt", 1, EntryKind::File),
        entry("./.DS_Store", 1, EntryKind::File),
        entry("./d", 1, EntryKind::Dir),
        entry("./d/a.txt", 2, EntryKind::File),
        entry("./d/m.pyc", 2, EntryKind::File),
    ];
    let ps = patterns();
    let files: Vec<FileText> = select_files(&es, None, &ps)
        .into_iter()
        .map(|path| FileText { path, content: None })
        .collect();
    let contents = render_contents(&files);
    let headers: Vec<&str> = contents.lines().filter(|l| l.starts_with("### ")).collect();
    assert_eq!(headers, vec!["### a.txt", "### a.txt"]);
}

#[test]
fn rendering_twice_is_identical() {
    let es = vec![
        entry(".", 0, EntryKind::Dir),
        entry("./a.txt", 1, EntryKind::File),
        entry("./d", 1, EntryKind::Dir),
        entry("./d/b.rs", 2, EntryKind::File),
    ];
    let ps = patterns();
    let first = render_document(&render_tree(&es, None, &ps), "");
    let second = render_document(&render_tree(&es, None, &ps), "");
    assert_eq!(first, second);
}
