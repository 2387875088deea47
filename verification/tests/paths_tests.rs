use tracehell::create::{create, MotherDir};
use tracehell::engine::{is_traced_source, manifest_path, select_sources, trace_expression, FileInfo, FileInfoVecExt, NotSaved, ScaffoldStep, WalkEntry};
use tracehell::paths::{file_name, has_component, has_rust_extension, join, relative_path};
use tracehell::text::{contains, trim};

#[test]
fn joins_like_pathbuf_push() {
    assert_eq!(join("/home/u", ".TraceHell"), "/home/u/.TraceHell");
    assert_eq!(join("/home/u/", "x"), "/home/u/x");
    assert_eq!(join("", "x"), "x");
    assert_eq!(join("/a", "/b"), "/b");
    assert_eq!(join("/a", ""), "/a/");
}

#[test]
fn mother_dir_lives_in_home() {
    assert_eq!(MotherDir::new("/home/u"), "/home/u/.TraceHell");
}

#[test]
fn file_names_and_extensions() {
    assert_eq!(file_name("src/lib.rs"), Some("lib.rs".to_string()));
    assert_eq!(file_name("src/lib.rs/."), Some("lib.rs".to_string()));
    assert_eq!(file_name("src//"), Some("src".to_string()));
    assert_eq!(file_name("a/.."), None);
    assert_eq!(file_name("/"), None);
    assert_eq!(file_name("."), None);
    assert_eq!(file_name(""), None);
    assert!(has_rust_extension("/w/src/main.rs"));
    assert!(has_rust_extension("/w/..rs"));
    assert!(!has_rust_extension("/w/.rs"));
    assert!(!has_rust_extension("/w/main.rsx"));
    assert!(!has_rust_extension("/w/rs"));
}

#[test]
fn components_are_whole_segments() {
    assert!(has_component("/w/target/debug/a.rs", "target"));
    assert!(has_component("/w/.git", ".git"));
    assert!(!has_component("/w/targets/a.rs", "target"));
    assert!(!has_component("/w/my.git/a.rs", ".git"));
}

#[test]
fn sources_to_trace() {
    assert!(is_traced_source("/w/src/main.rs", true));
    assert!(!is_traced_source("/w/src/main.rs", false));
    assert!(!is_traced_source("/w/target/x.rs", true));
    assert!(!is_traced_source("/w/.git/x.rs", true));
    assert!(!is_traced_source("/w/Cargo.toml", true));
}

#[test]
fn relative_paths() {
    assert_eq!(relative_path("/w", "/w/src/a.rs"), Some("src/a.rs".to_string()));
    assert_eq!(relative_path("/w/", "/w/src"), Some("src".to_string()));
    assert_eq!(relative_path("/w", "/w"), Some(String::new()));
    assert_eq!(relative_path("/w", "/wx/a"), None);
    assert_eq!(relative_path("/w", "/v/a"), None);
}

fn files() -> Vec<FileInfo<NotSaved>> {
    vec![
        FileInfo::new("/w", "/w/src/main.rs", "fn main() {}".to_string()),
        FileInfo::new("/w", "/w/src/lib.rs", "".to_string()),
    ]
}

#[test]
fn file_records() {
    let fs = files();
    assert_eq!(fs[0].root(), "/w");
    assert_eq!(fs[0].path(), "src/main.rs");
    assert_eq!(fs[0].name(), "main.rs");
    assert_eq!(fs[0].contents(), "fn main() {}");
    assert_eq!(fs[0].folder_name(), "src");
    assert_eq!(fs[1].save_path("/home/u/.TraceHell/t"), "/home/u/.TraceHell/t/src/lib.rs");
    assert_eq!(create(&fs), "src");
}

#[test]
fn scaffold_skips_rewritten_files_and_build_output() {
    let fs = files();
    let entry = |p: &str, d: bool| WalkEntry { path: p.to_string(), is_dir: d, is_file: !d };
    let entries = vec![
        entry("/w", true),
        entry("/w/src", true),
        entry("/w/src/main.rs", false),
        entry("/w/src/lib.rs", false),
        entry("/w/Cargo.toml", false),
        entry("/w/target", true),
        entry("/w/target/debug/x", false),
        entry("/w/.git/HEAD", false),
    ];
    let steps = fs.copy_scanfold(&entries, "/c");
    assert_eq!(steps.len(), 3);
    assert!(matches!(&steps[0], ScaffoldStep::CreateDir(d) if d == "/c/"));
    assert!(matches!(&steps[1], ScaffoldStep::CreateDir(d) if d == "/c/src"));
    assert!(matches!(&steps[2], ScaffoldStep::Copy(a, b) if a == "/w/Cargo.toml" && b == "/c/Cargo.toml"));
}

#[test]
fn trace_expression_colors_every_part() {
    let output = trace_expression("Err(())");

    assert!(output.contains("[1;35m?"));
    assert!(output.contains("[36m{}:{}"));
    assert!(output.contains("[33m{}"));
    assert!(output.contains("[31m{:?}"));
    assert!(output.starts_with("{ match Err(()) {"));
    assert!(output.contains("stringify!(Err(()))"));
    assert!(output.ends_with("return Err(__trace_error.into()); } } }"));
}

#[test]
fn trace_expression_takes_struct_literals() {
    let output = trace_expression("S { a: 1 }");
    assert!(output.starts_with("{ match (S { a: 1 }) {"));
    assert!(output.contains("stringify!(S { a: 1 })"));
    assert!(trace_expression("f(S { a: 1 })").starts_with("{ match f(S { a: 1 }) {"));
    assert!(trace_expression("v[0].get()").starts_with("{ match v[0].get() {"));
}

#[test]
fn text_helpers() {
    assert!(contains("cargo run", "o r"));
    assert!(contains("abc", ""));
    assert!(!contains("ab", "abc"));
    assert_eq!(trim("  x y \n"), "x y");
    assert_eq!(trim(" \t "), "");
}

#[test]
fn scaffold_writes_only_inside_the_copy() {
    let fs = files();
    let entries = vec![
        WalkEntry { path: "/w".to_string(), is_dir: true, is_file: false },
        WalkEntry { path: "/w/README.md".to_string(), is_dir: false, is_file: true },
        WalkEntry { path: "/w/docs".to_string(), is_dir: true, is_file: false },
    ];
    for step in fs.copy_scanfold(&entries, "/copy") {
        match step {
            ScaffoldStep::CreateDir(d) => assert!(d.starts_with("/copy")),
            ScaffoldStep::Copy(_, to) => assert!(to.starts_with("/copy/")),
        }
    }
}

#[test]
fn sources_are_selected_in_walk_order() {
    let entry = |p: &str, d: bool, f: bool| WalkEntry { path: p.to_string(), is_dir: d, is_file: f };
    let entries = vec![
        entry("/w", true, false),
        entry("/w/src/main.rs", false, true),
        entry("/w/src/dir.rs", true, false),
        entry("/w/target/gen.rs", false, true),
        entry("/w/build.rs", false, true),
        entry("/w/notes.txt", false, true),
        entry("/w/link.rs", false, false),
    ];
    assert_eq!(select_sources(&entries), vec!["/w/src/main.rs".to_string(), "/w/build.rs".to_string()]);
}

#[test]
fn manifest_of_a_workspace() {
    assert_eq!(manifest_path("/w", true), "/w/Cargo.toml");
    assert_eq!(manifest_path("/w/Cargo.toml", false), "/w/Cargo.toml");
}
