use std::path::Path;

use tempfile::{tempdir, Builder, TempDir};
use tracehell::error::ErrorKind;
use tracehell::parse::{parse_args, trace_path, Commands};

fn args(words: &[&str]) -> Vec<String> {
    words.iter().map(|w| w.to_string()).collect()
}

fn path_text(p: &Path) -> String {
    p.to_str().unwrap().to_string()
}

fn is_dir(p: &String) -> bool {
    Path::new(p).is_dir()
}

/// A directory named `trace` inside `mother`.
fn make_trace(mother: &TempDir) -> TempDir {
    Builder::new().prefix("trace").rand_bytes(0).tempdir_in(mother.path()).unwrap()
}

#[test]
fn parses_create_path() {
    let mother = tempdir().unwrap();
    let command = parse_args(&args(&["-create", "trace"]), &path_text(mother.path()), is_dir).unwrap();

    match command {
        Commands::Create(path) => assert_eq!(path, path_text(&mother.path().join("trace"))),
        _ => panic!("expected create command"),
    }
}

#[test]
fn parses_multi_word_run_command() {
    let mother = tempdir().unwrap();
    let _trace = make_trace(&mother);
    let command =
        parse_args(&args(&["-run", "trace", "cargo", "run"]), &path_text(mother.path()), is_dir).unwrap();

    match command {
        Commands::Run(target) => {
            assert_eq!(target.path, path_text(&mother.path().join("trace")));
            assert_eq!(target.command, "cargo run");
        },
        _ => panic!("expected run command"),
    }
}

#[test]
fn parses_delete_name_instead_of_flag() {
    let mother = tempdir().unwrap();
    let _trace = make_trace(&mother);
    let command = parse_args(&args(&["-delete", "trace"]), &path_text(mother.path()), is_dir).unwrap();

    match command {
        Commands::Delete(path) => assert_eq!(path, path_text(&mother.path().join("trace"))),
        _ => panic!("expected delete command"),
    }
}

#[test]
fn missing_arguments_return_errors() {
    let mother = tempdir().unwrap();

    for words in [vec!["-create"], vec!["-run"], vec!["-run", "trace"], vec!["-delete"]] {
        let err = parse_args(&args(&words), &path_text(mother.path()), is_dir).unwrap_err();
        assert_eq!(err.kind, ErrorKind::InvalidInput);
    }
}

#[test]
fn parses_help_aliases() {
    let mother = tempdir().unwrap();

    for alias in ["help", "-help", "--help", "-h"] {
        assert!(matches!(parse_args(&args(&[alias]), &path_text(mother.path()), is_dir).unwrap(), Commands::Help));
    }
}

#[test]
fn parses_command_prefix_variants() {
    let mother = tempdir().unwrap();
    let _trace = make_trace(&mother);
    let m = path_text(mother.path());

    for command in ["create", "-create", "--create"] {
        assert!(matches!(parse_args(&args(&[command, "new-trace"]), &m, is_dir).unwrap(), Commands::Create(_)));
    }
    for command in ["run", "-run", "--run"] {
        assert!(matches!(parse_args(&args(&[command, "trace", "cargo test"]), &m, is_dir).unwrap(), Commands::Run(_)));
    }
    for command in ["delete", "-delete", "--delete"] {
        assert!(matches!(parse_args(&args(&[command, "trace"]), &m, is_dir).unwrap(), Commands::Delete(_)));
    }
}

#[test]
fn help_rejects_extra_arguments() {
    let mother = tempdir().unwrap();

    assert_eq!(
        parse_args(&args(&["help", "extra"]), &path_text(mother.path()), is_dir).unwrap_err().kind,
        ErrorKind::InvalidInput
    );
}

#[test]
fn rejects_names_outside_the_trace_directory() {
    let mother = tempdir().unwrap();

    for name in ["../trace", "nested/trace", "/tmp/trace", ".", ""] {
        assert_eq!(
            parse_args(&args(&["-create", name]), &path_text(mother.path()), is_dir).unwrap_err().kind,
            ErrorKind::InvalidInput
        );
    }
}

#[test]
fn missing_trace_is_not_found() {
    let mother = tempdir().unwrap();
    let m = path_text(mother.path());

    let err = parse_args(&args(&["run", "ghost", "ls"]), &m, is_dir).unwrap_err();
    assert_eq!(err.kind, ErrorKind::NotFound);
    assert_eq!(err.message, "trace 'ghost' does not exist");

    let err = parse_args(&args(&["--delete", "ghost"]), &m, is_dir).unwrap_err();
    assert_eq!(err.kind, ErrorKind::NotFound);
    assert_eq!(err.message, "trace 'ghost' does not exist");
}

#[test]
fn existence_is_asked_of_the_trace_path_only_for_run_and_delete() {
    let asked = std::cell::RefCell::new(Vec::new());
    let record = |p: &String| {
        asked.borrow_mut().push(p.clone());
        true
    };
    assert!(matches!(parse_args(&args(&["create", "t"]), "/m", &record).unwrap(), Commands::Create(_)));
    assert!(asked.borrow().is_empty());
    assert!(matches!(parse_args(&args(&["run", "t", "a", "b"]), "/m", &record).unwrap(), Commands::Run(_)));
    assert_eq!(asked.borrow().clone(), vec!["/m/t".to_string()]);
}

#[test]
fn usage_messages() {
    let none: Vec<String> = Vec::new();
    let err = parse_args(&none, "/m", |_: &String| true).unwrap_err();
    assert_eq!(err.kind, ErrorKind::InvalidInput);
    assert_eq!(err.message, "usage: <-create|-run|-delete|help> ...");

    assert_eq!(parse_args(&args(&["help", "x"]), "/m", |_: &String| true).unwrap_err().message, "usage: help");
    assert_eq!(parse_args(&args(&["create"]), "/m", |_: &String| true).unwrap_err().message, "usage: -create <name>");
    assert_eq!(parse_args(&args(&["create", "a", "b"]), "/m", |_: &String| true).unwrap_err().message, "usage: -create <name>");
    assert_eq!(parse_args(&args(&["run", "a"]), "/m", |_: &String| true).unwrap_err().message, "usage: -run <name> <command>");
    assert_eq!(parse_args(&args(&["run", "a", ""]), "/m", |_: &String| true).unwrap_err().message, "usage: -run <name> <command>");
    assert_eq!(parse_args(&args(&["delete", "a", "b"]), "/m", |_: &String| true).unwrap_err().message, "usage: -delete <name>");
    assert_eq!(parse_args(&args(&["-del", "a"]), "/m", |_: &String| true).unwrap_err().message, "unknown operation: -del");
    assert_eq!(
        parse_args(&args(&["run", "a/b", "ls"]), "/m", |_: &String| true).unwrap_err().message,
        "trace name must be a single path component"
    );
}

#[test]
fn run_joins_the_command_with_single_spaces() {
    match parse_args(&args(&["run", "t", "", ""]), "/m", |_: &String| true).unwrap() {
        Commands::Run(t) => assert_eq!(t.command, " "),
        _ => panic!("expected run command"),
    }
    match parse_args(&args(&["--run", "t", "echo", "a  b", "c"]), "/m/", |_: &String| true).unwrap() {
        Commands::Run(t) => {
            assert_eq!(t.command, "echo a  b c");
            assert_eq!(t.path, "/m/t");
        },
        _ => panic!("expected run command"),
    }
}

#[test]
fn trace_path_accepts_one_normal_component() {
    assert_eq!(trace_path("/m", "trace").unwrap(), "/m/trace");
    assert_eq!(trace_path("/m/", "trace").unwrap(), "/m/trace");
    assert_eq!(trace_path("", "trace").unwrap(), "trace");
    assert_eq!(trace_path("/m", "trace/").unwrap(), "/m/trace/");
    assert_eq!(trace_path("/m", "trace/.").unwrap(), "/m/trace/.");
    assert_eq!(trace_path("/m", "...").unwrap(), "/m/...");
    for bad in ["./trace", "..", "a/b", "/a", "a/..", "", "a/./b"] {
        let err = trace_path("/m", bad).unwrap_err();
        assert_eq!(err.kind, ErrorKind::InvalidInput);
        assert_eq!(err.message, "trace name must be a single path component");
    }
}

#[test]
fn create_run_and_delete_name_the_same_trace() {
    let yes = |_: &String| true;
    let created = match parse_args(&args(&["create", "t"]), "/m", yes).unwrap() {
        Commands::Create(p) => p,
        _ => panic!("expected create command"),
    };
    let run = match parse_args(&args(&["-run", "t", "ls"]), "/m", yes).unwrap() {
        Commands::Run(t) => t.path,
        _ => panic!("expected run command"),
    };
    let deleted = match parse_args(&args(&["--delete", "t"]), "/m", yes).unwrap() {
        Commands::Delete(p) => p,
        _ => panic!("expected delete command"),
    };
    assert_eq!(created, run);
    assert_eq!(created, deleted);
}

#[test]
fn trace_paths_lie_directly_inside_the_mother_dir() {
    for (mother, name) in [("/m", "t"), ("/m/", "trace"), ("", "x"), ("/m", "t/.")] {
        let path = trace_path(mother, name).unwrap();
        assert_eq!(tracehell::paths::relative_path(mother, &path), Some(name.to_string()));
    }
}
