use tracehell::configs::Terminals;

fn assert_command(terminal: Terminals, program: &str, expected_args: &[&str]) {
    let command = terminal.command("/tmp/trace", "cargo run; bash");

    assert_eq!(command.program, program);
    assert_eq!(command.args, expected_args.iter().map(|a| a.to_string()).collect::<Vec<_>>());
}

#[test]
fn builds_kitty_command() {
    assert_command(Terminals::Kitty, "kitty", &["--directory", "/tmp/trace", "bash", "-lc", "cargo run; bash"]);
}

#[test]
fn builds_alacritty_command() {
    assert_command(
        Terminals::Alacritty,
        "alacritty",
        &["--working-directory", "/tmp/trace", "-e", "bash", "-lc", "cargo run; bash"],
    );
}

#[test]
fn builds_gnome_terminal_command() {
    assert_command(
        Terminals::GnomeTerminal,
        "gnome-terminal",
        &["--working-directory=/tmp/trace", "--", "bash", "-lc", "cargo run; bash"],
    );
}

#[test]
fn terminal_names() {
    assert_eq!(Terminals::Alacritty.to_string(), "alacritty");
    assert_eq!(Terminals::Kitty.to_string(), "kitty");
    assert_eq!(Terminals::GnomeTerminal.to_string(), "gnome-terminal");
}

#[test]
fn answers_pick_terminals() {
    assert_eq!(Terminals::from_answer("a\n"), Some(Terminals::Alacritty));
    assert_eq!(Terminals::from_answer("  B \r\n"), Some(Terminals::Kitty));
    assert_eq!(Terminals::from_answer("\u{3000}c\t"), Some(Terminals::GnomeTerminal));
    assert_eq!(Terminals::from_answer("d\n"), None);
    assert_eq!(Terminals::from_answer("a b"), None);
    assert_eq!(Terminals::from_answer(""), None);
    assert_eq!(Terminals::from_key("A"), None);
    assert_eq!(Terminals::from_key("b"), Some(Terminals::Kitty));
}

#[test]
fn settings_live_in_home() {
    assert_eq!(tracehell::configs::Configs::settings_path("/home/u"), "/home/u/TraceHall_settings");
}
