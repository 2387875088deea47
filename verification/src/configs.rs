//! The settings: which terminal the traces are launched in, and the command
//! line that launches one.
use vstd::prelude::*;
use crate::parse::words_view;
use crate::paths::{join, join_seq};
use crate::text::{ascii_lower, ascii_lowercase, chars_of, lowercase_of, owned, same_text, to_lowercase, trim, trim_seq};

verus! {

/// The settings that the program keeps.
pub struct Configs {
    pub terminal: Terminals,
}

/// The terminals that a trace can be launched in.
#[derive(Clone, Copy, Debug, PartialEq, Eq, Structural)]
pub enum Terminals {
    Alacritty,
    Kitty,
    GnomeTerminal,
}

impl Configs {
    /// Where the settings are kept, under `home`.
    pub fn settings_path(home: &str) -> (r: String)
        ensures
            r@ == join_seq(home@, "TraceHall_settings"@),
    {
        join(home, "TraceHall_settings")
    }
}

/// A program and the arguments to launch it with.
#[derive(Debug)]
pub struct TerminalCommand {
    pub program: String,
    pub args: Vec<String>,
}

impl Terminals {
    /// The terminal's program name.
    pub open spec fn spec_name(self) -> Seq<char> {
        match self {
            Terminals::Alacritty => "alacritty"@,
            Terminals::Kitty => "kitty"@,
            Terminals::GnomeTerminal => "gnome-terminal"@,
        }
    }

    /// The arguments that open the terminal in `directory` and run
    /// `shell_command` there in a login shell.
    pub open spec fn spec_args(self, directory: Seq<char>, shell_command: Seq<char>) -> Seq<
        Seq<char>,
    > {
        let tail = seq!["bash"@, "-lc"@, shell_command];
        match self {
            Terminals::Alacritty => seq!["--working-directory"@, directory, "-e"@] + tail,
            Terminals::Kitty => seq!["--directory"@, directory] + tail,
            Terminals::GnomeTerminal => seq!["--working-directory="@ + directory, "--"@] + tail,
        }
    }

    /// The terminal's program name, as the settings show it.
    pub fn to_string(&self) -> (r: String)
        ensures
            r@ == self.spec_name(),
    {
        match self {
            Terminals::Alacritty => owned("alacritty"),
            Terminals::Kitty => owned("kitty"),
            Terminals::GnomeTerminal => owned("gnome-terminal"),
        }
    }

    /// The command that opens this terminal in `directory` and runs
    /// `shell_command` there with `bash -lc`.
    pub fn command(&self, directory: &str, shell_command: &str) -> (r: TerminalCommand)
        ensures
            r.program@ == self.spec_name(),
            words_view(r.args@) == self.spec_args(directory@, shell_command@),
    {
        let mut args: Vec<String> = Vec::new();
        match self {
            Terminals::Alacritty => {
                args.push(owned("--working-directory"));
                args.push(owned(directory));
                args.push(owned("-e"));
            },
            Terminals::Kitty => {
                args.push(owned("--directory"));
                args.push(owned(directory));
            },
            Terminals::GnomeTerminal => {
                let mut first = owned("--working-directory=");
                first.append(directory);
                args.push(first);
                args.push(owned("--"));
            },
        }
        args.push(owned("bash"));
        args.push(owned("-lc"));
        args.push(owned(shell_command));
        assert(words_view(args@) =~= self.spec_args(directory@, shell_command@));
        TerminalCommand { program: self.to_string(), args }
    }

    /// The terminal that a (trimmed, lower-case) answer picks: `a`, `b` or `c`.
    pub open spec fn spec_from_key(key: Seq<char>) -> Option<Terminals> {
        if key == "a"@ {
            Some(Terminals::Alacritty)
        } else if key == "b"@ {
            Some(Terminals::Kitty)
        } else if key == "c"@ {
            Some(Terminals::GnomeTerminal)
        } else {
            None
        }
    }

    /// The terminal that `key` picks, if any (see `spec_from_key`).
    pub fn from_key(key: &str) -> (r: Option<Terminals>)
        ensures
            r == Self::spec_from_key(key@),
    {
        if same_text(key, "a") {
            Some(Terminals::Alacritty)
        } else if same_text(key, "b") {
            Some(Terminals::Kitty)
        } else if same_text(key, "c") {
            Some(Terminals::GnomeTerminal)
        } else {
            None
        }
    }

    /// The terminal that an answer to the settings question picks: the answer
    /// is trimmed, put in lower case, and read as a key. For an ASCII answer
    /// the key is read with its capitals put in lower case directly.
    pub fn from_answer(answer: &str) -> (r: Option<Terminals>)
        ensures
            r == Self::spec_from_key(lowercase_of(trim_seq(answer@))),
            vstd::utf8::is_ascii_chars(trim_seq(answer@)) ==> r == Self::spec_from_key(
                ascii_lowercase(trim_seq(answer@)),
            ),
    {
        let t = trim(answer);
        let key = to_lowercase(t);
        if t.is_ascii() {
            Self::from_ascii_key(t)
        } else {
            Self::from_key(key.as_str())
        }
    }

    /// The terminal that an ASCII key picks regardless of case.
    fn from_ascii_key(t: &str) -> (r: Option<Terminals>)
        requires
            vstd::utf8::is_ascii_chars(t@),
        ensures
            r == Self::spec_from_key(ascii_lowercase(t@)),
    {
        let v = chars_of(t);
        let ghost low = ascii_lowercase(t@);
        proof {
            reveal_strlit("a");
            reveal_strlit("b");
            reveal_strlit("c");
        }
        if v.len() != 1 {
            assert(low.len() != 1);
            return None;
        }
        let c = v[0];
        assert(low =~= seq![ascii_lower(c)]);
        if c == 'a' || c == 'A' {
            assert(low =~= "a"@);
            Some(Terminals::Alacritty)
        } else if c == 'b' || c == 'B' {
            assert(low[0] != "a"@[0]);
            assert(low =~= "b"@);
            Some(Terminals::Kitty)
        } else if c == 'c' || c == 'C' {
            assert(low[0] != "a"@[0]);
            assert(low[0] != "b"@[0]);
            assert(low =~= "c"@);
            Some(Terminals::GnomeTerminal)
        } else {
            assert(low[0] != "a"@[0]);
            assert(low[0] != "b"@[0]);
            assert(low[0] != "c"@[0]);
            None
        }
    }
}

/// Every terminal is opened in the given directory and runs the given command
/// in a login shell: its arguments end with `bash -lc` and the command, and
/// name the directory, on its own or after `--working-directory=`.
pub proof fn lemma_terminal_runs_command_in_directory(
    terminal: Terminals,
    directory: Seq<char>,
    shell_command: Seq<char>,
)
    ensures
        ({
            let a = terminal.spec_args(directory, shell_command);
            &&& a.len() >= 5
            &&& a[a.len() - 3] == "bash"@
            &&& a[a.len() - 2] == "-lc"@
            &&& a[a.len() - 1] == shell_command
            &&& (a[1] == directory || a[0] == "--working-directory="@ + directory)
        }),
{
}

/// The terminal that an answer picks, for an answer whose trimmed text is
/// ASCII: the one letter `a`, `b` or `c` in either case, and nothing else.
/// White space around the letter does not matter.
pub proof fn lemma_answer_letters(answer: Seq<char>)
    requires
        vstd::utf8::is_ascii_chars(trim_seq(answer)),
    ensures
        ({
            let t = trim_seq(answer);
            let r = Terminals::spec_from_key(ascii_lowercase(t));
            &&& (t == "a"@ || t == "A"@) ==> r == Some(Terminals::Alacritty)
            &&& (t == "b"@ || t == "B"@) ==> r == Some(Terminals::Kitty)
            &&& (t == "c"@ || t == "C"@) ==> r == Some(Terminals::GnomeTerminal)
            &&& r is Some ==> t.len() == 1
            &&& !(t == "a"@ || t == "A"@ || t == "b"@ || t == "B"@ || t == "c"@ || t == "C"@)
                ==> r is None
        }),
{
    let t = trim_seq(answer);
    let low = ascii_lowercase(t);
    reveal_strlit("a");
    reveal_strlit("A");
    reveal_strlit("b");
    reveal_strlit("B");
    reveal_strlit("c");
    reveal_strlit("C");
    if t.len() == 1 {
        let c = t[0];
        assert(low =~= seq![ascii_lower(c)]);
        if c == 'a' || c == 'A' {
            assert(low =~= "a"@);
            if c == 'a' { assert(t =~= "a"@); } else { assert(t =~= "A"@); }
        } else if c == 'b' || c == 'B' {
            assert(low[0] != "a"@[0]);
            assert(low =~= "b"@);
            if c == 'b' { assert(t =~= "b"@); } else { assert(t =~= "B"@); }
        } else if c == 'c' || c == 'C' {
            assert(low[0] != "a"@[0]);
            assert(low[0] != "b"@[0]);
            assert(low =~= "c"@);
            if c == 'c' { assert(t =~= "c"@); } else { assert(t =~= "C"@); }
        } else {
            assert(low[0] != "a"@[0]);
            assert(low[0] != "b"@[0]);
            assert(low[0] != "c"@[0]);
            assert(t != "a"@ && t != "A"@ && t != "b"@ && t != "B"@ && t != "c"@ && t != "C"@) by {
                assert(t[0] != "a"@[0] && t[0] != "A"@[0] && t[0] != "b"@[0]);
                assert(t[0] != "B"@[0] && t[0] != "c"@[0] && t[0] != "C"@[0]);
            }
        }
        if t == "a"@ || t == "A"@ {
            assert(c == 'a' || c == 'A');
        }
        if t == "b"@ || t == "B"@ {
            assert(c == 'b' || c == 'B');
        }
        if t == "c"@ || t == "C"@ {
            assert(c == 'c' || c == 'C');
        }
    } else {
        assert(low.len() != 1);
        assert("a"@.len() == 1 && "b"@.len() == 1 && "c"@.len() == 1);
    }
}

} // verus!
