//! The command line: `create`, `run`, `delete` and `help`, each with no
//! prefix, a single dash or a double dash, and the trace that each names.
use vstd::prelude::*;
use crate::error::{invalid_input, ErrorKind, TraceError};
use crate::paths::{
    is_single_normal_component, join, join_seq, needs_separator, relative_seq, relative_start,
    single_normal_component,
};
use crate::text::{owned, same_text};

verus! {

/// A trace to run a shell command in.
#[derive(Debug)]
pub struct Target {
    pub path: String,
    pub command: String,
}

/// What the command line asks for. `Create` and `Delete` carry the path of
/// the trace.
#[derive(Debug)]
pub enum Commands {
    Create(String),
    Run(Target),
    Delete(String),
    Help,
}

/// A command line's request, by the characters of its paths and command.
pub enum CommandsView {
    Create(Seq<char>),
    Run(Seq<char>, Seq<char>),
    Delete(Seq<char>),
    Help,
}

impl View for Commands {
    type V = CommandsView;

    open spec fn view(&self) -> CommandsView {
        match self {
            Commands::Create(p) => CommandsView::Create(p@),
            Commands::Run(t) => CommandsView::Run(t.path@, t.command@),
            Commands::Delete(p) => CommandsView::Delete(p@),
            Commands::Help => CommandsView::Help,
        }
    }
}

/// The four operations.
#[derive(Clone, Copy, Debug, PartialEq, Eq, Structural)]
pub enum Operation {
    Help,
    Create,
    Run,
    Delete,
}

/// The operation that a first argument names: its word with no prefix, one
/// dash or two, and for help also `-h`.
pub open spec fn operation_of(w: Seq<char>) -> Option<Operation> {
    if w == "help"@ || w == "-help"@ || w == "--help"@ || w == "-h"@ {
        Some(Operation::Help)
    } else if w == "create"@ || w == "-create"@ || w == "--create"@ {
        Some(Operation::Create)
    } else if w == "run"@ || w == "-run"@ || w == "--run"@ {
        Some(Operation::Run)
    } else if w == "delete"@ || w == "-delete"@ || w == "--delete"@ {
        Some(Operation::Delete)
    } else {
        None
    }
}

/// The operation that `word` names, if any (see `operation_of`).
pub fn operation(word: &str) -> (r: Option<Operation>)
    ensures
        r == operation_of(word@),
{
    if same_text(word, "help") || same_text(word, "-help") || same_text(word, "--help")
        || same_text(word, "-h") {
        Some(Operation::Help)
    } else if same_text(word, "create") || same_text(word, "-create") || same_text(
        word,
        "--create",
    ) {
        Some(Operation::Create)
    } else if same_text(word, "run") || same_text(word, "-run") || same_text(word, "--run") {
        Some(Operation::Run)
    } else if same_text(word, "delete") || same_text(word, "-delete") || same_text(
        word,
        "--delete",
    ) {
        Some(Operation::Delete)
    } else {
        None
    }
}

/// The characters of each argument.
pub open spec fn words_view(v: Seq<String>) -> Seq<Seq<char>> {
    v.map_values(|s: String| s@)
}

/// The words joined with single spaces between them.
pub open spec fn join_words(ws: Seq<Seq<char>>) -> Seq<char>
    decreases ws.len(),
{
    if ws.len() == 0 {
        Seq::empty()
    } else if ws.len() == 1 {
        ws[0]
    } else {
        join_words(ws.drop_last()) + seq![' '] + ws.last()
    }
}

/// The arguments from `start` on, joined with single spaces.
pub fn join_arguments(args: &Vec<String>, start: usize) -> (r: String)
    requires
        start <= args@.len(),
    ensures
        r@ == join_words(words_view(args@).subrange(start as int, args@.len() as int)),
{
    let n = args.len();
    let mut acc = String::new();
    let mut i: usize = start;
    while i < n
        invariant
            n == args@.len(),
            start <= i <= n,
            acc@ == join_words(words_view(args@).subrange(start as int, i as int)),
        decreases n - i,
    {
        let ghost ws = words_view(args@).subrange(start as int, i + 1);
        assert(ws.drop_last() =~= words_view(args@).subrange(start as int, i as int));
        assert(ws.last() == args@[i as int]@);
        if i == start {
            acc.append(args[i].as_str());
            assert(acc@ =~= ws[0]);
        } else {
            acc.append(" ");
            proof {
                reveal_strlit(" ");
            }
            acc.append(args[i].as_str());
        }
        i = i + 1;
    }
    acc
}

/// The message for a command line with no operation.
pub open spec fn usage_message() -> Seq<char> {
    "usage: <-create|-run|-delete|help> ..."@
}

/// The message for a help request with arguments after it.
pub open spec fn help_usage() -> Seq<char> {
    "usage: help"@
}

/// The message for a create request without exactly one name.
pub open spec fn create_usage() -> Seq<char> {
    "usage: -create <name>"@
}

/// The message for a run request without a name or a command.
pub open spec fn run_usage() -> Seq<char> {
    "usage: -run <name> <command>"@
}

/// The message for a delete request without exactly one name.
pub open spec fn delete_usage() -> Seq<char> {
    "usage: -delete <name>"@
}

/// The message for a trace name that is not a single path component.
pub open spec fn bad_name_message() -> Seq<char> {
    "trace name must be a single path component"@
}

/// The message for an operation that the program does not know.
pub open spec fn unknown_message(op: Seq<char>) -> Seq<char> {
    "unknown operation: "@ + op
}

/// The message for a trace that does not exist.
pub open spec fn missing_message(name: Seq<char>) -> Seq<char> {
    "trace '"@ + name + "' does not exist"@
}

/// The path of the trace `name` under `mother`, or why there is none.
pub open spec fn trace_path_outcome(mother: Seq<char>, name: Seq<char>) -> Result<
    Seq<char>,
    (ErrorKind, Seq<char>),
> {
    if single_normal_component(name) {
        Ok(join_seq(mother, name))
    } else {
        Err((ErrorKind::InvalidInput, bad_name_message()))
    }
}

/// The path of the trace `name` inside the directory `mother_dir`: refused
/// unless `name` is a single normal path component.
pub fn trace_path(mother_dir: &str, name: &str) -> (r: Result<String, TraceError>)
    ensures
        r matches Ok(p) ==> trace_path_outcome(mother_dir@, name@) == Ok::<
            Seq<char>,
            (ErrorKind, Seq<char>),
        >(p@),
        r matches Err(e) ==> trace_path_outcome(mother_dir@, name@) == Err::<
            Seq<char>,
            (ErrorKind, Seq<char>),
        >(e@),
{
    if is_single_normal_component(name) {
        Ok(join(mother_dir, name))
    } else {
        Err(invalid_input(owned("trace name must be a single path component")))
    }
}

/// What a command line comes to before the trace's directory is looked at.
pub enum ParseOutcome {
    /// Refused, with this kind and message.
    Fails(ErrorKind, Seq<char>),
    /// Accepted as this request.
    Gives(CommandsView),
    /// Accepted as this request if the directory at this path exists; if not,
    /// refused as a missing trace of this name.
    IfTraceExists(Seq<char>, Seq<char>, CommandsView),
}

/// How a command line is read, given the directory that holds the traces.
pub open spec fn parse_outcome(args: Seq<Seq<char>>, mother: Seq<char>) -> ParseOutcome {
    if args.len() == 0 {
        ParseOutcome::Fails(ErrorKind::InvalidInput, usage_message())
    } else {
        match operation_of(args[0]) {
            Some(Operation::Help) => if args.len() > 1 {
                ParseOutcome::Fails(ErrorKind::InvalidInput, help_usage())
            } else {
                ParseOutcome::Gives(CommandsView::Help)
            },
            Some(Operation::Create) => if args.len() != 2 {
                ParseOutcome::Fails(ErrorKind::InvalidInput, create_usage())
            } else {
                match trace_path_outcome(mother, args[1]) {
                    Ok(p) => ParseOutcome::Gives(CommandsView::Create(p)),
                    Err((k, m)) => ParseOutcome::Fails(k, m),
                }
            },
            Some(Operation::Run) => if args.len() < 2 || join_words(args.skip(2)).len() == 0 {
                ParseOutcome::Fails(ErrorKind::InvalidInput, run_usage())
            } else {
                match trace_path_outcome(mother, args[1]) {
                    Ok(p) => ParseOutcome::IfTraceExists(
                        p,
                        args[1],
                        CommandsView::Run(p, join_words(args.skip(2))),
                    ),
                    Err((k, m)) => ParseOutcome::Fails(k, m),
                }
            },
            Some(Operation::Delete) => if args.len() != 2 {
                ParseOutcome::Fails(ErrorKind::InvalidInput, delete_usage())
            } else {
                match trace_path_outcome(mother, args[1]) {
                    Ok(p) => ParseOutcome::IfTraceExists(p, args[1], CommandsView::Delete(p)),
                    Err((k, m)) => ParseOutcome::Fails(k, m),
                }
            },
            None => ParseOutcome::Fails(ErrorKind::InvalidInput, unknown_message(args[0])),
        }
    }
}

/// The result that a command line comes to, once `found` says whether the
/// trace's directory exists.
pub open spec fn settles(
    outcome: ParseOutcome,
    found: bool,
    r: Result<CommandsView, (ErrorKind, Seq<char>)>,
) -> bool {
    match outcome {
        ParseOutcome::Fails(k, m) => r == Err::<CommandsView, (ErrorKind, Seq<char>)>((k, m)),
        ParseOutcome::Gives(c) => r == Ok::<CommandsView, (ErrorKind, Seq<char>)>(c),
        ParseOutcome::IfTraceExists(_, name, c) => if found {
            r == Ok::<CommandsView, (ErrorKind, Seq<char>)>(c)
        } else {
            r == Err::<CommandsView, (ErrorKind, Seq<char>)>(
                (ErrorKind::NotFound, missing_message(name)),
            )
        },
    }
}

/// A result by its views.
pub open spec fn result_view(r: Result<Commands, TraceError>) -> Result<
    CommandsView,
    (ErrorKind, Seq<char>),
> {
    match r {
        Ok(c) => Ok(c@),
        Err(e) => Err(e@),
    }
}

fn missing_trace(name: &str) -> (r: TraceError)
    ensures
        r@ == (ErrorKind::NotFound, missing_message(name@)),
{
    let mut m = owned("trace '");
    m.append(name);
    m.append("' does not exist");
    TraceError { kind: ErrorKind::NotFound, message: m }
}

/// Reads the command line `args` (without the program's name) against the
/// directory `mother_dir` that holds the traces. For `run` and `delete`,
/// `is_dir` is asked, once, whether the trace's directory exists.
pub fn parse_args<F: Fn(&String) -> bool>(args: &Vec<String>, mother_dir: &str, is_dir: F) -> (r:
    Result<Commands, TraceError>)
    requires
        forall|p: &String| is_dir.requires((p,)),
    ensures
        match parse_outcome(words_view(args@), mother_dir@) {
            ParseOutcome::IfTraceExists(path, _, _) => exists|p: String, found: bool|
                p@ == path && is_dir.ensures((&p,), found) && settles(
                    parse_outcome(words_view(args@), mother_dir@),
                    found,
                    result_view(r),
                ),
            _ => settles(parse_outcome(words_view(args@), mother_dir@), false, result_view(r)),
        },
{
    let ghost ws = words_view(args@);
    let n = args.len();
    if n == 0 {
        return Err(invalid_input(owned("usage: <-create|-run|-delete|help> ...")));
    }
    assert(ws[0] == args@[0]@);
    let op = operation(args[0].as_str());
    match op {
        Some(Operation::Help) => {
            if n > 1 {
                return Err(invalid_input(owned("usage: help")));
            }
            Ok(Commands::Help)
        },
        Some(Operation::Create) => {
            if n != 2 {
                return Err(invalid_input(owned("usage: -create <name>")));
            }
            assert(ws[1] == args@[1]@);
            match trace_path(mother_dir, args[1].as_str()) {
                Ok(path) => Ok(Commands::Create(path)),
                Err(e) => Err(e),
            }
        },
        Some(Operation::Run) => {
            if n < 2 {
                return Err(invalid_input(owned("usage: -run <name> <command>")));
            }
            let command = join_arguments(args, 2);
            assert(ws.skip(2) =~= ws.subrange(2, n as int));
            if command.as_str().is_empty() {
                return Err(invalid_input(owned("usage: -run <name> <command>")));
            }
            assert(ws[1] == args@[1]@);
            match trace_path(mother_dir, args[1].as_str()) {
                Ok(path) => {
                    let found = is_dir(&path);
                    if !found {
                        let e = missing_trace(args[1].as_str());
                        assert(settles(parse_outcome(ws, mother_dir@), found, result_view(Err(e))));
                        return Err(e);
                    }
                    let r = Ok(Commands::Run(Target { path, command }));
                    assert(settles(parse_outcome(ws, mother_dir@), found, result_view(r)));
                    r
                },
                Err(e) => Err(e),
            }
        },
        Some(Operation::Delete) => {
            if n != 2 {
                return Err(invalid_input(owned("usage: -delete <name>")));
            }
            assert(ws[1] == args@[1]@);
            match trace_path(mother_dir, args[1].as_str()) {
                Ok(path) => {
                    let found = is_dir(&path);
                    if !found {
                        let e = missing_trace(args[1].as_str());
                        assert(settles(parse_outcome(ws, mother_dir@), found, result_view(Err(e))));
                        return Err(e);
                    }
                    let r = Ok(Commands::Delete(path));
                    assert(settles(parse_outcome(ws, mother_dir@), found, result_view(r)));
                    r
                },
                Err(e) => Err(e),
            }
        },
        None => {
            let mut m = owned("unknown operation: ");
            m.append(args[0].as_str());
            Err(invalid_input(m))
        },
    }
}

/// The four command words, without a prefix.
pub open spec fn is_command_word(w: Seq<char>) -> bool {
    w == "create"@ || w == "run"@ || w == "delete"@ || w == "help"@
}

proof fn lemma_dash_variants_name_same_operation(w: Seq<char>)
    requires
        is_command_word(w),
    ensures
        operation_of("-"@ + w) == operation_of(w),
        operation_of("--"@ + w) == operation_of(w),
{
    reveal_strlit("-");
    reveal_strlit("--");
    reveal_strlit("help");
    reveal_strlit("-help");
    reveal_strlit("--help");
    reveal_strlit("-h");
    reveal_strlit("create");
    reveal_strlit("-create");
    reveal_strlit("--create");
    reveal_strlit("run");
    reveal_strlit("-run");
    reveal_strlit("--run");
    reveal_strlit("delete");
    reveal_strlit("-delete");
    reveal_strlit("--delete");
    let one = "-"@ + w;
    let two = "--"@ + w;
    if w == "help"@ {
        assert(one =~= "-help"@);
        assert(two =~= "--help"@);
    } else if w == "create"@ {
        assert(one =~= "-create"@);
        assert(two =~= "--create"@);
        assert(one[1] != "-help"@[1]);
        assert(two[2] != "--help"@[2]);
    } else if w == "run"@ {
        assert(one =~= "-run"@);
        assert(two =~= "--run"@);
        assert(w[0] != "help"@[0]);
        assert(one[1] != "-help"@[1]);
        assert(two[2] != "--help"@[2]);
        assert(one[1] != "-create"@[1]);
    } else {
        assert(one =~= "-delete"@);
        assert(two =~= "--delete"@);
        assert(w[0] != "create"@[0]);
        assert(one[1] != "-help"@[1]);
        assert(two[2] != "--help"@[2]);
        assert(one[1] != "-create"@[1]);
        assert(two[2] != "--create"@[2]);
    }
}

/// Every command accepts its bare word, a single dash or a double dash: the
/// three spellings read the same command line the same way.
pub proof fn lemma_prefix_variants_agree(w: Seq<char>, rest: Seq<Seq<char>>, mother: Seq<char>)
    requires
        is_command_word(w),
    ensures
        parse_outcome(seq!["-"@ + w] + rest, mother) == parse_outcome(seq![w] + rest, mother),
        parse_outcome(seq!["--"@ + w] + rest, mother) == parse_outcome(seq![w] + rest, mother),
{
    lemma_dash_variants_name_same_operation(w);
    let a = seq![w] + rest;
    let b = seq!["-"@ + w] + rest;
    let c = seq!["--"@ + w] + rest;
    assert(a[0] == w);
    assert(b[0] == "-"@ + w);
    assert(c[0] == "--"@ + w);
    if rest.len() > 0 {
        assert(a[1] == rest[0] && b[1] == rest[0] && c[1] == rest[0]);
    }
    if rest.len() > 0 {
        assert(a.skip(2) =~= b.skip(2));
        assert(a.skip(2) =~= c.skip(2));
    }
}

/// A trace's path lies directly inside the directory of traces: below it,
/// the path is exactly the trace's name, one normal component.
pub proof fn lemma_trace_path_inside(mother: Seq<char>, name: Seq<char>)
    requires
        single_normal_component(name),
    ensures
        relative_seq(mother, join_seq(mother, name)) == Some(name),
{
    let p = join_seq(mother, name);
    let k = relative_start(mother);
    assert(name[0] != '/');
    if needs_separator(mother) {
        assert(p == mother + seq!['/'] + name);
        assert(p.subrange(0, mother.len() as int) =~= mother);
        assert(p[mother.len() as int] == '/');
        assert(p[k] == name[0]);
        assert(p.subrange(k, p.len() as int) =~= name);
        assert(p != mother);
    } else {
        assert(p == mother + name);
        assert(p.subrange(0, mother.len() as int) =~= mother);
        assert(p[k] == name[0]);
        assert(p.subrange(k, p.len() as int) =~= name);
        assert(p.len() > mother.len());
    }
}

/// The trace that `create <name>` makes is the one that `run <name> ...` and
/// `delete <name>` act on: all three read the same path, and `run` and
/// `delete` go ahead exactly when that directory exists.
pub proof fn lemma_create_run_delete_agree(
    mother: Seq<char>,
    name: Seq<char>,
    words: Seq<Seq<char>>,
)
    requires
        join_words(words).len() > 0,
    ensures
        ({
            let created = parse_outcome(seq!["create"@, name], mother);
            let run = parse_outcome(seq!["run"@, name] + words, mother);
            let deleted = parse_outcome(seq!["delete"@, name], mother);
            match created {
                ParseOutcome::Gives(CommandsView::Create(p)) => {
                    &&& run == ParseOutcome::IfTraceExists(
                        p,
                        name,
                        CommandsView::Run(p, join_words(words)),
                    )
                    &&& deleted == ParseOutcome::IfTraceExists(p, name, CommandsView::Delete(p))
                },
                _ => {
                    &&& created == ParseOutcome::Fails(ErrorKind::InvalidInput, bad_name_message())
                    &&& run == created
                    &&& deleted == created
                },
            }
        }),
{
    reveal_strlit("help");
    reveal_strlit("-help");
    reveal_strlit("--help");
    reveal_strlit("-h");
    reveal_strlit("create");
    reveal_strlit("run");
    reveal_strlit("delete");
    assert(operation_of("create"@) == Some(Operation::Create)) by {
        assert("create"@[0] != "help"@[0]);
        assert("create"@[0] != "-help"@[0]);
    }
    reveal_strlit("-create");
    reveal_strlit("--create");
    reveal_strlit("-run");
    reveal_strlit("--run");
    assert(operation_of("run"@) == Some(Operation::Run)) by {
        assert("run"@[0] != "help"@[0]);
        assert("run"@[0] != "-help"@[0]);
        assert("run"@[0] != "--help"@[0]);
        assert("run"@[0] != "-h"@[0]);
        assert("run"@[0] != "create"@[0]);
        assert("run"@[0] != "-create"@[0]);
        assert("run"@[0] != "--create"@[0]);
    }
    assert(operation_of("delete"@) == Some(Operation::Delete)) by {
        assert("delete"@[0] != "help"@[0]);
        assert("delete"@[0] != "-help"@[0]);
        assert("delete"@[0] != "--help"@[0]);
        assert("delete"@[0] != "-h"@[0]);
        assert("delete"@[0] != "create"@[0]);
        assert("delete"@[0] != "-create"@[0]);
        assert("delete"@[0] != "--create"@[0]);
        assert("delete"@[0] != "run"@[0]);
        assert("delete"@[0] != "-run"@[0]);
        assert("delete"@[0] != "--run"@[0]);
    }
    let r = seq!["run"@, name] + words;
    assert(r[1] == name);
    assert(r.skip(2) =~= words);
}

/// Whatever path a command line is read to act on is a trace directly inside
/// the directory of traces, named by the line's second argument.
pub proof fn lemma_parsed_paths_inside(args: Seq<Seq<char>>, mother: Seq<char>)
    ensures
        match parse_outcome(args, mother) {
            ParseOutcome::Gives(CommandsView::Create(p)) => relative_seq(mother, p) == Some(
                args[1],
            ) && single_normal_component(args[1]),
            ParseOutcome::IfTraceExists(p, name, _) => name == args[1] && relative_seq(mother, p)
                == Some(args[1]) && single_normal_component(args[1]),
            _ => true,
        },
{
    if args.len() >= 2 && single_normal_component(args[1]) {
        lemma_trace_path_inside(mother, args[1]);
    }
}

/// The total length of the words.
pub open spec fn total_length(ws: Seq<Seq<char>>) -> nat
    decreases ws.len(),
{
    if ws.len() == 0 {
        0
    } else {
        total_length(ws.drop_last()) + ws.last().len()
    }
}

/// One more word adds a space and that word at the end of the joined text.
pub proof fn lemma_join_words_push(ws: Seq<Seq<char>>, w: Seq<char>)
    requires
        ws.len() > 0,
    ensures
        join_words(ws.push(w)) == join_words(ws) + seq![' '] + w,
{
    let s = ws.push(w);
    assert(s.drop_last() =~= ws);
    assert(s.last() == w);
}

/// Joining the words of two non-empty lists is joining each list and putting
/// a space between.
pub proof fn lemma_join_words_concat(a: Seq<Seq<char>>, b: Seq<Seq<char>>)
    requires
        a.len() > 0,
        b.len() > 0,
    ensures
        join_words(a + b) == join_words(a) + seq![' '] + join_words(b),
    decreases b.len(),
{
    if b.len() == 1 {
        assert(a + b =~= a.push(b[0]));
        lemma_join_words_push(a, b[0]);
    } else {
        let front = b.drop_last();
        lemma_join_words_concat(a, front);
        assert(a + b =~= (a + front).push(b.last()));
        lemma_join_words_push(a + front, b.last());
        lemma_join_words_push(front, b.last());
        assert(front.push(b.last()) =~= b);
    }
}

/// The joined text holds every character of every word and one space
/// between each two words, and nothing else.
pub proof fn lemma_join_words_length(ws: Seq<Seq<char>>)
    requires
        ws.len() > 0,
    ensures
        join_words(ws).len() == total_length(ws) + ws.len() - 1,
    decreases ws.len(),
{
    if ws.len() > 1 {
        lemma_join_words_length(ws.drop_last());
        assert(join_words(ws) == join_words(ws.drop_last()) + seq![' '] + ws.last());
        assert(total_length(ws) == total_length(ws.drop_last()) + ws.last().len());
    } else {
        assert(ws.drop_last().len() == 0);
        assert(total_length(ws.drop_last()) == 0);
        assert(total_length(ws) == total_length(ws.drop_last()) + ws.last().len());
        assert(ws.last() == ws[0]);
        assert(join_words(ws) == ws[0]);
    }
}

/// The command that `run` is given is every word after the trace's name,
/// in order, joined with single spaces: a command line with one more word
/// gives that word after a space at the end of the command.
pub proof fn lemma_run_command_takes_every_word(
    mother: Seq<char>,
    words: Seq<Seq<char>>,
    w: Seq<char>,
    op: Seq<char>,
    name: Seq<char>,
)
    requires
        operation_of(op) == Some(Operation::Run),
        words.len() > 0,
        join_words(words).len() > 0,
        single_normal_component(name),
    ensures
        parse_outcome(seq![op, name] + words.push(w), mother) == ParseOutcome::IfTraceExists(
            join_seq(mother, name),
            name,
            CommandsView::Run(join_seq(mother, name), join_words(words) + seq![' '] + w),
        ),
{
    let a = seq![op, name] + words.push(w);
    assert(a[0] == op);
    assert(a[1] == name);
    assert(a.skip(2) =~= words.push(w));
    lemma_join_words_push(words, w);
}

} // verus!
