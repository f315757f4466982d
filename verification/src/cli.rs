//! What the arguments on the command line ask for.
use crate::completions;
use crate::completions::completions_for;
use crate::error::{StayError, StayResult};
use crate::name;
use crate::name::validate_session_name;
use crate::protocol;
use crate::protocol::VERSION;
use crate::text;
use crate::text::{copy_texts_from, same_text};
use vstd::prelude::*;
use vstd::string::*;

verus! {

/// The argument that makes this program the daemon.
pub const DAEMON_ARG: &'static str = "__stay_daemon";

/// How the program is used.
pub const USAGE: &'static str = "Stay\nRun a command, press Ctrl+A to leave, come back with stay <name>.\n\nUsage:\n  stay <name>\n  stay <name> -- <command>\n  stay ls\n  stay kill <name>\n  stay rm <name>\n  stay completions <bash|zsh|fish>\n";

/// How sessions are listed.
pub const LS_USAGE: &'static str = "Usage: stay ls\n\nList sessions.\n";

/// How a session is killed.
pub const KILL_USAGE: &'static str = "Usage: stay kill <name>\n\nKill a running session.\n";

/// How a session is removed.
pub const RM_USAGE: &'static str = "Usage: stay rm <name>\n\nRemove a stopped session.\n";

/// How completion scripts are printed.
pub const COMPLETION_USAGE: &'static str = "Usage: stay completions <bash|zsh|fish>\n";

/// What the arguments ask for.
#[derive(Debug)]
pub enum Invocation {
    /// Be the daemon.
    Daemon,
    /// Print a text.
    Print(String),
    /// List the sessions.
    List,
    /// Kill a session.
    Kill { name: String },
    /// Remove a session.
    Remove { name: String },
    /// Come into a session, with the command to start it with.
    Attach { name: String, command: Option<Vec<String>> },
}

/// The contents of an invocation.
#[verifier::ext_equal]
pub enum InvocationView {
    Daemon,
    Print(Seq<char>),
    List,
    Kill { name: Seq<char> },
    Remove { name: Seq<char> },
    Attach { name: Seq<char>, command: Option<Seq<Seq<char>>> },
}

impl View for Invocation {
    type V = InvocationView;

    open spec fn view(&self) -> InvocationView {
        match *self {
            Invocation::Daemon => InvocationView::Daemon,
            Invocation::Print(text) => InvocationView::Print(text@),
            Invocation::List => InvocationView::List,
            Invocation::Kill { name } => InvocationView::Kill { name: name@ },
            Invocation::Remove { name } => InvocationView::Remove { name: name@ },
            Invocation::Attach { name, command } => InvocationView::Attach {
                name: name@,
                command: protocol::optional_texts(command),
            },
        }
    }
}

/// An argument that asks for help.
pub open spec fn asks_help(arg: Seq<char>) -> bool {
    arg == "--help"@ || arg == "-h"@
}

/// An argument that asks for the version.
pub open spec fn asks_version(arg: Seq<char>) -> bool {
    arg == "--version"@ || arg == "-V"@
}

/// The line that tells the version.
pub open spec fn version_line() -> Seq<char> {
    "stay "@ + VERSION@ + "\n"@
}

/// The least index from `from` on at which the arguments hold `--`.
pub open spec fn separator(args: Seq<Seq<char>>, from: int) -> Option<int>
    decreases args.len() - from,
{
    if from < 0 || from >= args.len() {
        None
    } else if args[from] == "--"@ {
        Some(from)
    } else {
        separator(args, from + 1)
    }
}

/// Coming into a session: the first argument is its name, and what stands behind
/// the first `--` is the command.
pub open spec fn attach_invocation(args: Seq<Seq<char>>) -> Result<InvocationView, Seq<char>> {
    if args.len() == 0 {
        Err("Missing session name."@)
    } else if !name::is_session_name(args[0]) {
        Err(name::invalid_name_text(args[0]))
    } else {
        match separator(args, 0) {
            Some(at) => if at + 1 == args.len() {
                Err("Missing command after --."@)
            } else {
                Ok(InvocationView::Attach { name: args[0], command: Some(args.skip(at + 1)) })
            },
            None => Ok(InvocationView::Attach { name: args[0], command: None }),
        }
    }
}

/// A command about one session: `made` from its name, or `usage` where help is
/// asked for, or `complaint` where the arguments are not just one name.
pub open spec fn about_session(
    args: Seq<Seq<char>>,
    made: InvocationView,
    usage: Seq<char>,
    complaint: Seq<char>,
) -> Result<InvocationView, Seq<char>> {
    if args.len() != 2 {
        Err(complaint)
    } else if asks_help(args[1]) {
        Ok(InvocationView::Print(usage))
    } else if name::is_session_name(args[1]) {
        Ok(made)
    } else {
        Err(name::invalid_name_text(args[1]))
    }
}

/// A command that prints a completion script.
pub open spec fn completion_invocation(args: Seq<Seq<char>>) -> Result<InvocationView, Seq<char>> {
    if args.len() == 1 || (args.len() == 2 && asks_help(args[1])) {
        Ok(InvocationView::Print(COMPLETION_USAGE@))
    } else if args.len() == 2 {
        match completions::script_for(args[1]) {
            Ok(script) => Ok(InvocationView::Print(script)),
            Err(complaint) => Err(complaint),
        }
    } else {
        Err("Usage: stay completions <bash|zsh|fish>"@)
    }
}

/// What the arguments ask for, or the complaint about them.
pub open spec fn invocation(args: Seq<Seq<char>>) -> Result<InvocationView, Seq<char>> {
    if args.len() == 0 {
        Ok(InvocationView::Print(USAGE@))
    } else if args[0] == DAEMON_ARG@ {
        Ok(InvocationView::Daemon)
    } else if args.len() == 1 && asks_help(args[0]) {
        Ok(InvocationView::Print(USAGE@))
    } else if args.len() == 1 && asks_version(args[0]) {
        Ok(InvocationView::Print(version_line()))
    } else if args[0] == "ls"@ {
        if args.len() == 1 {
            Ok(InvocationView::List)
        } else if args.len() == 2 && asks_help(args[1]) {
            Ok(InvocationView::Print(LS_USAGE@))
        } else {
            Err("Usage: stay ls"@)
        }
    } else if args[0] == "completions"@ || args[0] == "completion"@ {
        completion_invocation(args)
    } else if args[0] == "kill"@ {
        about_session(
            args,
            InvocationView::Kill { name: args[1] },
            KILL_USAGE@,
            "Usage: stay kill <name>"@,
        )
    } else if args[0] == "rm"@ {
        about_session(
            args,
            InvocationView::Remove { name: args[1] },
            RM_USAGE@,
            "Usage: stay rm <name>"@,
        )
    } else {
        attach_invocation(args)
    }
}

/// A parsed invocation, or the message of the error.
pub open spec fn parsed(result: StayResult<Invocation>) -> Result<InvocationView, Seq<char>> {
    match result {
        Ok(invocation) => Ok(invocation@),
        Err(error) => Err(error@),
    }
}

/// Whether an argument asks for help.
pub fn is_help_flag(arg: &str) -> (help: bool)
    ensures
        help == asks_help(arg@),
{
    same_text(arg, "--help") || same_text(arg, "-h")
}

/// Coming into a session.
pub fn attach_command(args: &Vec<String>) -> (result: StayResult<Invocation>)
    ensures
        parsed(result) == attach_invocation(text::texts(args@)),
{
    let ghost words = text::texts(args@);
    if args.len() == 0 {
        return Err(StayError::new("Missing session name."));
    }
    let name = args[0].clone();
    if let Err(complaint) = validate_session_name(name.as_str()) {
        return Err(StayError::new(complaint));
    }
    let mut at: usize = 0;
    while at < args.len() && !same_text(args[at].as_str(), "--")
        invariant
            at <= args@.len(),
            words == text::texts(args@),
            separator(words, at as int) == separator(words, 0),
        decreases args@.len() - at,
    {
        at = at + 1;
    }
    if at == args.len() {
        return Ok(Invocation::Attach { name, command: None });
    }
    if at + 1 == args.len() {
        return Err(StayError::new("Missing command after --."));
    }
    let command = copy_texts_from(args, at + 1);
    assert(text::texts(command@) =~= words.skip(at + 1));
    Ok(Invocation::Attach { name, command: Some(command) })
}

/// The name in the second argument, where a session can have it.
fn session_argument(arg: &String) -> (name: StayResult<String>)
    ensures
        match name {
            Ok(name) => name::is_session_name(arg@) && name@ == arg@,
            Err(error) => !name::is_session_name(arg@) && error@ == name::invalid_name_text(arg@),
        },
{
    match validate_session_name(arg.as_str()) {
        Ok(()) => Ok(arg.clone()),
        Err(complaint) => Err(StayError::new(complaint)),
    }
}

/// A command that prints a completion script.
fn completion_command(args: &Vec<String>) -> (result: StayResult<Invocation>)
    requires
        args@.len() > 0,
    ensures
        parsed(result) == completion_invocation(text::texts(args@)),
{
    if args.len() == 1 || (args.len() == 2 && is_help_flag(args[1].as_str())) {
        return Ok(Invocation::Print(COMPLETION_USAGE.to_owned()));
    }
    if args.len() == 2 {
        return match completions_for(args[1].as_str()) {
            Ok(script) => Ok(Invocation::Print(script.to_owned())),
            Err(error) => Err(error),
        };
    }
    Err(StayError::new("Usage: stay completions <bash|zsh|fish>"))
}

/// What the arguments behind the program's name ask for.
pub fn parse_args(args: &Vec<String>) -> (result: StayResult<Invocation>)
    ensures
        parsed(result) == invocation(text::texts(args@)),
{
    if args.len() == 0 {
        return Ok(Invocation::Print(USAGE.to_owned()));
    }
    let first = args[0].as_str();
    if same_text(first, DAEMON_ARG) {
        return Ok(Invocation::Daemon);
    }
    if args.len() == 1 && is_help_flag(first) {
        return Ok(Invocation::Print(USAGE.to_owned()));
    }
    if args.len() == 1 && (same_text(first, "--version") || same_text(first, "-V")) {
        let mut line = String::new();
        line.append("stay ");
        line.append(VERSION);
        line.append("\n");
        assert(line@ =~= version_line());
        return Ok(Invocation::Print(line));
    }
    if same_text(first, "ls") {
        if args.len() == 1 {
            return Ok(Invocation::List);
        }
        if args.len() == 2 && is_help_flag(args[1].as_str()) {
            return Ok(Invocation::Print(LS_USAGE.to_owned()));
        }
        return Err(StayError::new("Usage: stay ls"));
    }
    if same_text(first, "completions") || same_text(first, "completion") {
        return completion_command(args);
    }
    if same_text(first, "kill") {
        if args.len() != 2 {
            return Err(StayError::new("Usage: stay kill <name>"));
        }
        if is_help_flag(args[1].as_str()) {
            return Ok(Invocation::Print(KILL_USAGE.to_owned()));
        }
        return match session_argument(&args[1]) {
            Ok(name) => Ok(Invocation::Kill { name }),
            Err(error) => Err(error),
        };
    }
    if same_text(first, "rm") {
        if args.len() != 2 {
            return Err(StayError::new("Usage: stay rm <name>"));
        }
        if is_help_flag(args[1].as_str()) {
            return Ok(Invocation::Print(RM_USAGE.to_owned()));
        }
        return match session_argument(&args[1]) {
            Ok(name) => Ok(Invocation::Remove { name }),
            Err(error) => Err(error),
        };
    }
    attach_command(args)
}

/// Whatever session a command line names, a session can have that name.
pub proof fn law_only_session_names_are_used(args: Seq<Seq<char>>)
    ensures
        match invocation(args) {
            Ok(InvocationView::Kill { name }) => name::is_session_name(name),
            Ok(InvocationView::Remove { name }) => name::is_session_name(name),
            Ok(InvocationView::Attach { name, .. }) => name::is_session_name(name),
            _ => true,
        },
{
}

/// A session is never started with an empty command.
pub proof fn law_command_is_never_empty(args: Seq<Seq<char>>)
    ensures
        match invocation(args) {
            Ok(InvocationView::Attach { command: Some(command), .. }) => command.len() > 0,
            _ => true,
        },
{
    lemma_separator(args, 0);
}

/// Where the arguments hold `--` first, it is one of them.
proof fn lemma_separator(args: Seq<Seq<char>>, from: int)
    requires
        0 <= from,
    ensures
        match separator(args, from) {
            Some(at) => from <= at < args.len() && args[at] == "--"@ && (forall|i: int|
                from <= i < at ==> args[i] != "--"@),
            None => forall|i: int| from <= i < args.len() ==> args[i] != "--"@,
        },
    decreases args.len() - from,
{
    if from < args.len() && args[from] != "--"@ {
        lemma_separator(args, from + 1);
    }
}

/// A word that is not the name of a session where it comes first.
pub open spec fn is_reserved(word: Seq<char>) -> bool {
    ||| word == DAEMON_ARG@ || word == "ls"@ || word == "kill"@ || word == "rm"@
    ||| word == "completions"@ || word == "completion"@ || word == "--"@
}

/// Everything behind the first `--` is the command, word for word, also where a
/// further `--` or a flag stands there.
pub proof fn law_command_is_passed_on(name: Seq<char>, command: Seq<Seq<char>>)
    requires
        name::is_session_name(name),
        !is_reserved(name),
        command.len() > 0,
    ensures
        invocation(seq![name, "--"@] + command) == Ok::<InvocationView, Seq<char>>(
            InvocationView::Attach { name, command: Some(command) },
        ),
{
    let args = seq![name, "--"@] + command;
    assert(args[0] == name && args[1] == "--"@);
    assert(separator(args, 1) == Some(1int));
    assert(separator(args, 0) == Some(1int));
    assert(args.skip(2) =~= command);
}

/// The words that stand for something differ from each other.
proof fn lemma_words_differ()
    ensures
        "kill"@ != "rm"@,
        "kill"@ != "ls"@,
        "rm"@ != "ls"@,
        "kill"@ != "completions"@,
        "kill"@ != "completion"@,
        "rm"@ != "completions"@,
        "rm"@ != "completion"@,
        "ls"@ != "completions"@,
        "ls"@ != "completion"@,
        "__stay_daemon"@ != "kill"@,
        "__stay_daemon"@ != "rm"@,
        "__stay_daemon"@ != "ls"@,
        "__stay_daemon"@ != "completions"@,
        "__stay_daemon"@ != "completion"@,
        "__stay_daemon"@ != "--help"@,
        "__stay_daemon"@ != "-h"@,
        "__stay_daemon"@ != "--version"@,
        "__stay_daemon"@ != "-V"@,
        "kill"@[0] != '-',
        "rm"@[0] != '-',
        "ls"@[0] != '-',
        "completions"@[0] != '-',
        "completion"@[0] != '-',
        "--help"@[0] == '-',
        "-h"@[0] == '-',
        "--version"@[0] == '-',
        "-V"@[0] == '-',
        "--help"@ != "--version"@,
        "--help"@ != "-V"@,
        "-h"@ != "--version"@,
        "-h"@ != "-V"@,
{
    reveal_strlit("kill");
    reveal_strlit("rm");
    reveal_strlit("ls");
    reveal_strlit("completions");
    reveal_strlit("completion");
    reveal_strlit("__stay_daemon");
    reveal_strlit("--help");
    reveal_strlit("-h");
    reveal_strlit("--version");
    reveal_strlit("-V");
    assert("kill"@[0] == 'k' && "rm"@[0] == 'r' && "ls"@[0] == 'l' && "completions"@[0] == 'c'
        && "completion"@[0] == 'c' && "__stay_daemon"@[0] == '_');
    assert("--help"@[2] == 'h' && "--version"@[2] == 'v' && "-h"@[1] == 'h' && "-V"@[1] == 'V');
    assert("--help"@.len() == 6 && "-V"@.len() == 2 && "--version"@.len() == 9);
}

/// `stay kill <name>` kills and `stay rm <name>` removes the session of that name, where
/// a session can have it, and nothing else; asked for help they tell how they are used.
pub proof fn law_sessions_are_killed_and_removed_by_name(name: Seq<char>)
    ensures
        name != "--help"@ && name != "-h"@ && name::is_session_name(name) ==> {
            &&& invocation(seq!["kill"@, name]) == Ok::<InvocationView, Seq<char>>(
                InvocationView::Kill { name },
            )
            &&& invocation(seq!["rm"@, name]) == Ok::<InvocationView, Seq<char>>(
                InvocationView::Remove { name },
            )
        },
        name != "--help"@ && name != "-h"@ && !name::is_session_name(name) ==> {
            &&& invocation(seq!["kill"@, name]) == Err::<InvocationView, Seq<char>>(
                name::invalid_name_text(name),
            )
            &&& invocation(seq!["rm"@, name]) == Err::<InvocationView, Seq<char>>(
                name::invalid_name_text(name),
            )
        },
        name == "--help"@ || name == "-h"@ ==> {
            &&& invocation(seq!["kill"@, name]) == Ok::<InvocationView, Seq<char>>(
                InvocationView::Print(KILL_USAGE@),
            )
            &&& invocation(seq!["rm"@, name]) == Ok::<InvocationView, Seq<char>>(
                InvocationView::Print(RM_USAGE@),
            )
            &&& invocation(seq!["ls"@, name]) == Ok::<InvocationView, Seq<char>>(
                InvocationView::Print(LS_USAGE@),
            )
        },
{
    lemma_words_differ();
}

/// With fewer or more words than one behind them, `kill` and `rm` do nothing but say how
/// they are used; so does `ls` with any word but a request for help behind it.
pub proof fn law_wrong_number_of_words_is_refused(args: Seq<Seq<char>>)
    requires
        args.len() >= 1,
    ensures
        args[0] == "kill"@ && args.len() != 2 ==> invocation(args) == Err::<
            InvocationView,
            Seq<char>,
        >("Usage: stay kill <name>"@),
        args[0] == "rm"@ && args.len() != 2 ==> invocation(args) == Err::<
            InvocationView,
            Seq<char>,
        >("Usage: stay rm <name>"@),
        args[0] == "ls"@ && args.len() == 1 ==> invocation(args) == Ok::<
            InvocationView,
            Seq<char>,
        >(InvocationView::List),
        args[0] == "ls"@ && (args.len() > 2 || (args.len() == 2 && args[1] != "--help"@ && args[1]
            != "-h"@)) ==> invocation(args) == Err::<InvocationView, Seq<char>>(
            "Usage: stay ls"@,
        ),
{
    lemma_words_differ();
}

/// A word that is neither a command nor a flag is the name of a session. Up to the first
/// `--` nothing behind it matters; what stands behind that is the command to start the
/// session with, word for word, and where nothing does, it is missing. A word that no
/// session can have for its name is refused.
pub proof fn law_other_words_name_a_session(args: Seq<Seq<char>>)
    requires
        args.len() >= 1,
        !is_reserved(args[0]),
        args.len() == 1 ==> args[0] != "--help"@ && args[0] != "-h"@ && args[0] != "--version"@
            && args[0] != "-V"@,
    ensures
        !name::is_session_name(args[0]) ==> invocation(args) == Err::<InvocationView, Seq<char>>(
            name::invalid_name_text(args[0]),
        ),
        name::is_session_name(args[0]) && !args.contains("--"@) ==> invocation(args) == Ok::<
            InvocationView,
            Seq<char>,
        >(InvocationView::Attach { name: args[0], command: None }),
        name::is_session_name(args[0]) ==> forall|at: int|
            0 <= at < args.len() && #[trigger] args[at] == "--"@ && !args.take(at).contains("--"@)
                ==> invocation(args) == (if at + 1 < args.len() {
                Ok::<InvocationView, Seq<char>>(
                    InvocationView::Attach { name: args[0], command: Some(args.skip(at + 1)) },
                )
            } else {
                Err::<InvocationView, Seq<char>>("Missing command after --."@)
            }),
{
    lemma_separator(args, 0);
    if separator(args, 0) is Some {
        assert(args.contains("--"@));
    }
    assert forall|at: int|
        0 <= at < args.len() && #[trigger] args[at] == "--"@ && !args.take(at).contains(
            "--"@,
        ) implies separator(args, 0) == Some(at) by {
        let found = separator(args, 0)->0;
        if found < at {
            assert(args.take(at)[found] == "--"@);
        }
    }
}

/// Without arguments, and asked for help, the program tells how it is used; asked for
/// its version, it tells that; told to be the daemon, it is.
pub proof fn law_flags(args: Seq<Seq<char>>)
    ensures
        args.len() == 0 ==> invocation(args) == Ok::<InvocationView, Seq<char>>(
            InvocationView::Print(USAGE@),
        ),
        args.len() == 1 && (args[0] == "--help"@ || args[0] == "-h"@) ==> invocation(args) == Ok::<
            InvocationView,
            Seq<char>,
        >(InvocationView::Print(USAGE@)),
        args.len() == 1 && (args[0] == "--version"@ || args[0] == "-V"@) ==> invocation(args)
            == Ok::<InvocationView, Seq<char>>(
            InvocationView::Print("stay "@ + VERSION@ + "\n"@),
        ),
        args.len() >= 1 && args[0] == "__stay_daemon"@ ==> invocation(args) == Ok::<
            InvocationView,
            Seq<char>,
        >(InvocationView::Daemon),
{
    lemma_words_differ();
}

/// `stay completions <shell>` prints the script for the shell, and without one it tells
/// how it is used.
pub proof fn law_completions_are_printed(args: Seq<Seq<char>>)
    requires
        args.len() >= 1,
        args[0] == "completions"@ || args[0] == "completion"@,
    ensures
        args.len() == 1 || (args.len() == 2 && (args[1] == "--help"@ || args[1] == "-h"@))
            ==> invocation(args) == Ok::<InvocationView, Seq<char>>(
            InvocationView::Print(COMPLETION_USAGE@),
        ),
        args.len() == 2 && args[1] != "--help"@ && args[1] != "-h"@ ==> invocation(args) == (
        match completions::script_for(args[1]) {
            Ok(script) => Ok::<InvocationView, Seq<char>>(InvocationView::Print(script)),
            Err(complaint) => Err::<InvocationView, Seq<char>>(complaint),
        }),
        args.len() > 2 ==> invocation(args) == Err::<InvocationView, Seq<char>>(
            "Usage: stay completions <bash|zsh|fish>"@,
        ),
{
    lemma_words_differ();
}

} // verus!
