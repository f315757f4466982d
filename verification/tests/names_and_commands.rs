use stay::cli::{attach_command, is_help_flag, parse_args, Invocation, USAGE};
use stay::command::{display_command, shell_command};
use stay::completions::{
    bash_completions, completions_for, fish_completions, zsh_completions,
};
use stay::error::StayError;
use stay::name::validate_session_name;

fn words(list: &[&str]) -> Vec<String> {
    list.iter().map(|word| word.to_string()).collect()
}

#[test]
fn accepts_simple_session_names() {
    for name in ["api", "web_1", "dev-server", "project.test"] {
        assert!(validate_session_name(name).is_ok());
    }
}

#[test]
fn rejects_invalid_session_names() {
    for name in ["", "my api", "api/log", "..", "a..b"] {
        assert!(validate_session_name(name).is_err());
    }

    assert!(validate_session_name(&"a".repeat(65)).is_err());
}

#[test]
fn name_of_sixty_four_characters_is_accepted() {
    assert!(validate_session_name(&"a".repeat(64)).is_ok());
    assert!(validate_session_name(".").is_ok());
    assert!(validate_session_name("b\u{e9}").is_err());
    assert!(validate_session_name("a.b.c").is_ok());
}

#[test]
fn complaint_quotes_the_name() {
    assert_eq!(
        validate_session_name("my api"),
        Err("Invalid session name: my api\n\nUse letters, numbers, \"-\", \"_\" or \".\".".to_string())
    );
}

#[test]
fn error_message_is_kept() {
    assert_eq!(StayError::new("plain").message(), "plain");
    assert_eq!(StayError::new(String::from("owned")).into_message(), "owned");
}

#[test]
fn command_is_quoted_where_needed() {
    assert_eq!(display_command(&[]), "");
    assert_eq!(
        display_command(&words(&["uvicorn", "main:app", "--host", "0.0.0.0"])),
        "uvicorn main:app --host 0.0.0.0"
    );
    assert_eq!(
        display_command(&words(&["echo", "two words", "it's"])),
        "echo 'two words' 'it'\\''s'"
    );
    assert_eq!(display_command(&words(&["a", "", "b"])), "a  b");
    assert_eq!(display_command(&words(&["caf\u{e9}"])), "'caf\u{e9}'");
    assert_eq!(display_command(&words(&["'"])), "''\\'''");
}

#[test]
fn shell_comes_from_the_environment() {
    assert_eq!(shell_command(Some("/usr/bin/zsh".to_string())), vec!["/usr/bin/zsh"]);
    assert_eq!(shell_command(None), vec!["/bin/sh"]);
}

#[test]
fn help_flags() {
    assert!(is_help_flag("--help"));
    assert!(is_help_flag("-h"));
    assert!(!is_help_flag("help"));
}

#[test]
fn no_arguments_print_usage() {
    for args in [words(&[]), words(&["--help"]), words(&["-h"])] {
        match parse_args(&args) {
            Ok(Invocation::Print(text)) => assert_eq!(text, USAGE),
            other => panic!("{:?}", other),
        }
    }
    assert_eq!(
        USAGE,
        "Stay\nRun a command, press Ctrl+A to leave, come back with stay <name>.\n\nUsage:\n  stay <name>\n  stay <name> -- <command>\n  stay ls\n  stay kill <name>\n  stay rm <name>\n  stay completions <bash|zsh|fish>\n"
    );
}

#[test]
fn version_is_printed() {
    for flag in ["--version", "-V"] {
        match parse_args(&words(&[flag])) {
            Ok(Invocation::Print(text)) => assert_eq!(text, "stay 0.1.0\n"),
            other => panic!("{:?}", other),
        }
    }
}

#[test]
fn daemon_argument_wins() {
    assert!(matches!(
        parse_args(&words(&["__stay_daemon", "more"])),
        Ok(Invocation::Daemon)
    ));
}

#[test]
fn commands_are_recognised() {
    assert!(matches!(parse_args(&words(&["ls"])), Ok(Invocation::List)));
    match parse_args(&words(&["kill", "api"])) {
        Ok(Invocation::Kill { name }) => assert_eq!(name, "api"),
        other => panic!("{:?}", other),
    }
    match parse_args(&words(&["rm", "api"])) {
        Ok(Invocation::Remove { name }) => assert_eq!(name, "api"),
        other => panic!("{:?}", other),
    }
    for cmd in ["ls", "kill", "rm", "completions", "completion"] {
        match parse_args(&words(&[cmd, "-h"])) {
            Ok(Invocation::Print(text)) => assert!(text.starts_with("Usage: stay ")),
            other => panic!("{:?}", other),
        }
    }
    match parse_args(&words(&["completions"])) {
        Ok(Invocation::Print(text)) => {
            assert_eq!(text, "Usage: stay completions <bash|zsh|fish>\n")
        }
        other => panic!("{:?}", other),
    }
    match parse_args(&words(&["completion", "fish"])) {
        Ok(Invocation::Print(text)) => assert_eq!(text, fish_completions()),
        other => panic!("{:?}", other),
    }
}

#[test]
fn wrong_arguments_are_refused() {
    for (args, complaint) in [
        (vec!["ls", "x"], "Usage: stay ls"),
        (vec!["kill"], "Usage: stay kill <name>"),
        (vec!["kill", "a", "b"], "Usage: stay kill <name>"),
        (vec!["rm"], "Usage: stay rm <name>"),
        (
            vec!["completions", "a", "b"],
            "Usage: stay completions <bash|zsh|fish>",
        ),
        (
            vec!["completions", "tcsh"],
            "Unsupported shell: tcsh\n\nUse one of: bash, zsh, fish.",
        ),
        (vec!["api", "--"], "Missing command after --."),
        (
            vec!["kill", "a/b"],
            "Invalid session name: a/b\n\nUse letters, numbers, \"-\", \"_\" or \".\".",
        ),
        (
            vec!["a b", "--"],
            "Invalid session name: a b\n\nUse letters, numbers, \"-\", \"_\" or \".\".",
        ),
    ] {
        match parse_args(&words(&args)) {
            Err(error) => assert_eq!(error.message(), complaint),
            other => panic!("{:?}", other),
        }
    }
    match attach_command(&words(&[])) {
        Err(error) => assert_eq!(error.message(), "Missing session name."),
        other => panic!("{:?}", other),
    }
}

#[test]
fn command_stands_behind_the_separator() {
    match parse_args(&words(&["api", "--", "sh", "-c", "x", "--", "ls"])) {
        Ok(Invocation::Attach { name, command }) => {
            assert_eq!(name, "api");
            assert_eq!(command, Some(words(&["sh", "-c", "x", "--", "ls"])));
        }
        other => panic!("{:?}", other),
    }
    match parse_args(&words(&["api", "ignored"])) {
        Ok(Invocation::Attach { name, command }) => {
            assert_eq!(name, "api");
            assert_eq!(command, None);
        }
        other => panic!("{:?}", other),
    }
}

#[test]
fn completion_scripts_list_sessions() {
    for (shell, script, start) in [
        ("bash", bash_completions(), "_stay_sessions() {\n"),
        ("zsh", zsh_completions(), "#compdef stay\n"),
        ("fish", fish_completions(), "function __stay_sessions\n"),
    ] {
        assert!(script.starts_with(start));
        assert!(script.contains("/stay/sessions"));
        assert!(script.contains(".json"));
        match completions_for(shell) {
            Ok(found) => assert_eq!(found, script),
            Err(error) => panic!("{}", error.message()),
        }
    }
    assert!(bash_completions().ends_with("complete -F _stay_complete stay\n"));
    assert!(zsh_completions().ends_with("_stay \"$@\"\n"));
    assert!(fish_completions().ends_with("-a \"bash zsh fish\"\n"));
}
