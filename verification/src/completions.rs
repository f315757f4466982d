//! The completion scripts for the shells that have one.
use crate::error::{StayError, StayResult};
use crate::text::same_text;
use vstd::prelude::*;
use vstd::string::*;

verus! {

/// The completion script for bash.
pub const BASH_SCRIPT: &'static str = r#"_stay_sessions() {
  local dir="${XDG_STATE_HOME:-$HOME/.local/state}/stay/sessions"
  local path name
  [ -d "$dir" ] || return 0
  for path in "$dir"/*.json; do
    [ -e "$path" ] || continue
    name="${path##*/}"
    printf '%s\n' "${name%.json}"
  done
}

_stay_complete() {
  local cur prev commands shells
  cur="${COMP_WORDS[COMP_CWORD]}"
  prev="${COMP_WORDS[COMP_CWORD-1]}"
  commands="ls kill rm completions completion --version -V"
  shells="bash zsh fish"

  if [ "$COMP_CWORD" -eq 1 ]; then
    COMPREPLY=( $(compgen -W "$commands $(_stay_sessions)" -- "$cur") )
    return 0
  fi

  case "$prev" in
    kill|rm)
      COMPREPLY=( $(compgen -W "$(_stay_sessions)" -- "$cur") )
      ;;
    completions|completion)
      COMPREPLY=( $(compgen -W "$shells" -- "$cur") )
      ;;
    *)
      COMPREPLY=()
      ;;
  esac
}

complete -F _stay_complete stay
"#;

/// The completion script for zsh.
pub const ZSH_SCRIPT: &'static str = r#"#compdef stay

_stay_sessions() {
  local dir="${XDG_STATE_HOME:-$HOME/.local/state}/stay/sessions"
  local -a sessions
  local path name
  [[ -d "$dir" ]] || return 1
  for path in "$dir"/*.json(N); do
    name="${path:t:r}"
    sessions+=("$name")
  done
  compadd -- "$sessions[@]"
}

_stay() {
  local -a commands shells
  commands=(
    'ls:list sessions'
    'kill:kill a running session'
    'rm:remove a stopped session'
    'completions:print shell completions'
    'completion:print shell completions'
  )
  shells=(bash zsh fish)

  case $CURRENT in
    2)
      _alternative \
        'commands:command:->commands' \
        'sessions:session:->sessions'
      case $state in
        commands) _describe 'command' commands ;;
        sessions) _stay_sessions ;;
      esac
      ;;
    3)
      case $words[2] in
        kill|rm) _stay_sessions ;;
        completions|completion) compadd -- "$shells[@]" ;;
      esac
      ;;
  esac
}

_stay "$@"
"#;

/// The completion script for fish.
pub const FISH_SCRIPT: &'static str = r#"function __stay_sessions
    set -l dir "$HOME/.local/state/stay/sessions"
    if set -q XDG_STATE_HOME
        set dir "$XDG_STATE_HOME/stay/sessions"
    end
    test -d "$dir"; or return
    for path in "$dir"/*.json
        test -e "$path"; and basename "$path" .json
    end
end

complete -c stay -f
complete -c stay -n "__fish_use_subcommand" -a "ls" -d "List sessions"
complete -c stay -n "__fish_use_subcommand" -a "kill" -d "Kill a running session"
complete -c stay -n "__fish_use_subcommand" -a "rm" -d "Remove a stopped session"
complete -c stay -n "__fish_use_subcommand" -a "completions" -d "Print shell completions"
complete -c stay -n "__fish_use_subcommand" -a "(__stay_sessions)"
complete -c stay -n "__fish_seen_subcommand_from kill rm" -a "(__stay_sessions)"
complete -c stay -n "__fish_seen_subcommand_from completions completion" -a "bash zsh fish"
"#;

/// The complaint about a shell without a completion script.
pub open spec fn unsupported_shell(shell: Seq<char>) -> Seq<char> {
    "Unsupported shell: "@ + shell + "\n\nUse one of: bash, zsh, fish."@
}

/// The completion script for a shell, or the complaint that there is none.
pub open spec fn script_for(shell: Seq<char>) -> Result<Seq<char>, Seq<char>> {
    if shell == "bash"@ {
        Ok(BASH_SCRIPT@)
    } else if shell == "zsh"@ {
        Ok(ZSH_SCRIPT@)
    } else if shell == "fish"@ {
        Ok(FISH_SCRIPT@)
    } else {
        Err(unsupported_shell(shell))
    }
}

/// The completion script for bash.
pub fn bash_completions() -> (script: &'static str)
    ensures
        script@ == BASH_SCRIPT@,
{
    BASH_SCRIPT
}

/// The completion script for zsh.
pub fn zsh_completions() -> (script: &'static str)
    ensures
        script@ == ZSH_SCRIPT@,
{
    ZSH_SCRIPT
}

/// The completion script for fish.
pub fn fish_completions() -> (script: &'static str)
    ensures
        script@ == FISH_SCRIPT@,
{
    FISH_SCRIPT
}

/// The completion script for a shell.
pub fn completions_for(shell: &str) -> (script: StayResult<&'static str>)
    ensures
        match script {
            Ok(script) => script_for(shell@) == Ok::<Seq<char>, Seq<char>>(script@),
            Err(error) => script_for(shell@) == Err::<Seq<char>, Seq<char>>(error@),
        },
{
    if same_text(shell, "bash") {
        return Ok(bash_completions());
    }
    if same_text(shell, "zsh") {
        return Ok(zsh_completions());
    }
    if same_text(shell, "fish") {
        return Ok(fish_completions());
    }
    let mut message = String::new();
    message.append("Unsupported shell: ");
    message.append(shell);
    message.append("\n\nUse one of: bash, zsh, fish.");
    assert(message@ =~= unsupported_shell(shell@));
    Err(StayError::new(message))
}

/// Each shell that has a completion script gets its own; for any other there is none.
pub proof fn law_each_shell_has_its_script(shell: Seq<char>)
    ensures
        shell == "bash"@ ==> script_for(shell) == Ok::<Seq<char>, Seq<char>>(BASH_SCRIPT@),
        shell == "zsh"@ ==> script_for(shell) == Ok::<Seq<char>, Seq<char>>(ZSH_SCRIPT@),
        shell == "fish"@ ==> script_for(shell) == Ok::<Seq<char>, Seq<char>>(FISH_SCRIPT@),
        shell != "bash"@ && shell != "zsh"@ && shell != "fish"@ ==> script_for(shell)
            == Err::<Seq<char>, Seq<char>>(
            "Unsupported shell: "@ + shell + "\n\nUse one of: bash, zsh, fish."@,
        ),
{
    reveal_strlit("bash");
    reveal_strlit("zsh");
    reveal_strlit("fish");
    assert("bash"@[0] == 'b' && "zsh"@[0] == 'z' && "fish"@[0] == 'f');
}

} // verus!
