//! The command of a session, and how it is shown.
use crate::name;
use crate::name::alphanumeric;
use crate::text;
use vstd::prelude::*;
use vstd::string::*;

verus! {

/// A character that a shell takes as it stands.
pub open spec fn is_plain_char(c: char) -> bool {
    ||| name::is_alphanumeric(c)
    ||| c == '/' || c == '.' || c == '-' || c == '_' || c == ':'
    ||| c == '=' || c == '+' || c == ',' || c == '@'
}

/// A word that needs no quotes.
pub open spec fn is_plain(part: Seq<char>) -> bool {
    forall|i: int| 0 <= i < part.len() ==> is_plain_char(#[trigger] part[i])
}

/// A word with each single quote closed, escaped and opened again.
pub open spec fn escaped(part: Seq<char>) -> Seq<char>
    decreases part.len(),
{
    if part.len() == 0 {
        seq![]
    } else if part.last() == '\'' {
        escaped(part.drop_last()) + seq!['\'', '\\', '\'', '\'']
    } else {
        escaped(part.drop_last()).push(part.last())
    }
}

/// One word of a command as it is shown: as it stands, or in single quotes.
pub open spec fn shown_part(part: Seq<char>) -> Seq<char> {
    if is_plain(part) {
        part
    } else {
        seq!['\''] + escaped(part) + seq!['\'']
    }
}

/// A command as it is shown: its words with a space between them.
pub open spec fn shown(command: Seq<Seq<char>>) -> Seq<char>
    decreases command.len(),
{
    if command.len() == 0 {
        seq![]
    } else if command.len() == 1 {
        shown_part(command[0])
    } else {
        shown(command.drop_last()).push(' ') + shown_part(command.last())
    }
}

/// The command of a session that was given none: the shell of the user.
pub open spec fn default_command(shell: Option<Seq<char>>) -> Seq<Seq<char>> {
    match shell {
        Some(shell) => seq![shell],
        None => seq!["/bin/sh"@],
    }
}

/// The command of a session that was given none, from what the environment says
/// of the user's shell.
pub fn shell_command(shell: Option<String>) -> (command: Vec<String>)
    ensures
        text::texts(command@) == default_command(
            match shell {
                Some(shell) => Some(shell@),
                None => None,
            },
        ),
{
    let mut command: Vec<String> = Vec::new();
    match shell {
        Some(shell) => {
            command.push(shell);
        },
        None => {
            command.push("/bin/sh".to_owned());
        },
    }
    assert(text::texts(command@) =~= default_command(
        match shell {
            Some(shell) => Some(shell@),
            None => None,
        },
    ));
    command
}

/// Whether a word needs no quotes.
fn needs_no_quotes(part: &str) -> (plain: bool)
    ensures
        plain == is_plain(part@),
{
    for c in it: part.chars()
        invariant
            it.seq() == part@,
            forall|i: int| 0 <= i < it.index() ==> is_plain_char(#[trigger] part@[i]),
    {
        if !(alphanumeric(c) || c == '/' || c == '.' || c == '-' || c == '_' || c == ':' || c == '='
            || c == '+' || c == ',' || c == '@') {
            return false;
        }
    }
    true
}

/// Writes one word behind `out` as it is shown.
fn push_part(out: &mut String, part: &str)
    ensures
        final(out)@ == old(out)@ + shown_part(part@),
{
    if needs_no_quotes(part) {
        out.append(part);
        return ;
    }
    let ghost before = out@;
    out.push('\'');
    assert(part@.take(0) =~= seq![]);
    assert(out@ =~= before + seq!['\''] + escaped(part@.take(0)));
    for c in it: part.chars()
        invariant
            it.seq() == part@,
            out@ == before + seq!['\''] + escaped(part@.take(it.index() as int)),
    {
        let ghost done = part@.take(it.index() as int);
        let ghost next = part@.take(it.index() + 1);
        assert(next.drop_last() =~= done);
        if c == '\'' {
            out.push('\'');
            out.push('\\');
            out.push('\'');
            out.push('\'');
        } else {
            out.push(c);
        }
        assert(out@ =~= before + seq!['\''] + escaped(next));
    }
    assert(part@.take(part@.len() as int) =~= part@);
    out.push('\'');
    assert(out@ =~= before + shown_part(part@));
}

/// A command on one line, each word quoted where a shell would need it.
pub fn display_command(command: &[String]) -> (line: String)
    ensures
        line@ == shown(text::texts(command@)),
{
    let mut line = String::new();
    let ghost words = text::texts(command@);
    let mut i: usize = 0;
    assert(words.take(0) =~= seq![]);
    while i < command.len()
        invariant
            i <= command@.len(),
            words == text::texts(command@),
            line@ == shown(words.take(i as int)),
        decreases command@.len() - i,
    {
        let ghost next = words.take(i + 1);
        assert(next.drop_last() =~= words.take(i as int));
        if i > 0 {
            line.push(' ');
        }
        push_part(&mut line, command[i].as_str());
        assert(line@ =~= shown(next));
        i = i + 1;
    }
    assert(words.take(i as int) =~= words);
    line
}

/// How far a shell has read a line: the words that are complete, and the word it
/// is in.
pub struct Reading {
    pub words: Seq<Seq<char>>,
    pub word: Seq<char>,
    /// A word has begun.
    pub open: bool,
    /// Inside single quotes.
    pub quoted: bool,
    /// Behind a backslash.
    pub escaped: bool,
}

/// One character read. Inside single quotes every character but the closing quote
/// stands for itself; outside, so does the one behind a backslash, and a space
/// ends a word.
pub open spec fn read_char(r: Reading, c: char) -> Reading {
    if r.quoted {
        if c == '\'' {
            Reading { quoted: false, ..r }
        } else {
            Reading { word: r.word.push(c), ..r }
        }
    } else if r.escaped {
        Reading { word: r.word.push(c), escaped: false, ..r }
    } else if c == '\\' {
        Reading { open: true, escaped: true, ..r }
    } else if c == '\'' {
        Reading { open: true, quoted: true, ..r }
    } else if c == ' ' {
        if r.open {
            Reading { words: r.words.push(r.word), word: seq![], open: false, ..r }
        } else {
            r
        }
    } else {
        Reading { word: r.word.push(c), open: true, ..r }
    }
}

/// A text read, character by character.
pub open spec fn read_text(r: Reading, line: Seq<char>) -> Reading
    decreases line.len(),
{
    if line.len() == 0 {
        r
    } else {
        read_char(read_text(r, line.drop_last()), line.last())
    }
}

/// Nothing read yet, behind the given words.
pub open spec fn between_words(words: Seq<Seq<char>>) -> Reading {
    Reading { words, word: seq![], open: false, quoted: false, escaped: false }
}

/// Inside a word, outside quotes.
pub open spec fn in_word(words: Seq<Seq<char>>, word: Seq<char>) -> Reading {
    Reading { words, word, open: true, quoted: false, escaped: false }
}

/// The words that a shell reads from a line.
pub open spec fn shell_words(line: Seq<char>) -> Seq<Seq<char>> {
    let r = read_text(between_words(seq![]), line);
    if r.open {
        r.words.push(r.word)
    } else {
        r.words
    }
}

/// Reading two texts in a row is reading the one they make together.
proof fn lemma_read_concat(r: Reading, a: Seq<char>, b: Seq<char>)
    ensures
        read_text(r, a + b) == read_text(read_text(r, a), b),
    decreases b.len(),
{
    if b.len() == 0 {
        assert(a + b =~= a);
    } else {
        assert((a + b).drop_last() =~= a + b.drop_last());
        lemma_read_concat(r, a, b.drop_last());
    }
}

/// A plain word is read as it stands.
proof fn lemma_read_plain(words: Seq<Seq<char>>, part: Seq<char>)
    requires
        part.len() > 0,
        is_plain(part),
    ensures
        read_text(between_words(words), part) == in_word(words, part),
    decreases part.len(),
{
    let before = part.drop_last();
    assert(is_plain_char(part[part.len() - 1]));
    assert(before.push(part.last()) =~= part);
    if before.len() > 0 {
        assert forall|i: int| 0 <= i < before.len() implies is_plain_char(#[trigger] before[i]) by {
            assert(is_plain_char(part[i]));
        }
        lemma_read_plain(words, before);
    } else {
        assert(before =~= seq![]);
        assert(read_text(between_words(words), before) == between_words(words));
    }
}

/// Inside quotes, an escaped word is read as the word it was made from.
proof fn lemma_read_escaped(words: Seq<Seq<char>>, part: Seq<char>)
    ensures
        read_text(Reading { quoted: true, ..in_word(words, seq![]) }, escaped(part)) == (Reading {
            quoted: true,
            ..in_word(words, part)
        }),
    decreases part.len(),
{
    let start = Reading { quoted: true, ..in_word(words, seq![]) };
    if part.len() == 0 {
        assert(part =~= seq![]);
    } else {
        let before = part.drop_last();
        lemma_read_escaped(words, before);
        assert(before.push(part.last()) =~= part);
        if part.last() == '\'' {
            let quote = seq!['\'', '\\', '\'', '\''];
            lemma_read_concat(start, escaped(before), quote);
            let r = Reading { quoted: true, ..in_word(words, before) };
            assert(quote.drop_last() =~= seq!['\'', '\\', '\'']);
            assert(quote.drop_last().drop_last() =~= seq!['\'', '\\']);
            assert(quote.drop_last().drop_last().drop_last() =~= seq!['\'']);
            assert(seq!['\''].drop_last() =~= Seq::<char>::empty());
            reveal_with_fuel(read_text, 5);
        } else {
            let whole = escaped(before).push(part.last());
            assert(whole.drop_last() =~= escaped(before));
        }
    }
}

/// A word as it is shown is read as one word.
proof fn lemma_read_part(words: Seq<Seq<char>>, part: Seq<char>)
    requires
        part.len() > 0,
    ensures
        read_text(between_words(words), shown_part(part)) == in_word(words, part),
{
    if is_plain(part) {
        lemma_read_plain(words, part);
    } else {
        let open = seq!['\''];
        let inner = escaped(part);
        assert(open.drop_last() =~= Seq::<char>::empty());
        reveal_with_fuel(read_text, 2);
        assert(read_text(between_words(words), open) == (Reading {
            quoted: true,
            ..in_word(words, seq![])
        }));
        lemma_read_escaped(words, part);
        lemma_read_concat(between_words(words), open, inner);
        lemma_read_concat(between_words(words), open + inner, open);
    }
}

/// A command as it is shown leaves a shell inside its last word.
proof fn lemma_read_shown(command: Seq<Seq<char>>)
    requires
        command.len() > 0,
        forall|i: int| 0 <= i < command.len() ==> (#[trigger] command[i]).len() > 0,
    ensures
        read_text(between_words(seq![]), shown(command)) == in_word(
            command.drop_last(),
            command.last(),
        ),
    decreases command.len(),
{
    if command.len() == 1 {
        assert(command.drop_last() =~= seq![]);
        lemma_read_part(seq![], command[0]);
    } else {
        let before = command.drop_last();
        assert forall|i: int| 0 <= i < before.len() implies (#[trigger] before[i]).len() > 0 by {
            assert(before[i] == command[i]);
        }
        lemma_read_shown(before);
        let line = shown(before).push(' ');
        assert(line.drop_last() =~= shown(before));
        assert(before.drop_last().push(before.last()) =~= before);
        assert(read_text(between_words(seq![]), line) == between_words(before));
        lemma_read_part(before, command.last());
        lemma_read_concat(between_words(seq![]), line, shown_part(command.last()));
    }
}

/// A shell that reads a command as it is shown gets the command back, word for
/// word. (An empty word is shown as nothing, so commands with one are left out.)
pub proof fn law_shown_command_reads_back(command: Seq<Seq<char>>)
    requires
        forall|i: int| 0 <= i < command.len() ==> (#[trigger] command[i]).len() > 0,
    ensures
        shell_words(shown(command)) == command,
{
    if command.len() == 0 {
        assert(command =~= seq![]);
        assert(read_text(between_words(seq![]), seq![]) == between_words(seq![]));
    } else {
        lemma_read_shown(command);
        assert(command.drop_last().push(command.last()) =~= command);
    }
}

/// Two different commands are never shown the same way, unless one has an empty
/// word.
pub proof fn law_shown_commands_differ(a: Seq<Seq<char>>, b: Seq<Seq<char>>)
    requires
        forall|i: int| 0 <= i < a.len() ==> (#[trigger] a[i]).len() > 0,
        forall|i: int| 0 <= i < b.len() ==> (#[trigger] b[i]).len() > 0,
        shown(a) == shown(b),
    ensures
        a == b,
{
    law_shown_command_reads_back(a);
    law_shown_command_reads_back(b);
}

/// A word of letters, digits and `/ . - _ : = + , @` is shown as it stands; every other
/// word is shown between single quotes.
pub proof fn law_quotes_only_where_needed(part: Seq<char>)
    ensures
        (forall|i: int|
            0 <= i < part.len() ==> {
                ||| 'a' <= #[trigger] part[i] <= 'z'
                ||| 'A' <= part[i] <= 'Z'
                ||| '0' <= part[i] <= '9'
                ||| part[i] == '/' || part[i] == '.' || part[i] == '-' || part[i] == '_'
                ||| part[i] == ':' || part[i] == '=' || part[i] == '+' || part[i] == ','
                ||| part[i] == '@'
            }) ==> shown(seq![part]) == part,
        (exists|i: int|
            0 <= i < part.len() && !({
                ||| 'a' <= #[trigger] part[i] <= 'z'
                ||| 'A' <= part[i] <= 'Z'
                ||| '0' <= part[i] <= '9'
                ||| part[i] == '/' || part[i] == '.' || part[i] == '-' || part[i] == '_'
                ||| part[i] == ':' || part[i] == '=' || part[i] == '+' || part[i] == ','
                ||| part[i] == '@'
            })) ==> {
            &&& shown(seq![part]).len() >= part.len() + 2
            &&& shown(seq![part])[0] == '\''
            &&& shown(seq![part]).last() == '\''
            &&& !part.contains('\'') ==> shown(seq![part]) == seq!['\''] + part + seq!['\'']
        },
{
    lemma_escaped(part);
    if !is_plain(part) {
        let i = choose|i: int| 0 <= i < part.len() && !is_plain_char(#[trigger] part[i]);
        assert(!is_plain_char(part[i]));
    } else {
        assert forall|i: int| 0 <= i < part.len() implies {
            ||| 'a' <= #[trigger] part[i] <= 'z'
            ||| 'A' <= part[i] <= 'Z'
            ||| '0' <= part[i] <= '9'
            ||| part[i] == '/' || part[i] == '.' || part[i] == '-' || part[i] == '_'
            ||| part[i] == ':' || part[i] == '=' || part[i] == '+' || part[i] == ','
            ||| part[i] == '@'
        } by {
            assert(is_plain_char(part[i]));
        }
    }
}

/// A word without single quotes needs no escapes, and escapes only make it longer.
proof fn lemma_escaped(part: Seq<char>)
    ensures
        escaped(part).len() >= part.len(),
        !part.contains('\'') ==> escaped(part) == part,
    decreases part.len(),
{
    if part.len() > 0 {
        let before = part.drop_last();
        lemma_escaped(before);
        assert(part =~= before.push(part.last()));
        assert(part[part.len() - 1] == part.last());
        if !part.contains('\'') {
            assert forall|i: int| 0 <= i < before.len() implies before[i] != '\'' by {
                assert(part[i] == before[i]);
            }
        }
    } else {
        assert(escaped(part) =~= part);
    }
}

/// The words of a command are shown in order, with one space between any two.
pub proof fn law_words_are_shown_in_order(command: Seq<Seq<char>>, word: Seq<char>)
    ensures
        shown(Seq::empty()) == Seq::<char>::empty(),
        command.len() > 0 ==> shown(command.push(word)) == shown(command) + seq![' '] + shown(
            seq![word],
        ),
{
    assert(command.push(word).drop_last() =~= command);
    if command.len() > 0 {
        assert(shown(command.push(word)) =~= shown(command) + seq![' '] + shown(seq![word]));
    }
}

/// A session that was given no command runs the shell of the user, and `/bin/sh` where
/// that is not known.
pub proof fn law_default_is_the_users_shell(shell: Seq<char>)
    ensures
        default_command(Some(shell)) == seq![shell],
        default_command(None) == seq!["/bin/sh"@],
{
}

} // verus!
