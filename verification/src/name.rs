//! Which names a session can have.
use vstd::prelude::*;
use vstd::string::*;

verus! {

/// A letter or a digit of ASCII.
pub open spec fn is_alphanumeric(c: char) -> bool {
    ('a' <= c && c <= 'z') || ('A' <= c && c <= 'Z') || ('0' <= c && c <= '9')
}

/// A character that can stand in a session name.
pub open spec fn is_name_char(c: char) -> bool {
    is_alphanumeric(c) || c == '-' || c == '_' || c == '.'
}

/// Two dots stand next to each other at `i`.
pub open spec fn double_dot_at(name: Seq<char>, i: int) -> bool {
    0 <= i && i + 1 < name.len() && name[i] == '.' && name[i + 1] == '.'
}

/// A name that a session can have: one to 64 letters, digits, dashes, underscores
/// and dots, with no two dots in a row.
pub open spec fn is_session_name(name: Seq<char>) -> bool {
    &&& 1 <= name.len() <= 64
    &&& forall|i: int| 0 <= i < name.len() ==> is_name_char(#[trigger] name[i])
    &&& forall|i: int| !double_dot_at(name, i)
}

/// The complaint about a name that a session cannot have.
pub open spec fn invalid_name_text(name: Seq<char>) -> Seq<char> {
    "Invalid session name: "@ + name + "\n\nUse letters, numbers, \"-\", \"_\" or \".\"."@
}

/// Whether `c` is a letter or a digit of ASCII.
pub(crate) fn alphanumeric(c: char) -> (yes: bool)
    ensures
        yes == is_alphanumeric(c),
{
    ('a' <= c && c <= 'z') || ('A' <= c && c <= 'Z') || ('0' <= c && c <= '9')
}

/// Whether a session can have this name.
fn is_valid(name: &str) -> (valid: bool)
    ensures
        valid == is_session_name(name@),
{
    if name.is_empty() || name.unicode_len() > 64 {
        return false;
    }
    let mut after_dot = false;
    for c in it: name.chars()
        invariant
            it.seq() == name@,
            1 <= name@.len() <= 64,
            after_dot == (it.index() > 0 && name@[it.index() - 1] == '.'),
            forall|i: int| 0 <= i < it.index() ==> is_name_char(#[trigger] name@[i]),
            forall|i: int| i + 1 < it.index() ==> !double_dot_at(name@, i),
    {
        if !(alphanumeric(c) || c == '-' || c == '_' || c == '.') {
            return false;
        }
        if after_dot && c == '.' {
            assert(double_dot_at(name@, it.index() - 1));
            return false;
        }
        after_dot = c == '.';
    }
    true
}

/// Accepts the names that a session can have, and complains about all others.
pub fn validate_session_name(name: &str) -> (result: Result<(), String>)
    ensures
        result is Ok <==> is_session_name(name@),
        match result {
            Ok(()) => true,
            Err(complaint) => complaint@ == invalid_name_text(name@),
        },
{
    if is_valid(name) {
        return Ok(());
    }
    let mut complaint = String::new();
    complaint.append("Invalid session name: ");
    complaint.append(name);
    complaint.append("\n\nUse letters, numbers, \"-\", \"_\" or \".\".");
    assert(complaint@ =~= invalid_name_text(name@));
    Err(complaint)
}

/// A session name is one plain file name: it holds no slash and no space, and it
/// does not name the directory above.
pub proof fn law_session_name_is_a_plain_word(name: Seq<char>)
    requires
        is_session_name(name),
    ensures
        !name.contains('/'),
        !name.contains(' '),
        name != seq!['.', '.'],
{
    if name == seq!['.', '.'] {
        assert(double_dot_at(name, 0));
    }
}

/// The names that a session can have, character by character: from one to 64 of the
/// letters and digits of ASCII, `-`, `_` and `.`, and nowhere two dots in a row. Every
/// other name is refused.
pub proof fn law_session_names(name: Seq<char>)
    ensures
        is_session_name(name) <==> {
            &&& 1 <= name.len() <= 64
            &&& forall|i: int|
                0 <= i < name.len() ==> {
                    ||| 'a' <= #[trigger] name[i] <= 'z'
                    ||| 'A' <= name[i] <= 'Z'
                    ||| '0' <= name[i] <= '9'
                    ||| name[i] == '-' || name[i] == '_' || name[i] == '.'
                }
            &&& forall|i: int|
                0 <= i < name.len() - 1 ==> #[trigger] name[i] != '.' || name[i + 1] != '.'
        },
{
    if is_session_name(name) {
        assert forall|i: int| 0 <= i < name.len() - 1 implies #[trigger] name[i] != '.' || name[i
            + 1] != '.' by {
            assert(!double_dot_at(name, i));
        }
        assert forall|i: int| 0 <= i < name.len() implies {
            ||| 'a' <= #[trigger] name[i] <= 'z'
            ||| 'A' <= name[i] <= 'Z'
            ||| '0' <= name[i] <= '9'
            ||| name[i] == '-' || name[i] == '_' || name[i] == '.'
        } by {
            assert(is_name_char(name[i]));
        }
    }
}

/// A complaint about a name shows the name.
pub proof fn law_complaint_shows_the_name(name: Seq<char>)
    ensures
        invalid_name_text(name) == "Invalid session name: "@ + name
            + "\n\nUse letters, numbers, \"-\", \"_\" or \".\"."@,
{
}

} // verus!
