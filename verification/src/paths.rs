//! Where things are kept. Paths are bytes, as the operating system has them.
use crate::error::{StayError, StayResult};
use crate::name;
use vstd::prelude::*;
use vstd::string::*;
use vstd::utf8::*;

verus! {

/// The directories and files that this program keeps.
pub struct Paths {
    pub state_dir: Vec<u8>,
    pub sessions_dir: Vec<u8>,
    pub history_dir: Vec<u8>,
    pub sockets_dir: Vec<u8>,
    pub daemon_socket: Vec<u8>,
}

/// The byte that separates the parts of a path.
pub open spec fn slash() -> u8 {
    0x2f
}

/// A path from the root.
pub open spec fn is_absolute(path: Seq<u8>) -> bool {
    path.len() > 0 && path[0] == slash()
}

/// `part` below `base`; a part that is a path from the root stands for itself.
pub open spec fn joined(base: Seq<u8>, part: Seq<u8>) -> Seq<u8> {
    if is_absolute(part) {
        part
    } else if base.len() > 0 && base.last() != slash() {
        base.push(slash()) + part
    } else {
        base + part
    }
}

/// The directory of this program, below the user's directory for program state.
pub open spec fn state_dir_of(home: Seq<u8>, state_home: Option<Seq<u8>>) -> Seq<u8> {
    let base = match state_home {
        Some(dir) => dir,
        None => joined(home, encode_utf8(".local/state"@)),
    };
    joined(base, encode_utf8("stay"@))
}

/// The bytes that a vector holds, if there is one.
pub open spec fn optional_bytes(value: Option<Vec<u8>>) -> Option<Seq<u8>> {
    match value {
        Some(value) => Some(value@),
        None => None,
    }
}

/// The file in `dir` that belongs to a name.
pub open spec fn file_for(dir: Seq<u8>, name: Seq<char>, ending: Seq<char>) -> Seq<u8> {
    joined(dir, encode_utf8(name) + encode_utf8(ending))
}

/// A file name that ends in `.json` and does not start with that.
pub open spec fn ends_in_json(file_name: Seq<u8>) -> bool {
    &&& file_name.len() > 5
    &&& file_name.skip(file_name.len() - 5) == seq![0x2eu8, 0x6au8, 0x73u8, 0x6fu8, 0x6eu8]
}

/// `part` below `base`.
pub fn join_path(base: &[u8], part: &[u8]) -> (path: Vec<u8>)
    ensures
        path@ == joined(base@, part@),
{
    let mut path: Vec<u8> = Vec::new();
    if part.len() > 0 && part[0] == 0x2f {
        path.extend_from_slice(part);
        assert(path@ =~= part@);
        return path;
    }
    path.extend_from_slice(base);
    assert(path@ =~= base@);
    if base.len() > 0 && base[base.len() - 1] != 0x2f {
        path.push(0x2f);
    }
    path.extend_from_slice(part);
    assert(path@ =~= joined(base@, part@));
    path
}

/// Where things are kept, from the user's home directory and the directory for
/// program state, if the environment names them.
pub fn paths_for(home: Option<Vec<u8>>, state_home: Option<Vec<u8>>) -> (paths: StayResult<Paths>)
    ensures
        match paths {
            Ok(paths) => {
                &&& home is Some
                &&& paths.state_dir@ == state_dir_of(home->0@, optional_bytes(state_home))
                &&& paths.sessions_dir@ == joined(paths.state_dir@, encode_utf8("sessions"@))
                &&& paths.history_dir@ == joined(paths.state_dir@, encode_utf8("history"@))
                &&& paths.sockets_dir@ == joined(paths.state_dir@, encode_utf8("sockets"@))
                &&& paths.daemon_socket@ == joined(
                    paths.sockets_dir@,
                    encode_utf8("daemon.sock"@),
                )
            },
            Err(error) => home is None && error@ == "HOME is not set."@,
        },
{
    match home {
        None => Err(StayError::new("HOME is not set.")),
        Some(home) => {
            let base: Vec<u8> = match state_home {
                Some(dir) => dir,
                None => join_path(home.as_slice(), ".local/state".as_bytes()),
            };
            let state_dir = join_path(base.as_slice(), "stay".as_bytes());
            let sessions_dir = join_path(state_dir.as_slice(), "sessions".as_bytes());
            let history_dir = join_path(state_dir.as_slice(), "history".as_bytes());
            let sockets_dir = join_path(state_dir.as_slice(), "sockets".as_bytes());
            let daemon_socket = join_path(sockets_dir.as_slice(), "daemon.sock".as_bytes());
            Ok(Paths { state_dir, sessions_dir, history_dir, sockets_dir, daemon_socket })
        },
    }
}

/// The file in `dir` that belongs to a name.
fn file_path(dir: &Vec<u8>, name: &str, ending: &str) -> (path: Vec<u8>)
    ensures
        path@ == file_for(dir@, name@, ending@),
{
    let mut file: Vec<u8> = Vec::new();
    file.extend_from_slice(name.as_bytes());
    file.extend_from_slice(ending.as_bytes());
    assert(file@ =~= encode_utf8(name@) + encode_utf8(ending@));
    join_path(dir.as_slice(), file.as_slice())
}

/// The file that holds the record of the session `name`.
pub fn session_path(paths: &Paths, name: &str) -> (path: Vec<u8>)
    ensures
        path@ == file_for(paths.sessions_dir@, name@, ".json"@),
{
    file_path(&paths.sessions_dir, name, ".json")
}

/// The file that holds the output of the session `name`.
pub fn history_path(paths: &Paths, name: &str) -> (path: Vec<u8>)
    ensures
        path@ == file_for(paths.history_dir@, name@, ".log"@),
{
    file_path(&paths.history_dir, name, ".log")
}

/// Whether a file in the directory of records is one.
pub fn is_record_file(file_name: &[u8]) -> (yes: bool)
    ensures
        yes == ends_in_json(file_name@),
{
    let len: usize = file_name.len();
    if len <= 5 {
        return false;
    }
    let ghost ending = file_name@.skip(len - 5);
    let yes = file_name[len - 5] == 0x2e && file_name[len - 4] == 0x6a && file_name[len - 3] == 0x73
        && file_name[len - 2] == 0x6f && file_name[len - 1] == 0x6e;
    proof {
        assert(ending[0] == file_name@[len - 5] && ending[1] == file_name@[len - 4] && ending[2]
            == file_name@[len - 3] && ending[3] == file_name@[len - 2] && ending[4]
            == file_name@[len - 1]);
        if yes {
            assert(ending =~= seq![0x2eu8, 0x6au8, 0x73u8, 0x6fu8, 0x6eu8]);
        }
    }
    yes
}

/// Whether the program's directory is given from the root.
pub fn _paths_are_private(paths: &Paths) -> (yes: bool)
    ensures
        yes == is_absolute(paths.state_dir@),
{
    paths.state_dir.len() > 0 && paths.state_dir[0] == 0x2f
}

/// The characters of a session name are its bytes.
proof fn lemma_name_bytes(name: Seq<char>)
    requires
        name::is_session_name(name),
    ensures
        encode_utf8(name).len() == name.len(),
        forall|i: int| 0 <= i < name.len() ==> (#[trigger] encode_utf8(name)[i]) == name[i] as u8,
        forall|i: int| 0 <= i < name.len() ==> (#[trigger] encode_utf8(name)[i]) != slash(),
{
    assert forall|i: int| 0 <= i < name.len() implies 0 <= (#[trigger] name[i]) as nat && (
    name[i] as nat) < 128 by {
        assert(name::is_name_char(name[i]));
    }
    assert(is_ascii_chars(name));
    is_ascii_chars_encode_utf8(name);
    assert forall|i: int| 0 <= i < name.len() implies (#[trigger] encode_utf8(name)[i])
        != slash() by {
        assert(name::is_name_char(name[i]));
    }
}

/// The bytes of the ending of record files.
proof fn lemma_json_bytes()
    ensures
        encode_utf8(".json"@) == seq![0x2eu8, 0x6au8, 0x73u8, 0x6fu8, 0x6eu8],
{
    reveal_strlit(".json");
    assert(is_ascii_chars(".json"@));
    is_ascii_chars_encode_utf8(".json"@);
    assert(encode_utf8(".json"@) =~= seq![0x2eu8, 0x6au8, 0x73u8, 0x6fu8, 0x6eu8]);
}

/// The files of a session lie directly in their directory: behind the directory
/// and one slash comes the name with its ending, without a further slash.
pub proof fn law_session_files_stay_in_their_directory(
    dir: Seq<u8>,
    name: Seq<char>,
    ending: Seq<char>,
)
    requires
        name::is_session_name(name),
        dir.len() > 0,
        dir.last() != slash(),
    ensures
        file_for(dir, name, ending) == dir.push(slash()) + (encode_utf8(name) + encode_utf8(
            ending,
        )),
        forall|i: int| 0 <= i < name.len() ==> (#[trigger] encode_utf8(name)[i]) != slash(),
{
    lemma_name_bytes(name);
    let file = encode_utf8(name) + encode_utf8(ending);
    assert(file[0] == encode_utf8(name)[0]);
}

/// Different sessions have different files.
pub proof fn law_session_files_differ(
    dir: Seq<u8>,
    a: Seq<char>,
    b: Seq<char>,
    ending: Seq<char>,
)
    requires
        name::is_session_name(a),
        name::is_session_name(b),
        file_for(dir, a, ending) == file_for(dir, b, ending),
    ensures
        a == b,
{
    lemma_name_bytes(a);
    lemma_name_bytes(b);
    let file_a = encode_utf8(a) + encode_utf8(ending);
    let file_b = encode_utf8(b) + encode_utf8(ending);
    assert(file_a[0] == encode_utf8(a)[0] && file_b[0] == encode_utf8(b)[0]);
    let before: Seq<u8> = if dir.len() > 0 && dir.last() != slash() {
        dir.push(slash())
    } else {
        dir
    };
    assert(file_for(dir, a, ending) == before + file_a);
    assert(file_for(dir, b, ending) == before + file_b);
    assert((before + file_a).skip(before.len() as int) =~= file_a);
    assert((before + file_b).skip(before.len() as int) =~= file_b);
    assert(file_a.take(a.len() as int) =~= encode_utf8(a));
    assert(file_b.take(b.len() as int) =~= encode_utf8(b));
    encode_utf8_decode_utf8(a);
    encode_utf8_decode_utf8(b);
}

/// The file that a record is written to is taken for a record when the directory
/// is read again.
pub proof fn law_record_file_is_found_again(name: Seq<char>)
    requires
        name::is_session_name(name),
    ensures
        ends_in_json(encode_utf8(name) + encode_utf8(".json"@)),
{
    lemma_name_bytes(name);
    lemma_json_bytes();
    let file = encode_utf8(name) + encode_utf8(".json"@);
    assert(file.skip(file.len() - 5) =~= encode_utf8(".json"@));
}

/// A part stands below a directory, behind one slash; a part that is a path from the
/// root stands for itself.
pub proof fn law_parts_are_joined_by_a_slash(base: Seq<u8>, part: Seq<u8>)
    ensures
        part.len() > 0 && part[0] == 0x2f ==> joined(base, part) == part,
        (part.len() == 0 || part[0] != 0x2f) && base.len() > 0 && base.last() != 0x2f ==> joined(
            base,
            part,
        ) == base + seq![0x2fu8] + part,
        (part.len() == 0 || part[0] != 0x2f) && (base.len() == 0 || base.last() == 0x2f)
            ==> joined(base, part) == base + part,
{
    if (part.len() == 0 || part[0] != 0x2f) && base.len() > 0 && base.last() != 0x2f {
        assert(joined(base, part) =~= base + seq![0x2fu8] + part);
    }
}

/// Everything is kept below `stay` in the directory for program state, and that is
/// `.local/state` in the home directory where the environment names no other.
pub proof fn law_state_is_kept_below_home(home: Seq<u8>, dir: Seq<u8>)
    ensures
        state_dir_of(home, Some(dir)) == joined(dir, encode_utf8("stay"@)),
        state_dir_of(home, None) == joined(
            joined(home, encode_utf8(".local/state"@)),
            encode_utf8("stay"@),
        ),
        home.len() > 0 && home.last() != 0x2f ==> state_dir_of(home, None) == home + seq![0x2fu8]
            + encode_utf8(".local/state"@) + seq![0x2fu8] + encode_utf8("stay"@),
{
    reveal_strlit(".local/state");
    reveal_strlit("stay");
    assert(is_ascii_chars(".local/state"@));
    assert(is_ascii_chars("stay"@));
    is_ascii_chars_encode_utf8(".local/state"@);
    is_ascii_chars_encode_utf8("stay"@);
    let inner = encode_utf8(".local/state"@);
    assert(inner.len() == 12 && inner[0] == 0x2e && inner[11] == 0x65);
    assert(encode_utf8("stay"@)[0] == 0x73);
    if home.len() > 0 && home.last() != 0x2f {
        let base = joined(home, inner);
        assert(base =~= home + seq![0x2fu8] + inner);
        assert(base.last() == 0x65);
        assert(state_dir_of(home, None) =~= home + seq![0x2fu8] + inner + seq![0x2fu8]
            + encode_utf8("stay"@));
    }
}

/// A file belongs to a name by its own name: the name and the ending.
pub proof fn law_file_is_named_after_its_session(
    dir: Seq<u8>,
    name: Seq<char>,
    ending: Seq<char>,
)
    ensures
        file_for(dir, name, ending) == joined(dir, encode_utf8(name) + encode_utf8(ending)),
{
}

/// The files that are taken for records are those whose names end in `.json` and have
/// something in front of that.
pub proof fn law_record_files_end_in_json(front: Seq<u8>, file_name: Seq<u8>)
    ensures
        front.len() > 0 ==> ends_in_json(
            front + seq![0x2eu8, 0x6au8, 0x73u8, 0x6fu8, 0x6eu8],
        ),
        !ends_in_json(seq![0x2eu8, 0x6au8, 0x73u8, 0x6fu8, 0x6eu8]),
        ends_in_json(file_name) ==> file_name.len() > 5 && file_name == file_name.take(
            file_name.len() - 5,
        ) + seq![0x2eu8, 0x6au8, 0x73u8, 0x6fu8, 0x6eu8],
{
    let ending = seq![0x2eu8, 0x6au8, 0x73u8, 0x6fu8, 0x6eu8];
    let file = front + ending;
    assert(file.skip(file.len() - 5) =~= ending);
    if ends_in_json(file_name) {
        let before = file_name.take(file_name.len() - 5);
        assert(file_name =~= before + file_name.skip(file_name.len() - 5));
        assert(file_name == before + ending);
    }
}

} // verus!
