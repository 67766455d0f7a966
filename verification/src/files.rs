//! Stored configuration in files.
//!
//! Each kind of message has a file of its own. A file is replaced in two steps: the
//! new contents go to a temporary file, which is then renamed. The functions here
//! name the files and say what the outcomes of reading and removing them mean; the
//! files themselves are touched elsewhere.

use crate::config::{ConfigError, ConfigKind};
use vstd::prelude::*;
use vstd::string::StringExecFns;

verus! {

impl ConfigKind {
    /// The name of the file, without directory.
    pub fn file_name(self) -> (r: String)
        ensures
            r@ == file_name(self),
    {
        let mut r = String::from_str(self.file_stem());
        r.append(".proto");
        r
    }
}

/// The name of the file of a kind.
pub open spec fn file_name(kind: ConfigKind) -> Seq<char> {
    kind.stem() + ".proto"@
}

/// The name of the temporary file of a kind.
pub open spec fn temp_name(kind: ConfigKind) -> Seq<char> {
    kind.stem() + ".proto.tmp"@
}

/// How a file is replaced: the new contents are written to the first name, which is
/// then renamed to the second.
pub struct Replacement {
    pub write_to: String,
    pub rename_to: String,
}

/// How the file of a kind is replaced.
pub fn replacement(kind: ConfigKind) -> (r: Replacement)
    ensures
        r.write_to@ == temp_name(kind),
        r.rename_to@ == file_name(kind),
{
    let mut write_to = String::from_str(kind.file_stem());
    write_to.append(".proto.tmp");
    Replacement { write_to, rename_to: kind.file_name() }
}

/// What reading a file means. A file that is missing holds no message; `missing`
/// says whether that is why reading failed.
pub fn read_outcome(read: Result<Vec<u8>, std::io::Error>, missing: bool) -> (r: Result<
    Option<Vec<u8>>,
    ConfigError,
>)
    ensures
        match read {
            Ok(bytes) => r matches Ok(Some(b)) && b == bytes,
            Err(e) => if missing {
                r matches Ok(None)
            } else {
                r matches Err(ConfigError::Io(f)) && f == e
            },
        },
{
    match read {
        Ok(bytes) => Ok(Some(bytes)),
        Err(e) => if missing {
            Ok(None)
        } else {
            Err(ConfigError::Io(e))
        },
    }
}

/// What removing a file means. A file that is missing is as good as removed;
/// `missing` says whether that is why removing failed.
pub fn remove_outcome(removed: Result<(), std::io::Error>, missing: bool) -> (r: Result<
    (),
    ConfigError,
>)
    ensures
        match removed {
            Ok(_) => r is Ok,
            Err(e) => if missing {
                r is Ok
            } else {
                r matches Err(ConfigError::Io(f)) && f == e
            },
        },
{
    match removed {
        Ok(_) => Ok(()),
        Err(e) => if missing {
            Ok(())
        } else {
            Err(ConfigError::Io(e))
        },
    }
}

// ---------------------------------------------------------------------------
// Laws
// ---------------------------------------------------------------------------

/// The contents of files by their names.
pub type Files = Map<Seq<char>, Seq<u8>>;

/// What is stored of a kind.
pub open spec fn stored(files: Files, kind: ConfigKind) -> Option<Seq<u8>> {
    if files.contains_key(file_name(kind)) {
        Some(files[file_name(kind)])
    } else {
        None
    }
}

/// The files after `name` was written.
pub open spec fn written(files: Files, name: Seq<char>, bytes: Seq<u8>) -> Files {
    files.insert(name, bytes)
}

/// The files after `from` was renamed to `to`.
pub open spec fn renamed(files: Files, from: Seq<char>, to: Seq<char>) -> Files {
    files.remove(from).insert(to, files[from])
}

/// The files after the file of a kind was replaced.
pub open spec fn replaced(files: Files, kind: ConfigKind, bytes: Seq<u8>) -> Files {
    renamed(written(files, temp_name(kind), bytes), temp_name(kind), file_name(kind))
}

proof fn lemma_reveal_names()
    ensures
        "device"@ =~= seq!['d', 'e', 'v', 'i', 'c', 'e'],
        "nodes"@ =~= seq!['n', 'o', 'd', 'e', 's'],
        "config"@ =~= seq!['c', 'o', 'n', 'f', 'i', 'g'],
        "module"@ =~= seq!['m', 'o', 'd', 'u', 'l', 'e'],
        "channels"@ =~= seq!['c', 'h', 'a', 'n', 'n', 'e', 'l', 's'],
        "uiconfig"@ =~= seq!['u', 'i', 'c', 'o', 'n', 'f', 'i', 'g'],
        ".proto"@ =~= seq!['.', 'p', 'r', 'o', 't', 'o'],
        ".proto.tmp"@ =~= seq!['.', 'p', 'r', 'o', 't', 'o', '.', 't', 'm', 'p'],
{
    reveal_strlit("device");
    reveal_strlit("nodes");
    reveal_strlit("config");
    reveal_strlit("module");
    reveal_strlit("channels");
    reveal_strlit("uiconfig");
    reveal_strlit(".proto");
    reveal_strlit(".proto.tmp");
}

/// No two kinds share a file, and no temporary file is the file of a kind.
pub proof fn lemma_names_distinct(a: ConfigKind, b: ConfigKind)
    ensures
        file_name(a) == file_name(b) ==> a == b,
        temp_name(a) != file_name(b),
{
    lemma_reveal_names();
    let end_a = temp_name(a)[temp_name(a).len() - 1];
    let end_b = file_name(b)[file_name(b).len() - 1];
    assert(end_a == 'p' && end_b == 'o');
    if file_name(a) == file_name(b) {
        assert(kind_letters(a) == kind_letters(b));
    }
}

/// What tells the file names apart: two letters and the length.
spec fn kind_letters(kind: ConfigKind) -> (char, char, nat) {
    (file_name(kind)[0], file_name(kind)[1], file_name(kind).len())
}

/// Replacing a file stores the new message and touches no other kind.
pub proof fn lemma_replaced(files: Files, kind: ConfigKind, other: ConfigKind, bytes: Seq<u8>)
    ensures
        stored(replaced(files, kind, bytes), kind) == Some(bytes),
        other != kind ==> stored(replaced(files, kind, bytes), other) == stored(files, other),
        !replaced(files, kind, bytes).contains_key(temp_name(kind)),
{
    lemma_names_distinct(kind, kind);
    lemma_names_distinct(kind, other);
}

/// Replacing a file that is interrupted while the temporary file is written, however
/// much of it was, or before it is renamed leaves what is stored as it was. What an
/// earlier interruption left behind does not matter to the next replacement.
pub proof fn lemma_interrupted(
    files: Files,
    kind: ConfigKind,
    other: ConfigKind,
    partial: Seq<u8>,
    bytes: Seq<u8>,
)
    ensures
        ({
            let broken = written(files, temp_name(kind), partial);
            &&& stored(broken, other) == stored(files, other)
            &&& replaced(broken, kind, bytes) == replaced(files, kind, bytes)
        }),
{
    lemma_names_distinct(kind, other);
    let broken = written(files, temp_name(kind), partial);
    assert(replaced(broken, kind, bytes) =~= replaced(files, kind, bytes));
}

} // verus!
