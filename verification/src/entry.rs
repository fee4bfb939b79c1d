//! The typed record for one immediate child of a scanned directory, and the
//! verified construction of that record from plain filesystem facts.
//!
//! The caller that enumerates the directory hands over, for each child, the
//! raw entry name, whether it is a directory, its size (files only, when
//! known) and its modification time (when known). [`make_entry`] derives the
//! hidden flag and the extension from the name alone.

use vstd::prelude::*;

verus! {

/// What the filesystem metadata reports a child to be.
#[derive(Clone, Copy, Debug, PartialEq, Eq, Structural)]
pub enum EntryKind {
    File,
    Directory,
}

/// One immediate child of the scanned directory, immutable once constructed.
#[derive(Clone, Debug, PartialEq, Eq)]
pub struct DirectoryEntry {
    /// Raw entry name as returned by the filesystem, not path-joined.
    pub name: String,
    /// File or directory; anything else is resolved to whichever of the two
    /// the metadata call reports.
    pub kind: EntryKind,
    /// The portion of the name after its last `.`, kept in original case;
    /// absent for directories and for names without an extension dot.
    pub extension: Option<String>,
    /// Size in bytes, present only for files; absent for directories.
    pub size_bytes: Option<u64>,
    /// Modification time in seconds since the epoch; absent when the
    /// filesystem cannot report it (never fatal).
    pub modified_at: Option<u64>,
    /// True exactly when the name starts with `.`.
    pub is_hidden: bool,
}

/// The one error class of the collection stage: the scanned path could not be
/// opened as a directory, or a child's metadata could not be read. Collection
/// fails as a whole; no summary is built from a partial read.
#[derive(Clone, Debug, PartialEq, Eq)]
pub struct FilesystemError {
    /// A human-readable description of the failed filesystem operation.
    pub message: String,
}

impl FilesystemError {
    /// Wraps a description of the failed operation.
    pub fn new(message: String) -> (r: FilesystemError)
        ensures
            r.message == message,
    {
        FilesystemError { message }
    }

    /// The description the error was built with.
    pub fn describe(&self) -> (r: String)
        ensures
            r@ == self.message@,
    {
        let m: &str = self.message.as_str();
        String::from_str(m)
    }
}

/// The index of the last `.` in `s` among positions `1 .. j`, or `0` when no
/// such position holds a dot. Position `0` never counts: a leading dot marks
/// a hidden name, not an extension.
pub open spec fn last_dot_from(s: Seq<char>, j: int) -> int
    decreases j,
{
    if j <= 1 {
        0
    } else if s[j - 1] == '.' {
        j - 1
    } else {
        last_dot_from(s, j - 1)
    }
}

/// The index of the last extension dot of a name, or `0` when there is none.
pub open spec fn last_dot(s: Seq<char>) -> int {
    last_dot_from(s, s.len() as int)
}

/// The extension of a file name: the suffix after the last dot, when at
/// least one character precedes that dot. `.env` has none (the dot is the
/// first character), `a.` has the empty extension, `archive.tar.gz` has
/// `gz`.
pub open spec fn ext_of(s: Seq<char>) -> Option<Seq<char>> {
    if last_dot(s) >= 1 {
        Some(s.subrange(last_dot(s) + 1, s.len() as int))
    } else {
        None
    }
}

/// A name is hidden exactly when it starts with a dot.
pub open spec fn hidden_of(s: Seq<char>) -> bool {
    s.len() > 0 && s[0] == '.'
}

/// The view of an optional string as an optional character sequence.
pub open spec fn opt_str_view(o: Option<String>) -> Option<Seq<char>> {
    match o {
        Some(s) => Some(s@),
        None => None,
    }
}

/// Every entry the library constructs satisfies this shape invariant:
/// directories carry neither a size nor an extension, and the hidden flag
/// and extension agree with the name.
pub open spec fn entry_wf(e: DirectoryEntry) -> bool {
    &&& e.is_hidden == hidden_of(e.name@)
    &&& (e.kind is Directory ==> e.size_bytes is None && e.extension is None)
    &&& (e.kind is File ==> opt_str_view(e.extension) == ext_of(e.name@))
}

/// Builds the record for one directory child from the facts the filesystem
/// reports: the raw name, whether the child is a directory, its size when it
/// is a file of known size, and its modification time when known. The hidden
/// flag and the extension are derived from the name; directories get neither
/// a size nor an extension.
pub fn make_entry(
    name: String,
    is_dir: bool,
    size_bytes: Option<u64>,
    modified_at: Option<u64>,
) -> (r: DirectoryEntry)
    ensures
        r.name == name,
        r.kind == (if is_dir {
            EntryKind::Directory
        } else {
            EntryKind::File
        }),
        r.is_hidden == hidden_of(name@),
        r.size_bytes == (if is_dir {
            Option::<u64>::None
        } else {
            size_bytes
        }),
        r.modified_at == modified_at,
        opt_str_view(r.extension) == (if is_dir {
            Option::<Seq<char>>::None
        } else {
            ext_of(name@)
        }),
        entry_wf(r),
{
    let n: usize = name.as_str().unicode_len();
    let is_hidden = if n > 0 {
        name.as_str().get_char(0) == '.'
    } else {
        false
    };
    let extension: Option<String> = if is_dir {
        None
    } else {
        find_extension(name.as_str())
    };
    DirectoryEntry {
        name,
        kind: if is_dir {
            EntryKind::Directory
        } else {
            EntryKind::File
        },
        extension,
        size_bytes: if is_dir {
            None
        } else {
            size_bytes
        },
        modified_at,
        is_hidden,
    }
}

/// The suffix of `s` after its last extension dot, or nothing when the name
/// has no extension dot.
fn find_extension(s: &str) -> (r: Option<String>)
    ensures
        opt_str_view(r) == ext_of(s@),
{
    let n: usize = s.unicode_len();
    let mut j: usize = n;
    while j > 1
        invariant
            n == s@.len(),
            j <= n,
            last_dot(s@) == last_dot_from(s@, j as int),
        decreases j,
    {
        let c = s.get_char(j - 1);
        if c == '.' {
            let sub = s.substring_char(j, n);
            let ext = String::from_str(sub);
            proof {
                assert(last_dot(s@) == j - 1);
                assert(ext@ =~= s@.subrange(last_dot(s@) + 1, s@.len() as int));
            }
            return Some(ext);
        }
        j = j - 1;
    }
    None
}

} // verus!
