//! What the document loader decides: which paths are text notes, and
//! how loading can fail. The directory walk itself is I/O and lives with
//! the caller; it hands paths and contents in and takes documents back.

use vstd::prelude::*;
use vstd::string::StrSliceExecFns;

verus! {

/// How loading a notes directory fails. Failures of single files are
/// not represented: the loader either rejects the directory outright or
/// reports the underlying I/O error.
#[derive(Debug, PartialEq, Eq, Structural)]
pub enum IngestError {
    /// The given path is not a directory.
    NotDirectory,
    /// Reading the directory or one of its files failed.
    Io,
}

impl IngestError {
    /// A short human-readable description.
    pub fn message(&self) -> (m: &'static str)
        ensures
            self is NotDirectory ==> m@ == "path is not a directory"@,
            self is Io ==> m@ == "could not read the directory"@,
    {
        match self {
            IngestError::NotDirectory => "path is not a directory",
            IngestError::Io => "could not read the directory",
        }
    }
}

/// The final `/`-separated component of a path. A path that ends in a
/// separator has an empty file name.
pub open spec fn file_name_of(s: Seq<char>) -> Seq<char>
    decreases s.len(),
{
    if s.len() == 0 || s.last() == '/' {
        Seq::empty()
    } else {
        file_name_of(s.drop_last()).push(s.last())
    }
}

/// Whether a path names a text note: its file name ends in `.txt` or
/// `.md`, with at least one character before the dot (a file name that
/// is nothing but the extension, like a hidden file, does not count).
pub open spec fn is_text_path(s: Seq<char>) -> bool {
    let f = file_name_of(s);
    ||| (f.len() > 4 && f[f.len() - 4] == '.' && f[f.len() - 3] == 't' && f[f.len() - 2] == 'x'
        && f[f.len() - 1] == 't')
    ||| (f.len() > 3 && f[f.len() - 3] == '.' && f[f.len() - 2] == 'm' && f[f.len() - 1] == 'd')
}

/// Past the last separator, the file name is the rest of the path.
proof fn lemma_file_name_skip(s: Seq<char>, start: int)
    requires
        0 <= start <= s.len(),
        forall|k: int| start <= k < s.len() ==> s[k] != '/',
        start > 0 ==> s[start - 1] == '/',
    ensures
        file_name_of(s) =~= s.skip(start),
    decreases s.len(),
{
    if s.len() == start {
        if start > 0 {
            assert(s.last() == '/');
        }
    } else {
        assert(s[s.len() - 1] != '/');
        lemma_file_name_skip(s.drop_last(), start);
        assert(s.drop_last().skip(start).push(s.last()) =~= s.skip(start));
    }
}

/// Whether `path` names a text note (`.txt` or `.md`).
pub fn has_text_extension(path: &str) -> (r: bool)
    ensures
        r == is_text_path(path@),
{
    let n: usize = path.unicode_len();
    let mut start: usize = 0;
    let mut i: usize = 0;
    while i < n
        invariant
            i <= n,
            n == path@.len(),
            start <= i,
            forall|k: int| start <= k < i ==> path@[k] != '/',
            start > 0 ==> path@[start - 1] == '/',
        decreases n - i,
    {
        if path.get_char(i) == '/' {
            start = i + 1;
        }
        i = i + 1;
    }
    proof {
        lemma_file_name_skip(path@, start as int);
        assert(file_name_of(path@).len() == n - start);
        assert(forall|k: int|
            0 <= k < n - start ==> file_name_of(path@)[k] == path@[k + start]);
    }
    let is_txt = n - start >= 5 && path.get_char(n - 4) == '.' && path.get_char(n - 3) == 't'
        && path.get_char(n - 2) == 'x' && path.get_char(n - 1) == 't';
    let is_md = n - start >= 4 && path.get_char(n - 3) == '.' && path.get_char(n - 2) == 'm'
        && path.get_char(n - 1) == 'd';
    is_txt || is_md
}

} // verus!
