//! Where each parameter lands on disk: one file per parameter under a root
//! directory, following the parameter's own path.
use vstd::prelude::*;

use crate::text::{chars_of, copy_string, debug_quoted, debug_text, push_char, string_from_chars};

verus! {

/// Why a parameter name cannot be mapped to a file.
#[derive(Debug)]
pub enum PathError {
    /// The name does not start with '/'.
    NotAbsolute(String),
    /// The name has a `..` segment.
    ParentSegment(String),
}

/// The segment between two slashes (or an end) starting at `i` is `..`.
pub open spec fn parent_segment_at(s: Seq<char>, i: int) -> bool {
    &&& 0 <= i
    &&& i + 2 <= s.len()
    &&& s[i] == '.'
    &&& s[i + 1] == '.'
    &&& (i == 0 || s[i - 1] == '/')
    &&& (i + 2 == s.len() || s[i + 2] == '/')
}

/// Some '/'-separated segment of `s` is `..`.
pub open spec fn has_parent_segment(s: Seq<char>) -> bool {
    exists|i: int| parent_segment_at(s, i)
}

/// A parameter name that may be mirrored: absolute and free of `..` segments.
pub open spec fn valid_name(s: Seq<char>) -> bool {
    s.len() > 0 && s[0] == '/' && !has_parent_segment(s)
}

/// `s` without its leading slashes.
pub open spec fn trim_leading_slashes(s: Seq<char>) -> Seq<char>
    decreases s.len(),
{
    if s.len() > 0 && s[0] == '/' {
        trim_leading_slashes(s.drop_first())
    } else {
        s
    }
}

/// `rel` joined under `root`, with one separator between unless `root` is
/// empty or already ends in '/'.
pub open spec fn join_path(root: Seq<char>, rel: Seq<char>) -> Seq<char> {
    if root.len() == 0 || root.last() == '/' {
        root + rel
    } else {
        root + seq!['/'] + rel
    }
}

/// The file that mirrors parameter `name` under `root`.
pub open spec fn mirror_path(root: Seq<char>, name: Seq<char>) -> Seq<char> {
    join_path(root, trim_leading_slashes(name))
}

proof fn lemma_trim(s: Seq<char>) -> (k: int)
    ensures
        0 <= k <= s.len(),
        trim_leading_slashes(s) == s.skip(k),
        forall|j: int| 0 <= j < k ==> s[j] == '/',
        k < s.len() ==> s[k] != '/',
    decreases s.len(),
{
    if s.len() > 0 && s[0] == '/' {
        let t = s.drop_first();
        let k = lemma_trim(t);
        assert(t.skip(k) =~= s.skip(k + 1));
        assert forall|j: int| 0 <= j < k + 1 implies s[j] == '/' by {
            if j > 0 {
                assert(s[j] == t[j - 1]);
            }
        }
        if k + 1 < s.len() {
            assert(s[k + 1] == t[k]);
        }
        k + 1
    } else {
        assert(s.skip(0) =~= s);
        0
    }
}

/// Mirrored files stay under the root. The file for a name that may be
/// mirrored is the root joined with a relative path (one that does not start
/// with '/') that has no `..` segment.
pub proof fn law_mirror_stays_under_root(root: Seq<char>, name: Seq<char>)
    requires
        valid_name(name),
    ensures
        ({
            let rel = trim_leading_slashes(name);
            &&& mirror_path(root, name) == join_path(root, rel)
            &&& !(rel.len() > 0 && rel[0] == '/')
            &&& !has_parent_segment(rel)
        }),
{
    let k = lemma_trim(name);
    let rel = name.skip(k);
    assert(k >= 1);
    if rel.len() > 0 {
        assert(rel[0] == name[k]);
    }
    if has_parent_segment(rel) {
        let i = choose|i: int| parent_segment_at(rel, i);
        assert(rel[i] == name[i + k]);
        assert(rel[i + 1] == name[i + k + 1]);
        if i > 0 {
            assert(rel[i - 1] == name[i + k - 1]);
        } else {
            assert(name[k - 1] == '/');
        }
        if i + 2 < rel.len() {
            assert(rel[i + 2] == name[i + k + 2]);
        }
        assert(parent_segment_at(name, i + k));
    }
}

/// Checks that a parameter name may be mirrored.
pub fn validate_name(name: &str) -> (r: Result<(), PathError>)
    ensures
        r is Ok <==> valid_name(name@),
        r matches Err(PathError::NotAbsolute(n)) ==> n@ == name@ && !(name@.len() > 0 && name@[0] == '/'),
        r matches Err(PathError::ParentSegment(n)) ==> n@ == name@ && name@.len() > 0 && name@[0] == '/' && has_parent_segment(name@),
{
    let cs = chars_of(name);
    if cs.len() == 0 || cs[0] != '/' {
        return Err(PathError::NotAbsolute(crate::text::owned(name)));
    }
    let mut i: usize = 0;
    while i < cs.len()
        invariant
            cs@ == name@,
            i <= cs.len(),
            cs@.len() > 0 && cs@[0] == '/',
            forall|j: int| 0 <= j < i ==> !parent_segment_at(cs@, j),
        decreases cs.len() - i,
    {
        if i + 1 < cs.len() && cs[i] == '.' && cs[i + 1] == '.' && (i == 0 || cs[i - 1] == '/') && (i + 2 == cs.len()
            || cs[i + 2] == '/') {
            assert(parent_segment_at(cs@, i as int));
            return Err(PathError::ParentSegment(crate::text::owned(name)));
        }
        i = i + 1;
    }
    proof {
        assert forall|j: int| !parent_segment_at(cs@, j) by {
            if j >= i {
                assert(!(j + 2 <= cs@.len()));
            }
        }
    }
    Ok(())
}

/// Mirrors parameters onto disk as one file per parameter under `root`, with
/// the given permission modes for created directories and files.
pub struct FileWriter {
    pub root: String,
    pub dir_mode: u32,
    pub file_mode: u32,
}

impl FileWriter {
    /// A writer rooted at `root`.
    pub fn new(root: String, dir_mode: u32, file_mode: u32) -> (w: Self)
        ensures
            w.root@ == root@,
            w.dir_mode == dir_mode,
            w.file_mode == file_mode,
    {
        FileWriter { root, dir_mode, file_mode }
    }

    /// The file that mirrors parameter `name`: the name with its leading
    /// slashes removed, joined under the root. Fails for a name that is not
    /// absolute or that has a `..` segment.
    pub fn path_for(&self, name: &str) -> (r: Result<String, PathError>)
        ensures
            r is Ok <==> valid_name(name@),
            r matches Ok(p) ==> p@ == mirror_path(self.root@, name@),
            r matches Err(PathError::NotAbsolute(n)) ==> n@ == name@ && !(name@.len() > 0 && name@[0] == '/'),
            r matches Err(PathError::ParentSegment(n)) ==> n@ == name@ && name@.len() > 0 && name@[0] == '/' && has_parent_segment(name@),
    {
        match validate_name(name) {
            Err(e) => {
                return Err(e);
            },
            Ok(()) => {},
        }
        let cs = chars_of(name);
        let mut start: usize = 0;
        assert(cs@.skip(0) =~= cs@);
        while start < cs.len() && cs[start] == '/'
            invariant
                cs@ == name@,
                start <= cs.len(),
                trim_leading_slashes(cs@.skip(start as int)) == trim_leading_slashes(name@),
            decreases cs.len() - start,
        {
            assert(cs@.skip(start as int).drop_first() =~= cs@.skip(start + 1));
            start = start + 1;
        }
        let ghost rel = cs@.skip(start as int);
        assert(trim_leading_slashes(rel) == rel);
        let rc = chars_of(self.root.as_str());
        let mut out = copy_string(&self.root);
        if rc.len() > 0 && rc[rc.len() - 1] != '/' {
            push_char(&mut out, '/');
        }
        let ghost head = out@;
        let mut i: usize = start;
        while i < cs.len()
            invariant
                cs@ == name@,
                start <= i <= cs.len(),
                out@ == head + cs@.subrange(start as int, i as int),
            decreases cs.len() - i,
        {
            push_char(&mut out, cs[i]);
            assert(out@ =~= head + cs@.subrange(start as int, i + 1));
            i = i + 1;
        }
        assert(cs@.subrange(start as int, cs.len() as int) =~= rel);
        assert(out@ =~= join_path(self.root@, rel));
        Ok(out)
    }
}

impl PathError {
    /// A readable description of the error: the name, quoted as `Debug`
    /// quotes it, then the rule it breaks.
    pub fn message(&self) -> (s: String)
        ensures
            s@ == match self {
                PathError::NotAbsolute(n) => "parameter name "@ + debug_quoted(n@) + " must be absolute (start with '/')"@,
                PathError::ParentSegment(n) => "parameter name "@ + debug_quoted(n@) + " must not contain '..' segments"@,
            },
    {
        match self {
            PathError::NotAbsolute(n) => {
                let mut s = String::from_str("parameter name ");
                let q = debug_text(n.as_str());
                s.append(q.as_str());
                s.append(" must be absolute (start with '/')");
                s
            },
            PathError::ParentSegment(n) => {
                let mut s = String::from_str("parameter name ");
                let q = debug_text(n.as_str());
                s.append(q.as_str());
                s.append(" must not contain '..' segments");
                s
            },
        }
    }
}

} // verus!
