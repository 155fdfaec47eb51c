use crate::archive_path::{
    all_valid_segments, is_valid_segment, lemma_split_slash_nonempty, split_at_slashes, split_slash,
    strings_view, PathError,
};
use vstd::prelude::*;

verus! {

/// An absolute local path without NUL characters, as the platform's
/// canonicalization returned it.
pub open spec fn valid_local_path(s: Seq<char>) -> bool {
    &&& s.len() > 0
    &&& s[0] == '/'
    &&& forall|i: int| 0 <= i < s.len() ==> s[i] != '\0'
}

/// The final component of a local path: what follows its last `/`.
pub open spec fn file_name_spec(s: Seq<char>) -> Seq<char> {
    split_slash(s).last()
}

/// `root` with a trailing `/`, the prefix shared by all its descendants.
pub open spec fn dir_prefix(root: Seq<char>) -> Seq<char> {
    if root.len() > 0 && root.last() == '/' {
        root
    } else {
        root.push('/')
    }
}

/// The components of `p` below `root`: none for `root` itself, `None` where
/// `p` is not below `root`.
pub open spec fn relative_spec(p: Seq<char>, root: Seq<char>) -> Option<Seq<Seq<char>>> {
    if p == root {
        Some(Seq::empty())
    } else if p.len() > dir_prefix(root).len() && p.take(dir_prefix(root).len() as int)
        == dir_prefix(root) {
        Some(split_slash(p.skip(dir_prefix(root).len() as int)))
    } else {
        None
    }
}

/// An absolute, canonical local path.
#[derive(Clone, Debug)]
pub struct SanitizedLocalPath {
    path: String,
}

impl View for SanitizedLocalPath {
    type V = Seq<char>;

    closed spec fn view(&self) -> Seq<char> {
        self.path@
    }
}

impl SanitizedLocalPath {
    pub open spec fn wf(&self) -> bool {
        valid_local_path(self@)
    }

    /// Takes a canonicalized path; refuses an empty or relative one, or one
    /// holding NUL.
    pub fn new(s: &str) -> (r: Result<SanitizedLocalPath, PathError>)
        ensures
            valid_local_path(s@) ==> (r matches Ok(p) && p@ == s@ && p.wf()),
            !valid_local_path(s@) ==> r == Err::<SanitizedLocalPath, PathError>(
                PathError::InvalidLocalPath,
            ),
    {
        let n = s.unicode_len();
        if n == 0 || s.get_char(0) != '/' {
            return Err(PathError::InvalidLocalPath);
        }
        let mut i: usize = 0;
        while i < n
            invariant
                n == s@.len(),
                i <= n,
                forall|j: int| 0 <= j < i ==> s@[j] != '\0',
            decreases n - i,
        {
            if s.get_char(i) == '\0' {
                return Err(PathError::InvalidLocalPath);
            }
            i = i + 1;
        }
        Ok(SanitizedLocalPath { path: s.to_owned() })
    }

    /// A copy of this path.
    pub fn duplicate(&self) -> (r: SanitizedLocalPath)
        ensures
            r@ == self@,
    {
        SanitizedLocalPath { path: self.path.clone() }
    }

    /// The path as text.
    pub fn as_str(&self) -> (r: &str)
        ensures
            r@ == self@,
    {
        self.path.as_str()
    }

    /// The final component.
    pub fn file_name(&self) -> (r: String)
        ensures
            r@ == file_name_spec(self@),
    {
        let pieces = split_at_slashes(self.path.as_str());
        proof {
            lemma_split_slash_nonempty(self@);
        }
        let last = pieces.len() - 1;
        proof {
            assert(strings_view(pieces@)[last as int] == pieces@[last as int]@);
        }
        pieces[last].clone()
    }

    /// The components of this path below `root`, in order; fails where this
    /// path is neither `root` nor below it.
    pub fn relative_to(&self, root: &SanitizedLocalPath) -> (r: Result<Vec<String>, PathError>)
        ensures
            match relative_spec(self@, root@) {
                Some(segs) => r matches Ok(v) && strings_view(v@) == segs,
                None => r == Err::<Vec<String>, PathError>(PathError::NotDescendant),
            },
    {
        if self.path == root.path {
            let v: Vec<String> = Vec::new();
            assert(strings_view(v@) =~= Seq::<Seq<char>>::empty());
            return Ok(v);
        }
        let p = self.path.as_str();
        let q = root.path.as_str();
        let pn = p.unicode_len();
        let qn = q.unicode_len();
        let slash_ended = qn > 0 && q.get_char(qn - 1) == '/';
        let plen: usize = if slash_ended {
            qn
        } else {
            if qn >= pn {
                return Err(PathError::NotDescendant);
            }
            qn + 1
        };
        proof {
            if slash_ended {
                assert(dir_prefix(root@) == root@);
            } else {
                assert(dir_prefix(root@) == root@.push('/'));
            }
        }
        if pn <= plen {
            return Err(PathError::NotDescendant);
        }
        let mut i: usize = 0;
        while i < plen
            invariant
                p@ == self@,
                q@ == root@,
                pn == self@.len(),
                qn == root@.len(),
                plen == dir_prefix(root@).len(),
                plen < pn,
                i <= plen,
                forall|j: int| 0 <= j < i ==> self@[j] == dir_prefix(root@)[j],
            decreases plen - i,
        {
            let expected = if i < qn {
                q.get_char(i)
            } else {
                '/'
            };
            if p.get_char(i) != expected {
                proof {
                    assert(self@.take(plen as int)[i as int] != dir_prefix(root@)[i as int]);
                }
                return Err(PathError::NotDescendant);
            }
            i = i + 1;
        }
        assert(self@.take(plen as int) =~= dir_prefix(root@));
        let rest = p.substring_char(plen, pn);
        assert(rest@ =~= self@.skip(plen as int));
        Ok(split_at_slashes(rest))
    }
}

/// Native path components as the segments of a relative archive path;
/// refuses a component that holds `/`, `\` or NUL, is empty, or is `.` or
/// `..`.
pub fn native_to_archive_relative(segments: &Vec<String>) -> (r: Result<Vec<String>, PathError>)
    ensures
        all_valid_segments(strings_view(segments@)) ==> (r matches Ok(v) && v@ == segments@),
        !all_valid_segments(strings_view(segments@)) ==> r == Err::<Vec<String>, PathError>(
            PathError::InvalidSegment,
        ),
{
    let mut out: Vec<String> = Vec::new();
    let mut i: usize = 0;
    while i < segments.len()
        invariant
            i <= segments@.len(),
            out@ == segments@.take(i as int),
            forall|j: int| 0 <= j < i ==> crate::archive_path::valid_segment(#[trigger] segments@[j]@),
        decreases segments@.len() - i,
    {
        if !is_valid_segment(segments[i].as_str()) {
            assert(strings_view(segments@)[i as int] == segments@[i as int]@);
            return Err(PathError::InvalidSegment);
        }
        out.push(segments[i].clone());
        assert(out@ =~= segments@.take(i + 1));
        i = i + 1;
    }
    assert(out@ =~= segments@);
    assert forall|j: int| 0 <= j < segments@.len() implies crate::archive_path::valid_segment(
        #[trigger] strings_view(segments@)[j],
    ) by {
        assert(strings_view(segments@)[j] == segments@[j]@);
    }
    Ok(out)
}

} // verus!
