use vstd::prelude::*;

verus! {

/// Why a path was refused.
#[derive(Clone, Copy, Debug, PartialEq, Eq)]
pub enum PathError {
    /// The text does not follow `ar:/segment(/segment)*`.
    InvalidArchivePath,
    /// A segment is empty, is `.` or `..`, or holds `/`, `\` or NUL.
    InvalidSegment,
    /// A local path is empty, not absolute, or holds NUL.
    InvalidLocalPath,
    /// A path does not lie under the root it was taken relative to.
    NotDescendant,
}

/// The marker that starts every archive path.
pub open spec fn archive_prefix() -> Seq<char> {
    seq!['a', 'r', ':', '/']
}

/// A segment of an archive path: non-empty, not `.` or `..`, and free of
/// `/`, `\` and NUL.
pub open spec fn valid_segment(s: Seq<char>) -> bool {
    &&& s.len() > 0
    &&& s != seq!['.']
    &&& s != seq!['.', '.']
    &&& forall|i: int| 0 <= i < s.len() ==> s[i] != '/' && s[i] != '\\' && s[i] != '\0'
}

pub open spec fn all_valid_segments(segs: Seq<Seq<char>>) -> bool {
    forall|i: int| 0 <= i < segs.len() ==> valid_segment(#[trigger] segs[i])
}

/// The pieces of `s` between its `/` characters, in order (`n` slashes give
/// `n + 1` pieces, some of which may be empty).
pub open spec fn split_slash(s: Seq<char>) -> Seq<Seq<char>>
    decreases s.len(),
{
    if s.len() == 0 {
        seq![Seq::empty()]
    } else {
        let prev = split_slash(s.drop_last());
        if s.last() == '/' {
            prev.push(Seq::empty())
        } else {
            prev.update(prev.len() - 1, prev.last().push(s.last()))
        }
    }
}

/// The segments joined with `/`.
pub open spec fn join_slash(segs: Seq<Seq<char>>) -> Seq<char>
    decreases segs.len(),
{
    if segs.len() == 0 {
        Seq::empty()
    } else if segs.len() == 1 {
        segs[0]
    } else {
        join_slash(segs.drop_last()) + seq!['/'] + segs.last()
    }
}

/// The segments of the archive path written as `s`, or `None` where `s` is
/// not one.
pub open spec fn parse_archive_path(s: Seq<char>) -> Option<Seq<Seq<char>>> {
    if s.len() >= 4 && s.take(4) == archive_prefix() && all_valid_segments(
        split_slash(s.skip(4)),
    ) {
        Some(split_slash(s.skip(4)))
    } else {
        None
    }
}

/// The text form of the archive path with these segments.
pub open spec fn render_archive_path(segs: Seq<Seq<char>>) -> Seq<char> {
    archive_prefix() + join_slash(segs)
}

pub open spec fn strings_view(v: Seq<String>) -> Seq<Seq<char>> {
    v.map_values(|s: String| s@)
}

/// Splitting always yields at least one piece.
pub proof fn lemma_split_slash_nonempty(s: Seq<char>)
    ensures
        split_slash(s).len() >= 1,
    decreases s.len(),
{
    if s.len() > 0 {
        lemma_split_slash_nonempty(s.drop_last());
    }
}

/// Splits `s` at its `/` characters.
pub fn split_at_slashes(s: &str) -> (r: Vec<String>)
    ensures
        strings_view(r@) == split_slash(s@),
{
    let n = s.unicode_len();
    let mut segs: Vec<String> = Vec::new();
    let mut start: usize = 0;
    let mut i: usize = 0;
    proof {
        assert(s@.take(0) =~= Seq::<char>::empty());
        assert(strings_view(segs@) + seq![s@.subrange(0, 0)] =~= seq![Seq::<char>::empty()]);
    }
    while i < n
        invariant
            n == s@.len(),
            start <= i <= n,
            strings_view(segs@) + seq![s@.subrange(start as int, i as int)] == split_slash(
                s@.take(i as int),
            ),
        decreases n - i,
    {
        let c = s.get_char(i);
        proof {
            assert(s@.take(i + 1).drop_last() == s@.take(i as int));
            assert(s@.take(i + 1).last() == c);
            lemma_split_slash_nonempty(s@.take(i as int));
        }
        if c == '/' {
            let piece = s.substring_char(start, i).to_owned();
            let ghost prev = segs@;
            segs.push(piece);
            start = i + 1;
            proof {
                assert(strings_view(segs@) =~= strings_view(prev).push(piece@));
                assert(s@.subrange(start as int, i + 1) =~= Seq::<char>::empty());
            }
        } else {
            proof {
                assert(s@.subrange(start as int, i + 1) == s@.subrange(start as int, i as int).push(
                    c,
                ));
            }
        }
        i = i + 1;
    }
    proof {
        assert(s@.take(n as int) == s@);
    }
    let ghost prev = segs@;
    let last = s.substring_char(start, n).to_owned();
    segs.push(last);
    proof {
        assert(strings_view(segs@) =~= strings_view(prev).push(last@));
        assert(strings_view(segs@) =~= split_slash(s@));
    }
    segs
}

/// Whether `s` may stand as one segment of an archive path.
pub fn is_valid_segment(s: &str) -> (r: bool)
    ensures
        r == valid_segment(s@),
{
    let n = s.unicode_len();
    if n == 0 {
        return false;
    }
    if n == 1 && s.get_char(0) == '.' {
        assert(s@ =~= seq!['.']);
        return false;
    }
    if n == 2 && s.get_char(0) == '.' && s.get_char(1) == '.' {
        assert(s@ =~= seq!['.', '.']);
        return false;
    }
    let mut i: usize = 0;
    while i < n
        invariant
            n == s@.len(),
            i <= n,
            forall|j: int| 0 <= j < i ==> s@[j] != '/' && s@[j] != '\\' && s@[j] != '\0',
        decreases n - i,
    {
        let c = s.get_char(i);
        if c == '/' || c == '\\' || c == '\0' {
            return false;
        }
        i = i + 1;
    }
    proof {
        if n == 1 {
            assert(s@ != seq!['.']) by {
                if s@ == seq!['.'] {
                    assert(s@[0] == '.');
                }
            }
        }
        if n == 2 {
            assert(s@ != seq!['.', '.']) by {
                if s@ == seq!['.', '.'] {
                    assert(s@[0] == '.' && s@[1] == '.');
                }
            }
        }
    }
    true
}

/// A path in the archive namespace: `ar:/` followed by one or more valid
/// segments separated by `/`.
#[derive(Clone, Debug)]
pub struct ArchivePath {
    segments: Vec<String>,
}

impl View for ArchivePath {
    type V = Seq<Seq<char>>;

    closed spec fn view(&self) -> Seq<Seq<char>> {
        strings_view(self.segments@)
    }
}

impl ArchivePath {
    /// At least one segment, each of them valid.
    pub open spec fn wf(&self) -> bool {
        self@.len() >= 1 && all_valid_segments(self@)
    }

    /// Parses the text form `ar:/a/b`.
    pub fn parse(s: &str) -> (r: Result<ArchivePath, PathError>)
        ensures
            match parse_archive_path(s@) {
                Some(segs) => r matches Ok(p) && p@ == segs && p.wf(),
                None => r == Err::<ArchivePath, PathError>(PathError::InvalidArchivePath),
            },
    {
        let n = s.unicode_len();
        if n < 4 {
            return Err(PathError::InvalidArchivePath);
        }
        let head = s.substring_char(0, 4);
        proof {
            reveal_strlit("ar:/");
        }
        if !(head.get_char(0) == 'a' && head.get_char(1) == 'r' && head.get_char(2) == ':'
            && head.get_char(3) == '/') {
            proof {
                if s@.take(4) == archive_prefix() {
                    assert(head@ == s@.take(4));
                    assert(head@[0] == 'a' && head@[1] == 'r' && head@[2] == ':' && head@[3] == '/');
                }
            }
            return Err(PathError::InvalidArchivePath);
        }
        assert(s@.take(4) =~= archive_prefix());
        let rest = s.substring_char(4, n);
        assert(rest@ =~= s@.skip(4));
        let segments = split_at_slashes(rest);
        let mut i: usize = 0;
        while i < segments.len()
            invariant
                i <= segments@.len(),
                strings_view(segments@) == split_slash(s@.skip(4)),
                forall|j: int| 0 <= j < i ==> valid_segment(#[trigger] segments@[j]@),
            decreases segments@.len() - i,
        {
            if !is_valid_segment(segments[i].as_str()) {
                proof {
                    assert(strings_view(segments@)[i as int] == segments@[i as int]@);
                }
                return Err(PathError::InvalidArchivePath);
            }
            i = i + 1;
        }
        proof {
            lemma_split_slash_nonempty(s@.skip(4));
            assert forall|j: int| 0 <= j < strings_view(segments@).len() implies valid_segment(
                #[trigger] strings_view(segments@)[j],
            ) by {
                assert(valid_segment(segments@[j]@));
            }
        }
        Ok(ArchivePath { segments })
    }

    /// The path made of these segments.
    pub(crate) fn from_valid_segments(segments: Vec<String>) -> (r: ArchivePath)
        requires
            segments@.len() >= 1,
            all_valid_segments(strings_view(segments@)),
        ensures
            r@ == strings_view(segments@),
            r.wf(),
    {
        ArchivePath { segments }
    }

    /// The number of segments below `ar:/`.
    pub fn len(&self) -> (r: usize)
        ensures
            r == self@.len(),
    {
        self.segments.len()
    }

    /// The segment at `i`.
    pub fn segment(&self, i: usize) -> (r: &str)
        requires
            i < self@.len(),
        ensures
            r@ == self@[i as int],
    {
        self.segments[i].as_str()
    }

    /// The text form: `ar:/` and the segments joined with `/`.
    pub fn to_text(&self) -> (r: String)
        requires
            self.wf(),
        ensures
            r@ == render_archive_path(self@),
    {
        let mut out = String::from_str("ar:/");
        proof {
            reveal_strlit("ar:/");
        }
        let mut i: usize = 0;
        while i < self.segments.len()
            invariant
                self.wf(),
                i <= self@.len(),
                out@ == archive_prefix() + join_slash(self@.take(i as int)),
            decreases self@.len() - i,
        {
            let ghost before = out@;
            if i > 0 {
                out.append("/");
                proof {
                    reveal_strlit("/");
                }
            }
            out.append(self.segments[i].as_str());
            proof {
                let t = self@.take(i + 1);
                assert(t.drop_last() =~= self@.take(i as int));
                assert(self@[i as int] == self.segments@[i as int]@);
                if i == 0 {
                    assert(join_slash(self@.take(0)) =~= Seq::<char>::empty());
                    assert(out@ =~= archive_prefix() + join_slash(t));
                } else {
                    assert(out@ =~= archive_prefix() + join_slash(t));
                }
            }
            i = i + 1;
        }
        assert(self@.take(self@.len() as int) =~= self@);
        out
    }

    /// This path with one more segment below it.
    pub fn join_segment(&self, segment: &str) -> (r: Result<ArchivePath, PathError>)
        requires
            self.wf(),
        ensures
            valid_segment(segment@) ==> (r matches Ok(p) && p@ == self@.push(segment@) && p.wf()),
            !valid_segment(segment@) ==> r == Err::<ArchivePath, PathError>(
                PathError::InvalidSegment,
            ),
    {
        if !is_valid_segment(segment) {
            return Err(PathError::InvalidSegment);
        }
        let mut segments = copy_strings(&self.segments, self.segments.len());
        segments.push(segment.to_owned());
        proof {
            assert(strings_view(segments@) =~= self@.push(segment@));
        }
        Ok(ArchivePath { segments })
    }

    /// The path one segment up, or `None` for a path of a single segment.
    pub fn parent(&self) -> (r: Option<ArchivePath>)
        requires
            self.wf(),
        ensures
            self@.len() == 1 ==> r is None,
            self@.len() > 1 ==> (r matches Some(p) && p@ == self@.drop_last() && p.wf()),
    {
        let n = self.segments.len();
        if n <= 1 {
            return None;
        }
        let segments = copy_strings(&self.segments, n - 1);
        proof {
            assert(strings_view(segments@) =~= self@.drop_last());
        }
        Some(ArchivePath { segments })
    }

    /// Whether `base` is this path or one of its ancestors.
    pub fn starts_with(&self, base: &ArchivePath) -> (r: bool)
        ensures
            r == (base@.len() <= self@.len() && self@.take(base@.len() as int) == base@),
    {
        if base.segments.len() > self.segments.len() {
            return false;
        }
        let mut i: usize = 0;
        while i < base.segments.len()
            invariant
                base@.len() <= self@.len(),
                i <= base@.len(),
                forall|j: int| 0 <= j < i ==> self@[j] == base@[j],
            decreases base@.len() - i,
        {
            if self.segments[i] != base.segments[i] {
                assert(self@.take(base@.len() as int)[i as int] != base@[i as int]);
                return false;
            }
            i = i + 1;
        }
        assert(self@.take(base@.len() as int) =~= base@);
        true
    }

    /// The segments of this path below `base`, or `None` where `base` is not
    /// this path or one of its ancestors.
    pub fn strip_prefix(&self, base: &ArchivePath) -> (r: Option<Vec<String>>)
        ensures
            base@.len() <= self@.len() && self@.take(base@.len() as int) == base@ ==> (r matches Some(
                rel,
            ) && strings_view(rel@) == self@.skip(base@.len() as int)),
            !(base@.len() <= self@.len() && self@.take(base@.len() as int) == base@) ==> r is None,
    {
        if !self.starts_with(base) {
            return None;
        }
        let mut rel: Vec<String> = Vec::new();
        let mut i: usize = base.segments.len();
        while i < self.segments.len()
            invariant
                base@.len() <= i <= self@.len(),
                strings_view(rel@) == self@.subrange(base@.len() as int, i as int),
            decreases self@.len() - i,
        {
            let ghost prev = rel@;
            rel.push(self.segments[i].clone());
            proof {
                assert(rel@ =~= prev.push(self.segments@[i as int]));
                assert(strings_view(rel@) =~= strings_view(prev).push(self@[i as int]));
                assert(strings_view(rel@) =~= self@.subrange(base@.len() as int, i + 1));
            }
            i = i + 1;
        }
        assert(self@.subrange(base@.len() as int, self@.len() as int) =~= self@.skip(
            base@.len() as int,
        ));
        Some(rel)
    }

    /// This path with the relative segments `rel` appended below it.
    pub fn join_relative(&self, rel: &Vec<String>) -> (r: Result<ArchivePath, PathError>)
        requires
            self.wf(),
        ensures
            all_valid_segments(strings_view(rel@)) ==> (r matches Ok(p) && p@ == self@ + strings_view(
                rel@,
            ) && p.wf()),
            !all_valid_segments(strings_view(rel@)) ==> r == Err::<ArchivePath, PathError>(
                PathError::InvalidSegment,
            ),
    {
        let mut segments = copy_strings(&self.segments, self.segments.len());
        let mut i: usize = 0;
        while i < rel.len()
            invariant
                self.wf(),
                i <= rel@.len(),
                strings_view(segments@) == self@ + strings_view(rel@.take(i as int)),
                all_valid_segments(strings_view(rel@.take(i as int))),
            decreases rel@.len() - i,
        {
            if !is_valid_segment(rel[i].as_str()) {
                proof {
                    assert(strings_view(rel@)[i as int] == rel@[i as int]@);
                }
                return Err(PathError::InvalidSegment);
            }
            let ghost prev = segments@;
            segments.push(rel[i].clone());
            proof {
                assert(rel@.take(i + 1) =~= rel@.take(i as int).push(rel@[i as int]));
                assert(strings_view(rel@.take(i + 1)) =~= strings_view(rel@.take(i as int)).push(
                    rel@[i as int]@,
                ));
                assert(segments@ =~= prev.push(rel@[i as int]));
                assert(strings_view(segments@) =~= strings_view(prev).push(rel@[i as int]@));
                assert(strings_view(segments@) =~= self@ + strings_view(rel@.take(i + 1)));
            }
            i = i + 1;
        }
        assert(rel@.take(rel@.len() as int) =~= rel@);
        proof {
            let v = strings_view(segments@);
            assert forall|j: int| 0 <= j < v.len() implies valid_segment(#[trigger] v[j]) by {
                if j < self@.len() {
                    assert(v[j] == self@[j]);
                } else {
                    assert(v[j] == strings_view(rel@)[j - self@.len()]);
                }
            }
        }
        Ok(ArchivePath { segments })
    }
}

/// The first `n` strings of `v`, copied.
fn copy_strings(v: &Vec<String>, n: usize) -> (r: Vec<String>)
    requires
        n <= v@.len(),
    ensures
        r@ == v@.take(n as int),
{
    let mut out: Vec<String> = Vec::new();
    let mut i: usize = 0;
    while i < n
        invariant
            n <= v@.len(),
            i <= n,
            out@ == v@.take(i as int),
        decreases n - i,
    {
        out.push(v[i].clone());
        assert(out@ =~= v@.take(i + 1));
        i = i + 1;
    }
    out
}

} // verus!
