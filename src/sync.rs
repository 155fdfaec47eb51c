use crate::archive_path::ArchivePath;
use crate::metadata::FileMetadata;
use vstd::prelude::*;
use vstd::set_lib::{lemma_int_range, set_int_range};

verus! {

/// The 32-byte keyed hash of a file's plaintext, as four little-endian
/// 64-bit words.
#[derive(Clone, Copy, Debug, PartialEq, Eq, Structural)]
pub struct ContentHash {
    pub w0: u64,
    pub w1: u64,
    pub w2: u64,
    pub w3: u64,
}

/// What stands at one path: nothing, a directory, or a file with the given
/// content.
#[derive(Clone, Copy, Debug, PartialEq, Eq, Structural)]
pub enum Observed {
    Missing,
    Directory,
    File(ContentHash),
}

/// What an archive entry records of its path.
#[derive(Clone, Copy, Debug)]
pub enum EntryState {
    FilePresent {
        content_hash: ContentHash,
        encrypted_size: u64,
        original_size: u64,
        modified_at: i64,
        unix_mode: Option<u32>,
    },
    DirectoryPresent { modified_at: Option<i64>, unix_mode: Option<u32> },
    Absent,
}

/// One record of the archive log for a path.
#[derive(Clone, Copy, Debug)]
pub struct Entry {
    /// The server's timestamp, which orders all entries.
    pub recorded_at: i64,
    /// The client that sent it.
    pub source_id: u64,
    pub state: EntryState,
}

/// The local record of the last state of a path known to agree with the
/// archive.
#[derive(Clone, Copy, Debug)]
pub struct ShadowRecord {
    pub observed: Observed,
    pub last_seen_archive_recorded_at: i64,
}

/// What one synchronization step does with a path.
#[derive(Clone, Copy, Debug, PartialEq, Eq, Structural)]
pub enum SyncAction {
    /// Local and archive agree; only the shadow record is refreshed.
    InSync,
    /// Only the local side changed: send it to the archive.
    Upload,
    /// Only the archive changed: bring its state to the local side.
    Download,
    /// Both changed: the archive wins, the local version is dropped and the
    /// conflict is reported.
    Conflict,
}

pub open spec fn entry_observed(e: Entry) -> Observed {
    match e.state {
        EntryState::FilePresent { content_hash, .. } => Observed::File(content_hash),
        EntryState::DirectoryPresent { .. } => Observed::Directory,
        EntryState::Absent => Observed::Missing,
    }
}

/// The state the archive holds for a path: that of its current entry, or
/// nothing where it has none.
pub open spec fn remote_observed(remote: Option<Entry>) -> Observed {
    match remote {
        Some(e) => entry_observed(e),
        None => Observed::Missing,
    }
}

/// The state both sides last agreed on: the shadow record's, or nothing.
pub open spec fn base_observed(shadow: Option<ShadowRecord>) -> Observed {
    match shadow {
        Some(s) => s.observed,
        None => Observed::Missing,
    }
}

/// The action for a path whose local state is `local`, whose shadow record
/// is `shadow`, and whose current archive entry is `remote`.
pub open spec fn decide(local: Observed, shadow: Option<ShadowRecord>, remote: Option<Entry>) -> SyncAction {
    let base = base_observed(shadow);
    let theirs = remote_observed(remote);
    if local == theirs {
        SyncAction::InSync
    } else if local != base && theirs == base {
        SyncAction::Upload
    } else if local == base {
        SyncAction::Download
    } else {
        SyncAction::Conflict
    }
}

/// The local state after the action is carried out.
pub open spec fn local_after(action: SyncAction, local: Observed, remote: Option<Entry>) -> Observed {
    match action {
        SyncAction::InSync | SyncAction::Upload => local,
        SyncAction::Download | SyncAction::Conflict => remote_observed(remote),
    }
}

/// The archive state after the action is carried out.
pub open spec fn archive_after(action: SyncAction, local: Observed, remote: Option<Entry>) -> Observed {
    match action {
        SyncAction::Upload => local,
        _ => remote_observed(remote),
    }
}

/// Chooses what to do with one path.
pub fn reconcile(local: Observed, shadow: Option<ShadowRecord>, remote: Option<Entry>) -> (r: SyncAction)
    ensures
        r == decide(local, shadow, remote),
{
    let base = match shadow {
        Some(s) => s.observed,
        None => Observed::Missing,
    };
    let theirs = match remote {
        Some(e) => observed_of_entry(&e),
        None => Observed::Missing,
    };
    if local == theirs {
        SyncAction::InSync
    } else if local != base && theirs == base {
        SyncAction::Upload
    } else if local == base {
        SyncAction::Download
    } else {
        SyncAction::Conflict
    }
}

/// The state an entry records.
pub fn observed_of_entry(e: &Entry) -> (r: Observed)
    ensures
        r == entry_observed(*e),
{
    match e.state {
        EntryState::FilePresent { content_hash, .. } => Observed::File(content_hash),
        EntryState::DirectoryPresent { .. } => Observed::Directory,
        EntryState::Absent => Observed::Missing,
    }
}

/// The shadow record once `action` has been carried out. `recorded_at` is
/// the server's timestamp for the entry an upload created; for the other
/// actions the current archive entry's timestamp is kept.
pub fn shadow_after(
    action: SyncAction,
    local: Observed,
    remote: Option<Entry>,
    recorded_at: i64,
) -> (r: Option<ShadowRecord>)
    ensures
        local_after(action, local, remote) == Observed::Missing ==> r is None,
        local_after(action, local, remote) != Observed::Missing ==> (r matches Some(s) && s.observed
            == local_after(action, local, remote) && s.last_seen_archive_recorded_at == match action {
            SyncAction::Upload => recorded_at,
            _ => match remote {
                Some(e) => e.recorded_at,
                None => recorded_at,
            },
        }),
{
    let observed = match action {
        SyncAction::InSync | SyncAction::Upload => local,
        SyncAction::Download | SyncAction::Conflict => match remote {
            Some(e) => observed_of_entry(&e),
            None => Observed::Missing,
        },
    };
    if observed == Observed::Missing {
        return None;
    }
    let seen = match action {
        SyncAction::Upload => recorded_at,
        _ => match remote {
            Some(e) => e.recorded_at,
            None => recorded_at,
        },
    };
    Some(ShadowRecord { observed, last_seen_archive_recorded_at: seen })
}

/// After any step, the local side, the archive and the new shadow record
/// all hold the same state of the path.
pub proof fn step_leaves_sides_equal(local: Observed, shadow: Option<ShadowRecord>, remote: Option<Entry>)
    ensures
        local_after(decide(local, shadow, remote), local, remote) == archive_after(
            decide(local, shadow, remote),
            local,
            remote,
        ),
{
}

/// A client with no local change since its last agreement with the archive
/// never changes the archive, and ends with the archive's state.
pub proof fn unchanged_client_follows_archive(local: Observed, shadow: Option<ShadowRecord>, remote: Option<Entry>)
    requires
        local == base_observed(shadow),
    ensures
        archive_after(decide(local, shadow, remote), local, remote) == remote_observed(remote),
        local_after(decide(local, shadow, remote), local, remote) == remote_observed(remote),
{
}

/// Two clients converge: client A syncs, then client B syncs against the
/// archive A left, then A syncs again without new local edits; both end with
/// the same state, which is the archive's.
pub proof fn two_clients_converge(
    a_local: Observed,
    a_shadow: Option<ShadowRecord>,
    b_local: Observed,
    b_shadow: Option<ShadowRecord>,
    remote: Option<Entry>,
    after_a: Option<Entry>,
    after_b: Option<Entry>,
    a_shadow2: Option<ShadowRecord>,
)
    requires
        remote_observed(after_a) == archive_after(decide(a_local, a_shadow, remote), a_local, remote),
        base_observed(a_shadow2) == local_after(decide(a_local, a_shadow, remote), a_local, remote),
        remote_observed(after_b) == archive_after(decide(b_local, b_shadow, after_a), b_local, after_a),
    ensures
        local_after(
            decide(base_observed(a_shadow2), a_shadow2, after_b),
            base_observed(a_shadow2),
            after_b,
        ) == local_after(decide(b_local, b_shadow, after_a), b_local, after_a),
        local_after(decide(b_local, b_shadow, after_a), b_local, after_a) == remote_observed(after_b),
{
}

/// The index of the entry that is current at time `t`: the one with the
/// largest timestamp not after `t` (the last such one on a tie), or `None`
/// where every entry is later than `t`.
pub fn current_at(history: &Vec<Entry>, t: i64) -> (r: Option<usize>)
    ensures
        r is None <==> forall|j: int| 0 <= j < history@.len() ==> history@[j].recorded_at > t,
        r matches Some(i) ==> i < history@.len() && history@[i as int].recorded_at <= t && forall|
            j: int,
        |
            0 <= j < history@.len() && history@[j].recorded_at <= t ==> history@[j].recorded_at
                <= history@[i as int].recorded_at,
{
    let mut best: Option<usize> = None;
    let mut i: usize = 0;
    while i < history.len()
        invariant
            i <= history@.len(),
            best is None <==> forall|j: int| 0 <= j < i ==> history@[j].recorded_at > t,
            best matches Some(b) ==> b < i && history@[b as int].recorded_at <= t && forall|j: int|
                0 <= j < i && history@[j].recorded_at <= t ==> history@[j].recorded_at
                    <= history@[b as int].recorded_at,
        decreases history@.len() - i,
    {
        let at = history[i].recorded_at;
        if at <= t {
            match best {
                None => {
                    best = Some(i);
                },
                Some(b) => {
                    if at >= history[b].recorded_at {
                        best = Some(i);
                    }
                },
            }
        }
        i = i + 1;
    }
    best
}

/// The depths of the paths, in order.
pub open spec fn depths(paths: Seq<ArchivePath>) -> Seq<nat> {
    paths.map_values(|p: ArchivePath| p@.len())
}

/// `order` lists every index of `paths` exactly once.
pub open spec fn is_index_permutation(order: Seq<usize>, n: nat) -> bool {
    &&& order.len() == n
    &&& forall|j: int| 0 <= j < order.len() ==> order[j] < n
    &&& forall|j: int, l: int| 0 <= j < l < order.len() ==> order[j] != order[l]
    &&& forall|i: int| 0 <= i < n ==> #[trigger] appears(order, i)
}

/// Index `i` occurs in `order`.
pub open spec fn appears(order: Seq<usize>, i: int) -> bool {
    exists|j: int| 0 <= j < order.len() && order[j] == i
}

/// The order in which to create the given paths: every index once, parents
/// (shorter paths) before their children, equal depths in input order.
pub fn creation_order(paths: &Vec<ArchivePath>) -> (r: Vec<usize>)
    ensures
        is_index_permutation(r@, paths@.len()),
        forall|j: int, l: int|
            0 <= j < l < r@.len() ==> paths@[r@[j] as int]@.len() <= paths@[r@[l] as int]@.len(),
{
    let n = paths.len();
    let mut max_depth: usize = 0;
    let mut i: usize = 0;
    while i < n
        invariant
            n == paths@.len(),
            i <= n,
            forall|m: int| 0 <= m < i ==> paths@[m]@.len() <= max_depth,
        decreases n - i,
    {
        if paths[i].len() > max_depth {
            max_depth = paths[i].len();
        }
        i = i + 1;
    }
    let mut out: Vec<usize> = Vec::new();
    let mut d: usize = 0;
    let mut more = true;
    let ghost mut below: int = 0;
    while more
        invariant
            n == paths@.len(),
            forall|m: int| 0 <= m < n ==> paths@[m]@.len() <= max_depth,
            d <= max_depth,
            more ==> below == d,
            !more ==> below == max_depth + 1,
            forall|j: int| 0 <= j < out@.len() ==> out@[j] < n && paths@[out@[j] as int]@.len() < below,
            forall|j: int, l: int| 0 <= j < l < out@.len() ==> out@[j] != out@[l],
            forall|j: int, l: int|
                0 <= j < l < out@.len() ==> paths@[out@[j] as int]@.len() <= paths@[out@[l] as int]@.len(),
            forall|m: int| 0 <= m < n && paths@[m]@.len() < below ==> #[trigger] appears(out@, m),
        decreases max_depth + 1 - below,
    {
        let mut i: usize = 0;
        while i < n
            invariant
                n == paths@.len(),
                forall|m: int| 0 <= m < n ==> paths@[m]@.len() <= max_depth,
                d <= max_depth,
                i <= n,
                forall|j: int|
                    0 <= j < out@.len() ==> out@[j] < n && (paths@[out@[j] as int]@.len() < d || (
                    paths@[out@[j] as int]@.len() == d && out@[j] < i)),
                forall|j: int, l: int| 0 <= j < l < out@.len() ==> out@[j] != out@[l],
                forall|j: int, l: int|
                    0 <= j < l < out@.len() ==> paths@[out@[j] as int]@.len() <= paths@[out@[l] as int]@.len(),
                forall|m: int|
                    0 <= m < n && (paths@[m]@.len() < d || (paths@[m]@.len() == d && m < i))
                        ==> #[trigger] appears(out@, m),
            decreases n - i,
        {
            if paths[i].len() == d {
                let ghost prev = out@;
                out.push(i);
                proof {
                    assert forall|m: int|
                        0 <= m < n && (paths@[m]@.len() < d || (paths@[m]@.len() == d && m < i + 1)) implies #[trigger] appears(
                        out@,
                        m,
                    ) by {
                        if m == i {
                            assert(out@[prev.len() as int] == m);
                        } else {
                            assert(appears(prev, m));
                            let j = choose|j: int| 0 <= j < prev.len() && prev[j] == m;
                            assert(out@[j] == m);
                        }
                    }
                }
            }
            i = i + 1;
        }
        proof {
            below = d + 1;
        }
        if d == max_depth {
            more = false;
        } else {
            d = d + 1;
        }
    }
    proof {
        assert forall|m: int| 0 <= m < n implies #[trigger] appears(out@, m) by {
            assert(paths@[m]@.len() < below);
        }
        lemma_distinct_indices_len(out@, n as nat);
    }
    out
}

proof fn lemma_distinct_indices_len(order: Seq<usize>, n: nat)
    requires
        forall|j: int| 0 <= j < order.len() ==> order[j] < n,
        forall|j: int, l: int| 0 <= j < l < order.len() ==> order[j] != order[l],
        forall|i: int| 0 <= i < n ==> #[trigger] appears(order, i),
    ensures
        order.len() == n,
{
    let ints = order.map_values(|x: usize| x as int);
    assert(ints.no_duplicates()) by {
        assert forall|j: int, l: int| 0 <= j < ints.len() && 0 <= l < ints.len() && j != l implies ints[j]
            != ints[l] by {
            if j < l {
                assert(order[j] != order[l]);
            } else {
                assert(order[l] != order[j]);
            }
        }
    }
    assert(ints.to_set() =~= set_int_range(0, n as int)) by {
        assert forall|x: int| set_int_range(0, n as int).contains(x) implies ints.to_set().contains(x) by {
            assert(appears(order, x));
            let j = choose|j: int| 0 <= j < order.len() && order[j] == x;
            assert(ints[j] == x);
        }
        assert forall|x: int| ints.to_set().contains(x) implies set_int_range(0, n as int).contains(x) by {
            let j = choose|j: int| 0 <= j < ints.len() && ints[j] == x;
            assert(order[j] < n);
        }
    }
    ints.unique_seq_to_set();
    lemma_int_range(0, n as int);
}

/// The order in which to remove the given paths: every index once,
/// children (longer paths) before their parents.
pub fn removal_order(paths: &Vec<ArchivePath>) -> (r: Vec<usize>)
    ensures
        is_index_permutation(r@, paths@.len()),
        forall|j: int, l: int|
            0 <= j < l < r@.len() ==> paths@[r@[j] as int]@.len() >= paths@[r@[l] as int]@.len(),
{
    let order = creation_order(paths);
    let mut out: Vec<usize> = Vec::new();
    let mut k: usize = order.len();
    while k > 0
        invariant
            k <= order@.len(),
            out@.len() == order@.len() - k,
            forall|j: int| 0 <= j < out@.len() ==> out@[j] == order@[order@.len() - 1 - j],
        decreases k,
    {
        k = k - 1;
        out.push(order[k]);
    }
    proof {
        assert forall|i: int| 0 <= i < paths@.len() implies #[trigger] appears(out@, i) by {
            assert(appears(order@, i));
            let j = choose|j: int| 0 <= j < order@.len() && order@[j] == i;
            assert(out@[order@.len() - 1 - j] == i);
        }
    }
    out
}

/// The cheap signature of a local file, compared before any hashing.
#[derive(Clone, Copy, Debug, PartialEq, Eq)]
pub struct Signature {
    pub size: u64,
    pub modified_at: i64,
    pub unix_mode: Option<u32>,
}

/// How a scanned path changed against its shadow record.
#[derive(Clone, Copy, Debug, PartialEq, Eq, Structural)]
pub enum LocalChange {
    Unchanged,
    Added,
    Modified,
    Removed,
}

/// The signature of an entry's metadata.
pub fn signature_of(m: &FileMetadata) -> (r: Signature)
    ensures
        r.size == m.size,
        r.modified_at == m.modified_at,
        r.unix_mode == m.mode,
{
    Signature { size: m.size, modified_at: m.modified_at, unix_mode: m.mode }
}

/// Whether the recorded signature equals the current one exactly; only
/// then is a file taken as unchanged without hashing it.
pub fn signature_matches(recorded: Option<Signature>, current: &Signature) -> (r: bool)
    ensures
        r == (recorded == Some(*current)),
{
    match recorded {
        None => false,
        Some(s) => {
            let modes_equal = match (s.unix_mode, current.unix_mode) {
                (None, None) => true,
                (Some(a), Some(b)) => a == b,
                _ => false,
            };
            s.size == current.size && s.modified_at == current.modified_at && modes_equal
        },
    }
}

/// How the local state `current` differs from the shadow record.
pub fn local_change(shadow: Option<ShadowRecord>, current: Observed) -> (r: LocalChange)
    ensures
        r == (if base_observed(shadow) == current {
            LocalChange::Unchanged
        } else if base_observed(shadow) == Observed::Missing {
            LocalChange::Added
        } else if current == Observed::Missing {
            LocalChange::Removed
        } else {
            LocalChange::Modified
        }),
{
    let base = match shadow {
        Some(s) => s.observed,
        None => Observed::Missing,
    };
    if base == current {
        LocalChange::Unchanged
    } else if base == Observed::Missing {
        LocalChange::Added
    } else if current == Observed::Missing {
        LocalChange::Removed
    } else {
        LocalChange::Modified
    }
}

/// A page of new entries may be applied: every entry is later than the
/// watermark, and the page is in strictly ascending order of timestamps.
pub open spec fn page_acceptable(watermark: i64, page: Seq<Entry>) -> bool {
    &&& forall|i: int| 0 <= i < page.len() ==> page[i].recorded_at > watermark
    &&& forall|i: int, j: int| 0 <= i < j < page.len() ==> page[i].recorded_at < page[j].recorded_at
}

/// Checks a page of entries fetched after `watermark` and gives the
/// watermark once the page is applied: the last entry's timestamp, or the
/// old watermark for an empty page. `None` refuses the whole page.
pub fn accept_page(watermark: i64, page: &Vec<Entry>) -> (r: Option<i64>)
    ensures
        r is Some <==> page_acceptable(watermark, page@),
        r matches Some(w) ==> w == (if page@.len() == 0 {
            watermark
        } else {
            page@.last().recorded_at
        }),
        r matches Some(w) ==> forall|i: int| 0 <= i < page@.len() ==> page@[i].recorded_at <= w,
{
    let mut last = watermark;
    let mut i: usize = 0;
    while i < page.len()
        invariant
            i <= page@.len(),
            i == 0 ==> last == watermark,
            i > 0 ==> last == page@[i - 1].recorded_at,
            last >= watermark,
            forall|m: int| 0 <= m < i ==> page@[m].recorded_at > watermark && page@[m].recorded_at <= last,
            forall|m: int, l: int| 0 <= m < l < i ==> page@[m].recorded_at < page@[l].recorded_at,
        decreases page@.len() - i,
    {
        let at = page[i].recorded_at;
        if at <= last {
            proof {
                if i > 0 {
                    assert(page@[i - 1].recorded_at >= page@[i as int].recorded_at);
                }
            }
            return None;
        }
        last = at;
        i = i + 1;
    }
    Some(last)
}

} // verus!
