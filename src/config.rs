pub use crate::crypto::EncryptionKey;

use crate::archive_path::{all_valid_segments, ArchivePath, PathError};
use crate::local_path::{relative_spec, SanitizedLocalPath};
use crate::rules::{concat_rule_lists, rules_view, Rule, RuleError, Rules};
use vstd::prelude::*;

verus! {

/// The file name of the shadow index inside the platform's data directory.
pub open spec fn db_file_name() -> Seq<char> {
    seq!['/', 'r', 'a', 'm', 'm', 'i', 'n', 'g', 'e', 'n', '.', 'd', 'b']
}

/// A local directory paired with the archive path it is kept in.
#[derive(Clone, Debug)]
pub struct MountPoint {
    pub local_path: SanitizedLocalPath,
    pub archive_path: ArchivePath,
    pub exclude: Vec<Rule>,
}

/// The client's settings.
#[derive(Clone)]
pub struct Config {
    pub always_exclude: Vec<Rule>,
    pub mount_points: Vec<MountPoint>,
    pub encryption_key: EncryptionKey,
    pub server_url: String,
    pub token: String,
    pub salt: String,
    pub local_db_path: Option<String>,
}

/// A copy of a rule list.
pub fn copy_rules(v: &Vec<Rule>) -> (r: Vec<Rule>)
    ensures
        rules_view(r@) == rules_view(v@),
{
    let mut out: Vec<Rule> = Vec::new();
    let mut i: usize = 0;
    while i < v.len()
        invariant
            i <= v@.len(),
            rules_view(out@) == rules_view(v@.take(i as int)),
        decreases v@.len() - i,
    {
        let ghost prev = out@;
        out.push(v[i].duplicate());
        proof {
            assert(rules_view(out@) =~= rules_view(prev).push(v@[i as int]@));
            assert(rules_view(v@.take(i + 1)) =~= rules_view(v@.take(i as int)).push(v@[i as int]@));
        }
        i = i + 1;
    }
    assert(v@.take(v@.len() as int) =~= v@);
    out
}

impl MountPoint {
    /// The archive path of a local path inside this mount point.
    pub fn archive_path_for(&self, local: &SanitizedLocalPath) -> (r: Result<ArchivePath, PathError>)
        requires
            self.archive_path.wf(),
        ensures
            match relative_spec(local@, self.local_path@) {
                None => r == Err::<ArchivePath, PathError>(PathError::NotDescendant),
                Some(rel) => if all_valid_segments(rel) {
                    r matches Ok(p) && p.wf() && p@ == self.archive_path@ + rel
                } else {
                    r == Err::<ArchivePath, PathError>(PathError::InvalidSegment)
                },
            },
    {
        let rel = local.relative_to(&self.local_path)?;
        self.archive_path.join_relative(&rel)
    }
}

impl Config {
    /// The rules for the mount point at `index`: the global rules followed
    /// by the mount point's own, anchored at its local path.
    pub fn rules_for_mount(&self, index: usize) -> (r: Result<Rules, RuleError>)
        requires
            index < self.mount_points@.len(),
        ensures
            r matches Ok(rs) ==> rs.wf() && rs.root_view() == self.mount_points@[index as int].local_path@
                && rs.rule_list() == rules_view(self.always_exclude@) + rules_view(
                self.mount_points@[index as int].exclude@,
            ),
            r is Err ==> exists|i: int|
                0 <= i < rules_view(self.always_exclude@).len() + rules_view(
                    self.mount_points@[index as int].exclude@,
                ).len() && !crate::rules::rule_valid(
                    #[trigger] (rules_view(self.always_exclude@) + rules_view(
                        self.mount_points@[index as int].exclude@,
                    ))[i],
                ),
    {
        let mount = &self.mount_points[index];
        let mut lists: Vec<Vec<Rule>> = Vec::new();
        let first = copy_rules(&self.always_exclude);
        let second = copy_rules(&mount.exclude);
        lists.push(first);
        lists.push(second);
        proof {
            assert(lists@.drop_last().drop_last() =~= Seq::<Vec<Rule>>::empty());
            assert(lists@.drop_last().last() == first);
            assert(lists@.last() == second);
            assert(concat_rule_lists(lists@.drop_last().drop_last()) =~= Seq::<crate::rules::RuleView>::empty());
            assert(concat_rule_lists(lists@.drop_last()) =~= rules_view(first@));
            assert(concat_rule_lists(lists@) =~= rules_view(self.always_exclude@) + rules_view(
                mount.exclude@,
            ));
        }
        match Rules::new(&lists, mount.local_path.duplicate()) {
            Ok(rs) => Ok(rs),
            Err(e) => {
                proof {
                    let RuleError::InvalidPattern(i) = e;
                    assert(!crate::rules::rule_valid(concat_rule_lists(lists@)[i as int]));
                }
                Err(e)
            },
        }
    }

    /// Where the shadow index lives: the configured path, or else
    /// `rammingen.db` in the platform's data directory; `None` where neither
    /// is known.
    pub fn db_path(&self, data_dir: Option<String>) -> (r: Option<String>)
        ensures
            self.local_db_path matches Some(p) ==> r == Some(p),
            self.local_db_path is None ==> match data_dir {
                Some(d) => r matches Some(s) && s@ == d@ + db_file_name(),
                None => r is None,
            },
    {
        match &self.local_db_path {
            Some(p) => Some(p.clone()),
            None => match data_dir {
                Some(d) => {
                    let mut s = d;
                    s.append("/rammingen.db");
                    proof {
                        reveal_strlit("/rammingen.db");
                    }
                    Some(s)
                },
                None => None,
            },
        }
    }
}

} // verus!
