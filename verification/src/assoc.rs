//! The controller's association manager as the limits report reads it: per QOS, its
//! limits and the usage counted against them, by user, by account and in total.
use vstd::prelude::*;
use crate::tres_map::{NameMap, TresMap};
use std::collections::HashMap;

verus! {

/// What one user, one account, or a whole QOS has running, as the controller counts it.
#[derive(Debug)]
pub struct Usage {
    pub jobs: u32,
    pub submitted_jobs: u32,
    /// Keyed by TRES name as the controller names it, e.g. "cpu", "node", "gres/gpu"
    pub tres: TresMap,
}

impl Default for Usage {
    fn default() -> (u: Usage)
        ensures
            u.jobs == 0,
            u.submitted_jobs == 0,
            u.tres.wf(),
            u.tres@ == Map::<Seq<char>, u64>::empty(),
    {
        Usage { jobs: 0, submitted_jobs: 0, tres: TresMap::new() }
    }
}

/// A count read as a `u32`, capped at `u32::MAX`.
pub open spec fn capped(v: u64) -> u32 {
    if v <= u32::MAX {
        v as u32
    } else {
        u32::MAX
    }
}

/// The count `tres` holds for `name`, capped at `u32::MAX`; zero where it holds none.
pub open spec fn tres_count_of(tres: Map<Seq<char>, u64>, name: Seq<char>) -> u32 {
    if tres.contains_key(name) {
        capped(tres[name])
    } else {
        0
    }
}

impl Usage {
    /// A copy of this usage.
    pub fn duplicate(&self) -> (u: Usage)
        ensures
            u.jobs == self.jobs,
            u.submitted_jobs == self.submitted_jobs,
            u.tres@ == self.tres@,
            u.tres.wf() == self.tres.wf(),
    {
        Usage { jobs: self.jobs, submitted_jobs: self.submitted_jobs, tres: self.tres.duplicate() }
    }

    /// A TRES count by Slurm's name for it. Typed GRES are separate entries, so asking for
    /// "gres/gpu" gives the total rather than double counting per-model counts alongside it.
    pub fn tres_count(&self, name: &str) -> (n: u32)
        requires
            self.tres.wf(),
        ensures
            n == tres_count_of(self.tres@, name@),
    {
        match self.tres.get(name) {
            Some(v) => if v <= u32::MAX as u64 {
                v as u32
            } else {
                u32::MAX
            },
            None => 0,
        }
    }

    pub fn cores(&self) -> (n: u32)
        requires
            self.tres.wf(),
        ensures
            n == tres_count_of(self.tres@, "cpu"@),
    {
        self.tres_count("cpu")
    }

    pub fn nodes(&self) -> (n: u32)
        requires
            self.tres.wf(),
        ensures
            n == tres_count_of(self.tres@, "node"@),
    {
        self.tres_count("node")
    }

    pub fn gpus(&self) -> (n: u32)
        requires
            self.tres.wf(),
        ensures
            n == tres_count_of(self.tres@, "gres/gpu"@),
    {
        self.tres_count("gres/gpu")
    }
}

/// A user as the controller knows them.
#[derive(Debug)]
pub struct UserRecord {
    pub name: String,
    pub uid: u32,
    /// The account a job lands in when it does not name one
    pub default_account: Option<String>,
}

/// A QOS's limits. An absent entry is no limit; a zero is a limit of zero, which permits
/// nothing, so the two are kept apart.
#[derive(Debug)]
pub struct QosLimits {
    pub max_jobs_per_user: Option<u32>,
    pub max_submit_jobs_per_user: Option<u32>,
    /// MaxTRESPU, keyed by TRES name
    pub max_tres_per_user: TresMap,
    /// GrpTRES, the limit over everyone in the QOS
    pub group_tres: TresMap,
}

/// One QOS, with its limits and the usage counted against them.
#[derive(Debug)]
pub struct QosUsage {
    pub name: String,
    pub limits: QosLimits,
    /// Usage by everyone in the QOS, which is what GrpTRES limits are measured against
    pub group: Usage,
    /// Usage per user, which is what MaxTRESPU and MaxJobsPU are measured against
    pub per_user: HashMap<u32, Usage>,
    /// Usage per account, keyed by account name
    pub per_account: NameMap<Usage>,
}

impl QosUsage {
    /// What `uid` has running against this QOS; absent means nothing at all.
    pub fn user(&self, uid: u32) -> (u: Usage)
        ensures
            self.per_user@.contains_key(uid) ==> {
                &&& u.jobs == self.per_user@[uid].jobs
                &&& u.submitted_jobs == self.per_user@[uid].submitted_jobs
                &&& u.tres@ == self.per_user@[uid].tres@
                &&& u.tres.wf() == self.per_user@[uid].tres.wf()
            },
            !self.per_user@.contains_key(uid) ==> u.jobs == 0 && u.submitted_jobs == 0 && u.tres.wf()
                && u.tres@ == Map::<Seq<char>, u64>::empty(),
    {
        broadcast use vstd::std_specs::hash::group_hash_axioms;
        match self.per_user.get(&uid) {
            Some(u) => u.duplicate(),
            None => Usage::default(),
        }
    }

    /// What `account` has running against this QOS; absent means nothing at all.
    pub fn account(&self, account: &str) -> (u: Usage)
        requires
            self.per_account.wf(),
        ensures
            self.per_account@.contains_key(account@) ==> {
                &&& u.jobs == self.per_account@[account@].jobs
                &&& u.submitted_jobs == self.per_account@[account@].submitted_jobs
                &&& u.tres@ == self.per_account@[account@].tres@
                &&& u.tres.wf() == self.per_account@[account@].tres.wf()
            },
            !self.per_account@.contains_key(account@) ==> u.jobs == 0 && u.submitted_jobs == 0
                && u.tres.wf() && u.tres@ == Map::<Seq<char>, u64>::empty(),
    {
        match self.per_account.get_ref(account) {
            Some(u) => u.duplicate(),
            None => Usage::default(),
        }
    }
}

/// The map a TRES array makes: the value at each position under the name at that
/// position, the names and values paired as far as both go, those `keep` refuses left
/// out, a later name replacing an earlier one of the same name.
pub open spec fn paired_map(names: Seq<Seq<char>>, values: Seq<u64>, keep: spec_fn(u64) -> bool) -> Map<Seq<char>, u64>
    decreases names.len(),
{
    let n = if names.len() <= values.len() {
        names.len()
    } else {
        values.len()
    };
    if n == 0 {
        Map::empty()
    } else {
        let init = paired_map(names.take(n - 1), values.take(n - 1), keep);
        if keep(values[n - 1]) {
            init.insert(names[n - 1], values[n - 1])
        } else {
            init
        }
    }
}

/// Whether a TRES limit is set: Slurm marks an unset limit INFINITE64 (or NO_VAL64) rather
/// than leaving it out, so those drop and genuine zeroes stay.
pub open spec fn limit_set() -> spec_fn(u64) -> bool {
    |v: u64| v < u64::MAX - 1
}

/// Whether a counter counts something: zeroes drop so callers only see what is in use.
pub open spec fn count_nonzero() -> spec_fn(u64) -> bool {
    |v: u64| v != 0
}

fn paired_map_exec(values: &[u64], names: &[String], limits: bool) -> (m: TresMap)
    ensures
        m.wf(),
        m@ == paired_map(names.deep_view(), values@, if limits { limit_set() } else { count_nonzero() }),
{
    let ghost keep = if limits { limit_set() } else { count_nonzero() };
    let n = if names.len() <= values.len() {
        names.len()
    } else {
        values.len()
    };
    let mut m = TresMap::new();
    let mut i: usize = 0;
    while i < n
        invariant
            i <= n,
            n <= names@.len(),
            n <= values@.len(),
            keep == (if limits { limit_set() } else { count_nonzero() }),
            m.wf(),
            m@ == paired_map(names.deep_view().take(i as int), values@.take(i as int), keep),
        decreases n - i,
    {
        let v = values[i];
        let kept = if limits {
            v < u64::MAX - 1
        } else {
            v != 0
        };
        let ghost nm = names.deep_view().take(i + 1);
        let ghost vs = values@.take(i + 1);
        assert(nm.take(i as int) =~= names.deep_view().take(i as int));
        assert(vs.take(i as int) =~= values@.take(i as int));
        assert(nm[i as int] == names@[i as int]@);
        if kept {
            let name = crate::text::string_of(&crate::text::chars_of(names[i].as_str()));
            m.insert(name, v);
        }
        i = i + 1;
    }
    proof {
        assert(names.deep_view().take(n as int) =~= names.deep_view().take(names.deep_view().len() as int).take(n as int));
        lemma_paired_prefix(names.deep_view(), values@, keep, n as int);
    }
    m
}

/// Pairing stops where either side runs out.
proof fn lemma_paired_prefix(names: Seq<Seq<char>>, values: Seq<u64>, keep: spec_fn(u64) -> bool, n: int)
    requires
        n == (if names.len() <= values.len() { names.len() as int } else { values.len() as int }),
    ensures
        paired_map(names, values, keep) == paired_map(names.take(n), values.take(n), keep),
{
    let a = names.take(n);
    let b = values.take(n);
    if n > 0 {
        assert(a.take(n - 1) =~= names.take(n - 1));
        assert(b.take(n - 1) =~= values.take(n - 1));
    }
}

/// Reads a TRES limit array, indexed like the TRES names; unset limits drop.
pub fn tres_limit_map(limits: &[u64], names: &[String]) -> (m: TresMap)
    ensures
        m.wf(),
        m@ == paired_map(names.deep_view(), limits@, limit_set()),
{
    paired_map_exec(limits, names, true)
}

/// Reads a TRES counter array, indexed like the TRES names; zeroes drop.
pub fn tres_map(counts: &[u64], names: &[String]) -> (m: TresMap)
    ensures
        m.wf(),
        m@ == paired_map(names.deep_view(), counts@, count_nonzero()),
{
    paired_map_exec(counts, names, false)
}

/// Slurm spells an unset scalar limit INFINITE or NO_VAL.
pub fn unlimited_to_none(limit: u32) -> (r: Option<u32>)
    ensures
        r == (if limit >= u32::MAX - 1 {
            None
        } else {
            Some(limit)
        }),
{
    if limit >= u32::MAX - 1 {
        None
    } else {
        Some(limit)
    }
}

/// A text, or nothing where it is empty.
pub fn non_empty(s: String) -> (r: Option<String>)
    ensures
        s@.len() == 0 ==> r is None,
        s@.len() > 0 ==> r == Some(s),
{
    if s.as_str().is_empty() {
        None
    } else {
        Some(s)
    }
}

/// What the association manager holds: every QOS with its limits and counters, and the
/// users asked after.
#[derive(Debug)]
pub struct AssocMgrInfo {
    /// By QOS name
    pub qos: NameMap<QosUsage>,
    /// By user name
    pub users: NameMap<UserRecord>,
}

} // verus!
