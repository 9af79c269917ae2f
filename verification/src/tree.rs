//! The feature tree: nodes grouped under their features, level by level, each level
//! counting the nodes, cores (or GPUs) beneath it and how many of them are free.
use vstd::prelude::*;
use crate::jobs::{Job, SlurmJobs};
use crate::nodes::Node;
use crate::filter::{Alternative, FeatureQuery, alternative_matches};
use crate::text::{chars_eq, chars_of, join};
use crate::states::{NodeState, NodeStateView, has_base_and_free, is_node_available, is_node_mixed, copy_strings};
use std::collections::{HashMap, HashSet};

verus! {

/// The counts of one level of the tree. The `cpus` fields carry GPU counts when the report
/// counts GPUs.
#[derive(Debug)]
pub struct ReportLine {
    pub total_nodes: u32,
    pub idle_nodes: u32,
    pub preempt_nodes: Option<u32>,
    pub total_cpus: u32,
    pub idle_cpus: u32,
    pub preempt_cpus: Option<u32>,
    pub alloc_cpus: u32,
    pub node_names: Vec<String>,
}

/// What a single node contributes to the counts of every level it belongs to.
#[derive(Debug, Clone, Copy, PartialEq, Eq)]
pub struct NodeContribution {
    pub idle_nodes: u32,
    pub preempt_nodes: Option<u32>,
    pub total_cpus: u32,
    pub idle_cpus: u32,
    pub preempt_cpus: Option<u32>,
    pub alloc_cpus: u32,
}

/// The ids of the jobs that may be preempted.
#[derive(Debug)]
pub struct PreemptJobs {
    pub ids: HashSet<u32>,
}

/// What a `ReportLine` holds, its counts as integers.
pub struct LineView {
    pub total_nodes: int,
    pub idle_nodes: int,
    pub preempt_nodes: Option<int>,
    pub total_cpus: int,
    pub idle_cpus: int,
    pub preempt_cpus: Option<int>,
    pub alloc_cpus: int,
    pub node_names: Seq<Seq<char>>,
}

pub open spec fn opt_int(o: Option<u32>) -> Option<int> {
    match o {
        Some(x) => Some(x as int),
        None => None,
    }
}

impl View for ReportLine {
    type V = LineView;

    open spec fn view(&self) -> LineView {
        LineView {
            total_nodes: self.total_nodes as int,
            idle_nodes: self.idle_nodes as int,
            preempt_nodes: opt_int(self.preempt_nodes),
            total_cpus: self.total_cpus as int,
            idle_cpus: self.idle_cpus as int,
            preempt_cpus: opt_int(self.preempt_cpus),
            alloc_cpus: self.alloc_cpus as int,
            node_names: self.node_names.deep_view(),
        }
    }
}

/// A line that has counted nothing.
pub open spec fn empty_line() -> LineView {
    LineView {
        total_nodes: 0,
        idle_nodes: 0,
        preempt_nodes: None,
        total_cpus: 0,
        idle_cpus: 0,
        preempt_cpus: None,
        alloc_cpus: 0,
        node_names: Seq::empty(),
    }
}

/// An optional count with `x` added where `x` is present: absent plus present is present.
/// `None` and `Some(0)` stay distinct: the latter marks a line where preemption is in play
/// but yields nothing.
pub open spec fn opt_add(a: Option<int>, x: Option<u32>) -> Option<int> {
    match x {
        Some(v) => match a {
            Some(u) => Some(u + v),
            None => Some(v as int),
        },
        None => a,
    }
}

/// `l` with one more node, contributing `c`.
pub open spec fn line_add(l: LineView, c: NodeContribution) -> LineView {
    LineView {
        total_nodes: l.total_nodes + 1,
        idle_nodes: l.idle_nodes + c.idle_nodes,
        preempt_nodes: opt_add(l.preempt_nodes, c.preempt_nodes),
        total_cpus: l.total_cpus + c.total_cpus,
        idle_cpus: l.idle_cpus + c.idle_cpus,
        preempt_cpus: opt_add(l.preempt_cpus, c.preempt_cpus),
        alloc_cpus: l.alloc_cpus + c.alloc_cpus,
        node_names: l.node_names,
    }
}

pub open spec fn opt_fits(a: Option<int>, x: Option<u32>) -> bool {
    match (a, x) {
        (Some(u), Some(v)) => u + v <= u32::MAX,
        _ => true,
    }
}

/// Whether adding `c` to `l` keeps every count within a `u32`.
pub open spec fn add_fits(l: LineView, c: NodeContribution) -> bool {
    &&& l.total_nodes + 1 <= u32::MAX
    &&& l.idle_nodes + c.idle_nodes <= u32::MAX
    &&& opt_fits(l.preempt_nodes, c.preempt_nodes)
    &&& l.total_cpus + c.total_cpus <= u32::MAX
    &&& l.idle_cpus + c.idle_cpus <= u32::MAX
    &&& opt_fits(l.preempt_cpus, c.preempt_cpus)
    &&& l.alloc_cpus + c.alloc_cpus <= u32::MAX
}

fn opt_add_exec(a: Option<u32>, x: Option<u32>) -> (r: Option<u32>)
    requires
        opt_fits(opt_int(a), x),
    ensures
        opt_int(r) == opt_add(opt_int(a), x),
{
    match x {
        Some(v) => match a {
            Some(u) => Some(u + v),
            None => Some(v),
        },
        None => a,
    }
}

impl ReportLine {
    /// A line that has counted nothing.
    pub fn new() -> (l: ReportLine)
        ensures
            l@ == empty_line(),
    {
        let l = ReportLine {
            total_nodes: 0,
            idle_nodes: 0,
            preempt_nodes: None,
            total_cpus: 0,
            idle_cpus: 0,
            preempt_cpus: None,
            alloc_cpus: 0,
            node_names: Vec::new(),
        };
        assert(l.node_names.deep_view() =~= Seq::<Seq<char>>::empty());
        l
    }

    /// Folds one node's contribution into this line.
    pub fn add(&mut self, contribution: &NodeContribution)
        requires
            add_fits(old(self)@, *contribution),
        ensures
            final(self)@ == line_add(old(self)@, *contribution),
    {
        self.total_nodes = self.total_nodes + 1;
        self.idle_nodes = self.idle_nodes + contribution.idle_nodes;
        self.total_cpus = self.total_cpus + contribution.total_cpus;
        self.idle_cpus = self.idle_cpus + contribution.idle_cpus;
        self.alloc_cpus = self.alloc_cpus + contribution.alloc_cpus;
        self.preempt_nodes = opt_add_exec(self.preempt_nodes, contribution.preempt_nodes);
        self.preempt_cpus = opt_add_exec(self.preempt_cpus, contribution.preempt_cpus);
    }
}

/// The first job with id `id`, if there is one.
pub open spec fn find_job(jobs: Seq<Job>, id: u32) -> Option<Job>
    decreases jobs.len(),
{
    if jobs.len() == 0 {
        None
    } else {
        match find_job(jobs.drop_last(), id) {
            Some(j) => Some(j),
            None => if jobs.last().job_id == id {
                Some(jobs.last())
            } else {
                None
            },
        }
    }
}

/// A job's share of one of its nodes, in GPUs when `gpu` is set and in cores otherwise: its
/// total split evenly over its nodes (at least one). Slurm reports these totals for the job
/// as a whole, so an even split is the closest there is for a heterogeneous allocation.
pub open spec fn job_share_of(job: Job, gpu: bool) -> u32 {
    let total: u32 = if gpu {
        if job.allocated_gres@.contains_key("gres/gpu"@) {
            job.allocated_gres@["gres/gpu"@] as u32
        } else {
            0
        }
    } else {
        job.num_cpus
    };
    let nodes: u32 = if job.num_nodes >= 1 {
        job.num_nodes
    } else {
        1
    };
    (total / nodes) as u32
}

/// A job's share of each of its nodes is its total divided by its node count (at least
/// one), rounded down: the shares of all its nodes together never exceed the total, and
/// fall short of it by less than one share per node.
pub proof fn lemma_job_share_splits_total(job: Job)
    ensures
        ({
            let n: int = if job.num_nodes >= 1 { job.num_nodes as int } else { 1 };
            let cores = job_share_of(job, false) as int;
            let gpus_total: int = if job.allocated_gres@.contains_key("gres/gpu"@) {
                (job.allocated_gres@["gres/gpu"@] as u32) as int
            } else {
                0
            };
            let gpus = job_share_of(job, true) as int;
            &&& cores * n <= job.num_cpus < (cores + 1) * n
            &&& gpus * n <= gpus_total < (gpus + 1) * n
        }),
{
    let n: int = if job.num_nodes >= 1 { job.num_nodes as int } else { 1 };
    let c = job.num_cpus as int;
    let g: int = if job.allocated_gres@.contains_key("gres/gpu"@) {
        (job.allocated_gres@["gres/gpu"@] as u32) as int
    } else {
        0
    };
    assert(job_share_of(job, false) as int == c / n);
    assert(job_share_of(job, true) as int == g / n);
    assert((c / n) * n <= c < (c / n + 1) * n) by (nonlinear_arith)
        requires
            n >= 1,
            c >= 0,
    ;
    assert((g / n) * n <= g < (g / n + 1) * n) by (nonlinear_arith)
        requires
            n >= 1,
            g >= 0,
    ;
}

/// A job's share of one of its nodes.
pub fn job_share(job: &Job, gpu: bool) -> (s: u32)
    requires
        job.allocated_gres.wf(),
    ensures
        s == job_share_of(*job, gpu),
{
    let total: u32 = if gpu {
        match job.allocated_gres.get("gres/gpu") {
            Some(n) => n as u32,
            None => 0,
        }
    } else {
        job.num_cpus
    };
    let nodes: u32 = if job.num_nodes >= 1 {
        job.num_nodes
    } else {
        1
    };
    total / nodes
}


/// The first job with id `id`.
pub(crate) fn find_job_exec(jobs: &Vec<Job>, id: u32) -> (r: Option<&Job>)
    ensures
        r matches Some(j) ==> find_job(jobs@, id) == Some(*j),
        r is None ==> find_job(jobs@, id) is None,
{
    let mut i: usize = 0;
    while i < jobs.len()
        invariant
            i <= jobs@.len(),
            find_job(jobs@.take(i as int), id) is None,
        decreases jobs@.len() - i,
    {
        assert(jobs@.take(i + 1).drop_last() =~= jobs@.take(i as int));
        if jobs[i].job_id == id {
            proof {
                lemma_find_job_prefix(jobs@, i + 1, id);
            }
            return Some(&jobs[i]);
        }
        i = i + 1;
    }
    assert(jobs@.take(i as int) =~= jobs@);
    None
}

proof fn lemma_find_job_prefix(jobs: Seq<Job>, n: int, id: u32)
    requires
        0 <= n <= jobs.len(),
        find_job(jobs.take(n), id) is Some,
    ensures
        find_job(jobs, id) == find_job(jobs.take(n), id),
    decreases jobs.len(),
{
    if n < jobs.len() {
        assert(jobs.drop_last().take(n) =~= jobs.take(n));
        lemma_find_job_prefix(jobs.drop_last(), n, id);
    } else {
        assert(jobs.take(n) =~= jobs);
    }
}

/// Whether every id in `ids` is in `set`.
pub open spec fn all_in(ids: Seq<u32>, set: Set<u32>) -> bool {
    forall|i: int| 0 <= i < ids.len() ==> set.contains(#[trigger] ids[i])
}

/// Whether some id in `ids` is in `set`.
pub open spec fn any_in(ids: Seq<u32>, set: Set<u32>) -> bool {
    exists|i: int| 0 <= i < ids.len() && set.contains(#[trigger] ids[i])
}

/// The shares (see `job_share_of`) of the known jobs among `ids`, those outside `only`
/// passed over where it is given, summed.
pub open spec fn shares_sum(jobs: Seq<Job>, ids: Seq<u32>, gpu: bool, only: Option<Set<u32>>) -> int
    decreases ids.len(),
{
    if ids.len() == 0 {
        0
    } else {
        let id = ids.last();
        let counted = match only {
            Some(s) => s.contains(id),
            None => true,
        };
        shares_sum(jobs, ids.drop_last(), gpu, only) + if counted {
            match find_job(jobs, id) {
                Some(j) => job_share_of(j, gpu) as int,
                None => 0,
            }
        } else {
            0
        }
    }
}

/// The state a node is treated as being in: Slurm calls a node allocated once every core
/// is claimed, but where the jobs seen on it hold some and not all of its cores it is
/// mixed, keeping its flags.
pub open spec fn derived_view(state: NodeStateView, alloc: int, cpus: int) -> NodeStateView {
    if alloc > 0 && alloc < cpus {
        match state {
            NodeStateView::Compound { base: _, flags } => NodeStateView::Compound {
                base: Box::new(NodeStateView::Mixed),
                flags,
            },
            _ => NodeStateView::Mixed,
        }
    } else {
        state
    }
}

/// The preempt set, kept only where one of the jobs on the node is in it.
pub open spec fn preempt_in_play(on: Seq<u32>, preempt: Option<Set<u32>>) -> Option<Set<u32>> {
    match preempt {
        Some(s) => if any_in(on, s) {
            Some(s)
        } else {
            None
        },
        None => None,
    }
}

/// Whether the node counts as available, and whether as mixed. A node whose every job is
/// preemptable has already been made idle (see `preempt_node`), and the mixed derivation
/// does not undo that, since preempting frees the whole node.
pub open spec fn availability(node: Node, alloc_cpus: int, p: Option<Set<u32>>) -> (bool, bool) {
    let derived = derived_view(node.state@, alloc_cpus, node.cpus as int);
    if p is Some && has_base_and_free(node.state@, NodeStateView::Idle) {
        (true, false)
    } else {
        (
            has_base_and_free(derived, NodeStateView::Idle),
            has_base_and_free(derived, NodeStateView::Mixed),
        )
    }
}

pub open spec fn node_total(node: Node, gpu: bool) -> u32 {
    if gpu {
        match node.gpu_info {
            Some(g) => g.total_gpus as u32,
            None => 0,
        }
    } else {
        node.cpus as u32
    }
}

pub open spec fn node_alloc(node: Node, gpu: bool, alloc_cpus: int) -> u32 {
    if gpu {
        match node.gpu_info {
            Some(g) => g.allocated_gpus as u32,
            None => 0,
        }
    } else {
        alloc_cpus as u32
    }
}

/// Whether the sums that `contribution_of` takes fit in a `u32`: the cores the node's jobs
/// hold, and, where preemptable jobs share an available or mixed node with others, what
/// those preemptable jobs hold.
pub open spec fn contribution_fits(node: Node, jobs: Seq<Job>, on: Seq<u32>, preempt: Option<Set<u32>>, gpu: bool) -> bool {
    let alloc_cpus = shares_sum(jobs, on, false, None);
    let p = preempt_in_play(on, preempt);
    let (avail, mixed) = availability(node, alloc_cpus, p);
    &&& alloc_cpus <= u32::MAX
    &&& (avail || mixed) ==> match p {
        Some(s) => all_in(on, s) || shares_sum(jobs, on, gpu, Some(s)) <= u32::MAX,
        None => true,
    }
}

/// What node `node`, running the jobs `on`, adds to every level it belongs to, counting
/// GPUs if `gpu` and cores otherwise. Under a preempt set, what preemptable jobs hold
/// counts as available, and the `preempt_*` counts record how much of that availability
/// needs preemption; a down, drained or reserved node offers nothing, preemption included.
pub open spec fn contribution_of(node: Node, jobs: Seq<Job>, on: Seq<u32>, preempt: Option<Set<u32>>, gpu: bool) -> NodeContribution {
    let alloc_cpus = shares_sum(jobs, on, false, None);
    let total = node_total(node, gpu);
    let alloc = node_alloc(node, gpu, alloc_cpus);
    let p = preempt_in_play(on, preempt);
    let (avail, mixed) = availability(node, alloc_cpus, p);
    if !avail && !mixed {
        NodeContribution {
            idle_nodes: 0,
            preempt_nodes: None,
            total_cpus: total,
            idle_cpus: 0,
            preempt_cpus: None,
            alloc_cpus: alloc,
        }
    } else {
        let held: u32 = match p {
            Some(s) => if all_in(on, s) {
                alloc
            } else {
                let sum = shares_sum(jobs, on, gpu, Some(s));
                if sum <= alloc {
                    sum as u32
                } else {
                    alloc
                }
            },
            None => 0,
        };
        let free: int = if total >= alloc {
            total - alloc
        } else {
            0
        };
        NodeContribution {
            idle_nodes: if avail {
                1
            } else {
                0
            },
            preempt_nodes: if p is Some {
                Some(
                    if avail {
                        1u32
                    } else {
                        0u32
                    },
                )
            } else {
                None
            },
            total_cpus: total,
            idle_cpus: (free + held) as u32,
            preempt_cpus: if p is Some {
                Some(held)
            } else {
                None
            },
            alloc_cpus: alloc,
        }
    }
}

impl View for PreemptJobs {
    type V = Set<u32>;

    open spec fn view(&self) -> Set<u32> {
        self.ids@
    }
}

pub open spec fn preempt_view(p: Option<&PreemptJobs>) -> Option<Set<u32>> {
    match p {
        Some(j) => Some(j@),
        None => None,
    }
}

/// Whether every job in `jobs` has a well-formed resource map.
pub open spec fn jobs_wf(jobs: Seq<Job>) -> bool {
    forall|i: int| 0 <= i < jobs.len() ==> (#[trigger] jobs[i]).allocated_gres.wf()
}

proof fn lemma_find_job_wf(jobs: Seq<Job>, id: u32)
    requires
        jobs_wf(jobs),
    ensures
        find_job(jobs, id) matches Some(j) ==> j.allocated_gres.wf(),
    decreases jobs.len(),
{
    if jobs.len() > 0 {
        assert(jobs_wf(jobs.drop_last()));
        lemma_find_job_wf(jobs.drop_last(), id);
    }
}

pub(crate) fn shares_sum_exec(jobs: &Vec<Job>, ids: &[u32], gpu: bool, only: Option<&PreemptJobs>) -> (n: u32)
    requires
        jobs_wf(jobs@),
        shares_sum(jobs@, ids@, gpu, preempt_view(only)) <= u32::MAX,
    ensures
        n == shares_sum(jobs@, ids@, gpu, preempt_view(only)),
{
    broadcast use vstd::std_specs::hash::group_hash_axioms;
    let ghost only_v = preempt_view(only);
    let mut total: u32 = 0;
    let mut i: usize = 0;
    proof {
        lemma_shares_prefix(jobs@, ids@, gpu, only_v, 0);
    }
    while i < ids.len()
        invariant
            i <= ids@.len(),
            jobs_wf(jobs@),
            only_v == preempt_view(only),
            shares_sum(jobs@, ids@, gpu, only_v) <= u32::MAX,
            total == shares_sum(jobs@, ids@.take(i as int), gpu, only_v),
        decreases ids@.len() - i,
    {
        proof {
            lemma_shares_prefix(jobs@, ids@, gpu, only_v, i + 1);
            assert(ids@.take(i + 1).drop_last() =~= ids@.take(i as int));
        }
        let id = ids[i];
        let counted = match only {
            Some(p) => p.ids.contains(&id),
            None => true,
        };
        if counted {
            match find_job_exec(jobs, id) {
                Some(j) => {
                    proof {
                        lemma_find_job_wf(jobs@, id);
                    }
                    total = total + job_share(j, gpu);
                },
                None => {},
            }
        }
        i = i + 1;
    }
    assert(ids@.take(i as int) =~= ids@);
    total
}

/// The sum over a prefix of the ids is at most the sum over all of them.
proof fn lemma_shares_prefix(jobs: Seq<Job>, ids: Seq<u32>, gpu: bool, only: Option<Set<u32>>, n: int)
    requires
        0 <= n <= ids.len(),
    ensures
        0 <= shares_sum(jobs, ids.take(n), gpu, only) <= shares_sum(jobs, ids, gpu, only),
    decreases ids.len(),
{
    if n < ids.len() {
        assert(ids.drop_last().take(n) =~= ids.take(n));
        lemma_shares_prefix(jobs, ids.drop_last(), gpu, only, n);
    } else {
        assert(ids.take(n) =~= ids);
        lemma_shares_nonneg(jobs, ids, gpu, only);
    }
}

/// A sum of job shares is never negative.
pub(crate) proof fn lemma_shares_nonneg(jobs: Seq<Job>, ids: Seq<u32>, gpu: bool, only: Option<Set<u32>>)
    ensures
        shares_sum(jobs, ids, gpu, only) >= 0,
    decreases ids.len(),
{
    if ids.len() > 0 {
        lemma_shares_nonneg(jobs, ids.drop_last(), gpu, only);
    }
}

pub(crate) fn all_in_exec(ids: &[u32], p: &PreemptJobs) -> (r: bool)
    ensures
        r == all_in(ids@, p@),
{
    broadcast use vstd::std_specs::hash::group_hash_axioms;
    let mut i: usize = 0;
    while i < ids.len()
        invariant
            i <= ids@.len(),
            forall|k: int| 0 <= k < i ==> p@.contains(#[trigger] ids@[k]),
        decreases ids@.len() - i,
    {
        if !p.ids.contains(&ids[i]) {
            return false;
        }
        i = i + 1;
    }
    true
}

pub(crate) fn any_in_exec(ids: &[u32], p: &PreemptJobs) -> (r: bool)
    ensures
        r == any_in(ids@, p@),
{
    broadcast use vstd::std_specs::hash::group_hash_axioms;
    let mut i: usize = 0;
    while i < ids.len()
        invariant
            i <= ids@.len(),
            forall|k: int| 0 <= k < i ==> !p@.contains(#[trigger] ids@[k]),
        decreases ids@.len() - i,
    {
        if p.ids.contains(&ids[i]) {
            assert(p@.contains(ids@[i as int]));
            return true;
        }
        i = i + 1;
    }
    false
}

/// Computes what one node adds to every level of the tree it belongs to.
pub fn node_contribution(
    node: &Node,
    jobs: &SlurmJobs,
    jobs_on_node: &[u32],
    preempt_jobs: Option<&PreemptJobs>,
    gpu: bool,
) -> (c: NodeContribution)
    requires
        jobs_wf(jobs.jobs@),
        contribution_fits(*node, jobs.jobs@, jobs_on_node@, preempt_view(preempt_jobs), gpu),
    ensures
        c == contribution_of(*node, jobs.jobs@, jobs_on_node@, preempt_view(preempt_jobs), gpu),
{
    let ghost pv = preempt_view(preempt_jobs);
    let alloc_cpus = shares_sum_exec(&jobs.jobs, jobs_on_node, false, None);
    let (total, alloc): (u32, u32) = if gpu {
        match &node.gpu_info {
            Some(g) => (g.total_gpus as u32, g.allocated_gpus as u32),
            None => (0, 0),
        }
    } else {
        (node.cpus as u32, alloc_cpus)
    };
    let derived = if alloc_cpus > 0 && alloc_cpus < node.cpus as u32 {
        match &node.state {
            NodeState::Compound { base: _, flags } => NodeState::Compound {
                base: Box::new(NodeState::Mixed),
                flags: copy_strings(flags),
            },
            _ => NodeState::Mixed,
        }
    } else {
        node.state.duplicate()
    };
    proof {
        reveal_with_fuel(crate::states::node_state_view, 2);
        assert(derived@ == derived_view(node.state@, alloc_cpus as int, node.cpus as int));
    }
    let preempt = match preempt_jobs {
        Some(p) => if any_in_exec(jobs_on_node, p) {
            Some(p)
        } else {
            None
        },
        None => None,
    };
    assert(preempt_view(preempt) == preempt_in_play(jobs_on_node@, pv));
    let (is_available, is_mixed) = if preempt.is_some() && is_node_available(&node.state) {
        (true, false)
    } else {
        (is_node_available(&derived), is_node_mixed(&derived))
    };
    if !is_available && !is_mixed {
        return NodeContribution {
            idle_nodes: 0,
            preempt_nodes: None,
            total_cpus: total,
            idle_cpus: 0,
            preempt_cpus: None,
            alloc_cpus: alloc,
        };
    }
    let held: u32 = match preempt {
        Some(p) => {
            if all_in_exec(jobs_on_node, p) {
                // the node's own allocation figure is exact, so it is preferred over
                // apportioned per-job shares whenever everything on the node can be preempted
                alloc
            } else {
                let sum = shares_sum_exec(&jobs.jobs, jobs_on_node, gpu, Some(p));
                if sum <= alloc {
                    sum
                } else {
                    alloc
                }
            }
        },
        None => 0,
    };
    let free: u32 = if total >= alloc {
        total - alloc
    } else {
        0
    };
    proof {
        if preempt is Some {
            if !all_in(jobs_on_node@, preempt_view(preempt)->0) {
                lemma_shares_nonneg(jobs.jobs@, jobs_on_node@, gpu, preempt_view(preempt));
            }
        }
    }
    NodeContribution {
        idle_nodes: if is_available {
            1
        } else {
            0
        },
        preempt_nodes: if preempt.is_some() {
            Some(
                if is_available {
                    1
                } else {
                    0
                },
            )
        } else {
            None
        },
        total_cpus: total,
        idle_cpus: free + held,
        preempt_cpus: if preempt.is_some() {
            Some(held)
        } else {
            None
        },
        alloc_cpus: alloc,
    }
}

/// One level of the feature tree: the nodes under a feature, with a sub-level for each
/// further feature they have.
#[derive(Debug)]
pub struct TreeNode {
    pub name: String,
    pub stats: ReportLine,
    /// Set on the root when the report was asked for a single selection
    pub single_filter: bool,
    /// The sub-levels, in the order their features were first met, each name once
    pub children: Vec<TreeNode>,
}

/// What a `TreeNode` holds: its name, its counts and its sub-levels.
pub struct TreeView {
    pub name: Seq<char>,
    pub stats: LineView,
    pub children: Seq<TreeView>,
}

pub open spec fn tree_view(t: TreeNode) -> TreeView
    decreases t,
{
    TreeView { name: t.name@, stats: t.stats@, children: trees_view(t.children@) }
}

pub open spec fn trees_view(s: Seq<TreeNode>) -> Seq<TreeView>
    decreases s,
{
    if s.len() == 0 {
        Seq::empty()
    } else {
        trees_view(s.drop_last()).push(tree_view(s.last()))
    }
}

impl View for TreeNode {
    type V = TreeView;

    open spec fn view(&self) -> TreeView {
        tree_view(*self)
    }
}

pub proof fn lemma_trees_view(s: Seq<TreeNode>)
    ensures
        trees_view(s).len() == s.len(),
        forall|i: int| 0 <= i < s.len() ==> #[trigger] trees_view(s)[i] == tree_view(s[i]),
    decreases s.len(),
{
    if s.len() > 0 {
        lemma_trees_view(s.drop_last());
        assert forall|i: int| 0 <= i < s.len() implies #[trigger] trees_view(s)[i] == tree_view(s[i]) by {
            if i < s.len() - 1 {
                assert(s.drop_last()[i] == s[i]);
            }
        }
    }
}

/// Two sequences of levels are the same when each level is.
proof fn lemma_trees_view_ext(a: Seq<TreeNode>, b: Seq<TreeView>)
    requires
        a.len() == b.len(),
        forall|i: int| 0 <= i < a.len() ==> tree_view(#[trigger] a[i]) == b[i],
    ensures
        trees_view(a) == b,
{
    lemma_trees_view(a);
    assert(trees_view(a) =~= b);
}

/// The position of the first level named `name`.
pub open spec fn child_named(children: Seq<TreeView>, name: Seq<char>) -> Option<int>
    decreases children.len(),
{
    if children.len() == 0 {
        None
    } else {
        match child_named(children.drop_last(), name) {
            Some(k) => Some(k),
            None => if children.last().name == name {
                Some(children.len() - 1)
            } else {
                None
            },
        }
    }
}

proof fn lemma_child_named(children: Seq<TreeView>, name: Seq<char>)
    ensures
        child_named(children, name) matches Some(k) ==> 0 <= k < children.len()
            && children[k].name == name,
        child_named(children, name) is None ==> forall|i: int|
            0 <= i < children.len() ==> #[trigger] children[i].name != name,
    decreases children.len(),
{
    if children.len() > 0 {
        lemma_child_named(children.drop_last(), name);
        if child_named(children.drop_last(), name) is None {
            assert forall|i: int| 0 <= i < children.len() - 1 implies #[trigger] children[i].name
                != name by {
                assert(children.drop_last()[i] == children[i]);
            }
        }
    }
}

/// `l` with `c` added, and the node's name recorded where one is given.
pub open spec fn named_line_add(l: LineView, c: NodeContribution, name: Option<Seq<char>>) -> LineView {
    let a = line_add(l, c);
    match name {
        Some(n) => LineView { node_names: a.node_names.push(n), ..a },
        None => a,
    }
}

/// The levels `children` with a node contributing `c` filed along `path`: each step goes
/// to the level of that name, made at the end where there is none yet, and adds `c` to
/// it, recording the node's `name` there (but at the first step only if `record_top`).
pub open spec fn tree_insert(
    children: Seq<TreeView>,
    path: Seq<Seq<char>>,
    c: NodeContribution,
    name: Option<Seq<char>>,
    record_top: bool,
) -> Seq<TreeView>
    decreases path.len(),
{
    if path.len() == 0 {
        children
    } else {
        let top_name = if record_top {
            name
        } else {
            None
        };
        match child_named(children, path[0]) {
            Some(k) => children.update(
                k,
                TreeView {
                    name: path[0],
                    stats: named_line_add(children[k].stats, c, top_name),
                    children: tree_insert(children[k].children, path.drop_first(), c, name, true),
                },
            ),
            None => children.push(
                TreeView {
                    name: path[0],
                    stats: named_line_add(empty_line(), c, top_name),
                    children: tree_insert(Seq::empty(), path.drop_first(), c, name, true),
                },
            ),
        }
    }
}

/// Upper bounds on the counts of a line.
pub struct Caps {
    pub nodes: int,
    pub idle_nodes: int,
    pub preempt_nodes: int,
    pub cpus: int,
    pub idle_cpus: int,
    pub preempt_cpus: int,
    pub alloc_cpus: int,
}

pub open spec fn zero_caps() -> Caps {
    Caps { nodes: 0, idle_nodes: 0, preempt_nodes: 0, cpus: 0, idle_cpus: 0, preempt_cpus: 0, alloc_cpus: 0 }
}

pub open spec fn opt_value(o: Option<u32>) -> int {
    match o {
        Some(v) => v as int,
        None => 0,
    }
}

/// The bounds `b` raised by what one more contribution `c` can add.
pub open spec fn caps_add(b: Caps, c: NodeContribution) -> Caps {
    Caps {
        nodes: b.nodes + 1,
        idle_nodes: b.idle_nodes + c.idle_nodes,
        preempt_nodes: b.preempt_nodes + opt_value(c.preempt_nodes),
        cpus: b.cpus + c.total_cpus,
        idle_cpus: b.idle_cpus + c.idle_cpus,
        preempt_cpus: b.preempt_cpus + opt_value(c.preempt_cpus),
        alloc_cpus: b.alloc_cpus + c.alloc_cpus,
    }
}

/// Whether each bound fits in a `u32`.
pub open spec fn caps_fit(b: Caps) -> bool {
    &&& b.nodes <= u32::MAX
    &&& b.idle_nodes <= u32::MAX
    &&& b.preempt_nodes <= u32::MAX
    &&& b.cpus <= u32::MAX
    &&& b.idle_cpus <= u32::MAX
    &&& b.preempt_cpus <= u32::MAX
    &&& b.alloc_cpus <= u32::MAX
}

pub open spec fn caps_le(a: Caps, b: Caps) -> bool {
    &&& 0 <= a.nodes <= b.nodes
    &&& 0 <= a.idle_nodes <= b.idle_nodes
    &&& 0 <= a.preempt_nodes <= b.preempt_nodes
    &&& 0 <= a.cpus <= b.cpus
    &&& 0 <= a.idle_cpus <= b.idle_cpus
    &&& 0 <= a.preempt_cpus <= b.preempt_cpus
    &&& 0 <= a.alloc_cpus <= b.alloc_cpus
}

pub open spec fn opt_le(o: Option<int>, b: int) -> bool {
    match o {
        Some(v) => 0 <= v <= b,
        None => true,
    }
}

/// Whether the counts of `l` are within `b`.
pub open spec fn line_le(l: LineView, b: Caps) -> bool {
    &&& 0 <= l.total_nodes <= b.nodes
    &&& 0 <= l.idle_nodes <= b.idle_nodes
    &&& opt_le(l.preempt_nodes, b.preempt_nodes)
    &&& 0 <= l.total_cpus <= b.cpus
    &&& 0 <= l.idle_cpus <= b.idle_cpus
    &&& opt_le(l.preempt_cpus, b.preempt_cpus)
    &&& 0 <= l.alloc_cpus <= b.alloc_cpus
}

/// Whether the counts of every level in `s`, and beneath, are within `b`.
pub open spec fn trees_le(s: Seq<TreeView>, b: Caps) -> bool
    decreases s,
{
    if s.len() == 0 {
        true
    } else {
        &&& trees_le(s.drop_last(), b)
        &&& line_le(s.last().stats, b)
        &&& trees_le(s.last().children, b)
    }
}

proof fn lemma_trees_le_index(s: Seq<TreeView>, b: Caps, i: int)
    requires
        trees_le(s, b),
        0 <= i < s.len(),
    ensures
        line_le(s[i].stats, b),
        trees_le(s[i].children, b),
    decreases s.len(),
{
    if i < s.len() - 1 {
        assert(s.drop_last()[i] == s[i]);
        lemma_trees_le_index(s.drop_last(), b, i);
    }
}

proof fn lemma_trees_le_update(s: Seq<TreeView>, b: Caps, k: int, t: TreeView)
    requires
        trees_le(s, b),
        0 <= k < s.len(),
        line_le(t.stats, b),
        trees_le(t.children, b),
    ensures
        trees_le(s.update(k, t), b),
    decreases s.len(),
{
    let u = s.update(k, t);
    if k < s.len() - 1 {
        assert(u.drop_last() =~= s.drop_last().update(k, t));
        lemma_trees_le_update(s.drop_last(), b, k, t);
    } else {
        assert(u.drop_last() =~= s.drop_last());
    }
}

proof fn lemma_trees_le_push(s: Seq<TreeView>, b: Caps, t: TreeView)
    requires
        trees_le(s, b),
        line_le(t.stats, b),
        trees_le(t.children, b),
    ensures
        trees_le(s.push(t), b),
{
    assert(s.push(t).drop_last() =~= s);
}

proof fn lemma_trees_le_mono(s: Seq<TreeView>, a: Caps, b: Caps)
    requires
        trees_le(s, a),
        caps_le(a, b),
    ensures
        trees_le(s, b),
    decreases s,
{
    if s.len() > 0 {
        lemma_trees_le_mono(s.drop_last(), a, b);
        lemma_trees_le_mono(s.last().children, a, b);
    }
}

proof fn lemma_line_add_le(l: LineView, b: Caps, c: NodeContribution, name: Option<Seq<char>>)
    requires
        line_le(l, b),
        caps_le(zero_caps(), b),
        caps_fit(caps_add(b, c)),
    ensures
        add_fits(l, c),
        line_le(named_line_add(l, c, name), caps_add(b, c)),
{
}

proof fn lemma_caps_add_mono(b: Caps, c: NodeContribution)
    requires
        caps_le(zero_caps(), b),
    ensures
        caps_le(b, caps_add(b, c)),
{
}

/// Filing a node's contribution along a path raises every count by at most that
/// contribution.
proof fn lemma_tree_insert_le(
    children: Seq<TreeView>,
    path: Seq<Seq<char>>,
    c: NodeContribution,
    name: Option<Seq<char>>,
    record_top: bool,
    b: Caps,
)
    requires
        trees_le(children, b),
        caps_le(zero_caps(), b),
        caps_fit(caps_add(b, c)),
    ensures
        trees_le(tree_insert(children, path, c, name, record_top), caps_add(b, c)),
    decreases path.len(),
{
    lemma_caps_add_mono(b, c);
    lemma_trees_le_mono(children, b, caps_add(b, c));
    if path.len() > 0 {
        let top_name = if record_top {
            name
        } else {
            None
        };
        lemma_child_named(children, path[0]);
        match child_named(children, path[0]) {
            Some(k) => {
                lemma_trees_le_index(children, b, k);
                lemma_tree_insert_le(children[k].children, path.drop_first(), c, name, true, b);
                lemma_line_add_le(children[k].stats, b, c, top_name);
                lemma_trees_le_update(
                    children,
                    caps_add(b, c),
                    k,
                    TreeView {
                        name: path[0],
                        stats: named_line_add(children[k].stats, c, top_name),
                        children: tree_insert(children[k].children, path.drop_first(), c, name, true),
                    },
                );
            },
            None => {
                lemma_tree_insert_le(Seq::empty(), path.drop_first(), c, name, true, b);
                lemma_line_add_le(empty_line(), b, c, top_name);
                lemma_trees_le_push(
                    children,
                    caps_add(b, c),
                    TreeView {
                        name: path[0],
                        stats: named_line_add(empty_line(), c, top_name),
                        children: tree_insert(Seq::empty(), path.drop_first(), c, name, true),
                    },
                );
            },
        }
    }
}

/// The position of the first level named `name`.
fn find_child(children: &Vec<TreeNode>, name: &String) -> (r: Option<usize>)
    ensures
        r matches Some(k) ==> child_named(trees_view(children@), name@) == Some(k as int),
        r is None ==> child_named(trees_view(children@), name@) is None,
        r matches Some(k) ==> k < children@.len(),
{
    proof {
        lemma_trees_view(children@);
    }
    let wanted = crate::text::chars_of(name.as_str());
    let mut i: usize = 0;
    while i < children.len()
        invariant
            i <= children@.len(),
            trees_view(children@).len() == children@.len(),
            forall|j: int| 0 <= j < children@.len() ==> #[trigger] trees_view(children@)[j] == tree_view(children@[j]),
            child_named(trees_view(children@).take(i as int), wanted@) is None,
            wanted@ == name@,
        decreases children@.len() - i,
    {
        let ghost tv = trees_view(children@);
        assert(tv.take(i + 1).drop_last() =~= tv.take(i as int));
        let here = crate::text::chars_of(children[i].name.as_str());
        if crate::text::chars_eq(&here, &wanted) {
            proof {
                assert(tv.take(i + 1).last() == tv[i as int]);
                lemma_child_named_prefix(tv, i + 1, wanted@);
            }
            return Some(i);
        }
        i = i + 1;
    }
    assert(trees_view(children@).take(i as int) =~= trees_view(children@));
    None
}

proof fn lemma_child_named_prefix(children: Seq<TreeView>, n: int, name: Seq<char>)
    requires
        0 <= n <= children.len(),
        child_named(children.take(n), name) is Some,
    ensures
        child_named(children, name) == child_named(children.take(n), name),
    decreases children.len(),
{
    if n < children.len() {
        assert(children.drop_last().take(n) =~= children.take(n));
        lemma_child_named_prefix(children.drop_last(), n, name);
    } else {
        assert(children.take(n) =~= children);
    }
}

pub open spec fn name_view(name: Option<&String>) -> Option<Seq<char>> {
    match name {
        Some(n) => Some(n@),
        None => None,
    }
}

fn add_named(line: &mut ReportLine, c: &NodeContribution, name: Option<&String>)
    requires
        add_fits(old(line)@, *c),
    ensures
        final(line)@ == named_line_add(old(line)@, *c, name_view(name)),
{
    line.add(c);
    match name {
        Some(n) => {
            let ghost before = line.node_names.deep_view();
            line.node_names.push(n.clone());
            assert(line.node_names.deep_view() =~= before.push(n@));
        },
        None => {},
    }
}

/// Files a node contributing `c` along `path[from..]` below the levels `children`.
fn insert_path(
    children: &mut Vec<TreeNode>,
    path: &Vec<String>,
    from: usize,
    c: &NodeContribution,
    name: Option<&String>,
    record_top: bool,
    Ghost(b): Ghost<Caps>,
)
    requires
        from <= path@.len(),
        trees_le(trees_view(old(children)@), b),
        caps_le(zero_caps(), b),
        caps_fit(caps_add(b, *c)),
    ensures
        trees_view(final(children)@) == tree_insert(
            trees_view(old(children)@),
            path.deep_view().skip(from as int),
            *c,
            name_view(name),
            record_top,
        ),
    decreases path@.len() - from,
{
    let ghost p = path.deep_view().skip(from as int);
    let ghost tv = trees_view(children@);
    proof {
        lemma_trees_view(children@);
    }
    if from == path.len() {
        assert(p.len() == 0);
        return;
    }
    assert(p[0] == path@[from as int]@);
    proof {
        lemma_child_named(tv, p[0]);
    }
    assert(p.drop_first() =~= path.deep_view().skip(from + 1));
    let top_name = if record_top {
        name
    } else {
        None
    };
    match find_child(children, &path[from]) {
        Some(k) => {
            assert(child_named(tv, p[0]) == Some(k as int));
            assert(tv[k as int].name == p[0]);
            let mut child = children.remove(k);
            assert(tree_view(child) == tv[k as int]);
            assert(child.name@ == p[0]);
            proof {
                lemma_trees_le_index(tv, b, k as int);
                lemma_line_add_le(tv[k as int].stats, b, *c, name_view(top_name));
            }
            add_named(&mut child.stats, c, top_name);
            insert_path(&mut child.children, path, from + 1, c, name, true, Ghost(b));
            let ghost new_child = tree_view(child);
            assert(new_child.name == p[0]);
            assert(new_child.stats == named_line_add(tv[k as int].stats, *c, name_view(top_name)));
            assert(new_child.children == tree_insert(tv[k as int].children, p.drop_first(), *c, name_view(name), true));
            children.insert(k, child);
            proof {
                lemma_trees_view(children@);
                lemma_trees_view_ext(children@, tv.update(k as int, new_child));
            }
        },
        None => {
            let mut child = TreeNode {
                name: path[from].clone(),
                stats: ReportLine::new(),
                single_filter: false,
                children: Vec::new(),
            };
            proof {
                lemma_line_add_le(empty_line(), b, *c, name_view(top_name));
                assert(trees_view(child.children@) =~= Seq::<TreeView>::empty());
            }
            add_named(&mut child.stats, c, top_name);
            insert_path(&mut child.children, path, from + 1, c, name, true, Ghost(b));
            let ghost new_child = tree_view(child);
            assert(new_child.name == p[0]);
            assert(new_child.stats == named_line_add(empty_line(), *c, name_view(top_name)));
            assert(new_child.children == tree_insert(Seq::empty(), p.drop_first(), *c, name_view(name), true));
            children.push(child);
            proof {
                lemma_trees_view(children@);
                lemma_trees_view_ext(children@, tv.push(new_child));
            }
        },
    }
}

/// Whether `f` is one of the features left out of the tree unless asked for: ones that
/// say nothing a neighbouring feature does not.
pub open spec fn is_hidden_feature(f: Seq<char>) -> bool {
    f == "sxm"@ || f == "sxm2"@ || f == "sxm4"@ || f == "sxm5"@ || f == "nvlink"@ || f
        == "a100"@ || f == "h100"@ || f == "v100"@ || f == "ib"@
}

/// The features of `fs` the tree files a node under, in order: all of them if
/// `show_hidden`, and otherwise those that are not hidden.
pub open spec fn tree_features(fs: Seq<Seq<char>>, show_hidden: bool) -> Seq<Seq<char>>
    decreases fs.len(),
{
    if fs.len() == 0 {
        Seq::empty()
    } else {
        let init = tree_features(fs.drop_last(), show_hidden);
        if show_hidden || !is_hidden_feature(fs.last()) {
            init.push(fs.last())
        } else {
            init
        }
    }
}

/// The features of `fs` that `named` does not name, in order.
pub open spec fn without_named(fs: Seq<Seq<char>>, named: Seq<Seq<char>>) -> Seq<Seq<char>>
    decreases fs.len(),
{
    if fs.len() == 0 {
        Seq::empty()
    } else {
        let init = without_named(fs.drop_last(), named);
        if !named.contains(fs.last()) {
            init.push(fs.last())
        } else {
            init
        }
    }
}

/// The branches a node with `features` (`kept` of them shown) is filed under, for the
/// alternatives of `q` it matches, in order: one per alternative, headed by the
/// alternative's label and going on through the shown features it does not name.
pub open spec fn alternative_paths(
    q: Seq<Seq<Seq<char>>>,
    features: Seq<Seq<char>>,
    kept: Seq<Seq<char>>,
    exact: bool,
) -> Seq<Seq<Seq<char>>>
    decreases q.len(),
{
    if q.len() == 0 {
        Seq::empty()
    } else {
        let init = alternative_paths(q.drop_last(), features, kept, exact);
        if alternative_matches(q.last(), features, exact) {
            init.push(seq![join(q.last(), seq!['&'])] + without_named(kept, q.last()))
        } else {
            init
        }
    }
}

/// The paths along which `node` is filed: with no selection, one through its shown
/// features; with one, a branch per alternative it matches, so that a compound like
/// icelake&gpu is one branch rather than one per feature in it.
pub open spec fn node_paths(node: Node, q: Seq<Seq<Seq<char>>>, exact: bool, show_hidden: bool) -> Seq<Seq<Seq<char>>> {
    let kept = tree_features(node.features.deep_view(), show_hidden);
    if q.len() == 0 {
        seq![kept]
    } else {
        alternative_paths(q, node.features.deep_view(), kept, exact)
    }
}

/// The levels `children` with a node contributing `c` filed along each of `paths` in turn.
pub open spec fn insert_paths(
    children: Seq<TreeView>,
    paths: Seq<Seq<Seq<char>>>,
    c: NodeContribution,
    name: Option<Seq<char>>,
    record_top: bool,
) -> Seq<TreeView>
    decreases paths.len(),
{
    if paths.len() == 0 {
        children
    } else {
        tree_insert(insert_paths(children, paths.drop_last(), c, name, record_top), paths.last(), c, name, record_top)
    }
}

/// The jobs that `map` lists on node `id`; none where it lists nothing.
pub open spec fn jobs_on(map: Map<usize, Vec<u32>>, id: usize) -> Seq<u32> {
    if map.contains_key(id) {
        map[id]@
    } else {
        Seq::empty()
    }
}

/// What the report is asked for, beyond its nodes and jobs.
pub struct TreeRequest {
    pub query: Seq<Seq<Seq<char>>>,
    pub exact: bool,
    pub show_hidden: bool,
    pub show_names: bool,
    pub preempt: Option<Set<u32>>,
    pub gpu: bool,
}

pub open spec fn contribution_in(node: Node, jobs: Seq<Job>, map: Map<usize, Vec<u32>>, r: TreeRequest) -> NodeContribution {
    contribution_of(node, jobs, jobs_on(map, node.id), r.preempt, r.gpu)
}

/// The levels below the root of the tree of `nodes`: each node, in order, filed along its
/// paths.
pub open spec fn report_children(nodes: Seq<Node>, jobs: Seq<Job>, map: Map<usize, Vec<u32>>, r: TreeRequest) -> Seq<TreeView>
    decreases nodes.len(),
{
    if nodes.len() == 0 {
        Seq::empty()
    } else {
        let n = nodes.last();
        insert_paths(
            report_children(nodes.drop_last(), jobs, map, r),
            node_paths(n, r.query, r.exact, r.show_hidden),
            contribution_in(n, jobs, map, r),
            if r.show_names {
                Some(n.name@)
            } else {
                None
            },
            r.query.len() == 0,
        )
    }
}

/// The counts of the root: every node's contribution, once.
pub open spec fn report_total(nodes: Seq<Node>, jobs: Seq<Job>, map: Map<usize, Vec<u32>>, r: TreeRequest) -> LineView
    decreases nodes.len(),
{
    if nodes.len() == 0 {
        empty_line()
    } else {
        line_add(report_total(nodes.drop_last(), jobs, map, r), contribution_in(nodes.last(), jobs, map, r))
    }
}

/// The bounds `b` raised `k` times by `c`.
pub open spec fn caps_add_times(b: Caps, c: NodeContribution, k: nat) -> Caps
    decreases k,
{
    if k == 0 {
        b
    } else {
        caps_add(caps_add_times(b, c, (k - 1) as nat), c)
    }
}

/// Bounds on the root's counts: each node's contribution once.
pub open spec fn root_caps(nodes: Seq<Node>, jobs: Seq<Job>, map: Map<usize, Vec<u32>>, r: TreeRequest) -> Caps
    decreases nodes.len(),
{
    if nodes.len() == 0 {
        zero_caps()
    } else {
        caps_add(root_caps(nodes.drop_last(), jobs, map, r), contribution_in(nodes.last(), jobs, map, r))
    }
}

/// Bounds on the counts below the root: each node's contribution once per path it is
/// filed along.
pub open spec fn branch_caps(nodes: Seq<Node>, jobs: Seq<Job>, map: Map<usize, Vec<u32>>, r: TreeRequest) -> Caps
    decreases nodes.len(),
{
    if nodes.len() == 0 {
        zero_caps()
    } else {
        let n = nodes.last();
        caps_add_times(
            branch_caps(nodes.drop_last(), jobs, map, r),
            contribution_in(n, jobs, map, r),
            node_paths(n, r.query, r.exact, r.show_hidden).len(),
        )
    }
}

/// Whether the report's counts fit in a `u32` and each node's contribution can be
/// computed: the bounds on its counts fit, and so do the sums each contribution takes.
pub open spec fn report_fits(nodes: Seq<Node>, jobs: Seq<Job>, map: Map<usize, Vec<u32>>, r: TreeRequest) -> bool {
    &&& caps_fit(root_caps(nodes, jobs, map, r))
    &&& caps_fit(branch_caps(nodes, jobs, map, r))
    &&& forall|i: int| 0 <= i < nodes.len() ==> contribution_fits(#[trigger] nodes[i], jobs, jobs_on(map, nodes[i].id), r.preempt, r.gpu)
}

proof fn lemma_caps_times_mono(b: Caps, c: NodeContribution, k: nat)
    requires
        caps_le(zero_caps(), b),
    ensures
        caps_le(b, caps_add_times(b, c, k)),
        caps_le(zero_caps(), caps_add_times(b, c, k)),
    decreases k,
{
    if k > 0 {
        lemma_caps_times_mono(b, c, (k - 1) as nat);
    }
}

/// Bounds over a prefix of the nodes are within those over all of them.
proof fn lemma_caps_prefix(nodes: Seq<Node>, jobs: Seq<Job>, map: Map<usize, Vec<u32>>, r: TreeRequest, n: int)
    requires
        0 <= n <= nodes.len(),
    ensures
        caps_le(root_caps(nodes.take(n), jobs, map, r), root_caps(nodes, jobs, map, r)),
        caps_le(branch_caps(nodes.take(n), jobs, map, r), branch_caps(nodes, jobs, map, r)),
        caps_le(zero_caps(), root_caps(nodes.take(n), jobs, map, r)),
        caps_le(zero_caps(), branch_caps(nodes.take(n), jobs, map, r)),
    decreases nodes.len(),
{
    if n < nodes.len() {
        assert(nodes.drop_last().take(n) =~= nodes.take(n));
        lemma_caps_prefix(nodes.drop_last(), jobs, map, r, n);
        lemma_caps_prefix(nodes.drop_last(), jobs, map, r, n);
        let c = contribution_in(nodes.last(), jobs, map, r);
        assert(nodes.drop_last().take(nodes.len() - 1) =~= nodes.drop_last());
        lemma_caps_prefix(nodes.drop_last(), jobs, map, r, nodes.len() - 1);
        lemma_caps_add_mono(root_caps(nodes.drop_last(), jobs, map, r), c);
        lemma_caps_times_mono(branch_caps(nodes.drop_last(), jobs, map, r), c, node_paths(nodes.last(), r.query, r.exact, r.show_hidden).len());
    } else {
        assert(nodes.take(n) =~= nodes);
        if nodes.len() > 0 {
            assert(nodes.drop_last().take(nodes.len() - 1) =~= nodes.drop_last());
            lemma_caps_prefix(nodes.drop_last(), jobs, map, r, nodes.len() - 1);
            let c = contribution_in(nodes.last(), jobs, map, r);
            lemma_caps_add_mono(root_caps(nodes.drop_last(), jobs, map, r), c);
            lemma_caps_times_mono(branch_caps(nodes.drop_last(), jobs, map, r), c, node_paths(nodes.last(), r.query, r.exact, r.show_hidden).len());
        }
    }
}

/// The root's counts are within its bounds.
proof fn lemma_total_le(nodes: Seq<Node>, jobs: Seq<Job>, map: Map<usize, Vec<u32>>, r: TreeRequest)
    ensures
        line_le(report_total(nodes, jobs, map, r), root_caps(nodes, jobs, map, r)),
        caps_le(zero_caps(), root_caps(nodes, jobs, map, r)),
    decreases nodes.len(),
{
    if nodes.len() > 0 {
        lemma_total_le(nodes.drop_last(), jobs, map, r);
    }
}

fn is_hidden(f: &String) -> (b: bool)
    ensures
        b == is_hidden_feature(f@),
{
    let x = chars_of(f.as_str());
    chars_eq(&x, &chars_of("sxm")) || chars_eq(&x, &chars_of("sxm2")) || chars_eq(&x, &chars_of("sxm4"))
        || chars_eq(&x, &chars_of("sxm5")) || chars_eq(&x, &chars_of("nvlink")) || chars_eq(&x, &chars_of("a100"))
        || chars_eq(&x, &chars_of("h100")) || chars_eq(&x, &chars_of("v100")) || chars_eq(&x, &chars_of("ib"))
}

/// The features a node is filed under.
fn tree_features_exec(fs: &Vec<String>, show_hidden: bool) -> (out: Vec<String>)
    ensures
        out.deep_view() == tree_features(fs.deep_view(), show_hidden),
{
    let mut out: Vec<String> = Vec::new();
    let mut i: usize = 0;
    while i < fs.len()
        invariant
            i <= fs@.len(),
            out.deep_view() == tree_features(fs.deep_view().take(i as int), show_hidden),
        decreases fs@.len() - i,
    {
        assert(fs.deep_view().take(i + 1).drop_last() =~= fs.deep_view().take(i as int));
        assert(fs.deep_view()[i as int] == fs@[i as int]@);
        if show_hidden || !is_hidden(&fs[i]) {
            let ghost before = out.deep_view();
            out.push(fs[i].clone());
            assert(out.deep_view() =~= before.push(fs@[i as int]@));
        }
        i = i + 1;
    }
    assert(fs.deep_view().take(i as int) =~= fs.deep_view());
    out
}

fn names_contain(named: &[String], f: &String) -> (b: bool)
    ensures
        b == named.deep_view().contains(f@),
{
    let x = chars_of(f.as_str());
    let mut i: usize = 0;
    while i < named.len()
        invariant
            i <= named@.len(),
            x@ == f@,
            forall|k: int| 0 <= k < i ==> named.deep_view()[k] != f@,
        decreases named@.len() - i,
    {
        let y = chars_of(named[i].as_str());
        assert(named.deep_view()[i as int] == named@[i as int]@);
        if chars_eq(&x, &y) {
            return true;
        }
        i = i + 1;
    }
    false
}

fn without_named_exec(fs: &Vec<String>, named: &[String]) -> (out: Vec<String>)
    ensures
        out.deep_view() == without_named(fs.deep_view(), named.deep_view()),
{
    let mut out: Vec<String> = Vec::new();
    let mut i: usize = 0;
    while i < fs.len()
        invariant
            i <= fs@.len(),
            out.deep_view() == without_named(fs.deep_view().take(i as int), named.deep_view()),
        decreases fs@.len() - i,
    {
        assert(fs.deep_view().take(i + 1).drop_last() =~= fs.deep_view().take(i as int));
        assert(fs.deep_view()[i as int] == fs@[i as int]@);
        if !names_contain(named, &fs[i]) {
            let ghost before = out.deep_view();
            out.push(fs[i].clone());
            assert(out.deep_view() =~= before.push(fs@[i as int]@));
        }
        i = i + 1;
    }
    assert(fs.deep_view().take(i as int) =~= fs.deep_view());
    out
}

/// The paths along which `node` is filed.
fn node_paths_exec(node: &Node, selection: &FeatureQuery, exact: bool, show_hidden: bool) -> (out: Vec<Vec<String>>)
    ensures
        out.deep_view() == node_paths(*node, selection@, exact, show_hidden),
{
    let kept = tree_features_exec(&node.features, show_hidden);
    let mut out: Vec<Vec<String>> = Vec::new();
    if selection.is_empty() {
        let ghost k = kept.deep_view();
        out.push(kept);
        assert(out.deep_view() =~= seq![k]);
        return out;
    }
    let alts = selection.alternatives();
    let ghost q = selection@;
    let mut i: usize = 0;
    while i < alts.len()
        invariant
            i <= alts@.len(),
            alts@.map_values(|x: Alternative| x@) == q,
            out.deep_view() == alternative_paths(q.take(i as int), node.features.deep_view(), kept.deep_view(), exact),
        decreases alts@.len() - i,
    {
        assert(q.take(i + 1).drop_last() =~= q.take(i as int));
        assert(q[i as int] == alts@[i as int]@);
        if alts[i].matches(node, exact) {
            let label = alts[i].label();
            let rest = without_named_exec(&kept, alts[i].features());
            let mut path: Vec<String> = Vec::new();
            path.push(label);
            let mut j: usize = 0;
            while j < rest.len()
                invariant
                    j <= rest@.len(),
                    path.deep_view() == seq![join(q[i as int], seq!['&'])] + rest.deep_view().take(j as int),
                decreases rest@.len() - j,
            {
                let ghost before = path.deep_view();
                path.push(rest[j].clone());
                assert(path.deep_view() =~= before.push(rest@[j as int]@));
                assert(rest.deep_view().take(j + 1) =~= rest.deep_view().take(j as int).push(rest@[j as int]@));
                j = j + 1;
            }
            assert(rest.deep_view().take(j as int) =~= rest.deep_view());
            let ghost before = out.deep_view();
            let ghost pv = path.deep_view();
            out.push(path);
            assert(out.deep_view() =~= before.push(pv));
        }
        i = i + 1;
    }
    assert(q.take(i as int) =~= q);
    out
}

pub open spec fn nodes_of(nodes: Seq<&Node>) -> Seq<Node> {
    nodes.map_values(|n: &Node| *n)
}

pub open spec fn tree_request(
    selection: Seq<Seq<Seq<char>>>,
    exact: bool,
    show_hidden: bool,
    show_names: bool,
    preempt: Option<Set<u32>>,
    gpu: bool,
) -> TreeRequest {
    TreeRequest { query: selection, exact, show_hidden, show_names, preempt, gpu }
}

proof fn lemma_caps_times_prefix(b: Caps, c: NodeContribution, j: nat, k: nat)
    requires
        j <= k,
        caps_le(zero_caps(), b),
    ensures
        caps_le(caps_add_times(b, c, j), caps_add_times(b, c, k)),
        caps_le(zero_caps(), caps_add_times(b, c, j)),
    decreases k,
{
    lemma_caps_times_mono(b, c, j);
    if j < k {
        lemma_caps_times_prefix(b, c, j, (k - 1) as nat);
        lemma_caps_times_mono(caps_add_times(b, c, (k - 1) as nat), c, 1);
        lemma_caps_times_mono(b, c, (k - 1) as nat);
    }
}

proof fn lemma_caps_fit_le(a: Caps, b: Caps)
    requires
        caps_le(a, b),
        caps_fit(b),
    ensures
        caps_fit(a),
{
}

/// Builds the feature tree of `nodes`: the root, named "Total", counts every node once,
/// and below it each node is filed along its paths (see `node_paths`), every level on the
/// way counting it.
pub fn build_tree_report(
    nodes: &[&Node],
    jobs: &SlurmJobs,
    node_to_job_map: &HashMap<usize, Vec<u32>>,
    selection: &FeatureQuery,
    exact_match: bool,
    show_hidden_features: bool,
    show_node_names: bool,
    preempt_jobs: Option<&PreemptJobs>,
    gpu: bool,
) -> (root: TreeNode)
    requires
        jobs.wf(),
        jobs_wf(jobs.jobs@),
        report_fits(
            nodes_of(nodes@),
            jobs.jobs@,
            node_to_job_map@,
            tree_request(selection@, exact_match, show_hidden_features, show_node_names, preempt_view(preempt_jobs), gpu),
        ),
    ensures
        root@.name == "Total"@,
        root@.stats == report_total(
            nodes_of(nodes@),
            jobs.jobs@,
            node_to_job_map@,
            tree_request(selection@, exact_match, show_hidden_features, show_node_names, preempt_view(preempt_jobs), gpu),
        ),
        root@.children == report_children(
            nodes_of(nodes@),
            jobs.jobs@,
            node_to_job_map@,
            tree_request(selection@, exact_match, show_hidden_features, show_node_names, preempt_view(preempt_jobs), gpu),
        ),
        root.single_filter == (selection@.len() == 1),
{
    broadcast use vstd::std_specs::hash::group_hash_axioms;
    let ghost all = nodes_of(nodes@);
    let ghost r = tree_request(selection@, exact_match, show_hidden_features, show_node_names, preempt_view(preempt_jobs), gpu);
    let ghost map = node_to_job_map@;
    let total_name = chars_of("Total");
    let mut root = TreeNode {
        name: crate::text::string_of(&total_name),
        stats: ReportLine::new(),
        single_filter: false,
        children: Vec::new(),
    };
    if selection.alternatives().len() == 1 {
        root.single_filter = true;
    }
    let no_jobs: Vec<u32> = Vec::new();
    proof {
        assert(all.take(0) =~= Seq::<Node>::empty());
        assert(trees_view(root.children@) =~= Seq::<TreeView>::empty());
    }
    let mut i: usize = 0;
    while i < nodes.len()
        invariant
            i <= nodes@.len(),
            all == nodes_of(nodes@),
            all.len() == nodes@.len(),
            r == tree_request(selection@, exact_match, show_hidden_features, show_node_names, preempt_view(preempt_jobs), gpu),
            map == node_to_job_map@,
            no_jobs@.len() == 0,
            jobs_wf(jobs.jobs@),
            report_fits(all, jobs.jobs@, map, r),
            root@.name == "Total"@,
            root.single_filter == (selection@.len() == 1),
            root.stats@ == report_total(all.take(i as int), jobs.jobs@, map, r),
            trees_view(root.children@) == report_children(all.take(i as int), jobs.jobs@, map, r),
            trees_le(trees_view(root.children@), branch_caps(all.take(i as int), jobs.jobs@, map, r)),
        decreases nodes@.len() - i,
    {
        let node: &Node = nodes[i];
        let ghost prefix = all.take(i as int);
        let ghost next = all.take(i + 1);
        assert(next.drop_last() =~= prefix);
        assert(next.last() == *node);
        let jobs_on_node: &[u32] = match node_to_job_map.get(&node.id) {
            Some(v) => v.as_slice(),
            None => no_jobs.as_slice(),
        };
        assert(jobs_on_node@ == jobs_on(map, node.id));
        assert(contribution_fits(all[i as int], jobs.jobs@, jobs_on(map, all[i as int].id), r.preempt, r.gpu));
        let c = node_contribution(node, jobs, jobs_on_node, preempt_jobs, gpu);
        assert(c == contribution_in(*node, jobs.jobs@, map, r));
        proof {
            lemma_total_le(prefix, jobs.jobs@, map, r);
            lemma_caps_prefix(all, jobs.jobs@, map, r, i + 1);
            lemma_caps_fit_le(root_caps(next, jobs.jobs@, map, r), root_caps(all, jobs.jobs@, map, r));
            lemma_line_add_le(root.stats@, root_caps(prefix, jobs.jobs@, map, r), c, None);
        }
        root.stats.add(&c);
        let paths = node_paths_exec(node, selection, exact_match, show_hidden_features);
        let name: Option<&String> = if show_node_names {
            Some(&node.name)
        } else {
            None
        };
        let record_top = selection.is_empty();
        let ghost ps = paths.deep_view();
        let ghost base = trees_view(root.children@);
        let ghost b = branch_caps(prefix, jobs.jobs@, map, r);
        proof {
            lemma_caps_prefix(all, jobs.jobs@, map, r, i as int);
            lemma_caps_fit_le(branch_caps(next, jobs.jobs@, map, r), branch_caps(all, jobs.jobs@, map, r));
            assert(insert_paths(base, ps.take(0), c, name_view(name), record_top) == base) by {
                assert(ps.take(0).len() == 0);
            }
        }
        let mut j: usize = 0;
        while j < paths.len()
            invariant
                j <= paths@.len(),
                ps == paths.deep_view(),
                ps.len() == paths@.len(),
                caps_le(zero_caps(), b),
                caps_fit(caps_add_times(b, c, ps.len())),
                root.name@ == "Total"@,
                root.single_filter == (selection@.len() == 1),
                root.stats@ == report_total(next, jobs.jobs@, map, r),
                trees_view(root.children@) == insert_paths(base, ps.take(j as int), c, name_view(name), record_top),
                trees_le(trees_view(root.children@), caps_add_times(b, c, j as nat)),
            decreases paths@.len() - j,
        {
            proof {
                lemma_caps_times_prefix(b, c, (j + 1) as nat, ps.len());
                lemma_caps_times_prefix(b, c, j as nat, ps.len());
                lemma_caps_fit_le(caps_add_times(b, c, (j + 1) as nat), caps_add_times(b, c, ps.len()));
                assert(ps.take(j + 1).drop_last() =~= ps.take(j as int));
                assert(ps[j as int] == paths@[j as int].deep_view());
                assert(paths@[j as int].deep_view().skip(0) =~= paths@[j as int].deep_view());
                lemma_tree_insert_le(trees_view(root.children@), ps[j as int], c, name_view(name), record_top, caps_add_times(b, c, j as nat));
            }
            insert_path(&mut root.children, &paths[j], 0, &c, name, record_top, Ghost(caps_add_times(b, c, j as nat)));
            j = j + 1;
        }
        assert(ps.take(j as int) =~= ps);
        assert(ps == node_paths(all[i as int], r.query, r.exact, r.show_hidden));
        i = i + 1;
    }
    assert(all.take(i as int) =~= all);
    root
}
/// Which nodes the tree report shows: those with GPUs, those without, or all.
#[derive(Debug, Clone, Copy, PartialEq, Eq)]
pub enum GpuFilter {
    Gpu,
    NotGpu,
    All,
}

/// Whether every node has GPUs (and there is at least one node).
pub open spec fn all_gpu(nodes: Seq<Node>) -> bool {
    nodes.len() > 0 && forall|i: int| 0 <= i < nodes.len() ==> (#[trigger] nodes[i]).gpu_info is Some
}

/// Whether the report counts GPUs: unless all nodes are asked for, when GPUs are asked for
/// or every node selected has them.
pub open spec fn gpu_report(all: bool, gpu: bool, nodes: Seq<Node>) -> bool {
    !all && (gpu || all_gpu(nodes))
}

/// Which nodes to show: all when asked for, else those with GPUs for a GPU report and those
/// without otherwise.
pub open spec fn gpu_filter_of(all: bool, gpu: bool, nodes: Seq<Node>) -> GpuFilter {
    if all {
        GpuFilter::All
    } else if gpu_report(all, gpu, nodes) {
        GpuFilter::Gpu
    } else {
        GpuFilter::NotGpu
    }
}

/// Whether the report counts GPUs and which nodes it shows (see `gpu_report`,
/// `gpu_filter_of`).
pub fn gpu_report_mode(all: bool, gpu: bool, nodes: &[&Node]) -> (r: (bool, GpuFilter))
    ensures
        r.0 == gpu_report(all, gpu, nodes_of(nodes@)),
        r.1 == gpu_filter_of(all, gpu, nodes_of(nodes@)),
{
    let ghost ns = nodes_of(nodes@);
    let mut every = nodes.len() > 0;
    let mut i: usize = 0;
    while i < nodes.len()
        invariant
            i <= nodes@.len(),
            ns == nodes_of(nodes@),
            ns.len() == nodes@.len(),
            every == (nodes@.len() > 0 && forall|k: int| 0 <= k < i ==> (#[trigger] ns[k]).gpu_info is Some),
        decreases nodes@.len() - i,
    {
        assert(ns[i as int] == *nodes@[i as int]);
        if nodes[i].gpu_info.is_none() {
            every = false;
        }
        i = i + 1;
    }
    let report = !all && (gpu || every);
    let filter = if all {
        GpuFilter::All
    } else if report {
        GpuFilter::Gpu
    } else {
        GpuFilter::NotGpu
    };
    (report, filter)
}

/// Whether `filter` shows `node`.
pub open spec fn gpu_shown(filter: GpuFilter, node: Node) -> bool {
    match filter {
        GpuFilter::Gpu => node.gpu_info is Some,
        GpuFilter::NotGpu => node.gpu_info is None,
        GpuFilter::All => true,
    }
}

/// The nodes of `nodes` that `filter` shows, in order.
pub open spec fn gpu_filtered(nodes: Seq<Node>, filter: GpuFilter) -> Seq<Node>
    decreases nodes.len(),
{
    if nodes.len() == 0 {
        Seq::empty()
    } else {
        let init = gpu_filtered(nodes.drop_last(), filter);
        if gpu_shown(filter, nodes.last()) {
            init.push(nodes.last())
        } else {
            init
        }
    }
}

/// Keeps the nodes that `filter` shows, in order.
pub fn retain_gpu_filter<'a>(nodes: Vec<&'a Node>, filter: GpuFilter) -> (out: Vec<&'a Node>)
    ensures
        nodes_of(out@) == gpu_filtered(nodes_of(nodes@), filter),
{
    let ghost ns = nodes_of(nodes@);
    let mut out: Vec<&'a Node> = Vec::new();
    let mut i: usize = 0;
    while i < nodes.len()
        invariant
            i <= nodes@.len(),
            ns == nodes_of(nodes@),
            ns.len() == nodes@.len(),
            nodes_of(out@) == gpu_filtered(ns.take(i as int), filter),
        decreases nodes@.len() - i,
    {
        assert(ns.take(i + 1).drop_last() =~= ns.take(i as int));
        assert(ns.take(i + 1).last() == ns[i as int]);
        assert(ns[i as int] == *nodes@[i as int]);
        let n = nodes[i];
        let keep = match filter {
            GpuFilter::Gpu => n.gpu_info.is_some(),
            GpuFilter::NotGpu => n.gpu_info.is_none(),
            GpuFilter::All => true,
        };
        if keep {
            let ghost before = out@;
            out.push(n);
            assert(nodes_of(out@) =~= nodes_of(before).push(*n));
        }
        i = i + 1;
    }
    assert(ns.take(i as int) =~= ns);
    out
}

/// The root of the tree report counts every node shown once, and every core they hold.
pub proof fn lemma_root_counts_every_node(nodes: Seq<Node>, jobs: Seq<Job>, map: Map<usize, Vec<u32>>, r: TreeRequest)
    ensures
        report_total(nodes, jobs, map, r).total_nodes == nodes.len(),
        report_total(nodes, jobs, map, r).total_cpus == total_of(nodes, r.gpu),
    decreases nodes.len(),
{
    if nodes.len() > 0 {
        lemma_root_counts_every_node(nodes.drop_last(), jobs, map, r);
    }
}

/// What the nodes hold between them: cores, or GPUs for a GPU report.
pub open spec fn total_of(nodes: Seq<Node>, gpu: bool) -> int
    decreases nodes.len(),
{
    if nodes.len() == 0 {
        0
    } else {
        total_of(nodes.drop_last(), gpu) + node_total(nodes.last(), gpu)
    }
}

} // verus!
