//! Preemption: which jobs may be preempted at a given time, and what that frees on the nodes they
//! run on.
use vstd::prelude::*;
use crate::jobs::{Job, SlurmJobs};
use crate::nodes::{Node, SlurmNodes};
use crate::states::{NodeState, NodeStateView, copy_strings};
use crate::tree::{PreemptJobs, all_in, any_in, all_in_exec, any_in_exec, jobs_on};
use std::collections::{HashMap, HashSet};

verus! {

/// Whether `job` may be preempted at time `now`: it has a preemptable time (zero is none)
/// and that time has come.
pub open spec fn preemptable_at(job: Job, now: i64) -> bool {
    job.preemptable_time <= now && job.preemptable_time != 0
}

/// The ids of the jobs of `jobs` that may be preempted at time `now`.
pub open spec fn preemptable_ids(jobs: Seq<Job>, now: i64) -> Set<u32> {
    Set::new(|id: u32| exists|i: int| 0 <= i < jobs.len() && jobs[i].job_id == id && preemptable_at(jobs[i], now))
}

/// The jobs that may be preempted at time `now`.
pub fn preemptable_jobs_at(slurm_jobs: &SlurmJobs, now: i64) -> (p: PreemptJobs)
    requires
        slurm_jobs.wf(),
    ensures
        p@ == preemptable_ids(slurm_jobs.jobs@, now),
{
    broadcast use vstd::std_specs::hash::group_hash_axioms;
    let jobs = &slurm_jobs.jobs;
    let mut ids: HashSet<u32> = HashSet::new();
    let mut i: usize = 0;
    while i < jobs.len()
        invariant
            i <= jobs@.len(),
            ids@ == preemptable_ids(jobs@.take(i as int), now),
        decreases jobs@.len() - i,
    {
        let job = &jobs[i];
        let ghost before = ids@;
        if job.preemptable_time <= now && job.preemptable_time != 0 {
            ids.insert(job.job_id);
        }
        proof {
            let t = jobs@.take(i + 1);
            let t0 = jobs@.take(i as int);
            assert(t[i as int] == jobs@[i as int]);
            assert forall|id: u32| ids@.contains(id) <==> preemptable_ids(t, now).contains(id) by {
                if preemptable_ids(t, now).contains(id) {
                    let k = choose|k: int| 0 <= k < t.len() && t[k].job_id == id && preemptable_at(t[k], now);
                    if k < i {
                        assert(t0[k] == t[k]);
                        assert(0 <= k < t0.len() && t0[k].job_id == id && preemptable_at(t0[k], now));
                        assert(before.contains(id));
                    }
                }
                if ids@.contains(id) {
                    if before.contains(id) {
                        let k = choose|k: int| 0 <= k < t0.len() && t0[k].job_id == id && preemptable_at(t0[k], now);
                        assert(t[k] == t0[k]);
                        assert(0 <= k < t.len() && t[k].job_id == id && preemptable_at(t[k], now));
                    } else {
                        assert(id == job.job_id);
                        assert(0 <= i < t.len() && t[i as int].job_id == id && preemptable_at(t[i as int], now));
                    }
                }
            }
            assert(ids@ =~= preemptable_ids(t, now));
        }
        i = i + 1;
    }
    assert(jobs@.take(i as int) =~= jobs@);
    PreemptJobs { ids }
}

/// The ids of the nodes whose state preemption changed, in node order.
#[derive(Debug)]
pub struct PreemptNodes(pub Vec<usize>);

/// How preemption would leave a node: every job on it preemptable, some of them, or none
/// (which includes a node running nothing).
#[derive(Debug, Clone, Copy, PartialEq, Eq)]
pub enum PreemptClass {
    All,
    Partial,
    Unaffected,
}

pub open spec fn preempt_class(on: Seq<u32>, p: Set<u32>) -> PreemptClass {
    if on.len() == 0 {
        PreemptClass::Unaffected
    } else if all_in(on, p) {
        PreemptClass::All
    } else if any_in(on, p) {
        PreemptClass::Partial
    } else {
        PreemptClass::Unaffected
    }
}

/// The state a node in `state` takes once preemption is counted, where it changes: with
/// every job preemptable an allocated or mixed node becomes idle, and with some of them
/// an allocated node becomes mixed, flags kept either way. A mixed node with only some
/// jobs preemptable stays as it is.
pub open spec fn preempted_state(state: NodeStateView, class: PreemptClass) -> Option<NodeStateView> {
    match class {
        PreemptClass::All => match state {
            NodeStateView::Allocated | NodeStateView::Mixed => Some(NodeStateView::Idle),
            NodeStateView::Compound { base, flags } => match *base {
                NodeStateView::Allocated | NodeStateView::Mixed => Some(
                    NodeStateView::Compound { base: Box::new(NodeStateView::Idle), flags },
                ),
                _ => None,
            },
            _ => None,
        },
        PreemptClass::Partial => match state {
            NodeStateView::Allocated => Some(NodeStateView::Mixed),
            NodeStateView::Compound { base, flags } => if *base == NodeStateView::Allocated {
                Some(NodeStateView::Compound { base: Box::new(NodeStateView::Mixed), flags })
            } else {
                None
            },
            _ => None,
        },
        PreemptClass::Unaffected => None,
    }
}

/// `b` is `a` but for its state.
pub open spec fn same_but_state(a: Node, b: Node) -> bool {
    &&& b.id == a.id
    &&& b.name == a.name
    &&& b.cpus == a.cpus
    &&& b.real_memory == a.real_memory
    &&& b.free_memory == a.free_memory
    &&& b.features == a.features
    &&& b.active_features == a.active_features
    &&& b.gpu_info == a.gpu_info
    &&& b.gres == a.gres
    &&& b.gres_used == a.gres_used
    &&& b.partitions == a.partitions
    &&& b.reason == a.reason
}

/// The change preemption makes to `node`, given the jobs on each node and the
/// preemptable jobs.
pub open spec fn node_change(node: Node, map: Map<usize, Vec<u32>>, p: Set<u32>) -> Option<NodeStateView> {
    preempted_state(node.state@, preempt_class(jobs_on(map, node.id), p))
}

/// The ids of the nodes of `nodes` that preemption changes, in order.
pub open spec fn changed_ids(nodes: Seq<Node>, map: Map<usize, Vec<u32>>, p: Set<u32>) -> Seq<usize>
    decreases nodes.len(),
{
    if nodes.len() == 0 {
        Seq::empty()
    } else {
        let init = changed_ids(nodes.drop_last(), map, p);
        if node_change(nodes.last(), map, p) is Some {
            init.push(nodes.last().id)
        } else {
            init
        }
    }
}

/// What preemption makes of one node. Where the node runs jobs and every one of them may
/// be preempted, an allocated or mixed node (or a compound state on such a base) becomes
/// idle, its flags kept. Where some but not all may, an allocated node becomes mixed, its
/// flags kept, and a mixed one stays. Where none may, or it runs nothing, nothing changes.
pub proof fn lemma_preemption_frees_nodes(node: Node, map: Map<usize, Vec<u32>>, p: Set<u32>)
    ensures
        ({
            let on = jobs_on(map, node.id);
            let every = on.len() > 0 && forall|i: int| 0 <= i < on.len() ==> p.contains(#[trigger] on[i]);
            let some = exists|i: int| 0 <= i < on.len() && p.contains(#[trigger] on[i]);
            &&& every && (node.state@ == NodeStateView::Allocated || node.state@ == NodeStateView::Mixed)
                ==> node_change(node, map, p) == Some(NodeStateView::Idle)
            &&& every ==> match node.state@ {
                NodeStateView::Compound { base, flags } => (*base == NodeStateView::Allocated || *base
                    == NodeStateView::Mixed) ==> node_change(node, map, p) == Some(
                    NodeStateView::Compound { base: Box::new(NodeStateView::Idle), flags },
                ),
                _ => true,
            }
            &&& !every && some && node.state@ == NodeStateView::Allocated ==> node_change(node, map, p)
                == Some(NodeStateView::Mixed)
            &&& !every && some ==> match node.state@ {
                NodeStateView::Compound { base, flags } => *base == NodeStateView::Allocated ==> node_change(
                    node,
                    map,
                    p,
                ) == Some(NodeStateView::Compound { base: Box::new(NodeStateView::Mixed), flags }),
                _ => true,
            }
            &&& !every && node.state@ == NodeStateView::Mixed ==> node_change(node, map, p) is None
            &&& !some ==> node_change(node, map, p) is None
        }),
{
    let on = jobs_on(map, node.id);
    let every = on.len() > 0 && forall|i: int| 0 <= i < on.len() ==> p.contains(#[trigger] on[i]);
    let some = exists|i: int| 0 <= i < on.len() && p.contains(#[trigger] on[i]);
    assert(all_in(on, p) <==> forall|i: int| 0 <= i < on.len() ==> p.contains(#[trigger] on[i]));
    assert(any_in(on, p) <==> some);
    if every {
        assert(p.contains(on[0]));
        assert(some);
        assert(preempt_class(on, p) == PreemptClass::All);
    } else if some {
        assert(on.len() > 0);
        assert(preempt_class(on, p) == PreemptClass::Partial);
    } else {
        assert(preempt_class(on, p) == PreemptClass::Unaffected);
    }
    assert(node_change(node, map, p) == preempted_state(node.state@, preempt_class(on, p)));
}

/// Every node that preemption changes is reported among the changed ids.
pub proof fn lemma_changed_nodes_reported(nodes: Seq<Node>, map: Map<usize, Vec<u32>>, p: Set<u32>)
    ensures
        forall|k: int|
            0 <= k < nodes.len() && #[trigger] node_change(nodes[k], map, p) is Some ==> changed_ids(
                nodes,
                map,
                p,
            ).contains(nodes[k].id),
        forall|id: usize| #[trigger] changed_ids(nodes, map, p).contains(id) ==> exists|k: int|
            0 <= k < nodes.len() && nodes[k].id == id && node_change(nodes[k], map, p) is Some,
    decreases nodes.len(),
{
    if nodes.len() > 0 {
        let init = nodes.drop_last();
        lemma_changed_nodes_reported(init, map, p);
        let c0 = changed_ids(init, map, p);
        let c = changed_ids(nodes, map, p);
        assert forall|k: int|
            0 <= k < nodes.len() && #[trigger] node_change(nodes[k], map, p) is Some implies c.contains(nodes[k].id) by {
            if k < nodes.len() - 1 {
                assert(init[k] == nodes[k]);
                assert(c0.contains(nodes[k].id));
                let j = choose|j: int| 0 <= j < c0.len() && c0[j] == nodes[k].id;
                assert(c[j] == c0[j]);
            } else {
                assert(c[c.len() - 1] == nodes[k].id);
            }
        }
        assert forall|id: usize| #[trigger] c.contains(id) implies exists|k: int|
            0 <= k < nodes.len() && nodes[k].id == id && node_change(nodes[k], map, p) is Some by {
            let j = choose|j: int| 0 <= j < c.len() && c[j] == id;
            if j < c0.len() {
                assert(c0[j] == c[j]);
                assert(c0.contains(id));
                let k = choose|k: int| 0 <= k < init.len() && init[k].id == id && node_change(init[k], map, p) is Some;
                assert(nodes[k] == init[k]);
            } else {
                assert(nodes[nodes.len() - 1].id == id);
            }
        }
    }
}

fn class_of(ids: &[u32], p: &PreemptJobs) -> (c: PreemptClass)
    ensures
        c == preempt_class(ids@, p@),
{
    if ids.len() == 0 {
        PreemptClass::Unaffected
    } else if all_in_exec(ids, p) {
        PreemptClass::All
    } else if any_in_exec(ids, p) {
        PreemptClass::Partial
    } else {
        PreemptClass::Unaffected
    }
}

/// The state `state` takes under preemption class `class`, where it changes.
fn preempted_state_exec(state: &NodeState, class: PreemptClass) -> (r: Option<NodeState>)
    ensures
        r matches Some(s) ==> preempted_state(state@, class) == Some(s@),
        r is None ==> preempted_state(state@, class) is None,
{
    proof {
        reveal_with_fuel(crate::states::node_state_view, 2);
    }
    match class {
        PreemptClass::All => match state {
            NodeState::Allocated | NodeState::Mixed => Some(NodeState::Idle),
            NodeState::Compound { base, flags } => match &**base {
                NodeState::Allocated | NodeState::Mixed => Some(
                    NodeState::Compound { base: Box::new(NodeState::Idle), flags: copy_strings(flags) },
                ),
                _ => None,
            },
            _ => None,
        },
        PreemptClass::Partial => match state {
            NodeState::Allocated => Some(NodeState::Mixed),
            NodeState::Compound { base, flags } => match &**base {
                NodeState::Allocated => Some(
                    NodeState::Compound { base: Box::new(NodeState::Mixed), flags: copy_strings(flags) },
                ),
                _ => {
                    assert(node_state_view(**base) != NodeStateView::Allocated);
                    None
                },
            },
            _ => None,
        },
        PreemptClass::Unaffected => None,
    }
}

pub open spec fn node_state_view(s: NodeState) -> NodeStateView {
    crate::states::node_state_view(s)
}

/// Counts preemption into the nodes' states: where every job on a node may be preempted,
/// an allocated or mixed node is made idle, and where some may, an allocated node is made
/// mixed (see `preempted_state`). Returns the ids of the nodes changed, in node order.
pub fn preempt_node_with(
    slurm_nodes: &mut SlurmNodes,
    node_to_job_map: &HashMap<usize, Vec<u32>>,
    preemptable: &PreemptJobs,
) -> (changed: PreemptNodes)
    ensures
        final(slurm_nodes).nodes@.len() == old(slurm_nodes).nodes@.len(),
        final(slurm_nodes).last_update == old(slurm_nodes).last_update,
        forall|k: int|
            0 <= k < old(slurm_nodes).nodes@.len() ==> {
                let before = #[trigger] old(slurm_nodes).nodes@[k];
                let after = final(slurm_nodes).nodes@[k];
                &&& same_but_state(before, after)
                &&& after.state@ == match node_change(before, node_to_job_map@, preemptable@) {
                    Some(s) => s,
                    None => before.state@,
                }
            },
        changed.0@ == changed_ids(old(slurm_nodes).nodes@, node_to_job_map@, preemptable@),
{
    broadcast use vstd::std_specs::hash::group_hash_axioms;
    let ghost all = slurm_nodes.nodes@;
    let ghost map = node_to_job_map@;
    let n: usize = slurm_nodes.nodes.len();
    let mut rest: Vec<Node> = Vec::new();
    std::mem::swap(&mut rest, &mut slurm_nodes.nodes);
    let mut done: Vec<Node> = Vec::new();
    let mut ids: Vec<usize> = Vec::new();
    let no_jobs: Vec<u32> = Vec::new();
    let mut i: usize = 0;
    while rest.len() > 0
        invariant
            i + rest@.len() == all.len(),
            all.len() == n,
            rest@ == all.skip(i as int),
            map == node_to_job_map@,
            no_jobs@.len() == 0,
            done@.len() == i,
            forall|k: int|
                0 <= k < i ==> {
                    let before = #[trigger] all[k];
                    let after = done@[k];
                    &&& same_but_state(before, after)
                    &&& after.state@ == match node_change(before, map, preemptable@) {
                        Some(s) => s,
                        None => before.state@,
                    }
                },
            ids@ == changed_ids(all.take(i as int), map, preemptable@),
        decreases rest@.len(),
    {
        let mut node = rest.remove(0);
        assert(node == all[i as int]);
        assert(rest@ =~= all.skip(i + 1));
        assert(all.take(i + 1).drop_last() =~= all.take(i as int));
        let ghost orig = node;
        let on: &[u32] = match node_to_job_map.get(&node.id) {
            Some(v) => v.as_slice(),
            None => no_jobs.as_slice(),
        };
        assert(on@ == jobs_on(map, node.id));
        let class = class_of(on, preemptable);
        match preempted_state_exec(&node.state, class) {
            Some(s) => {
                ids.push(node.id);
                node.state = s;
            },
            None => {},
        }
        done.push(node);
        i = i + 1;
    }
    assert(all.take(i as int) =~= all);
    slurm_nodes.nodes = done;
    PreemptNodes(ids)
}

/// Counts preemption into the nodes' states at time `now`, taking as preemptable the jobs
/// whose preemptable time has come by then (see `preempt_node_with`).
pub fn preempt_node(
    slurm_nodes: &mut SlurmNodes,
    node_to_job_map: &HashMap<usize, Vec<u32>>,
    slurm_jobs: &SlurmJobs,
    now: i64,
) -> (changed: PreemptNodes)
    requires
        slurm_jobs.wf(),
    ensures
        final(slurm_nodes).nodes@.len() == old(slurm_nodes).nodes@.len(),
        final(slurm_nodes).last_update == old(slurm_nodes).last_update,
        changed.0@ == changed_ids(old(slurm_nodes).nodes@, node_to_job_map@, preemptable_ids(slurm_jobs.jobs@, now)),
        forall|k: int|
            0 <= k < old(slurm_nodes).nodes@.len() ==> {
                let before = #[trigger] old(slurm_nodes).nodes@[k];
                let after = final(slurm_nodes).nodes@[k];
                &&& same_but_state(before, after)
                &&& after.state@ == match node_change(before, node_to_job_map@, preemptable_ids(slurm_jobs.jobs@, now)) {
                    Some(s) => s,
                    None => before.state@,
                }
            },
{
    let p = preemptable_jobs_at(slurm_jobs, now);
    preempt_node_with(slurm_nodes, node_to_job_map, &p)
}

} // verus!
