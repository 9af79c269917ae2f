//! The feature summary: for each feature, how many nodes and cores have it and how many of
//! them are idle.
use vstd::prelude::*;
use crate::jobs::Job;
use crate::nodes::Node;
use crate::states::{NodeState, NodeStateView};
use crate::text::{byte_len, chars_eq, chars_of, string_of, text_len};
use crate::tree::{jobs_on, jobs_wf, shares_sum, shares_sum_exec};
use crate::order::{name_index_le, named_view, sort_named};
use std::collections::HashMap;

verus! {

/// The counts for one feature across the nodes that have it.
#[derive(Debug, Clone, Copy, PartialEq, Eq)]
pub struct FeatureSummary {
    /// Total number of nodes that have this feature
    pub total_nodes: u32,
    /// Number of nodes with this feature that are idle
    pub idle_nodes: u32,
    /// Total number of CPUs on all nodes with this feature
    pub total_cpus: u32,
    /// Number of CPUs not held by jobs on the nodes with this feature
    pub idle_cpus: u32,
}

/// The summary: each feature once, in the order first met, with its counts.
#[derive(Debug)]
pub struct SummaryReportData {
    pub features: Vec<(String, FeatureSummary)>,
}

pub struct SummaryView {
    pub total_nodes: int,
    pub idle_nodes: int,
    pub total_cpus: int,
    pub idle_cpus: int,
}

pub open spec fn summary_view(s: FeatureSummary) -> SummaryView {
    SummaryView {
        total_nodes: s.total_nodes as int,
        idle_nodes: s.idle_nodes as int,
        total_cpus: s.total_cpus as int,
        idle_cpus: s.idle_cpus as int,
    }
}

pub open spec fn entries_view(e: Seq<(String, FeatureSummary)>) -> Seq<(Seq<char>, SummaryView)> {
    e.map_values(|x: (String, FeatureSummary)| (x.0@, summary_view(x.1)))
}

impl View for SummaryReportData {
    type V = Seq<(Seq<char>, SummaryView)>;

    open spec fn view(&self) -> Seq<(Seq<char>, SummaryView)> {
        entries_view(self.features@)
    }
}

/// What a node adds to each of its features: itself, whether it is idle, its cores, and
/// the cores its jobs do not hold.
pub struct NodeShare {
    pub idle: bool,
    pub cpus: int,
    pub idle_cpus: int,
}

pub open spec fn share_of(node: Node, jobs: Seq<Job>, map: Map<usize, Vec<u32>>) -> NodeShare {
    let alloc = shares_sum(jobs, jobs_on(map, node.id), false, None);
    NodeShare {
        idle: node.state@ == NodeStateView::Idle,
        cpus: node.cpus as int,
        idle_cpus: if node.cpus >= alloc {
            node.cpus - alloc
        } else {
            0
        },
    }
}

pub open spec fn summary_plus(s: SummaryView, sh: NodeShare) -> SummaryView {
    SummaryView {
        total_nodes: s.total_nodes + 1,
        idle_nodes: s.idle_nodes + if sh.idle {
            1int
        } else {
            0int
        },
        total_cpus: s.total_cpus + sh.cpus,
        idle_cpus: s.idle_cpus + sh.idle_cpus,
    }
}

pub open spec fn empty_summary() -> SummaryView {
    SummaryView { total_nodes: 0, idle_nodes: 0, total_cpus: 0, idle_cpus: 0 }
}

pub open spec fn entry_index(e: Seq<(Seq<char>, SummaryView)>, key: Seq<char>) -> Option<int>
    decreases e.len(),
{
    if e.len() == 0 {
        None
    } else {
        match entry_index(e.drop_last(), key) {
            Some(k) => Some(k),
            None => if e.last().0 == key {
                Some(e.len() - 1)
            } else {
                None
            },
        }
    }
}

/// The entries `e` with a node's share counted under feature `key`, an entry made at the
/// end where `key` has none.
pub open spec fn entries_plus(e: Seq<(Seq<char>, SummaryView)>, key: Seq<char>, sh: NodeShare) -> Seq<(Seq<char>, SummaryView)> {
    match entry_index(e, key) {
        Some(k) => e.update(k, (key, summary_plus(e[k].1, sh))),
        None => e.push((key, summary_plus(empty_summary(), sh))),
    }
}

/// The entries `e` with a node's share counted under each of `features` in turn.
pub open spec fn entries_plus_all(e: Seq<(Seq<char>, SummaryView)>, features: Seq<Seq<char>>, sh: NodeShare) -> Seq<(Seq<char>, SummaryView)>
    decreases features.len(),
{
    if features.len() == 0 {
        e
    } else {
        entries_plus(entries_plus_all(e, features.drop_last(), sh), features.last(), sh)
    }
}

/// The summary of `nodes`: each node counted under each of its features.
pub open spec fn summary_of(nodes: Seq<Node>, jobs: Seq<Job>, map: Map<usize, Vec<u32>>) -> Seq<(Seq<char>, SummaryView)>
    decreases nodes.len(),
{
    if nodes.len() == 0 {
        Seq::empty()
    } else {
        let n = nodes.last();
        entries_plus_all(summary_of(nodes.drop_last(), jobs, map), n.features.deep_view(), share_of(n, jobs, map))
    }
}

/// Bounds on the counts: each node's share counted once per feature it has.
pub open spec fn summary_caps(nodes: Seq<Node>, jobs: Seq<Job>, map: Map<usize, Vec<u32>>) -> SummaryView
    decreases nodes.len(),
{
    if nodes.len() == 0 {
        empty_summary()
    } else {
        let n = nodes.last();
        let k = n.features@.len();
        let c = summary_caps(nodes.drop_last(), jobs, map);
        let sh = share_of(n, jobs, map);
        SummaryView {
            total_nodes: c.total_nodes + k,
            idle_nodes: c.idle_nodes + k,
            total_cpus: c.total_cpus + k * sh.cpus,
            idle_cpus: c.idle_cpus + k * sh.idle_cpus,
        }
    }
}

pub open spec fn summary_le(s: SummaryView, c: SummaryView) -> bool {
    &&& 0 <= s.total_nodes <= c.total_nodes
    &&& 0 <= s.idle_nodes <= c.idle_nodes
    &&& 0 <= s.total_cpus <= c.total_cpus
    &&& 0 <= s.idle_cpus <= c.idle_cpus
}

pub open spec fn summary_fits(c: SummaryView) -> bool {
    &&& c.total_nodes <= u32::MAX
    &&& c.idle_nodes <= u32::MAX
    &&& c.total_cpus <= u32::MAX
    &&& c.idle_cpus <= u32::MAX
}

pub open spec fn entries_le(e: Seq<(Seq<char>, SummaryView)>, c: SummaryView) -> bool {
    forall|k: int| 0 <= k < e.len() ==> summary_le(#[trigger] e[k].1, c)
}

/// Whether the summary of `nodes` can be built: the cores each node's jobs hold fit in a
/// `u32`, and so do the counts over every node and feature.
pub open spec fn summary_ok(nodes: Seq<Node>, jobs: Seq<Job>, map: Map<usize, Vec<u32>>) -> bool {
    &&& forall|i: int| 0 <= i < nodes.len() ==> shares_sum(jobs, jobs_on(map, #[trigger] nodes[i].id), false, None) <= u32::MAX
    &&& summary_fits(summary_caps(nodes, jobs, map))
}


pub open spec fn caps_step(c: SummaryView, sh: NodeShare, j: int) -> SummaryView {
    SummaryView {
        total_nodes: c.total_nodes + j,
        idle_nodes: c.idle_nodes + j,
        total_cpus: c.total_cpus + j * sh.cpus,
        idle_cpus: c.idle_cpus + j * sh.idle_cpus,
    }
}

pub open spec fn caps_le(a: SummaryView, b: SummaryView) -> bool {
    &&& 0 <= a.total_nodes <= b.total_nodes
    &&& 0 <= a.idle_nodes <= b.idle_nodes
    &&& 0 <= a.total_cpus <= b.total_cpus
    &&& 0 <= a.idle_cpus <= b.idle_cpus
}

proof fn lemma_caps_step_mono(c: SummaryView, sh: NodeShare, j: int, k: int)
    requires
        0 <= j <= k,
        sh.cpus >= 0,
        sh.idle_cpus >= 0,
        caps_le(empty_summary(), c),
    ensures
        caps_le(caps_step(c, sh, j), caps_step(c, sh, k)),
        caps_le(c, caps_step(c, sh, j)),
{
    assert(j * sh.cpus <= k * sh.cpus) by (nonlinear_arith)
        requires
            0 <= j <= k,
            sh.cpus >= 0,
    ;
    assert(j * sh.idle_cpus <= k * sh.idle_cpus) by (nonlinear_arith)
        requires
            0 <= j <= k,
            sh.idle_cpus >= 0,
    ;
    assert(0 <= j * sh.cpus) by (nonlinear_arith)
        requires
            0 <= j,
            sh.cpus >= 0,
    ;
    assert(0 <= j * sh.idle_cpus) by (nonlinear_arith)
        requires
            0 <= j,
            sh.idle_cpus >= 0,
    ;
}

proof fn lemma_summary_caps_prefix(nodes: Seq<Node>, jobs: Seq<Job>, map: Map<usize, Vec<u32>>, n: int)
    requires
        0 <= n <= nodes.len(),
    ensures
        caps_le(summary_caps(nodes.take(n), jobs, map), summary_caps(nodes, jobs, map)),
        caps_le(empty_summary(), summary_caps(nodes.take(n), jobs, map)),
    decreases nodes.len(),
{
    if nodes.len() > 0 {
        let m = nodes.len() - 1;
        assert(nodes.drop_last().take(m) =~= nodes.drop_last());
        lemma_summary_caps_prefix(nodes.drop_last(), jobs, map, m);
        let sh = share_of(nodes.last(), jobs, map);
        lemma_caps_step_mono(summary_caps(nodes.drop_last(), jobs, map), sh, 0, nodes.last().features@.len() as int);
        assert(summary_caps(nodes, jobs, map) == caps_step(summary_caps(nodes.drop_last(), jobs, map), sh, nodes.last().features@.len() as int));
        if n < nodes.len() {
            assert(nodes.drop_last().take(n) =~= nodes.take(n));
            lemma_summary_caps_prefix(nodes.drop_last(), jobs, map, n);
        } else {
            assert(nodes.take(n) =~= nodes);
        }
    } else {
        assert(nodes.take(n) =~= nodes);
    }
}

proof fn lemma_entry_index(e: Seq<(Seq<char>, SummaryView)>, key: Seq<char>)
    ensures
        entry_index(e, key) matches Some(k) ==> 0 <= k < e.len() && e[k].0 == key,
    decreases e.len(),
{
    if e.len() > 0 {
        lemma_entry_index(e.drop_last(), key);
    }
}

proof fn lemma_entry_index_prefix(e: Seq<(Seq<char>, SummaryView)>, n: int, key: Seq<char>)
    requires
        0 <= n <= e.len(),
        entry_index(e.take(n), key) is Some,
    ensures
        entry_index(e, key) == entry_index(e.take(n), key),
    decreases e.len(),
{
    if n < e.len() {
        assert(e.drop_last().take(n) =~= e.take(n));
        lemma_entry_index_prefix(e.drop_last(), n, key);
    } else {
        assert(e.take(n) =~= e);
    }
}

fn find_entry(entries: &Vec<(String, FeatureSummary)>, key: &Vec<char>) -> (r: Option<usize>)
    ensures
        r matches Some(k) ==> entry_index(entries_view(entries@), key@) == Some(k as int),
        r is None ==> entry_index(entries_view(entries@), key@) is None,
{
    let ghost ev = entries_view(entries@);
    let mut i: usize = 0;
    while i < entries.len()
        invariant
            i <= entries@.len(),
            ev == entries_view(entries@),
            entry_index(ev.take(i as int), key@) is None,
        decreases entries@.len() - i,
    {
        assert(ev.take(i + 1).drop_last() =~= ev.take(i as int));
        let name = chars_of(entries[i].0.as_str());
        if chars_eq(&name, key) {
            proof {
                assert(ev.take(i + 1).last() == ev[i as int]);
                lemma_entry_index_prefix(ev, i + 1, key@);
            }
            return Some(i);
        }
        i = i + 1;
    }
    assert(ev.take(i as int) =~= ev);
    None
}

/// The counts a node of `cpus` cores, `idle_cpus` of them free, adds under a feature.
#[derive(Debug, Clone, Copy)]
struct ShareValues {
    idle: bool,
    cpus: u32,
    idle_cpus: u32,
}

spec fn share_from(v: ShareValues) -> NodeShare {
    NodeShare { idle: v.idle, cpus: v.cpus as int, idle_cpus: v.idle_cpus as int }
}

fn add_share(entries: &mut Vec<(String, FeatureSummary)>, key: &String, v: &ShareValues, Ghost(c): Ghost<SummaryView>)
    requires
        entries_le(entries_view(old(entries)@), c),
        caps_le(empty_summary(), c),
        summary_fits(caps_step(c, share_from(*v), 1)),
    ensures
        entries_view(final(entries)@) == entries_plus(entries_view(old(entries)@), key@, share_from(*v)),
        entries_le(entries_view(final(entries)@), caps_step(c, share_from(*v), 1)),
{
    let ghost ev = entries_view(entries@);
    let ghost sh = share_from(*v);
    let ghost c2 = caps_step(c, sh, 1);
    let k = chars_of(key.as_str());
    proof {
        lemma_entry_index(ev, key@);
    }
    let plus = |s: FeatureSummary| -> (r: FeatureSummary)
        requires
            summary_le(summary_view(s), c),
            summary_fits(c2),
            c2 == caps_step(c, sh, 1),
            sh == share_from(*v),
        ensures
            summary_view(r) == summary_plus(summary_view(s), sh),
        {
            FeatureSummary {
                total_nodes: s.total_nodes + 1,
                idle_nodes: s.idle_nodes + if v.idle {
                    1
                } else {
                    0
                },
                total_cpus: s.total_cpus + v.cpus,
                idle_cpus: s.idle_cpus + v.idle_cpus,
            }
        };
    match find_entry(entries, &k) {
        Some(i) => {
            let (name, s) = entries.remove(i);
            assert(summary_view(s) == ev[i as int].1);
            let s2 = plus(s);
            entries.insert(i, (name, s2));
            assert(entries_view(entries@) =~= ev.update(i as int, (key@, summary_plus(ev[i as int].1, sh))));
        },
        None => {
            let zero = FeatureSummary { total_nodes: 0, idle_nodes: 0, total_cpus: 0, idle_cpus: 0 };
            let s2 = plus(zero);
            entries.push((string_of(&k), s2));
            assert(entries_view(entries@) =~= ev.push((key@, summary_plus(empty_summary(), sh))));
        },
    }
    proof {
        let nv = entries_view(entries@);
        assert forall|j: int| 0 <= j < nv.len() implies summary_le(#[trigger] nv[j].1, c2) by {
            if j < ev.len() && nv[j] == ev[j] {
                assert(summary_le(ev[j].1, c));
            }
        }
    }
}

/// Builds the feature summary of `nodes` (see `summary_of`).
pub fn build_summary_report(
    nodes: &[&Node],
    jobs: &crate::jobs::SlurmJobs,
    node_to_job_map: &HashMap<usize, Vec<u32>>,
) -> (report: SummaryReportData)
    requires
        jobs.wf(),
        jobs_wf(jobs.jobs@),
        summary_ok(crate::tree::nodes_of(nodes@), jobs.jobs@, node_to_job_map@),
    ensures
        report@ == summary_of(crate::tree::nodes_of(nodes@), jobs.jobs@, node_to_job_map@),
{
    broadcast use vstd::std_specs::hash::group_hash_axioms;
    let ghost all = crate::tree::nodes_of(nodes@);
    let ghost map = node_to_job_map@;
    let mut entries: Vec<(String, FeatureSummary)> = Vec::new();
    let no_jobs: Vec<u32> = Vec::new();
    proof {
        assert(entries_view(entries@) =~= Seq::<(Seq<char>, SummaryView)>::empty());
        assert(all.take(0) =~= Seq::<Node>::empty());
    }
    let mut i: usize = 0;
    while i < nodes.len()
        invariant
            i <= nodes@.len(),
            all == crate::tree::nodes_of(nodes@),
            all.len() == nodes@.len(),
            map == node_to_job_map@,
            no_jobs@.len() == 0,
            jobs_wf(jobs.jobs@),
            summary_ok(all, jobs.jobs@, map),
            entries_view(entries@) == summary_of(all.take(i as int), jobs.jobs@, map),
            entries_le(entries_view(entries@), summary_caps(all.take(i as int), jobs.jobs@, map)),
        decreases nodes@.len() - i,
    {
        let node: &Node = nodes[i];
        let ghost prefix = all.take(i as int);
        let ghost next = all.take(i + 1);
        assert(next.drop_last() =~= prefix);
        assert(next.last() == *node);
        let on: &[u32] = match node_to_job_map.get(&node.id) {
            Some(v) => v.as_slice(),
            None => no_jobs.as_slice(),
        };
        assert(on@ == jobs_on(map, node.id));
        assert(shares_sum(jobs.jobs@, jobs_on(map, all[i as int].id), false, None) <= u32::MAX);
        let alloc = shares_sum_exec(&jobs.jobs, on, false, None);
        let cpus = node.cpus as u32;
        let idle = match &node.state {
            NodeState::Idle => true,
            _ => false,
        };
        let v = ShareValues {
            idle,
            cpus,
            idle_cpus: if cpus >= alloc {
                cpus - alloc
            } else {
                0
            },
        };
        let ghost sh = share_from(v);
        assert(sh == share_of(*node, jobs.jobs@, map));
        let ghost c = summary_caps(prefix, jobs.jobs@, map);
        proof {
            lemma_summary_caps_prefix(all, jobs.jobs@, map, i + 1);
            lemma_summary_caps_prefix(all, jobs.jobs@, map, i as int);
            assert(summary_caps(next, jobs.jobs@, map) == caps_step(c, sh, node.features@.len() as int));
        }
        let ghost base = entries_view(entries@);
        let ghost fs = node.features.deep_view();
        let mut j: usize = 0;
        while j < node.features.len()
            invariant
                j <= node.features@.len(),
                fs == node.features.deep_view(),
                fs.len() == node.features@.len(),
                caps_le(empty_summary(), c),
                caps_le(caps_step(c, sh, node.features@.len() as int), summary_caps(all, jobs.jobs@, map)),
                summary_fits(summary_caps(all, jobs.jobs@, map)),
                sh == share_from(v),
                sh.cpus >= 0 && sh.idle_cpus >= 0,
                entries_view(entries@) == entries_plus_all(base, fs.take(j as int), sh),
                entries_le(entries_view(entries@), caps_step(c, sh, j as int)),
            decreases node.features@.len() - j,
        {
            proof {
                lemma_caps_step_mono(c, sh, j + 1, node.features@.len() as int);
                lemma_caps_step_mono(c, sh, j as int, j + 1);
                assert(caps_step(caps_step(c, sh, j as int), sh, 1) == caps_step(c, sh, j + 1)) by (nonlinear_arith)
                    requires
                        true,
                ;
                assert(fs.take(j + 1).drop_last() =~= fs.take(j as int));
                assert(fs[j as int] == node.features@[j as int]@);
                lemma_caps_step_mono(c, sh, 0, j as int);
            }
            add_share(&mut entries, &node.features[j], &v, Ghost(caps_step(c, sh, j as int)));
            j = j + 1;
        }
        assert(fs.take(j as int) =~= fs);
        i = i + 1;
    }
    assert(all.take(i as int) =~= all);
    SummaryReportData { features: entries }
}

/// The widest feature name, at least "FEATURE", with two spaces beyond it.
pub open spec fn feature_column_width(e: Seq<(Seq<char>, SummaryView)>) -> int
    decreases e.len(),
{
    if e.len() == 0 {
        9int
    } else {
        let w = feature_column_width(e.drop_last());
        let n = byte_len(e.last().0) + 2;
        if w >= n {
            w
        } else {
            n
        }
    }
}

/// The width of the feature column of the summary.
pub fn summary_feature_width(data: &SummaryReportData) -> (w: usize)
    requires
        forall|k: int| 0 <= k < data@.len() ==> byte_len(#[trigger] data@[k].0) + 2 <= usize::MAX,
    ensures
        w == feature_column_width(data@),
{
    let ghost e = data@;
    let mut w: usize = 9;
    let mut i: usize = 0;
    while i < data.features.len()
        invariant
            i <= data.features@.len(),
            e == data@,
            forall|k: int| 0 <= k < e.len() ==> byte_len(#[trigger] e[k].0) + 2 <= usize::MAX,
            w == feature_column_width(e.take(i as int)),
        decreases data.features@.len() - i,
    {
        assert(e.take(i + 1).drop_last() =~= e.take(i as int));
        assert(e[i as int].0 == data.features@[i as int].0@);
        let n = text_len(data.features[i].0.as_str()) + 2;
        if n > w {
            w = n;
        }
        i = i + 1;
    }
    assert(e.take(i as int) =~= e);
    w
}

/// The order the features are shown in, as positions: by name.
pub open spec fn summary_order(e: Seq<(Seq<char>, SummaryView)>) -> Seq<int> {
    Seq::new(e.len(), |i: int| (e[i].0, i as usize)).sort_by(name_index_le()).map_values(
        |p: (Seq<char>, usize)| p.1 as int,
    )
}

/// The positions of the features in the order they are shown.
pub fn summary_feature_order(data: &SummaryReportData) -> (out: Vec<usize>)
    ensures
        out@.map_values(|i: usize| i as int) == summary_order(data@),
        forall|k: int| 0 <= k < out@.len() ==> #[trigger] out@[k] < data.features@.len(),
{
    let ghost e = data@;
    let ghost kv = Seq::new(e.len(), |i: int| (e[i].0, i as usize));
    let mut keys: Vec<(Vec<char>, usize)> = Vec::new();
    let mut i: usize = 0;
    while i < data.features.len()
        invariant
            i <= data.features@.len(),
            e == data@,
            kv == Seq::new(e.len(), |i: int| (e[i].0, i as usize)),
            named_view(keys@) == kv.take(i as int),
        decreases data.features@.len() - i,
    {
        let key = chars_of(data.features[i].0.as_str());
        let ghost before = named_view(keys@);
        keys.push((key, i));
        assert(named_view(keys@) =~= before.push(kv[i as int]));
        assert(kv.take(i + 1) =~= kv.take(i as int).push(kv[i as int]));
        i = i + 1;
    }
    assert(kv.take(i as int) =~= kv);
    let sorted = sort_named(keys);
    let ghost srt = named_view(sorted@);
    proof {
        crate::order::lemma_name_index_le_total_ordering();
        kv.lemma_sort_by_ensures(name_index_le());
    }
    let mut out: Vec<usize> = Vec::new();
    let mut k: usize = 0;
    while k < sorted.len()
        invariant
            k <= sorted@.len(),
            srt == named_view(sorted@),
            srt == kv.sort_by(name_index_le()),
            kv.len() == data.features@.len(),
            forall|x: (Seq<char>, usize)| !kv.contains(x) ==> !(#[trigger] srt.contains(x)),
            forall|i: int| 0 <= i < kv.len() ==> #[trigger] kv[i].1 == i,
            out@.map_values(|i: usize| i as int) == srt.take(k as int).map_values(|p: (Seq<char>, usize)| p.1 as int),
            forall|j: int| 0 <= j < out@.len() ==> #[trigger] out@[j] < data.features@.len(),
        decreases sorted@.len() - k,
    {
        let idx = sorted[k].1;
        assert(srt[k as int] == (sorted@[k as int].0@, idx));
        assert(srt.contains(srt[k as int]));
        assert(idx < kv.len()) by {
            assert(kv.contains(srt[k as int]));
            let j = choose|j: int| 0 <= j < kv.len() && kv[j] == srt[k as int];
            assert(kv[j].1 == j);
        }
        let ghost ob = out@;
        out.push(idx);
        assert(out@ =~= ob.push(idx));
        assert(srt.take(k + 1) =~= srt.take(k as int).push(srt[k as int]));
        assert(out@.map_values(|i: usize| i as int) =~= ob.map_values(|i: usize| i as int).push(idx as int));
        assert(srt.take(k + 1).map_values(|p: (Seq<char>, usize)| p.1 as int) =~= srt.take(k as int).map_values(|p: (Seq<char>, usize)| p.1 as int).push(idx as int));
        k = k + 1;
    }
    assert(srt.take(k as int) =~= srt);
    out
}

/// The counts over every feature, summed.
pub open spec fn summary_total(e: Seq<(Seq<char>, SummaryView)>) -> SummaryView
    decreases e.len(),
{
    if e.len() == 0 {
        empty_summary()
    } else {
        let t = summary_total(e.drop_last());
        let x = e.last().1;
        SummaryView {
            total_nodes: t.total_nodes + x.total_nodes,
            idle_nodes: t.idle_nodes + x.idle_nodes,
            total_cpus: t.total_cpus + x.total_cpus,
            idle_cpus: t.idle_cpus + x.idle_cpus,
        }
    }
}

/// The counts over every feature, summed.
pub fn summary_totals(data: &SummaryReportData) -> (t: FeatureSummary)
    requires
        forall|k: int| 0 <= k <= data@.len() ==> summary_fits(#[trigger] summary_total(data@.take(k))),
    ensures
        summary_view(t) == summary_total(data@),
{
    let ghost e = data@;
    let mut t = FeatureSummary { total_nodes: 0, idle_nodes: 0, total_cpus: 0, idle_cpus: 0 };
    let mut i: usize = 0;
    while i < data.features.len()
        invariant
            i <= data.features@.len(),
            e == data@,
            forall|k: int| 0 <= k <= e.len() ==> summary_fits(#[trigger] summary_total(e.take(k))),
            summary_view(t) == summary_total(e.take(i as int)),
        decreases data.features@.len() - i,
    {
        assert(e.take(i + 1).drop_last() =~= e.take(i as int));
        assert(summary_fits(summary_total(e.take(i + 1))));
        let x = data.features[i].1;
        assert(e[i as int].1 == summary_view(x));
        assert(x.total_nodes >= 0);
        t = FeatureSummary {
            total_nodes: t.total_nodes + x.total_nodes,
            idle_nodes: t.idle_nodes + x.idle_nodes,
            total_cpus: t.total_cpus + x.total_cpus,
            idle_cpus: t.idle_cpus + x.idle_cpus,
        };
        i = i + 1;
    }
    assert(e.take(i as int) =~= e);
    t
}
} // verus!
