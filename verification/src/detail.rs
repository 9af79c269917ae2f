//! The detailed report: nodes grouped by state, as the jobs seen on them show it, and
//! within each state by GPU type or, for nodes without GPUs, by first feature.
use vstd::prelude::*;
use crate::jobs::{Job, SlurmJobs};
use crate::nodes::Node;
use crate::states::{NodeState, NodeStateView, copy_strings, states_equal};
use crate::text::{chars_eq, chars_of, string_of};
use crate::tree::{derived_view, jobs_on, jobs_wf, shares_sum, shares_sum_exec};
use std::collections::HashMap;

verus! {

/// The counts of one line of the detailed report.
#[derive(Debug)]
pub struct ReportLine {
    pub node_count: u32,
    pub total_cpus: u32,
    pub alloc_cpus: u32,
    pub idle_cpus: u32,
    pub total_gpus: u64,
    pub alloc_gpus: u64,
    pub idle_gpus: u64,
    pub node_names: Vec<String>,
}

/// What a `ReportLine` holds, its counts as integers.
pub struct DetailView {
    pub node_count: int,
    pub total_cpus: int,
    pub alloc_cpus: int,
    pub idle_cpus: int,
    pub total_gpus: int,
    pub alloc_gpus: int,
    pub idle_gpus: int,
    pub node_names: Seq<Seq<char>>,
}

impl View for ReportLine {
    type V = DetailView;

    open spec fn view(&self) -> DetailView {
        DetailView {
            node_count: self.node_count as int,
            total_cpus: self.total_cpus as int,
            alloc_cpus: self.alloc_cpus as int,
            idle_cpus: self.idle_cpus as int,
            total_gpus: self.total_gpus as int,
            alloc_gpus: self.alloc_gpus as int,
            idle_gpus: self.idle_gpus as int,
            node_names: self.node_names.deep_view(),
        }
    }
}

pub open spec fn empty_detail() -> DetailView {
    DetailView {
        node_count: 0,
        total_cpus: 0,
        alloc_cpus: 0,
        idle_cpus: 0,
        total_gpus: 0,
        alloc_gpus: 0,
        idle_gpus: 0,
        node_names: Seq::empty(),
    }
}

/// One state's part of the report: its summary line, and a line per GPU type or feature,
/// each name once, in the order first met.
#[derive(Debug)]
pub struct ReportGroup {
    pub summary: ReportLine,
    pub subgroups: Vec<(String, ReportLine)>,
}

/// The detailed report: a group per state, each state once, in the order first met.
#[derive(Debug)]
pub struct ReportData {
    pub groups: Vec<(NodeState, ReportGroup)>,
}

pub struct GroupView {
    pub summary: DetailView,
    pub subgroups: Seq<(Seq<char>, DetailView)>,
}

pub open spec fn subgroups_view(s: Seq<(String, ReportLine)>) -> Seq<(Seq<char>, DetailView)> {
    s.map_values(|e: (String, ReportLine)| (e.0@, e.1@))
}

pub open spec fn group_view(g: ReportGroup) -> GroupView {
    GroupView { summary: g.summary@, subgroups: subgroups_view(g.subgroups@) }
}

pub open spec fn data_view(d: Seq<(NodeState, ReportGroup)>) -> Seq<(NodeStateView, GroupView)> {
    d.map_values(|e: (NodeState, ReportGroup)| (e.0@, group_view(e.1)))
}

impl View for ReportData {
    type V = Seq<(NodeStateView, GroupView)>;

    open spec fn view(&self) -> Seq<(NodeStateView, GroupView)> {
        data_view(self.groups@)
    }
}

/// What one node adds to the lines it counts in.
pub struct Figures {
    pub cpus: int,
    pub alloc: int,
    pub idle_cpus: int,
    pub gpus: int,
    pub alloc_gpus: int,
    pub idle_gpus: int,
    pub name: Option<Seq<char>>,
}

/// The cores the jobs seen on `node` hold: each job's cores split evenly over its nodes.
pub open spec fn detail_alloc(node: Node, jobs: Seq<Job>, map: Map<usize, Vec<u32>>) -> int {
    shares_sum(jobs, jobs_on(map, node.id), false, None)
}

/// The base of a compound state, and a simple state itself.
pub open spec fn base_of(s: NodeStateView) -> NodeStateView {
    match s {
        NodeStateView::Compound { base, flags: _ } => *base,
        _ => s,
    }
}

/// The state a node is grouped under: mixed where its jobs hold some but not all of its
/// cores (flags kept), and otherwise the state Slurm reports.
pub open spec fn detail_state(node: Node, jobs: Seq<Job>, map: Map<usize, Vec<u32>>) -> NodeStateView {
    derived_view(node.state@, detail_alloc(node, jobs, map), node.cpus as int)
}

/// Whether a node's free resources count as idle: only when idle counts are asked for,
/// and only on a node whose state has an idle or mixed base.
pub open spec fn counts_idle(node: Node, jobs: Seq<Job>, map: Map<usize, Vec<u32>>, allocated: bool) -> bool {
    let b = base_of(detail_state(node, jobs, map));
    !allocated && (b == NodeStateView::Idle || b == NodeStateView::Mixed)
}

pub open spec fn figures_of(node: Node, jobs: Seq<Job>, map: Map<usize, Vec<u32>>, show_names: bool, allocated: bool) -> Figures {
    let alloc = detail_alloc(node, jobs, map);
    let idle = counts_idle(node, jobs, map, allocated);
    let (gt, ga): (int, int) = match node.gpu_info {
        Some(g) => (g.total_gpus as int, g.allocated_gpus as int),
        None => (0, 0),
    };
    Figures {
        cpus: node.cpus as int,
        alloc,
        idle_cpus: if idle {
            node.cpus - alloc
        } else {
            0
        },
        gpus: gt,
        alloc_gpus: ga,
        idle_gpus: if idle {
            gt - ga
        } else {
            0
        },
        name: if show_names {
            Some(node.name@)
        } else {
            None
        },
    }
}

/// The detailed report counts a node's free cores and GPUs as idle whenever its base state is
/// idle or mixed, whatever flags (DRAIN, MAINT and the like) it carries: a node counts the
/// same idle cores and GPUs as it would in its base state alone.
pub proof fn lemma_flags_do_not_hide_idle(
    node: Node,
    plain: Node,
    jobs: Seq<Job>,
    map: Map<usize, Vec<u32>>,
    show_names: bool,
    allocated: bool,
)
    requires
        node.state matches NodeState::Compound { base, flags: _ } && *base == plain.state,
        !(plain.state is Compound),
        plain.id == node.id,
        plain.cpus == node.cpus,
        plain.gpu_info == node.gpu_info,
    ensures
        figures_of(node, jobs, map, show_names, allocated).idle_cpus == figures_of(plain, jobs, map, show_names, allocated).idle_cpus,
        figures_of(node, jobs, map, show_names, allocated).idle_gpus == figures_of(plain, jobs, map, show_names, allocated).idle_gpus,
        counts_idle(node, jobs, map, allocated) == (!allocated && {
            let b = base_of(derived_view(plain.state@, detail_alloc(plain, jobs, map), plain.cpus as int));
            b == NodeStateView::Idle || b == NodeStateView::Mixed
        }),
{
    reveal_with_fuel(crate::states::node_state_view, 2);
    assert(detail_alloc(node, jobs, map) == detail_alloc(plain, jobs, map));
}

/// What the detailed report counts of one node: all its cores and GPUs, the cores its jobs
/// hold and the GPUs Slurm reports allocated; and, where the node counts as idle, its
/// free cores (total less held) and free GPUs (total less allocated), else none. So a node
/// whose allocated GPUs are within its total counts at most its total as allocated and
/// idle together.
pub proof fn lemma_node_figures(
    node: Node,
    jobs: Seq<Job>,
    map: Map<usize, Vec<u32>>,
    show_names: bool,
    allocated: bool,
)
    ensures
        ({
            let f = figures_of(node, jobs, map, show_names, allocated);
            let idle = counts_idle(node, jobs, map, allocated);
            &&& f.cpus == node.cpus
            &&& f.alloc == detail_alloc(node, jobs, map)
            &&& idle ==> f.idle_cpus + f.alloc == node.cpus
            &&& !idle ==> f.idle_cpus == 0 && f.idle_gpus == 0
            &&& match node.gpu_info {
                Some(g) => {
                    &&& f.gpus == g.total_gpus
                    &&& f.alloc_gpus == g.allocated_gpus
                    &&& idle ==> f.idle_gpus + g.allocated_gpus == g.total_gpus
                    &&& g.allocated_gpus <= g.total_gpus ==> f.idle_gpus + f.alloc_gpus <= f.gpus
                },
                None => f.gpus == 0 && f.alloc_gpus == 0 && f.idle_gpus == 0,
            }
        }),
{
}

/// Counting one more node into a report line keeps its idle and allocated GPUs within its
/// total, where the node's own are within its own.
pub proof fn lemma_line_gpus_within_total(l: DetailView, f: Figures)
    requires
        l.idle_gpus + l.alloc_gpus <= l.total_gpus,
        f.idle_gpus + f.alloc_gpus <= f.gpus,
    ensures
        line_plus(l, f).idle_gpus + line_plus(l, f).alloc_gpus <= line_plus(l, f).total_gpus,
        line_plus(l, f).total_gpus == l.total_gpus + f.gpus,
{
}

/// `l` counting one more node, with figures `f`.
pub open spec fn line_plus(l: DetailView, f: Figures) -> DetailView {
    DetailView {
        node_count: l.node_count + 1,
        total_cpus: l.total_cpus + f.cpus,
        alloc_cpus: l.alloc_cpus + f.alloc,
        idle_cpus: l.idle_cpus + f.idle_cpus,
        total_gpus: l.total_gpus + f.gpus,
        alloc_gpus: l.alloc_gpus + f.alloc_gpus,
        idle_gpus: l.idle_gpus + f.idle_gpus,
        node_names: match f.name {
            Some(n) => l.node_names.push(n),
            None => l.node_names,
        },
    }
}

pub open spec fn starts_with_gpu_colon(s: Seq<char>) -> bool {
    s.len() >= 4 && s.take(4) == "gpu:"@
}

/// The line within its state that a node counts in: its GPU type (every "gpu:..." type as
/// "gpu" unless `verbose`), or for a node without GPUs its first feature, if any.
pub open spec fn subgroup_key(node: Node, verbose: bool) -> Option<Seq<char>> {
    match node.gpu_info {
        Some(g) => Some(
            if !verbose && starts_with_gpu_colon(g.name@) {
                "gpu"@
            } else {
                g.name@
            },
        ),
        None => if node.features@.len() > 0 {
            Some(node.features@[0]@)
        } else {
            None
        },
    }
}

pub open spec fn sub_index(subs: Seq<(Seq<char>, DetailView)>, key: Seq<char>) -> Option<int>
    decreases subs.len(),
{
    if subs.len() == 0 {
        None
    } else {
        match sub_index(subs.drop_last(), key) {
            Some(k) => Some(k),
            None => if subs.last().0 == key {
                Some(subs.len() - 1)
            } else {
                None
            },
        }
    }
}

pub open spec fn group_index(data: Seq<(NodeStateView, GroupView)>, key: NodeStateView) -> Option<int>
    decreases data.len(),
{
    if data.len() == 0 {
        None
    } else {
        match group_index(data.drop_last(), key) {
            Some(k) => Some(k),
            None => if data.last().0 == key {
                Some(data.len() - 1)
            } else {
                None
            },
        }
    }
}

/// The lines `subs` with a node of figures `f` counted under `key`, a line made at the
/// end where `key` has none.
pub open spec fn subs_plus(subs: Seq<(Seq<char>, DetailView)>, key: Seq<char>, f: Figures) -> Seq<(Seq<char>, DetailView)> {
    match sub_index(subs, key) {
        Some(k) => subs.update(k, (key, line_plus(subs[k].1, f))),
        None => subs.push((key, line_plus(empty_detail(), f))),
    }
}

pub open spec fn group_plus(g: GroupView, f: Figures, sub: Option<Seq<char>>) -> GroupView {
    GroupView {
        summary: line_plus(g.summary, f),
        subgroups: match sub {
            Some(k) => subs_plus(g.subgroups, k, f),
            None => g.subgroups,
        },
    }
}

pub open spec fn empty_group() -> GroupView {
    GroupView { summary: empty_detail(), subgroups: Seq::empty() }
}

/// The report `data` with a node of figures `f` counted under state `key` and subgroup
/// `sub`, a group made at the end where `key` has none.
pub open spec fn data_plus(data: Seq<(NodeStateView, GroupView)>, key: NodeStateView, f: Figures, sub: Option<Seq<char>>) -> Seq<(NodeStateView, GroupView)> {
    match group_index(data, key) {
        Some(k) => data.update(k, (key, group_plus(data[k].1, f, sub))),
        None => data.push((key, group_plus(empty_group(), f, sub))),
    }
}

/// The detailed report of `nodes`: each node, in order, counted under its state.
pub open spec fn report_of(nodes: Seq<Node>, jobs: Seq<Job>, map: Map<usize, Vec<u32>>, show_names: bool, allocated: bool, verbose: bool) -> Seq<(NodeStateView, GroupView)>
    decreases nodes.len(),
{
    if nodes.len() == 0 {
        Seq::empty()
    } else {
        let n = nodes.last();
        data_plus(
            report_of(nodes.drop_last(), jobs, map, show_names, allocated, verbose),
            detail_state(n, jobs, map),
            figures_of(n, jobs, map, show_names, allocated),
            subgroup_key(n, verbose),
        )
    }
}

/// Upper bounds on a line's counts.
pub struct DetailCaps {
    pub count: int,
    pub cpus: int,
    pub alloc: int,
    pub idle_cpus: int,
    pub gpus: int,
    pub alloc_gpus: int,
    pub idle_gpus: int,
}

pub open spec fn caps_plus(c: DetailCaps, f: Figures) -> DetailCaps {
    DetailCaps {
        count: c.count + 1,
        cpus: c.cpus + f.cpus,
        alloc: c.alloc + f.alloc,
        idle_cpus: c.idle_cpus + f.idle_cpus,
        gpus: c.gpus + f.gpus,
        alloc_gpus: c.alloc_gpus + f.alloc_gpus,
        idle_gpus: c.idle_gpus + f.idle_gpus,
    }
}

pub open spec fn zero_detail_caps() -> DetailCaps {
    DetailCaps { count: 0, cpus: 0, alloc: 0, idle_cpus: 0, gpus: 0, alloc_gpus: 0, idle_gpus: 0 }
}

/// The totals over all of `nodes`: bounds on every line of their report.
pub open spec fn detail_caps(nodes: Seq<Node>, jobs: Seq<Job>, map: Map<usize, Vec<u32>>, allocated: bool) -> DetailCaps
    decreases nodes.len(),
{
    if nodes.len() == 0 {
        zero_detail_caps()
    } else {
        caps_plus(detail_caps(nodes.drop_last(), jobs, map, allocated), figures_of(nodes.last(), jobs, map, false, allocated))
    }
}

pub open spec fn detail_caps_fit(c: DetailCaps) -> bool {
    &&& c.count <= u32::MAX
    &&& c.cpus <= u32::MAX
    &&& c.alloc <= u32::MAX
    &&& c.idle_cpus <= u32::MAX
    &&& c.gpus <= u64::MAX
    &&& c.alloc_gpus <= u64::MAX
    &&& c.idle_gpus <= u64::MAX
}

pub open spec fn detail_le(l: DetailView, c: DetailCaps) -> bool {
    &&& 0 <= l.node_count <= c.count
    &&& 0 <= l.total_cpus <= c.cpus
    &&& 0 <= l.alloc_cpus <= c.alloc
    &&& 0 <= l.idle_cpus <= c.idle_cpus
    &&& 0 <= l.total_gpus <= c.gpus
    &&& 0 <= l.alloc_gpus <= c.alloc_gpus
    &&& 0 <= l.idle_gpus <= c.idle_gpus
}

pub open spec fn data_le(d: Seq<(NodeStateView, GroupView)>, c: DetailCaps) -> bool {
    forall|k: int| 0 <= k < d.len() ==> {
        &&& detail_le(#[trigger] d[k].1.summary, c)
        &&& forall|j: int| 0 <= j < d[k].1.subgroups.len() ==> detail_le(#[trigger] d[k].1.subgroups[j].1, c)
    }
}

/// Whether a node's figures can be computed: the cores its jobs hold fit in a `u32`,
/// and where its free resources count as idle, its jobs hold no more cores than it has
/// and no more GPUs are allocated on it than it has.
pub open spec fn node_ok(node: Node, jobs: Seq<Job>, map: Map<usize, Vec<u32>>, allocated: bool) -> bool {
    &&& detail_alloc(node, jobs, map) <= u32::MAX
    &&& counts_idle(node, jobs, map, allocated) ==> {
        &&& detail_alloc(node, jobs, map) <= node.cpus
        &&& match node.gpu_info {
            Some(g) => g.allocated_gpus <= g.total_gpus,
            None => true,
        }
    }
}

/// Whether the detailed report of `nodes` can be built: every node's figures can be
/// computed and the totals over all of them fit their counts.
pub open spec fn report_ok(nodes: Seq<Node>, jobs: Seq<Job>, map: Map<usize, Vec<u32>>, allocated: bool) -> bool {
    &&& forall|i: int| 0 <= i < nodes.len() ==> node_ok(#[trigger] nodes[i], jobs, map, allocated)
    &&& detail_caps_fit(detail_caps(nodes, jobs, map, allocated))
}


/// A node's figures as the counts hold them.
#[derive(Debug, Clone, Copy)]
pub struct FigureValues {
    pub cpus: u32,
    pub alloc: u32,
    pub idle_cpus: u32,
    pub gpus: u64,
    pub alloc_gpus: u64,
    pub idle_gpus: u64,
}

pub open spec fn figures_from(v: FigureValues, name: Option<Seq<char>>) -> Figures {
    Figures {
        cpus: v.cpus as int,
        alloc: v.alloc as int,
        idle_cpus: v.idle_cpus as int,
        gpus: v.gpus as int,
        alloc_gpus: v.alloc_gpus as int,
        idle_gpus: v.idle_gpus as int,
        name,
    }
}

pub open spec fn opt_name(name: Option<&String>) -> Option<Seq<char>> {
    match name {
        Some(n) => Some(n@),
        None => None,
    }
}

pub open spec fn figures_nonneg(f: Figures) -> bool {
    f.cpus >= 0 && f.alloc >= 0 && f.idle_cpus >= 0 && f.gpus >= 0 && f.alloc_gpus >= 0 && f.idle_gpus >= 0
}

pub open spec fn caps_le(a: DetailCaps, b: DetailCaps) -> bool {
    &&& 0 <= a.count <= b.count
    &&& 0 <= a.cpus <= b.cpus
    &&& 0 <= a.alloc <= b.alloc
    &&& 0 <= a.idle_cpus <= b.idle_cpus
    &&& 0 <= a.gpus <= b.gpus
    &&& 0 <= a.alloc_gpus <= b.alloc_gpus
    &&& 0 <= a.idle_gpus <= b.idle_gpus
}

fn line_add(line: &mut ReportLine, v: &FigureValues, name: Option<&String>, Ghost(c): Ghost<DetailCaps>)
    requires
        detail_le(old(line)@, c),
        detail_caps_fit(caps_plus(c, figures_from(*v, opt_name(name)))),
    ensures
        final(line)@ == line_plus(old(line)@, figures_from(*v, opt_name(name))),
{
    line.node_count = line.node_count + 1;
    line.total_cpus = line.total_cpus + v.cpus;
    line.alloc_cpus = line.alloc_cpus + v.alloc;
    line.idle_cpus = line.idle_cpus + v.idle_cpus;
    line.total_gpus = line.total_gpus + v.gpus;
    line.alloc_gpus = line.alloc_gpus + v.alloc_gpus;
    line.idle_gpus = line.idle_gpus + v.idle_gpus;
    match name {
        Some(n) => {
            let ghost before = line.node_names.deep_view();
            line.node_names.push(n.clone());
            assert(line.node_names.deep_view() =~= before.push(n@));
        },
        None => {},
    }
}

fn new_line() -> (l: ReportLine)
    ensures
        l@ == empty_detail(),
{
    let l = ReportLine {
        node_count: 0,
        total_cpus: 0,
        alloc_cpus: 0,
        idle_cpus: 0,
        total_gpus: 0,
        alloc_gpus: 0,
        idle_gpus: 0,
        node_names: Vec::new(),
    };
    assert(l.node_names.deep_view() =~= Seq::<Seq<char>>::empty());
    l
}

proof fn lemma_data_le_mono(d: Seq<(NodeStateView, GroupView)>, a: DetailCaps, b: DetailCaps)
    requires
        data_le(d, a),
        caps_le(a, b),
    ensures
        data_le(d, b),
{
    assert forall|k: int| 0 <= k < d.len() implies {
        &&& detail_le(#[trigger] d[k].1.summary, b)
        &&& forall|j: int| 0 <= j < d[k].1.subgroups.len() ==> detail_le(#[trigger] d[k].1.subgroups[j].1, b)
    } by {
        assert(detail_le(d[k].1.summary, a));
        assert forall|j: int| 0 <= j < d[k].1.subgroups.len() implies detail_le(#[trigger] d[k].1.subgroups[j].1, b) by {
            assert(detail_le(d[k].1.subgroups[j].1, a));
        }
    }
}

proof fn lemma_sub_index(subs: Seq<(Seq<char>, DetailView)>, key: Seq<char>)
    ensures
        sub_index(subs, key) matches Some(k) ==> 0 <= k < subs.len() && subs[k].0 == key,
        sub_index(subs, key) is None ==> forall|i: int| 0 <= i < subs.len() ==> #[trigger] subs[i].0 != key,
    decreases subs.len(),
{
    if subs.len() > 0 {
        lemma_sub_index(subs.drop_last(), key);
        if sub_index(subs.drop_last(), key) is None {
            assert forall|i: int| 0 <= i < subs.len() - 1 implies #[trigger] subs[i].0 != key by {
                assert(subs.drop_last()[i] == subs[i]);
            }
        }
    }
}

proof fn lemma_group_index(d: Seq<(NodeStateView, GroupView)>, key: NodeStateView)
    ensures
        group_index(d, key) matches Some(k) ==> 0 <= k < d.len() && d[k].0 == key,
        group_index(d, key) is None ==> forall|i: int| 0 <= i < d.len() ==> #[trigger] d[i].0 != key,
    decreases d.len(),
{
    if d.len() > 0 {
        lemma_group_index(d.drop_last(), key);
        if group_index(d.drop_last(), key) is None {
            assert forall|i: int| 0 <= i < d.len() - 1 implies #[trigger] d[i].0 != key by {
                assert(d.drop_last()[i] == d[i]);
            }
        }
    }
}

proof fn lemma_sub_index_prefix(subs: Seq<(Seq<char>, DetailView)>, n: int, key: Seq<char>)
    requires
        0 <= n <= subs.len(),
        sub_index(subs.take(n), key) is Some,
    ensures
        sub_index(subs, key) == sub_index(subs.take(n), key),
    decreases subs.len(),
{
    if n < subs.len() {
        assert(subs.drop_last().take(n) =~= subs.take(n));
        lemma_sub_index_prefix(subs.drop_last(), n, key);
    } else {
        assert(subs.take(n) =~= subs);
    }
}

proof fn lemma_group_index_prefix(d: Seq<(NodeStateView, GroupView)>, n: int, key: NodeStateView)
    requires
        0 <= n <= d.len(),
        group_index(d.take(n), key) is Some,
    ensures
        group_index(d, key) == group_index(d.take(n), key),
    decreases d.len(),
{
    if n < d.len() {
        assert(d.drop_last().take(n) =~= d.take(n));
        lemma_group_index_prefix(d.drop_last(), n, key);
    } else {
        assert(d.take(n) =~= d);
    }
}

fn find_sub(subs: &Vec<(String, ReportLine)>, key: &Vec<char>) -> (r: Option<usize>)
    ensures
        r matches Some(k) ==> sub_index(subgroups_view(subs@), key@) == Some(k as int),
        r is None ==> sub_index(subgroups_view(subs@), key@) is None,
{
    let ghost sv = subgroups_view(subs@);
    let mut i: usize = 0;
    while i < subs.len()
        invariant
            i <= subs@.len(),
            sv == subgroups_view(subs@),
            sub_index(sv.take(i as int), key@) is None,
        decreases subs@.len() - i,
    {
        assert(sv.take(i + 1).drop_last() =~= sv.take(i as int));
        let name = chars_of(subs[i].0.as_str());
        if chars_eq(&name, key) {
            proof {
                assert(sv.take(i + 1).last() == sv[i as int]);
                lemma_sub_index_prefix(sv, i + 1, key@);
            }
            return Some(i);
        }
        i = i + 1;
    }
    assert(sv.take(i as int) =~= sv);
    None
}

fn find_group(groups: &Vec<(NodeState, ReportGroup)>, key: &NodeState) -> (r: Option<usize>)
    ensures
        r matches Some(k) ==> group_index(data_view(groups@), key@) == Some(k as int),
        r is None ==> group_index(data_view(groups@), key@) is None,
{
    let ghost dv = data_view(groups@);
    let mut i: usize = 0;
    while i < groups.len()
        invariant
            i <= groups@.len(),
            dv == data_view(groups@),
            group_index(dv.take(i as int), key@) is None,
        decreases groups@.len() - i,
    {
        assert(dv.take(i + 1).drop_last() =~= dv.take(i as int));
        if states_equal(&groups[i].0, key) {
            proof {
                assert(dv.take(i + 1).last() == dv[i as int]);
                lemma_group_index_prefix(dv, i + 1, key@);
            }
            return Some(i);
        }
        i = i + 1;
    }
    assert(dv.take(i as int) =~= dv);
    None
}

fn group_add(g: &mut ReportGroup, v: &FigureValues, name: Option<&String>, sub: Option<Vec<char>>, Ghost(c): Ghost<DetailCaps>)
    requires
        detail_le(group_view(*old(g)).summary, c),
        forall|j: int| 0 <= j < group_view(*old(g)).subgroups.len() ==> detail_le(#[trigger] group_view(*old(g)).subgroups[j].1, c),
        caps_le(zero_detail_caps(), c),
        detail_caps_fit(caps_plus(c, figures_from(*v, opt_name(name)))),
    ensures
        group_view(*final(g)) == group_plus(
            group_view(*old(g)),
            figures_from(*v, opt_name(name)),
            match sub {
                Some(k) => Some(k@),
                None => None,
            },
        ),
{
    let ghost f = figures_from(*v, opt_name(name));
    let ghost sv = subgroups_view(g.subgroups@);
    assert(sv == group_view(*old(g)).subgroups);
    line_add(&mut g.summary, v, name, Ghost(c));
    match sub {
        Some(key) => {
            proof {
                lemma_sub_index(sv, key@);
            }
            match find_sub(&g.subgroups, &key) {
                Some(k) => {
                    let (kname, mut line) = g.subgroups.remove(k);
                    assert(line@ == sv[k as int].1);
                    assert(detail_le(group_view(*old(g)).subgroups[k as int].1, c));
                    line_add(&mut line, v, name, Ghost(c));
                    let ghost lv = line@;
                    g.subgroups.insert(k, (kname, line));
                    assert(subgroups_view(g.subgroups@) =~= sv.update(k as int, (key@, lv)));
                },
                None => {
                    let mut line = new_line();
                    line_add(&mut line, v, name, Ghost(c));
                    let ghost lv = line@;
                    g.subgroups.push((string_of(&key), line));
                    assert(subgroups_view(g.subgroups@) =~= sv.push((key@, lv)));
                },
            }
        },
        None => {},
    }
}

proof fn lemma_data_plus_le(d: Seq<(NodeStateView, GroupView)>, key: NodeStateView, f: Figures, sub: Option<Seq<char>>, c: DetailCaps)
    requires
        data_le(d, c),
        caps_le(zero_detail_caps(), c),
        figures_nonneg(f),
    ensures
        data_le(data_plus(d, key, f, sub), caps_plus(c, f)),
{
    let c2 = caps_plus(c, f);
    lemma_data_le_mono(d, c, c2);
    lemma_group_index(d, key);
    let g = match group_index(d, key) {
        Some(k) => d[k].1,
        None => empty_group(),
    };
    assert(detail_le(g.summary, c2)) by {
        if let Some(k) = group_index(d, key) {
            assert(detail_le(d[k].1.summary, c2));
        }
    }
    assert forall|j: int| 0 <= j < g.subgroups.len() implies detail_le(#[trigger] g.subgroups[j].1, c2) by {
        if let Some(k) = group_index(d, key) {
            assert(detail_le(d[k].1.summary, c2));
            assert(detail_le(d[k].1.subgroups[j].1, c2));
        }
    }
    let g2 = group_plus(g, f, sub);
    assert(detail_le(g2.summary, c2));
    assert forall|j: int| 0 <= j < g2.subgroups.len() implies detail_le(#[trigger] g2.subgroups[j].1, c2) by {
        if let Some(key2) = sub {
            lemma_sub_index(g.subgroups, key2);
            match sub_index(g.subgroups, key2) {
                Some(k) => {
                    if j != k {
                        assert(g2.subgroups[j] == g.subgroups[j]);
                    } else {
                        assert(detail_le(g.subgroups[k].1, c));
                    }
                },
                None => {
                    if j < g.subgroups.len() {
                        assert(g2.subgroups[j] == g.subgroups[j]);
                    }
                },
            }
        } else {
            assert(g2.subgroups[j] == g.subgroups[j]);
        }
    }
    let d2 = data_plus(d, key, f, sub);
    assert forall|k: int| 0 <= k < d2.len() implies #[trigger] line_ok(d2[k].1, c2) by {
        match group_index(d, key) {
            Some(i) => {
                if k != i {
                    assert(d2[k] == d[k]);
                    assert(detail_le(d[k].1.summary, c2));
                } else {
                    assert(d2[k].1 == g2);
                }
            },
            None => {
                if k < d.len() {
                    assert(d2[k] == d[k]);
                    assert(detail_le(d[k].1.summary, c2));
                } else {
                    assert(d2[k].1 == g2);
                }
            },
        }
    }
    assert(data_le(data_plus(d, key, f, sub), caps_plus(c, f))) by {
        assert forall|k: int| 0 <= k < data_plus(d, key, f, sub).len() implies {
            &&& detail_le(#[trigger] data_plus(d, key, f, sub)[k].1.summary, caps_plus(c, f))
            &&& forall|j: int| 0 <= j < data_plus(d, key, f, sub)[k].1.subgroups.len() ==> detail_le(#[trigger] data_plus(d, key, f, sub)[k].1.subgroups[j].1, caps_plus(c, f))
        } by {
            assert(line_ok(d2[k].1, c2));
        }
    }
}

/// Whether every line of group `g` is within `c`.
pub open spec fn line_ok(g: GroupView, c: DetailCaps) -> bool {
    &&& detail_le(g.summary, c)
    &&& forall|j: int| 0 <= j < g.subgroups.len() ==> detail_le(#[trigger] g.subgroups[j].1, c)
}

proof fn lemma_detail_caps_prefix(nodes: Seq<Node>, jobs: Seq<Job>, map: Map<usize, Vec<u32>>, allocated: bool, n: int)
    requires
        0 <= n <= nodes.len(),
        forall|i: int| 0 <= i < nodes.len() ==> node_ok(#[trigger] nodes[i], jobs, map, allocated),
    ensures
        caps_le(detail_caps(nodes.take(n), jobs, map, allocated), detail_caps(nodes, jobs, map, allocated)),
        caps_le(zero_detail_caps(), detail_caps(nodes.take(n), jobs, map, allocated)),
    decreases nodes.len(),
{
    lemma_figures_nonneg_all(nodes, jobs, map, allocated);
    if n < nodes.len() {
        assert(nodes.drop_last().take(n) =~= nodes.take(n));
        assert forall|i: int| 0 <= i < nodes.drop_last().len() implies node_ok(#[trigger] nodes.drop_last()[i], jobs, map, allocated) by {
            assert(nodes.drop_last()[i] == nodes[i]);
        }
        lemma_detail_caps_prefix(nodes.drop_last(), jobs, map, allocated, n);
        assert(nodes.drop_last().take(nodes.len() - 1) =~= nodes.drop_last());
        lemma_detail_caps_prefix(nodes.drop_last(), jobs, map, allocated, nodes.len() - 1);
    } else {
        assert(nodes.take(n) =~= nodes);
        if nodes.len() > 0 {
            assert forall|i: int| 0 <= i < nodes.drop_last().len() implies node_ok(#[trigger] nodes.drop_last()[i], jobs, map, allocated) by {
                assert(nodes.drop_last()[i] == nodes[i]);
            }
            assert(nodes.drop_last().take(nodes.len() - 1) =~= nodes.drop_last());
            lemma_detail_caps_prefix(nodes.drop_last(), jobs, map, allocated, nodes.len() - 1);
        }
    }
}

proof fn lemma_figures_nonneg_all(nodes: Seq<Node>, jobs: Seq<Job>, map: Map<usize, Vec<u32>>, allocated: bool)
    requires
        forall|i: int| 0 <= i < nodes.len() ==> node_ok(#[trigger] nodes[i], jobs, map, allocated),
    ensures
        forall|i: int, show: bool| 0 <= i < nodes.len() ==> figures_nonneg(#[trigger] figures_of(nodes[i], jobs, map, show, allocated)),
{
    assert forall|i: int, show: bool| 0 <= i < nodes.len() implies figures_nonneg(#[trigger] figures_of(nodes[i], jobs, map, show, allocated)) by {
        assert(node_ok(nodes[i], jobs, map, allocated));
        crate::tree::lemma_shares_nonneg(jobs, jobs_on(map, nodes[i].id), false, None);
    }
}

fn base_counts_idle(state: &NodeState) -> (r: bool)
    ensures
        r == (base_of(state@) == NodeStateView::Idle || base_of(state@) == NodeStateView::Mixed),
{
    proof {
        reveal_with_fuel(crate::states::node_state_view, 2);
    }
    match state {
        NodeState::Idle | NodeState::Mixed => true,
        NodeState::Compound { base, flags: _ } => match &**base {
            NodeState::Idle | NodeState::Mixed => true,
            _ => false,
        },
        _ => false,
    }
}

fn subgroup_key_exec(node: &Node, verbose: bool) -> (r: Option<Vec<char>>)
    ensures
        match r {
            Some(k) => subgroup_key(*node, verbose) == Some(k@),
            None => subgroup_key(*node, verbose) is None,
        },
{
    match &node.gpu_info {
        Some(g) => {
            let name = chars_of(g.name.as_str());
            let colon = name.len() >= 4 && name[0] == 'g' && name[1] == 'p' && name[2] == 'u' && name[3] == ':';
            proof {
                reveal_strlit("gpu:");
                if name@.len() >= 4 {
                    if colon {
                        assert(name@.take(4) =~= "gpu:"@);
                    } else {
                        assert(name@.take(4) != "gpu:"@) by {
                            if name@.take(4) == "gpu:"@ {
                                assert(name@.take(4)[0] == 'g');
                                assert(name@.take(4)[1] == 'p');
                                assert(name@.take(4)[2] == 'u');
                                assert(name@.take(4)[3] == ':');
                            }
                        }
                    }
                }
            }
            if !verbose && colon {
                Some(chars_of("gpu"))
            } else {
                Some(name)
            }
        },
        None => {
            if node.features.len() > 0 {
                Some(chars_of(node.features[0].as_str()))
            } else {
                None
            }
        },
    }
}

fn add_node_to_report(
    groups: &mut Vec<(NodeState, ReportGroup)>,
    node: &Node,
    jobs: &SlurmJobs,
    node_to_job_map: &HashMap<usize, Vec<u32>>,
    show_node_names: bool,
    allocated: bool,
    verbose: bool,
    Ghost(c): Ghost<DetailCaps>,
)
    requires
        jobs_wf(jobs.jobs@),
        node_ok(*node, jobs.jobs@, node_to_job_map@, allocated),
        data_le(data_view(old(groups)@), c),
        caps_le(zero_detail_caps(), c),
        detail_caps_fit(caps_plus(c, figures_of(*node, jobs.jobs@, node_to_job_map@, false, allocated))),
        figures_nonneg(figures_of(*node, jobs.jobs@, node_to_job_map@, show_node_names, allocated)),
    ensures
        data_view(final(groups)@) == data_plus(
            data_view(old(groups)@),
            detail_state(*node, jobs.jobs@, node_to_job_map@),
            figures_of(*node, jobs.jobs@, node_to_job_map@, show_node_names, allocated),
            subgroup_key(*node, verbose),
        ),
        data_le(data_view(final(groups)@), caps_plus(c, figures_of(*node, jobs.jobs@, node_to_job_map@, show_node_names, allocated))),
{
    broadcast use vstd::std_specs::hash::group_hash_axioms;
    let ghost map = node_to_job_map@;
    let no_jobs: Vec<u32> = Vec::new();
        let on: &[u32] = match node_to_job_map.get(&node.id) {
            Some(v) => v.as_slice(),
            None => no_jobs.as_slice(),
        };
        assert(on@ == jobs_on(map, node.id));
        let alloc = shares_sum_exec(&jobs.jobs, on, false, None);
        let derived = if alloc > 0 && alloc < node.cpus as u32 {
            match &node.state {
                NodeState::Compound { base: _, flags } => NodeState::Compound {
                    base: Box::new(NodeState::Mixed),
                    flags: copy_strings(flags),
                },
                _ => NodeState::Mixed,
            }
        } else {
            node.state.duplicate()
        };
        proof {
            reveal_with_fuel(crate::states::node_state_view, 2);
        }
        assert(derived@ == detail_state(*node, jobs.jobs@, map));
        let idle = !allocated && base_counts_idle(&derived);
        let (gpus, alloc_gpus): (u64, u64) = match &node.gpu_info {
            Some(g) => (g.total_gpus, g.allocated_gpus),
            None => (0, 0),
        };
        let v = FigureValues {
            cpus: node.cpus as u32,
            alloc,
            idle_cpus: if idle {
                node.cpus as u32 - alloc
            } else {
                0
            },
            gpus,
            alloc_gpus,
            idle_gpus: if idle && node.gpu_info.is_some() {
                gpus - alloc_gpus
            } else {
                0
            },
        };
        let name: Option<&String> = if show_node_names {
            Some(&node.name)
        } else {
            None
        };
        let ghost f = figures_from(v, opt_name(name));
        assert(f == figures_of(*node, jobs.jobs@, map, show_node_names, allocated));
        let sub = subgroup_key_exec(node, verbose);
        let ghost subv = match &sub {
            Some(k) => Some(k@),
            None => None::<Seq<char>>,
        };
        let ghost dv = data_view(groups@);
        proof {
            lemma_group_index(dv, derived@);
            lemma_data_plus_le(dv, derived@, f, subv, c);
        }
        match find_group(&groups, &derived) {
            Some(k) => {
                let (state, mut group) = groups.remove(k);
                assert(group_view(group) == dv[k as int].1);
                assert(detail_le(dv[k as int].1.summary, c));
                assert forall|j: int| 0 <= j < group_view(group).subgroups.len() implies detail_le(#[trigger] group_view(group).subgroups[j].1, c) by {
                    assert(detail_le(dv[k as int].1.summary, c));
                    assert(detail_le(dv[k as int].1.subgroups[j].1, c));
                }
                group_add(&mut group, &v, name, sub, Ghost(c));
                let ghost gv = group_view(group);
                groups.insert(k, (state, group));
                assert(data_view(groups@) =~= dv.update(k as int, (derived@, gv)));
            },
            None => {
                let mut group = ReportGroup { summary: new_line(), subgroups: Vec::new() };
                assert(subgroups_view(group.subgroups@) =~= Seq::<(Seq<char>, DetailView)>::empty());
                group_add(&mut group, &v, name, sub, Ghost(c));
                let ghost gv = group_view(group);
                let ghost st = derived@;
                groups.push((derived, group));
                assert(data_view(groups@) =~= dv.push((st, gv)));
            },
        }
}

/// Builds the detailed report of `nodes`, each counted under its state (see `report_of`).
pub fn build_report(
    nodes: &[&Node],
    jobs: &SlurmJobs,
    node_to_job_map: &HashMap<usize, Vec<u32>>,
    show_node_names: bool,
    allocated: bool,
    verbose: bool,
) -> (report: ReportData)
    requires
        jobs.wf(),
        jobs_wf(jobs.jobs@),
        report_ok(crate::tree::nodes_of(nodes@), jobs.jobs@, node_to_job_map@, allocated),
    ensures
        report@ == report_of(crate::tree::nodes_of(nodes@), jobs.jobs@, node_to_job_map@, show_node_names, allocated, verbose),
{
    broadcast use vstd::std_specs::hash::group_hash_axioms;
    let ghost all = crate::tree::nodes_of(nodes@);
    let ghost map = node_to_job_map@;
    let mut groups: Vec<(NodeState, ReportGroup)> = Vec::new();
    let no_jobs: Vec<u32> = Vec::new();
    proof {
        assert(data_view(groups@) =~= Seq::<(NodeStateView, GroupView)>::empty());
        assert(all.take(0) =~= Seq::<Node>::empty());
        lemma_figures_nonneg_all(all, jobs.jobs@, map, allocated);
    }
    let mut i: usize = 0;
    while i < nodes.len()
        invariant
            i <= nodes@.len(),
            all == crate::tree::nodes_of(nodes@),
            all.len() == nodes@.len(),
            map == node_to_job_map@,
            no_jobs@.len() == 0,
            jobs_wf(jobs.jobs@),
            report_ok(all, jobs.jobs@, map, allocated),
            forall|j: int, show: bool| 0 <= j < all.len() ==> figures_nonneg(#[trigger] figures_of(all[j], jobs.jobs@, map, show, allocated)),
            data_view(groups@) == report_of(all.take(i as int), jobs.jobs@, map, show_node_names, allocated, verbose),
            data_le(data_view(groups@), detail_caps(all.take(i as int), jobs.jobs@, map, allocated)),
        decreases nodes@.len() - i,
    {
        let node: &Node = nodes[i];
        let ghost prefix = all.take(i as int);
        let ghost next = all.take(i + 1);
        assert(next.drop_last() =~= prefix);
        assert(next.last() == *node);
        assert(node_ok(all[i as int], jobs.jobs@, map, allocated));
        let ghost c = detail_caps(prefix, jobs.jobs@, map, allocated);
        proof {
            lemma_detail_caps_prefix(all, jobs.jobs@, map, allocated, i + 1);
            lemma_detail_caps_prefix(all, jobs.jobs@, map, allocated, i as int);
            assert(figures_nonneg(figures_of(all[i as int], jobs.jobs@, map, show_node_names, allocated)));
        }
        add_node_to_report(&mut groups, node, jobs, node_to_job_map, show_node_names, allocated, verbose, Ghost(c));
        i = i + 1;
    }
    assert(all.take(i as int) =~= all);
    ReportData { groups }
}
} // verus!
