//! Laying the detailed report out: column widths, the order of the states, and each line's
//! cells, with how each is to be shown. The utilization bars under the table are drawn by
//! the caller from the availability counts here.
use vstd::prelude::*;
use crate::detail::{DetailView, GroupView, ReportData, ReportGroup, ReportLine, base_of, data_view, group_view, subgroups_view};
use crate::states::{NodeState, NodeStateView, has_base_and_free, is_node_available, state_text};
use crate::text::{
    byte_len, chars_eq, chars_of, concat, decimal, decimal_chars, join, join_chars, pad_left, pad_left_chars, pad_right,
    pad_right_chars, spaces, spaces_chars, string_of, text_len, to_upper, uppercase_of,
};
use crate::order::{name_index_le, named_view, pair_le, sort_named, sort_pairs};
use crate::hostlist::{compress_hostlist, compressed};

verus! {

/// The widths of the detailed report's columns.
#[derive(Debug, Clone, Copy, PartialEq, Eq)]
pub struct ReportWidths {
    pub state_width: usize,
    pub count_width: usize,
    pub alloc_or_idle_cpu_width: usize,
    pub total_cpu_width: usize,
    pub alloc_or_idle_gpu_width: usize,
    pub total_gpu_width: usize,
}

pub open spec fn num_width(n: int) -> usize {
    decimal(n as nat).len() as usize
}

pub open spec fn wider(a: usize, b: usize) -> usize {
    if a >= b {
        a
    } else {
        b
    }
}

/// The sum of the groups' summary lines.
pub open spec fn total_of(d: Seq<(NodeStateView, GroupView)>) -> DetailView
    decreases d.len(),
{
    if d.len() == 0 {
        crate::detail::empty_detail()
    } else {
        let t = total_of(d.drop_last());
        let s = d.last().1.summary;
        DetailView {
            node_count: t.node_count + s.node_count,
            total_cpus: t.total_cpus + s.total_cpus,
            alloc_cpus: t.alloc_cpus + s.alloc_cpus,
            idle_cpus: t.idle_cpus + s.idle_cpus,
            total_gpus: t.total_gpus + s.total_gpus,
            alloc_gpus: t.alloc_gpus + s.alloc_gpus,
            idle_gpus: t.idle_gpus + s.idle_gpus,
            node_names: Seq::empty(),
        }
    }
}

/// `w` widened for line `l`: the count, the allocated or idle figures (as `allocated`
/// asks), and the totals.
pub open spec fn widen_line(w: ReportWidths, l: DetailView, allocated: bool) -> ReportWidths {
    ReportWidths {
        state_width: w.state_width,
        count_width: wider(w.count_width, num_width(l.node_count)),
        alloc_or_idle_cpu_width: wider(w.alloc_or_idle_cpu_width, num_width(if allocated { l.alloc_cpus } else { l.idle_cpus })),
        total_cpu_width: wider(w.total_cpu_width, num_width(l.total_cpus)),
        alloc_or_idle_gpu_width: wider(w.alloc_or_idle_gpu_width, num_width(if allocated { l.alloc_gpus } else { l.idle_gpus })),
        total_gpu_width: wider(w.total_gpu_width, num_width(l.total_gpus)),
    }
}

/// `w` widened for the subgroup lines `subs`, whose names are indented by two.
pub open spec fn widen_subs(w: ReportWidths, subs: Seq<(Seq<char>, DetailView)>, allocated: bool) -> ReportWidths
    decreases subs.len(),
{
    if subs.len() == 0 {
        w
    } else {
        let v = widen_subs(w, subs.drop_last(), allocated);
        widen_line(
            ReportWidths { state_width: wider(v.state_width, (byte_len(subs.last().0) + 2) as usize), ..v },
            subs.last().1,
            allocated,
        )
    }
}

/// `w` widened for every group of `d`: its state's text, its summary and its subgroups.
pub open spec fn widen_groups(w: ReportWidths, d: Seq<(NodeStateView, GroupView)>, allocated: bool) -> ReportWidths
    decreases d.len(),
{
    if d.len() == 0 {
        w
    } else {
        let v = widen_groups(w, d.drop_last(), allocated);
        let g = d.last();
        widen_subs(
            widen_line(ReportWidths { state_width: wider(v.state_width, byte_len(state_text(g.0))), ..v }, g.1.summary, allocated),
            g.1.subgroups,
            allocated,
        )
    }
}

/// The widths the report needs: at least those of "STATE" and of the totals, widened for
/// every line.
pub open spec fn report_widths_of(d: Seq<(NodeStateView, GroupView)>, allocated: bool) -> ReportWidths {
    let t = total_of(d);
    widen_groups(
        ReportWidths {
            state_width: 5,
            count_width: num_width(t.node_count),
            alloc_or_idle_cpu_width: num_width(if allocated { t.alloc_cpus } else { t.idle_cpus }),
            total_cpu_width: num_width(t.total_cpus),
            alloc_or_idle_gpu_width: num_width(if allocated { t.alloc_gpus } else { t.idle_gpus }),
            total_gpu_width: num_width(t.total_gpus),
        },
        d,
        allocated,
    )
}

/// Whether totals fit their counts.
pub open spec fn totals_fit(t: DetailView) -> bool {
    &&& 0 <= t.node_count <= u32::MAX
    &&& 0 <= t.total_cpus <= u32::MAX
    &&& 0 <= t.alloc_cpus <= u32::MAX
    &&& 0 <= t.idle_cpus <= u32::MAX
    &&& 0 <= t.total_gpus <= u64::MAX
    &&& 0 <= t.alloc_gpus <= u64::MAX
    &&& 0 <= t.idle_gpus <= u64::MAX
}

/// Whether the report's totals, over every prefix of its groups, fit their counts, and
/// its subgroup names leave room for their indent.
pub open spec fn report_table_ok(d: Seq<(NodeStateView, GroupView)>) -> bool {
    &&& forall|k: int| 0 <= k <= d.len() ==> totals_fit(#[trigger] total_of(d.take(k)))
    &&& forall|k: int, j: int| 0 <= k < d.len() && 0 <= j < d[k].1.subgroups.len() ==> byte_len(#[trigger] d[k].1.subgroups[j].0) + 2 <= usize::MAX
}

fn wider_exec(a: usize, b: usize) -> (r: usize)
    ensures
        r == wider(a, b),
{
    if a >= b {
        a
    } else {
        b
    }
}

fn num_width_exec(n: u64) -> (w: usize)
    ensures
        w == num_width(n as int),
{
    decimal_chars(n).len()
}

fn widen_line_exec(w: ReportWidths, l: &ReportLine, allocated: bool) -> (r: ReportWidths)
    ensures
        r == widen_line(w, l@, allocated),
{
    ReportWidths {
        state_width: w.state_width,
        count_width: wider_exec(w.count_width, num_width_exec(l.node_count as u64)),
        alloc_or_idle_cpu_width: wider_exec(
            w.alloc_or_idle_cpu_width,
            num_width_exec(if allocated { l.alloc_cpus as u64 } else { l.idle_cpus as u64 }),
        ),
        total_cpu_width: wider_exec(w.total_cpu_width, num_width_exec(l.total_cpus as u64)),
        alloc_or_idle_gpu_width: wider_exec(
            w.alloc_or_idle_gpu_width,
            num_width_exec(if allocated { l.alloc_gpus } else { l.idle_gpus }),
        ),
        total_gpu_width: wider_exec(w.total_gpu_width, num_width_exec(l.total_gpus)),
    }
}

fn new_total() -> (l: ReportLine)
    ensures
        l@ == crate::detail::empty_detail(),
{
    let l = ReportLine {
        node_count: 0,
        total_cpus: 0,
        alloc_cpus: 0,
        idle_cpus: 0,
        total_gpus: 0,
        alloc_gpus: 0,
        idle_gpus: 0,
        node_names: Vec::new(),
    };
    assert(l.node_names.deep_view() =~= Seq::<Seq<char>>::empty());
    l
}

/// The widths the report needs, and its totals (see `report_widths_of`, `total_of`).
pub fn get_report_widths(report_data: &ReportData, allocated: bool) -> (r: (ReportWidths, ReportLine))
    requires
        report_table_ok(report_data@),
    ensures
        r.0 == report_widths_of(report_data@, allocated),
        r.1@ == total_of(report_data@),
{
    let groups = &report_data.groups;
    let ghost d = report_data@;
    let mut total_line = new_total();
    let mut i: usize = 0;
    while i < groups.len()
        invariant
            i <= groups@.len(),
            d == data_view(groups@),
            report_table_ok(d),
            total_line@ == total_of(d.take(i as int)),
        decreases groups@.len() - i,
    {
        assert(d.take(i + 1).drop_last() =~= d.take(i as int));
        assert(d[i as int].1.summary == groups@[i as int].1.summary@);
        assert(totals_fit(total_of(d.take(i + 1))));
        let s = &groups[i].1.summary;
        total_line.node_count = total_line.node_count + s.node_count;
        total_line.total_cpus = total_line.total_cpus + s.total_cpus;
        total_line.alloc_cpus = total_line.alloc_cpus + s.alloc_cpus;
        total_line.idle_cpus = total_line.idle_cpus + s.idle_cpus;
        total_line.total_gpus = total_line.total_gpus + s.total_gpus;
        total_line.alloc_gpus = total_line.alloc_gpus + s.alloc_gpus;
        total_line.idle_gpus = total_line.idle_gpus + s.idle_gpus;
        i = i + 1;
    }
    assert(d.take(i as int) =~= d);
    let mut w = ReportWidths {
        state_width: 5,
        count_width: num_width_exec(total_line.node_count as u64),
        alloc_or_idle_cpu_width: num_width_exec(if allocated { total_line.alloc_cpus as u64 } else { total_line.idle_cpus as u64 }),
        total_cpu_width: num_width_exec(total_line.total_cpus as u64),
        alloc_or_idle_gpu_width: num_width_exec(if allocated { total_line.alloc_gpus } else { total_line.idle_gpus }),
        total_gpu_width: num_width_exec(total_line.total_gpus),
    };
    let ghost w0 = w;
    let mut k: usize = 0;
    while k < groups.len()
        invariant
            k <= groups@.len(),
            d == data_view(groups@),
            report_table_ok(d),
            w == widen_groups(w0, d.take(k as int), allocated),
        decreases groups@.len() - k,
    {
        assert(d.take(k + 1).drop_last() =~= d.take(k as int));
        let (state, group) = (&groups[k].0, &groups[k].1);
        assert(d[k as int] == (state@, group_view(*group)));
        let label = state.label();
        w = ReportWidths { state_width: wider_exec(w.state_width, text_len(label.as_str())), ..w };
        w = widen_line_exec(w, &group.summary, allocated);
        let ghost ws = w;
        let ghost subs = subgroups_view(group.subgroups@);
        let mut j: usize = 0;
        while j < group.subgroups.len()
            invariant
                j <= group.subgroups@.len(),
                subs == subgroups_view(group.subgroups@),
                subs == d[k as int].1.subgroups,
                0 <= k < d.len(),
                report_table_ok(d),
                w == widen_subs(ws, subs.take(j as int), allocated),
            decreases group.subgroups@.len() - j,
        {
            assert(subs.take(j + 1).drop_last() =~= subs.take(j as int));
            assert(subs[j as int] == (group.subgroups@[j as int].0@, group.subgroups@[j as int].1@));
            assert(byte_len(d[k as int].1.subgroups[j as int].0) + 2 <= usize::MAX);
            let name_len = text_len(group.subgroups[j].0.as_str());
            w = ReportWidths { state_width: wider_exec(w.state_width, name_len + 2), ..w };
            w = widen_line_exec(w, &group.subgroups[j].1, allocated);
            j = j + 1;
        }
        assert(subs.take(j as int) =~= subs);
        k = k + 1;
    }
    assert(d.take(k as int) =~= d);
    (w, total_line)
}


/// How a state's name is colored: idle green, mixed blue, allocated yellow, down red,
/// error magenta, and any other state cyan as the base of a compound state and dimmed
/// alone.
#[derive(Debug, Clone, Copy, PartialEq, Eq)]
pub enum StateColor {
    Green,
    Blue,
    Yellow,
    Red,
    Magenta,
    Cyan,
    Dimmed,
}

/// A piece of a line of the detailed report, with how it is to be shown.
#[derive(Debug)]
pub enum Cell {
    Plain(String),
    Bold(String),
    Colored(String, StateColor),
}

pub enum CellView {
    Plain(Seq<char>),
    Bold(Seq<char>),
    Colored(Seq<char>, StateColor),
}

impl View for Cell {
    type V = CellView;

    open spec fn view(&self) -> CellView {
        match *self {
            Cell::Plain(t) => CellView::Plain(t@),
            Cell::Bold(t) => CellView::Bold(t@),
            Cell::Colored(t, c) => CellView::Colored(t@, c),
        }
    }
}

pub open spec fn cells_view(l: Seq<Cell>) -> Seq<CellView> {
    l.map_values(|c: Cell| c@)
}

pub open spec fn rows_view(ls: Seq<Vec<Cell>>) -> Seq<Seq<CellView>> {
    ls.map_values(|l: Vec<Cell>| cells_view(l@))
}

pub open spec fn color_of(s: NodeStateView, as_base: bool) -> StateColor {
    match s {
        NodeStateView::Idle => StateColor::Green,
        NodeStateView::Mixed => StateColor::Blue,
        NodeStateView::Allocated => StateColor::Yellow,
        NodeStateView::Down => StateColor::Red,
        NodeStateView::Error => StateColor::Magenta,
        _ => if as_base {
            StateColor::Cyan
        } else {
            StateColor::Dimmed
        },
    }
}

/// How a state's name is shown: plain without color; with color, a compound state as its
/// colored base followed by its flags in upper case, and a simple state colored.
pub open spec fn state_cells(s: NodeStateView, no_color: bool) -> Seq<CellView> {
    if no_color {
        seq![CellView::Plain(state_text(s))]
    } else {
        match s {
            NodeStateView::Compound { base, flags } => seq![
                CellView::Colored(state_text(*base), color_of(*base, true)),
                CellView::Plain("+"@ + uppercase_of(join(flags, "+"@))),
            ],
            _ => seq![CellView::Colored(state_text(s), color_of(s, false))],
        }
    }
}

fn color_of_exec(s: &NodeState, as_base: bool) -> (c: StateColor)
    ensures
        c == color_of(s@, as_base),
{
    proof {
        reveal_with_fuel(crate::states::node_state_view, 2);
    }
    match s {
        NodeState::Idle => StateColor::Green,
        NodeState::Mixed => StateColor::Blue,
        NodeState::Allocated => StateColor::Yellow,
        NodeState::Down => StateColor::Red,
        NodeState::Error => StateColor::Magenta,
        _ => if as_base {
            StateColor::Cyan
        } else {
            StateColor::Dimmed
        },
    }
}

fn strings_chars(v: &Vec<String>) -> (out: Vec<Vec<char>>)
    ensures
        out.deep_view() == v.deep_view(),
{
    let mut out: Vec<Vec<char>> = Vec::new();
    let mut i: usize = 0;
    while i < v.len()
        invariant
            i <= v@.len(),
            out.deep_view() == v.deep_view().take(i as int),
        decreases v@.len() - i,
    {
        let c = chars_of(v[i].as_str());
        let ghost before = out.deep_view();
        proof {
            crate::text::lemma_chars_deep_view(c);
        }
        out.push(c);
        assert(out.deep_view() =~= before.push(v.deep_view()[i as int]));
        assert(v.deep_view().take(i + 1) =~= v.deep_view().take(i as int).push(v.deep_view()[i as int]));
        i = i + 1;
    }
    assert(v.deep_view().take(i as int) =~= v.deep_view());
    out
}

fn state_cells_exec(s: &NodeState, no_color: bool) -> (out: Vec<Cell>)
    ensures
        cells_view(out@) == state_cells(s@, no_color),
{
    proof {
        reveal_with_fuel(crate::states::node_state_view, 2);
    }
    let mut out: Vec<Cell> = Vec::new();
    if no_color {
        out.push(Cell::Plain(s.label()));
    } else {
        match s {
            NodeState::Compound { base, flags } => {
                out.push(Cell::Colored(base.label(), color_of_exec(&**base, true)));
                let parts = strings_chars(flags);
                let plus = chars_of("+");
                let joined = join_chars(&parts, &plus);
                let joined_s = string_of(&joined);
                let upper = to_upper(joined_s.as_str());
                let uc = chars_of(upper.as_str());
                let text = concat(&plus, &uc);
                out.push(Cell::Plain(string_of(&text)));
            },
            _ => {
                out.push(Cell::Colored(s.label(), color_of_exec(s, false)));
            },
        }
    }
    assert(cells_view(out@) =~= state_cells(s@, no_color));
    out
}

/// The cores (or GPUs) cell: allocated or idle figure and total, right-aligned in their
/// widths with a slash between.
pub open spec fn ratio_text(val: int, total: int, val_w: usize, total_w: usize) -> Seq<char> {
    pad_left(decimal(val as nat), val_w as nat) + seq!['/'] + pad_left(decimal(total as nat), total_w as nat)
}

/// `-` centred in `width`, the odd space going right, as `{:^width$}` places it.
pub open spec fn centred_dash(width: nat) -> Seq<char> {
    if width == 0 {
        seq!['-']
    } else {
        let pad = (width - 1) as nat;
        spaces(pad / 2) + seq!['-'] + spaces((pad - pad / 2) as nat)
    }
}

/// The columns after a line's name: its count, its cores and its GPUs (a dash for a line
/// without GPUs), three spaces apart.
pub open spec fn figures_text(l: DetailView, w: ReportWidths, allocated: bool) -> Seq<char> {
    let count = pad_left(decimal(l.node_count as nat), w.count_width as nat);
    let cpu = ratio_text(if allocated { l.alloc_cpus } else { l.idle_cpus }, l.total_cpus, w.alloc_or_idle_cpu_width, w.total_cpu_width);
    let gpu = if l.total_gpus == 0 {
        centred_dash((w.alloc_or_idle_gpu_width + w.total_gpu_width + 1) as nat)
    } else {
        ratio_text(if allocated { l.alloc_gpus } else { l.idle_gpus }, l.total_gpus, w.alloc_or_idle_gpu_width, w.total_gpu_width)
    };
    count + spaces(3) + cpu + spaces(3) + gpu
}

/// The spaces that pad a name of `len` bytes out to `width`.
pub open spec fn name_padding(len: int, width: usize) -> Seq<char> {
    spaces(if len < width { (width - len) as nat } else { 0 })
}

/// The names column: the node names compressed to a hostlist where asked for.
pub open spec fn names_text(l: DetailView, show_names: bool) -> Seq<char> {
    if show_names {
        compressed(l.node_names)
    } else {
        Seq::empty()
    }
}

pub open spec fn group_row(state: NodeStateView, l: DetailView, w: ReportWidths, no_color: bool, show_names: bool, allocated: bool) -> Seq<CellView> {
    state_cells(state, no_color) + seq![
        CellView::Plain(
            name_padding(byte_len(state_text(state)) as int, w.state_width) + spaces(3) + figures_text(l, w, allocated) + " | "@ + names_text(l, show_names),
        ),
    ]
}

pub open spec fn sub_row(name: Seq<char>, l: DetailView, w: ReportWidths, show_names: bool, allocated: bool) -> Seq<CellView> {
    let label = "  "@ + name;
    seq![
        CellView::Plain(label),
        CellView::Plain(
            name_padding(byte_len(label) as int, w.state_width) + spaces(3) + figures_text(l, w, allocated) + " | "@ + names_text(l, show_names),
        ),
    ]
}


fn ratio_text_exec(val: u64, total: u64, val_w: usize, total_w: usize) -> (out: Vec<char>)
    ensures
        out@ == ratio_text(val as int, total as int, val_w, total_w),
{
    let v = decimal_chars(val);
    let t = decimal_chars(total);
    let vp = pad_left_chars(&v, val_w);
    let tp = pad_left_chars(&t, total_w);
    let slash = ['/'];
    assert(slash@ =~= seq!['/']);
    let a = concat(&vp, &slash);
    concat(&a, &tp)
}

fn centred_dash_exec(width: usize) -> (out: Vec<char>)
    ensures
        out@ == centred_dash(width as nat),
{
    let dash = ['-'];
    assert(dash@ =~= seq!['-']);
    if width == 0 {
        return concat(&dash, &[]);
    }
    let pad = width - 1;
    let left = spaces_chars(pad / 2);
    let right = spaces_chars(pad - pad / 2);
    let a = concat(&left, &dash);
    concat(&a, &right)
}

/// Whether the report's widths leave room for its lines: the numeric columns need at most
/// twenty digits, and the name column at most what leaves room for the rest.
pub open spec fn widths_fit(w: ReportWidths) -> bool {
    &&& w.count_width <= 20
    &&& w.alloc_or_idle_cpu_width <= 20
    &&& w.total_cpu_width <= 20
    &&& w.alloc_or_idle_gpu_width <= 20
    &&& w.total_gpu_width <= 20
    &&& w.state_width <= usize::MAX - 256
}

fn figures_text_exec(l: &ReportLine, w: &ReportWidths, allocated: bool) -> (out: Vec<char>)
    requires
        widths_fit(*w),
    ensures
        out@ == figures_text(l@, *w, allocated),
{
    let count_d = decimal_chars(l.node_count as u64);
    let count = pad_left_chars(&count_d, w.count_width);
    let cpu = ratio_text_exec(
        if allocated { l.alloc_cpus as u64 } else { l.idle_cpus as u64 },
        l.total_cpus as u64,
        w.alloc_or_idle_cpu_width,
        w.total_cpu_width,
    );
    let gpu = if l.total_gpus == 0 {
        centred_dash_exec(w.alloc_or_idle_gpu_width + w.total_gpu_width + 1)
    } else {
        ratio_text_exec(
            if allocated { l.alloc_gpus } else { l.idle_gpus },
            l.total_gpus,
            w.alloc_or_idle_gpu_width,
            w.total_gpu_width,
        )
    };
    let gap = spaces_chars(3);
    let a = concat(&count, &gap);
    let b = concat(&a, &cpu);
    let c = concat(&b, &gap);
    concat(&c, &gpu)
}

fn name_padding_exec(len: usize, width: usize) -> (out: Vec<char>)
    ensures
        out@ == name_padding(len as int, width),
{
    spaces_chars(if len < width {
        width - len
    } else {
        0
    })
}

fn names_text_exec(l: &ReportLine, show_names: bool) -> (out: Vec<char>)
    ensures
        out@ == names_text(l@, show_names),
{
    if show_names {
        let h = compress_hostlist(l.node_names.as_slice());
        chars_of(h.as_str())
    } else {
        Vec::new()
    }
}

fn row_tail_exec(name_len: usize, l: &ReportLine, w: &ReportWidths, show_names: bool, allocated: bool) -> (out: Vec<char>)
    requires
        widths_fit(*w),
    ensures
        out@ == name_padding(name_len as int, w.state_width) + spaces(3) + figures_text(l@, *w, allocated) + " | "@ + names_text(l@, show_names),
{
    let pad = name_padding_exec(name_len, w.state_width);
    let gap = spaces_chars(3);
    let figs = figures_text_exec(l, w, allocated);
    let bar = chars_of(" | ");
    let names = names_text_exec(l, show_names);
    let a = concat(&pad, &gap);
    let b = concat(&a, &figs);
    let c = concat(&b, &bar);
    concat(&c, &names)
}

fn group_row_exec(state: &NodeState, l: &ReportLine, w: &ReportWidths, no_color: bool, show_names: bool, allocated: bool) -> (out: Vec<Cell>)
    requires
        widths_fit(*w),
    ensures
        cells_view(out@) == group_row(state@, l@, *w, no_color, show_names, allocated),
{
    let mut out = state_cells_exec(state, no_color);
    let label = state.label();
    let tail = row_tail_exec(text_len(label.as_str()), l, w, show_names, allocated);
    let ghost before = cells_view(out@);
    out.push(Cell::Plain(string_of(&tail)));
    assert(cells_view(out@) =~= group_row(state@, l@, *w, no_color, show_names, allocated));
    out
}

fn sub_row_exec(name: &String, l: &ReportLine, w: &ReportWidths, show_names: bool, allocated: bool) -> (out: Vec<Cell>)
    requires
        widths_fit(*w),
    ensures
        cells_view(out@) == sub_row(name@, l@, *w, show_names, allocated),
{
    let indent = chars_of("  ");
    let nc = chars_of(name.as_str());
    let label = concat(&indent, &nc);
    let label_s = string_of(&label);
    let tail = row_tail_exec(text_len(label_s.as_str()), l, w, show_names, allocated);
    let mut out: Vec<Cell> = Vec::new();
    out.push(Cell::Plain(label_s));
    out.push(Cell::Plain(string_of(&tail)));
    assert(cells_view(out@) =~= sub_row(name@, l@, *w, show_names, allocated));
    out
}

/// The flags in the order the report sorts states carrying them.
pub open spec fn flag_order_list() -> Seq<Seq<char>> {
    seq![
        "EXTERNAL"@, "RES"@, "UNDRAIN"@, "CLOUD"@, "RESUME"@, "DRAIN"@, "COMPLETING"@,
        "NO_RESPOND"@, "POWERED_DOWN"@, "FAIL"@, "POWERING_UP"@, "MAINT"@,
        "REBOOT_REQUESTED"@, "REBOOT_CANCEL"@, "POWERING_DOWN"@, "DYNAMIC_FUTURE"@,
        "REBOOT_ISSUED"@, "PLANNED"@, "INVALID_REG"@, "POWER_DOWN"@, "POWER_UP"@,
        "POWER_DRAIN"@, "DYNAMIC_NORM"@, "BLOCKED"@,
    ]
}

/// The first position of `x` in `list`.
pub open spec fn index_in(list: Seq<Seq<char>>, x: Seq<char>) -> Option<int>
    decreases list.len(),
{
    if list.len() == 0 {
        None
    } else {
        match index_in(list.drop_last(), x) {
            Some(i) => Some(i),
            None => if list.last() == x {
                Some(list.len() - 1)
            } else {
                None
            },
        }
    }
}

/// Where a flag sorts: its place in the order, read in upper case; 99 for a flag not
/// listed.
pub open spec fn flag_priority(f: Seq<char>) -> u32 {
    match index_in(flag_order_list(), uppercase_of(f)) {
        Some(i) => i as u32,
        None => 99,
    }
}

/// Where a base state sorts: idle, mixed, allocated, error, down, then all others.
pub open spec fn base_priority(s: NodeStateView) -> u32 {
    match s {
        NodeStateView::Idle => 0,
        NodeStateView::Mixed => 1,
        NodeStateView::Allocated => 2,
        NodeStateView::Error => 3,
        NodeStateView::Down => 4,
        _ => 99,
    }
}

/// The priorities of `flags`, in ascending order.
pub open spec fn sorted_priorities(flags: Seq<Seq<char>>) -> Seq<u32> {
    flags.map_values(|f: Seq<char>| (flag_priority(f), 0usize)).sort_by(pair_le()).map_values(|p: (u32, usize)| p.0)
}

/// A priority written as the character with that code, so that comparing keys as text
/// compares their priorities in turn.
pub open spec fn prio_char(p: u32) -> char {
    p as char
}

/// The key a state sorts by: its base's priority, then its flags' priorities in ascending
/// order, compared in turn, a key that runs out first sorting first.
pub open spec fn state_key(s: NodeStateView) -> Seq<char> {
    match s {
        NodeStateView::Compound { base, flags } => seq![prio_char(base_priority(*base))]
            + sorted_priorities(flags).map_values(|p: u32| prio_char(p)),
        _ => seq![prio_char(base_priority(s))],
    }
}

/// The order the groups are shown in, as positions: by state key, ties in the order the
/// states were first met.
pub open spec fn state_order(d: Seq<(NodeStateView, GroupView)>) -> Seq<int> {
    Seq::new(d.len(), |i: int| (state_key(d[i].0), i as usize)).sort_by(name_index_le()).map_values(
        |p: (Seq<char>, usize)| p.1 as int,
    )
}

/// The order a group's subgroup lines are shown in, as positions: by name.
pub open spec fn sub_order(subs: Seq<(Seq<char>, DetailView)>) -> Seq<int> {
    Seq::new(subs.len(), |i: int| (subs[i].0, i as usize)).sort_by(name_index_le()).map_values(
        |p: (Seq<char>, usize)| p.1 as int,
    )
}

fn flag_priority_exec(f: &String) -> (p: u32)
    ensures
        p == flag_priority(f@),
        p < 100,
{
    let upper = to_upper(f.as_str());
    let u = chars_of(upper.as_str());
    let names = [
        "EXTERNAL", "RES", "UNDRAIN", "CLOUD", "RESUME", "DRAIN", "COMPLETING",
        "NO_RESPOND", "POWERED_DOWN", "FAIL", "POWERING_UP", "MAINT",
        "REBOOT_REQUESTED", "REBOOT_CANCEL", "POWERING_DOWN", "DYNAMIC_FUTURE",
        "REBOOT_ISSUED", "PLANNED", "INVALID_REG", "POWER_DOWN", "POWER_UP",
        "POWER_DRAIN", "DYNAMIC_NORM", "BLOCKED",
    ];
    let ghost list = flag_order_list();
    assert(names@.map_values(|n: &str| n@) =~= list);
    let mut i: usize = 0;
    while i < 24
        invariant
            i <= 24,
            names@.len() == 24,
            names@.map_values(|n: &str| n@) == list,
            list == flag_order_list(),
            u@ == uppercase_of(f@),
            index_in(list.take(i as int), u@) is None,
        decreases 24 - i,
    {
        assert(list.take(i + 1).drop_last() =~= list.take(i as int));
        assert(list[i as int] == names@[i as int]@);
        let n = chars_of(names[i]);
        if chars_eq(&n, &u) {
            proof {
                assert(list.take(i + 1).last() == list[i as int]);
                assert(list.take(i + 1).drop_last() =~= list.take(i as int));
                assert(index_in(list.take(i + 1), u@) == Some(i as int));
                lemma_index_in_prefix(list, i + 1, u@);
                assert(index_in(list, u@) == Some(i as int));
            }
            return i as u32;
        }
        i = i + 1;
    }
    assert(list.take(24) =~= list);
    99
}

proof fn lemma_index_in_prefix(list: Seq<Seq<char>>, n: int, x: Seq<char>)
    requires
        0 <= n <= list.len(),
        index_in(list.take(n), x) is Some,
    ensures
        index_in(list, x) == index_in(list.take(n), x),
    decreases list.len(),
{
    if n < list.len() {
        assert(list.drop_last().take(n) =~= list.take(n));
        lemma_index_in_prefix(list.drop_last(), n, x);
    } else {
        assert(list.take(n) =~= list);
    }
}

fn base_priority_exec(s: &NodeState) -> (p: u32)
    ensures
        p == base_priority(s@),
        p < 100,
{
    proof {
        reveal_with_fuel(crate::states::node_state_view, 2);
    }
    match s {
        NodeState::Idle => 0,
        NodeState::Mixed => 1,
        NodeState::Allocated => 2,
        NodeState::Error => 3,
        NodeState::Down => 4,
        _ => 99,
    }
}

fn state_key_exec(s: &NodeState) -> (k: Vec<char>)
    ensures
        k@ == state_key(s@),
{
    proof {
        reveal_with_fuel(crate::states::node_state_view, 2);
    }
    let mut key: Vec<char> = Vec::new();
    match s {
        NodeState::Compound { base, flags } => {
            let b = base_priority_exec(&**base);
            key.push(char_of_prio(b));
            let mut prios: Vec<(u32, usize)> = Vec::new();
            let mut i: usize = 0;
            while i < flags.len()
                invariant
                    i <= flags@.len(),
                    forall|k: int| 0 <= k < prios@.len() ==> #[trigger] prios@[k].0 < 100,
                    prios@ == flags.deep_view().map_values(|f: Seq<char>| (flag_priority(f), 0usize)).take(i as int),
                decreases flags@.len() - i,
            {
                let p = flag_priority_exec(&flags[i]);
                assert(flags.deep_view()[i as int] == flags@[i as int]@);
                prios.push((p, 0));
                assert(prios@ =~= flags.deep_view().map_values(|f: Seq<char>| (flag_priority(f), 0usize)).take(i + 1));
                i = i + 1;
            }
            assert(flags.deep_view().map_values(|f: Seq<char>| (flag_priority(f), 0usize)).take(i as int) =~= flags.deep_view().map_values(|f: Seq<char>| (flag_priority(f), 0usize)));
            let ghost prios_all = prios;
            let sorted = sort_pairs(prios);
            let ghost sp = sorted_priorities(flags.deep_view());
            assert(sp =~= sorted@.map_values(|p: (u32, usize)| p.0));
            let ghost first = key@;
            let mut j: usize = 0;
            proof {
                broadcast use vstd::seq_lib::group_to_multiset_ensures;
                assert forall|k: int| 0 <= k < sorted@.len() implies #[trigger] sorted@[k].0 < 100 by {
                    assert(sorted@.contains(sorted@[k]));
                    assert(sorted@.to_multiset().count(sorted@[k]) > 0);
                    assert(prios_all@.to_multiset().count(sorted@[k]) > 0);
                    assert(prios_all@.contains(sorted@[k]));
                }
            }
            while j < sorted.len()
                invariant
                    j <= sorted@.len(),
                    forall|k: int| 0 <= k < sorted@.len() ==> #[trigger] sorted@[k].0 < 100,
                    sp == sorted@.map_values(|p: (u32, usize)| p.0),
                    key@ == first + sp.map_values(|p: u32| prio_char(p)).take(j as int),
                decreases sorted@.len() - j,
            {
                key.push(char_of_prio(sorted[j].0));
                assert(key@ =~= first + sp.map_values(|p: u32| prio_char(p)).take(j + 1));
                j = j + 1;
            }
            assert(sp.map_values(|p: u32| prio_char(p)).take(j as int) =~= sp.map_values(|p: u32| prio_char(p)));
        },
        _ => {
            key.push(char_of_prio(base_priority_exec(s)));
        },
    }
    assert(key@ =~= state_key(s@));
    key
}

/// The character for a priority, which is below a hundred.
fn char_of_prio(p: u32) -> (c: char)
    requires
        p < 100,
    ensures
        c == prio_char(p),
{
    (p as u8) as char
}

/// Positions taken in the order that sorting (key, position) pairs by key gives.
fn order_from_keys(keys: Vec<(Vec<char>, usize)>, Ghost(kv): Ghost<Seq<(Seq<char>, usize)>>) -> (out: Vec<usize>)
    requires
        named_view(keys@) == kv,
        forall|i: int| 0 <= i < kv.len() ==> #[trigger] kv[i].1 == i,
    ensures
        out@.map_values(|i: usize| i as int) == kv.sort_by(name_index_le()).map_values(|p: (Seq<char>, usize)| p.1 as int),
        forall|k: int| 0 <= k < out@.len() ==> #[trigger] out@[k] < kv.len(),
{
    let sorted = sort_named(keys);
    let ghost srt = named_view(sorted@);
    proof {
        crate::order::lemma_name_index_le_total_ordering();
        kv.lemma_sort_by_ensures(name_index_le());
    }
    let mut out: Vec<usize> = Vec::new();
    let mut k: usize = 0;
    while k < sorted.len()
        invariant
            k <= sorted@.len(),
            srt == named_view(sorted@),
            srt == kv.sort_by(name_index_le()),
            forall|x: (Seq<char>, usize)| !kv.contains(x) ==> !(#[trigger] srt.contains(x)),
            forall|i: int| 0 <= i < kv.len() ==> #[trigger] kv[i].1 == i,
            out@.map_values(|i: usize| i as int) == srt.take(k as int).map_values(|p: (Seq<char>, usize)| p.1 as int),
            forall|j: int| 0 <= j < out@.len() ==> #[trigger] out@[j] < kv.len(),
        decreases sorted@.len() - k,
    {
        let idx = sorted[k].1;
        assert(srt[k as int] == (sorted@[k as int].0@, idx));
        assert(srt.contains(srt[k as int]));
        assert(idx < kv.len()) by {
            assert(kv.contains(srt[k as int]));
            let j = choose|j: int| 0 <= j < kv.len() && kv[j] == srt[k as int];
            assert(kv[j].1 == j);
        }
        let ghost ob = out@;
        out.push(idx);
        assert(out@ =~= ob.push(idx));
        assert(srt.take(k + 1) =~= srt.take(k as int).push(srt[k as int]));
        assert(out@.map_values(|i: usize| i as int) =~= ob.map_values(|i: usize| i as int).push(idx as int));
        assert(srt.take(k + 1).map_values(|p: (Seq<char>, usize)| p.1 as int) =~= srt.take(k as int).map_values(|p: (Seq<char>, usize)| p.1 as int).push(idx as int));
        k = k + 1;
    }
    assert(srt.take(k as int) =~= srt);
    out
}

fn state_order_exec(groups: &Vec<(NodeState, ReportGroup)>) -> (out: Vec<usize>)
    ensures
        out@.map_values(|i: usize| i as int) == state_order(data_view(groups@)),
        forall|k: int| 0 <= k < out@.len() ==> #[trigger] out@[k] < groups@.len(),
{
    let ghost d = data_view(groups@);
    let ghost kv = Seq::new(d.len(), |i: int| (state_key(d[i].0), i as usize));
    let mut keys: Vec<(Vec<char>, usize)> = Vec::new();
    let mut i: usize = 0;
    while i < groups.len()
        invariant
            i <= groups@.len(),
            d == data_view(groups@),
            kv == Seq::new(d.len(), |i: int| (state_key(d[i].0), i as usize)),
            named_view(keys@) == kv.take(i as int),
        decreases groups@.len() - i,
    {
        let key = state_key_exec(&groups[i].0);
        let ghost before = named_view(keys@);
        keys.push((key, i));
        assert(named_view(keys@) =~= before.push(kv[i as int]));
        assert(kv.take(i + 1) =~= kv.take(i as int).push(kv[i as int]));
        i = i + 1;
    }
    assert(kv.take(i as int) =~= kv);
    order_from_keys(keys, Ghost(kv))
}

fn sub_order_exec(subs: &Vec<(String, ReportLine)>) -> (out: Vec<usize>)
    ensures
        out@.map_values(|i: usize| i as int) == sub_order(subgroups_view(subs@)),
        forall|k: int| 0 <= k < out@.len() ==> #[trigger] out@[k] < subs@.len(),
{
    let ghost sv = subgroups_view(subs@);
    let ghost kv = Seq::new(sv.len(), |i: int| (sv[i].0, i as usize));
    let mut keys: Vec<(Vec<char>, usize)> = Vec::new();
    let mut i: usize = 0;
    while i < subs.len()
        invariant
            i <= subs@.len(),
            sv == subgroups_view(subs@),
            kv == Seq::new(sv.len(), |i: int| (sv[i].0, i as usize)),
            named_view(keys@) == kv.take(i as int),
        decreases subs@.len() - i,
    {
        let key = chars_of(subs[i].0.as_str());
        let ghost before = named_view(keys@);
        keys.push((key, i));
        assert(named_view(keys@) =~= before.push(kv[i as int]));
        assert(kv.take(i + 1) =~= kv.take(i as int).push(kv[i as int]));
        i = i + 1;
    }
    assert(kv.take(i as int) =~= kv);
    order_from_keys(keys, Ghost(kv))
}

/// The rows of the subgroup lines `subs` in `order`.
pub open spec fn sub_rows(subs: Seq<(Seq<char>, DetailView)>, order: Seq<int>, w: ReportWidths, show_names: bool, allocated: bool) -> Seq<Seq<CellView>> {
    Seq::new(
        order.len(),
        |k: int|
            if 0 <= order[k] < subs.len() {
                sub_row(subs[order[k]].0, subs[order[k]].1, w, show_names, allocated)
            } else {
                Seq::empty()
            },
    )
}

/// The rows of the groups of `d` taken in `order` from its `k`th on: each group's line,
/// then its subgroup lines by name.
pub open spec fn group_rows(d: Seq<(NodeStateView, GroupView)>, order: Seq<int>, k: int, w: ReportWidths, no_color: bool, show_names: bool, allocated: bool) -> Seq<Seq<CellView>>
    decreases order.len() - k,
{
    if k < 0 || k >= order.len() {
        Seq::empty()
    } else {
        let i = order[k];
        (if 0 <= i < d.len() {
            seq![group_row(d[i].0, d[i].1.summary, w, no_color, show_names, allocated)] + sub_rows(
                d[i].1.subgroups,
                sub_order(d[i].1.subgroups),
                w,
                show_names,
                allocated,
            )
        } else {
            Seq::empty()
        }) + group_rows(d, order, k + 1, w, no_color, show_names, allocated)
    }
}

pub open spec fn dashes(n: nat) -> Seq<char> {
    Seq::new(n, |_i: int| '-')
}

pub open spec fn cpu_data_width(w: ReportWidths) -> int {
    w.alloc_or_idle_cpu_width + w.total_cpu_width + 1
}

pub open spec fn gpu_data_width(w: ReportWidths) -> int {
    w.alloc_or_idle_gpu_width + w.total_gpu_width + 1
}

/// The width of a line, which the rules under the header and over the totals match.
pub open spec fn table_width(w: ReportWidths) -> int {
    w.state_width + 3 + w.count_width + 3 + cpu_data_width(w) + 3 + gpu_data_width(w)
}

/// The header line: the column titles, bold, left-aligned over their columns.
pub open spec fn header_row(w: ReportWidths, allocated: bool) -> Seq<CellView> {
    seq![
        CellView::Bold(pad_right("STATE"@, w.state_width as nat)),
        CellView::Plain(spaces(3)),
        CellView::Bold(pad_right("COUNT"@, w.count_width as nat)),
        CellView::Plain(spaces(3)),
        CellView::Bold(pad_right(if allocated { "CPU (A/T)"@ } else { "CPU (I/T)"@ }, cpu_data_width(w) as nat)),
        CellView::Plain(spaces(3)),
        CellView::Bold(pad_right(if allocated { "GPU (A/T)"@ } else { "GPU (I/T)"@ }, gpu_data_width(w) as nat)),
    ]
}

/// The totals line.
pub open spec fn total_row(t: DetailView, w: ReportWidths, allocated: bool) -> Seq<CellView> {
    seq![
        CellView::Plain("TOTAL"@),
        CellView::Plain(name_padding(5, w.state_width) + spaces(3) + figures_text(t, w, allocated)),
    ]
}

/// The lines of the detailed report: the header, a rule, each group by state key, a rule,
/// and the totals.
pub open spec fn report_rows(d: Seq<(NodeStateView, GroupView)>, no_color: bool, show_names: bool, allocated: bool) -> Seq<Seq<CellView>> {
    let w = report_widths_of(d, allocated);
    seq![header_row(w, allocated), seq![CellView::Plain(dashes((table_width(w) + 3) as nat))]]
        + group_rows(d, state_order(d), 0, w, no_color, show_names, allocated)
        + seq![seq![CellView::Plain(dashes(table_width(w) as nat))], total_row(total_of(d), w, allocated)]
}

pub open spec fn numeric_small(w: ReportWidths) -> bool {
    &&& w.count_width <= 20
    &&& w.alloc_or_idle_cpu_width <= 20
    &&& w.total_cpu_width <= 20
    &&& w.alloc_or_idle_gpu_width <= 20
    &&& w.total_gpu_width <= 20
}

proof fn lemma_widen_line_small(w: ReportWidths, l: ReportLine, allocated: bool)
    requires
        numeric_small(w),
    ensures
        numeric_small(widen_line(w, l@, allocated)),
        widen_line(w, l@, allocated).state_width == w.state_width,
{
    crate::text::lemma_decimal_len_u64(l.node_count as u64);
    crate::text::lemma_decimal_len_u64(l.alloc_cpus as u64);
    crate::text::lemma_decimal_len_u64(l.idle_cpus as u64);
    crate::text::lemma_decimal_len_u64(l.total_cpus as u64);
    crate::text::lemma_decimal_len_u64(l.alloc_gpus);
    crate::text::lemma_decimal_len_u64(l.idle_gpus);
    crate::text::lemma_decimal_len_u64(l.total_gpus);
}

proof fn lemma_widen_subs_small(w: ReportWidths, subs: Seq<(String, ReportLine)>, allocated: bool)
    requires
        numeric_small(w),
    ensures
        numeric_small(widen_subs(w, subgroups_view(subs), allocated)),
    decreases subs.len(),
{
    if subs.len() > 0 {
        assert(subgroups_view(subs).drop_last() =~= subgroups_view(subs.drop_last()));
        lemma_widen_subs_small(w, subs.drop_last(), allocated);
        let v = widen_subs(w, subgroups_view(subs.drop_last()), allocated);
        lemma_widen_line_small(
            ReportWidths { state_width: wider(v.state_width, (byte_len(subgroups_view(subs).last().0) + 2) as usize), ..v },
            subs.last().1,
            allocated,
        );
    }
}

proof fn lemma_widen_groups_small(w: ReportWidths, groups: Seq<(NodeState, ReportGroup)>, allocated: bool)
    requires
        numeric_small(w),
    ensures
        numeric_small(widen_groups(w, data_view(groups), allocated)),
    decreases groups.len(),
{
    if groups.len() > 0 {
        assert(data_view(groups).drop_last() =~= data_view(groups.drop_last()));
        lemma_widen_groups_small(w, groups.drop_last(), allocated);
        let v = widen_groups(w, data_view(groups.drop_last()), allocated);
        let g = groups.last();
        let v2 = ReportWidths { state_width: wider(v.state_width, byte_len(state_text(g.0@))), ..v };
        lemma_widen_line_small(v2, g.1.summary, allocated);
        lemma_widen_subs_small(widen_line(v2, g.1.summary@, allocated), g.1.subgroups@, allocated);
    }
}

proof fn lemma_report_widths_small(groups: Seq<(NodeState, ReportGroup)>, allocated: bool)
    requires
        report_table_ok(data_view(groups)),
    ensures
        numeric_small(report_widths_of(data_view(groups), allocated)),
{
    let d = data_view(groups);
    let t = total_of(d);
    assert(d.take(d.len() as int) =~= d);
    assert(totals_fit(total_of(d.take(d.len() as int))));
    crate::text::lemma_decimal_len_u64(t.node_count as u64);
    crate::text::lemma_decimal_len_u64(t.alloc_cpus as u64);
    crate::text::lemma_decimal_len_u64(t.idle_cpus as u64);
    crate::text::lemma_decimal_len_u64(t.total_cpus as u64);
    crate::text::lemma_decimal_len_u64(t.alloc_gpus as u64);
    crate::text::lemma_decimal_len_u64(t.idle_gpus as u64);
    crate::text::lemma_decimal_len_u64(t.total_gpus as u64);
    let w0 = ReportWidths {
        state_width: 5,
        count_width: num_width(t.node_count),
        alloc_or_idle_cpu_width: num_width(if allocated { t.alloc_cpus } else { t.idle_cpus }),
        total_cpu_width: num_width(t.total_cpus),
        alloc_or_idle_gpu_width: num_width(if allocated { t.alloc_gpus } else { t.idle_gpus }),
        total_gpu_width: num_width(t.total_gpus),
    };
    lemma_widen_groups_small(w0, groups, allocated);
}

fn push_row(out: &mut Vec<Vec<Cell>>, row: Vec<Cell>)
    ensures
        rows_view(final(out)@) == rows_view(old(out)@).push(cells_view(row@)),
{
    let ghost before = rows_view(out@);
    let ghost rv = cells_view(row@);
    out.push(row);
    assert(rows_view(out@) =~= before.push(rv));
}

fn push_group_rows(groups: &Vec<(NodeState, ReportGroup)>, order: &Vec<usize>, w: &ReportWidths, no_color: bool, show_names: bool, allocated: bool, out: &mut Vec<Vec<Cell>>)
    requires
        widths_fit(*w),
        forall|k: int| 0 <= k < order@.len() ==> #[trigger] order@[k] < groups@.len(),
    ensures
        rows_view(final(out)@) == rows_view(old(out)@) + group_rows(
            data_view(groups@),
            order@.map_values(|i: usize| i as int),
            0,
            *w,
            no_color,
            show_names,
            allocated,
        ),
{
    let ghost d = data_view(groups@);
    let ghost ord = order@.map_values(|i: usize| i as int);
    let ghost target = rows_view(out@) + group_rows(d, ord, 0, *w, no_color, show_names, allocated);
    let mut k: usize = 0;
    while k < order.len()
        invariant
            k <= order@.len(),
            widths_fit(*w),
            d == data_view(groups@),
            ord == order@.map_values(|i: usize| i as int),
            forall|j: int| 0 <= j < order@.len() ==> #[trigger] order@[j] < groups@.len(),
            rows_view(out@) + group_rows(d, ord, k as int, *w, no_color, show_names, allocated) == target,
        decreases order@.len() - k,
    {
        let idx = order[k];
        let ghost before = rows_view(out@);
        let ghost rest = group_rows(d, ord, k + 1, *w, no_color, show_names, allocated);
        assert(ord[k as int] == idx as int);
        let (state, group) = (&groups[idx].0, &groups[idx].1);
        assert(d[idx as int] == (state@, group_view(*group)));
        push_row(out, group_row_exec(state, &group.summary, w, no_color, show_names, allocated));
        let sorder = sub_order_exec(&group.subgroups);
        let ghost sv = subgroups_view(group.subgroups@);
        let ghost so = sorder@.map_values(|i: usize| i as int);
        let ghost mid = rows_view(out@);
        let mut j: usize = 0;
        while j < sorder.len()
            invariant
                j <= sorder@.len(),
                widths_fit(*w),
                sv == subgroups_view(group.subgroups@),
                so == sorder@.map_values(|i: usize| i as int),
                forall|m: int| 0 <= m < sorder@.len() ==> #[trigger] sorder@[m] < group.subgroups@.len(),
                rows_view(out@) == mid + sub_rows(sv, so, *w, show_names, allocated).take(j as int),
            decreases sorder@.len() - j,
        {
            let s = sorder[j];
            assert(so[j as int] == s as int);
            assert(sv[s as int] == (group.subgroups@[s as int].0@, group.subgroups@[s as int].1@));
            let ghost before_j = rows_view(out@);
            push_row(out, sub_row_exec(&group.subgroups[s].0, &group.subgroups[s].1, w, show_names, allocated));
            assert(sub_rows(sv, so, *w, show_names, allocated).take(j + 1) =~= sub_rows(sv, so, *w, show_names, allocated).take(j as int).push(sub_rows(sv, so, *w, show_names, allocated)[j as int]));
            j = j + 1;
        }
        assert(sub_rows(sv, so, *w, show_names, allocated).take(j as int) =~= sub_rows(sv, so, *w, show_names, allocated));
        assert(so == sub_order(d[idx as int].1.subgroups));
        assert(rows_view(out@) + rest =~= before + group_rows(d, ord, k as int, *w, no_color, show_names, allocated));
        k = k + 1;
    }
    assert(group_rows(d, ord, k as int, *w, no_color, show_names, allocated) =~= Seq::<Seq<CellView>>::empty());
    assert(rows_view(out@) =~= target);
}

fn dashes_exec(n: usize) -> (out: Vec<char>)
    ensures
        out@ == dashes(n as nat),
{
    let mut out: Vec<char> = Vec::new();
    let mut i: usize = 0;
    while i < n
        invariant
            i <= n,
            out@ == dashes(i as nat),
        decreases n - i,
    {
        out.push('-');
        i = i + 1;
        assert(out@ =~= dashes(i as nat));
    }
    out
}

fn header_row_exec(w: &ReportWidths, allocated: bool) -> (out: Vec<Cell>)
    requires
        widths_fit(*w),
    ensures
        cells_view(out@) == header_row(*w, allocated),
{
    let gap = spaces_chars(3);
    let state = chars_of("STATE");
    let count = chars_of("COUNT");
    let cpu = if allocated {
        chars_of("CPU (A/T)")
    } else {
        chars_of("CPU (I/T)")
    };
    let gpu = if allocated {
        chars_of("GPU (A/T)")
    } else {
        chars_of("GPU (I/T)")
    };
    let cpu_w = w.alloc_or_idle_cpu_width + w.total_cpu_width + 1;
    let gpu_w = w.alloc_or_idle_gpu_width + w.total_gpu_width + 1;
    let mut out: Vec<Cell> = Vec::new();
    out.push(Cell::Bold(string_of(&pad_right_chars(&state, w.state_width))));
    out.push(Cell::Plain(string_of(&gap)));
    out.push(Cell::Bold(string_of(&pad_right_chars(&count, w.count_width))));
    out.push(Cell::Plain(string_of(&gap)));
    out.push(Cell::Bold(string_of(&pad_right_chars(&cpu, cpu_w))));
    out.push(Cell::Plain(string_of(&gap)));
    out.push(Cell::Bold(string_of(&pad_right_chars(&gpu, gpu_w))));
    assert(cells_view(out@) =~= header_row(*w, allocated));
    out
}

fn total_row_exec(t: &ReportLine, w: &ReportWidths, allocated: bool) -> (out: Vec<Cell>)
    requires
        widths_fit(*w),
    ensures
        cells_view(out@) == total_row(t@, *w, allocated),
{
    let label = chars_of("TOTAL");
    let pad = name_padding_exec(5, w.state_width);
    let gap = spaces_chars(3);
    let figs = figures_text_exec(t, w, allocated);
    let a = concat(&pad, &gap);
    let b = concat(&a, &figs);
    let mut out: Vec<Cell> = Vec::new();
    out.push(Cell::Plain(string_of(&label)));
    out.push(Cell::Plain(string_of(&b)));
    assert(cells_view(out@) =~= total_row(t@, *w, allocated));
    out
}

fn widths_checked(report_data: &ReportData, allocated: bool) -> (r: (ReportWidths, ReportLine))
    requires
        report_table_ok(report_data@),
        report_widths_of(report_data@, allocated).state_width <= usize::MAX - 256,
    ensures
        r.0 == report_widths_of(report_data@, allocated),
        r.1@ == total_of(report_data@),
        widths_fit(r.0),
{
    let r = get_report_widths(report_data, allocated);
    proof {
        lemma_report_widths_small(report_data.groups@, allocated);
    }
    r
}

/// Lays the detailed report out as lines of styled cells (see `report_rows`).
pub fn report_rows_exec(report_data: &ReportData, no_color: bool, show_node_names: bool, allocated: bool) -> (rows: Vec<Vec<Cell>>)
    requires
        report_table_ok(report_data@),
        report_widths_of(report_data@, allocated).state_width <= usize::MAX - 256,
    ensures
        rows_view(rows@) == report_rows(report_data@, no_color, show_node_names, allocated),
{
    let (w, total_line) = widths_checked(report_data, allocated);
    let ghost d = report_data@;
    let width = w.state_width + 3 + w.count_width + 3 + (w.alloc_or_idle_cpu_width + w.total_cpu_width + 1) + 3 + (w.alloc_or_idle_gpu_width + w.total_gpu_width + 1);
    let mut rows: Vec<Vec<Cell>> = Vec::new();
    push_row(&mut rows, header_row_exec(&w, allocated));
    let mut rule: Vec<Cell> = Vec::new();
    rule.push(Cell::Plain(string_of(&dashes_exec(width + 3))));
    assert(cells_view(rule@) =~= seq![CellView::Plain(dashes((table_width(w) + 3) as nat))]);
    push_row(&mut rows, rule);
    let ghost head = rows_view(rows@);
    assert(head =~= seq![header_row(w, allocated), seq![CellView::Plain(dashes((table_width(w) + 3) as nat))]]);
    let order = state_order_exec(&report_data.groups);
    push_group_rows(&report_data.groups, &order, &w, no_color, show_node_names, allocated, &mut rows);
    let ghost body = group_rows(d, state_order(d), 0, w, no_color, show_node_names, allocated);
    assert(rows_view(rows@) == head + body);
    let mut rule2: Vec<Cell> = Vec::new();
    rule2.push(Cell::Plain(string_of(&dashes_exec(width))));
    assert(cells_view(rule2@) =~= seq![CellView::Plain(dashes(table_width(w) as nat))]);
    push_row(&mut rows, rule2);
    push_row(&mut rows, total_row_exec(&total_line, &w, allocated));
    let ghost tail = seq![seq![CellView::Plain(dashes(table_width(w) as nat))], total_row(total_of(d), w, allocated)];
    assert(rows_view(rows@) =~= head + body + tail);
    rows
}


/// The sum, over the groups of `d` whose state `pick` selects, of a figure of their
/// summary lines: `which` 0 for nodes, 1 for cores, 2 for GPUs.
pub open spec fn picked_sum(d: Seq<(NodeStateView, GroupView)>, pick: spec_fn(NodeStateView) -> bool, which: int) -> int
    decreases d.len(),
{
    if d.len() == 0 {
        0
    } else {
        let s = d.last().1.summary;
        picked_sum(d.drop_last(), pick, which) + if pick(d.last().0) {
            if which == 0 {
                s.node_count
            } else if which == 1 {
                s.total_cpus
            } else {
                s.total_gpus
            }
        } else {
            0
        }
    }
}

/// Whether a node in state `s` is available for new work.
pub open spec fn available_pick() -> spec_fn(NodeStateView) -> bool {
    |s: NodeStateView| has_base_and_free(s, NodeStateView::Idle)
}

/// Whether a node in state `s` is in use: its base state allocated or mixed.
pub open spec fn utilized_pick() -> spec_fn(NodeStateView) -> bool {
    |s: NodeStateView| base_of(s) == NodeStateView::Allocated || base_of(s) == NodeStateView::Mixed
}

proof fn lemma_picked_le(d: Seq<(NodeStateView, GroupView)>, pick: spec_fn(NodeStateView) -> bool, which: int)
    requires
        forall|k: int| 0 <= k < d.len() ==> {
            let s = #[trigger] d[k].1.summary;
            s.node_count >= 0 && s.total_cpus >= 0 && s.total_gpus >= 0
        },
    ensures
        0 <= picked_sum(d, pick, which),
        which == 0 ==> picked_sum(d, pick, which) <= total_of(d).node_count,
        which == 1 ==> picked_sum(d, pick, which) <= total_of(d).total_cpus,
        which == 2 ==> picked_sum(d, pick, which) <= total_of(d).total_gpus,
    decreases d.len(),
{
    if d.len() > 0 {
        assert forall|k: int| 0 <= k < d.drop_last().len() implies {
            let s = #[trigger] d.drop_last()[k].1.summary;
            s.node_count >= 0 && s.total_cpus >= 0 && s.total_gpus >= 0
        } by {
            assert(d.drop_last()[k] == d[k]);
        }
        lemma_picked_le(d.drop_last(), pick, which);
        let s = d[d.len() - 1].1.summary;
        assert(s.node_count >= 0 && s.total_cpus >= 0 && s.total_gpus >= 0);
    }
}

/// What the overall bars show, the nodes, cores and GPUs available or in use, is never more
/// than the report's totals: no bar passes its full width.
pub proof fn lemma_overall_shares_within_totals(report: ReportData)
    ensures
        0 <= picked_sum(report@, available_pick(), 0) <= total_of(report@).node_count,
        0 <= picked_sum(report@, available_pick(), 1) <= total_of(report@).total_cpus,
        0 <= picked_sum(report@, available_pick(), 2) <= total_of(report@).total_gpus,
        0 <= picked_sum(report@, utilized_pick(), 0) <= total_of(report@).node_count,
{
    let d = report@;
    assert forall|k: int| 0 <= k < d.len() implies {
        let s = #[trigger] d[k].1.summary;
        s.node_count >= 0 && s.total_cpus >= 0 && s.total_gpus >= 0
    } by {
        assert(d[k] == (report.groups@[k].0@, group_view(report.groups@[k].1)));
    }
    lemma_picked_le(d, available_pick(), 0);
    lemma_picked_le(d, available_pick(), 1);
    lemma_picked_le(d, available_pick(), 2);
    lemma_picked_le(d, utilized_pick(), 0);
}

fn picked_sum_exec(report_data: &ReportData, utilized: bool, which: u8) -> (n: u64)
    requires
        report_table_ok(report_data@),
        which <= 2,
    ensures
        n == picked_sum(report_data@, if utilized { utilized_pick() } else { available_pick() }, which as int),
{
    let groups = &report_data.groups;
    let ghost d = report_data@;
    let ghost pick = if utilized { utilized_pick() } else { available_pick() };
    proof {
        assert(d.take(d.len() as int) =~= d);
        assert(totals_fit(total_of(d.take(d.len() as int))));
        assert forall|k: int| 0 <= k < d.len() implies {
            let s = #[trigger] d[k].1.summary;
            s.node_count >= 0 && s.total_cpus >= 0 && s.total_gpus >= 0
        } by {
            assert(d[k].1.summary == groups@[k].1.summary@);
        }
        lemma_picked_le(d, pick, which as int);
    }
    let mut total: u64 = 0;
    let mut i: usize = 0;
    while i < groups.len()
        invariant
            i <= groups@.len(),
            d == data_view(groups@),
            which <= 2,
            pick == (if utilized { utilized_pick() } else { available_pick() }),
            report_table_ok(d),
            total == picked_sum(d.take(i as int), pick, which as int),
        decreases groups@.len() - i,
    {
        let ghost t = d.take(i + 1);
        assert(t.drop_last() =~= d.take(i as int));
        assert(totals_fit(total_of(t)));
        proof {
            assert forall|k: int| 0 <= k < t.len() implies {
                let s = #[trigger] t[k].1.summary;
                s.node_count >= 0 && s.total_cpus >= 0 && s.total_gpus >= 0
            } by {
                assert(t[k] == d[k]);
                assert(d[k].1.summary == groups@[k].1.summary@);
            }
            lemma_picked_le(t, pick, which as int);
        }
        let (state, group) = (&groups[i].0, &groups[i].1);
        assert(d[i as int] == (state@, group_view(*group)));
        let picked = if utilized {
            base_allocated_or_mixed(state)
        } else {
            is_node_available(state)
        };
        if picked {
            let s = &group.summary;
            let add: u64 = if which == 0 {
                s.node_count as u64
            } else if which == 1 {
                s.total_cpus as u64
            } else {
                s.total_gpus
            };
            total = total + add;
        }
        i = i + 1;
    }
    assert(d.take(i as int) =~= d);
    total
}

fn base_allocated_or_mixed(state: &NodeState) -> (r: bool)
    ensures
        r == (base_of(state@) == NodeStateView::Allocated || base_of(state@) == NodeStateView::Mixed),
{
    proof {
        reveal_with_fuel(crate::states::node_state_view, 2);
    }
    match state {
        NodeState::Allocated | NodeState::Mixed => true,
        NodeState::Compound { base, flags: _ } => match &**base {
            NodeState::Allocated | NodeState::Mixed => true,
            _ => false,
        },
        _ => false,
    }
}

/// The nodes in groups whose state is available for new work.
pub fn get_available_nodes(report_data: &ReportData) -> (n: u32)
    requires
        report_table_ok(report_data@),
    ensures
        n == picked_sum(report_data@, available_pick(), 0),
{
    proof {
        let d = report_data@;
        assert(d.take(d.len() as int) =~= d);
        assert(totals_fit(total_of(d.take(d.len() as int))));
        lemma_picked_nonneg_le(report_data, available_pick(), 0);
    }
    picked_sum_exec(report_data, false, 0) as u32
}

/// The cores of the nodes in groups whose state is available for new work.
pub fn get_available_cpus(report_data: &ReportData) -> (n: u32)
    requires
        report_table_ok(report_data@),
    ensures
        n == picked_sum(report_data@, available_pick(), 1),
{
    proof {
        let d = report_data@;
        assert(d.take(d.len() as int) =~= d);
        assert(totals_fit(total_of(d.take(d.len() as int))));
        lemma_picked_nonneg_le(report_data, available_pick(), 1);
    }
    picked_sum_exec(report_data, false, 1) as u32
}

/// The GPUs of the nodes in groups whose state is available for new work.
pub fn get_available_gpus(report_data: &ReportData) -> (n: u64)
    requires
        report_table_ok(report_data@),
    ensures
        n == picked_sum(report_data@, available_pick(), 2),
{
    picked_sum_exec(report_data, false, 2)
}

/// The nodes in groups whose state is in use, allocated or mixed.
pub fn get_utilized_nodes(report_data: &ReportData) -> (n: u32)
    requires
        report_table_ok(report_data@),
    ensures
        n == picked_sum(report_data@, utilized_pick(), 0),
{
    proof {
        let d = report_data@;
        assert(d.take(d.len() as int) =~= d);
        assert(totals_fit(total_of(d.take(d.len() as int))));
        lemma_picked_nonneg_le(report_data, utilized_pick(), 0);
    }
    picked_sum_exec(report_data, true, 0) as u32
}

proof fn lemma_picked_nonneg_le(report_data: &ReportData, pick: spec_fn(NodeStateView) -> bool, which: int)
    ensures
        0 <= picked_sum(report_data@, pick, which),
        which == 0 ==> picked_sum(report_data@, pick, which) <= total_of(report_data@).node_count,
        which == 1 ==> picked_sum(report_data@, pick, which) <= total_of(report_data@).total_cpus,
{
    let d = report_data@;
    assert forall|k: int| 0 <= k < d.len() implies {
        let s = #[trigger] d[k].1.summary;
        s.node_count >= 0 && s.total_cpus >= 0 && s.total_gpus >= 0
    } by {
        assert(d[k].1.summary == report_data.groups@[k].1.summary@);
    }
    lemma_picked_le(d, pick, which);
}
} // verus!
