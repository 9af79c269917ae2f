//! Laying the feature tree out as a table: the widths of its columns, how wide its bars may
//! be within a line budget, its header and separator, and each row's cells. Coloring and
//! drawing the bars is left to the caller; every span here says how it is to be shown.
use vstd::prelude::*;
use crate::text::{
    byte_len, chars_of, concat, decimal, decimal_chars, join, pad_left, pad_left_chars, pad_right,
    pad_right_chars, spaces, spaces_chars, string_of, text_len,
};
use crate::tree::{LineView, ReportLine, TreeNode, TreeView, tree_view, trees_view};
use crate::order::{name_index_le, named_view, pair_le, sort_named, sort_pairs};
use crate::hostlist::{compress_hostlist, compressed};

verus! {

/// The widths of the numeric parts of the tree's count columns.
#[derive(Debug, Clone, Copy, PartialEq, Eq)]
pub struct ColumnWidths {
    pub max_idle_nodes: usize,
    pub max_total_nodes: usize,
    pub max_preempt_nodes_width: usize,
    pub max_idle_cpus: usize,
    pub max_total_cpus: usize,
    pub max_preempt_cpus_width: usize,
}

pub open spec fn num_width(n: int) -> usize {
    decimal(n as nat).len() as usize
}

pub open spec fn opt_width(o: Option<int>) -> usize {
    match o {
        Some(n) => num_width(n),
        None => 0,
    }
}

pub open spec fn wider(a: usize, b: usize) -> usize {
    if a >= b {
        a
    } else {
        b
    }
}

/// The widths one line's counts need.
pub open spec fn line_widths(l: LineView) -> ColumnWidths {
    ColumnWidths {
        max_idle_nodes: num_width(l.idle_nodes),
        max_total_nodes: num_width(l.total_nodes),
        max_preempt_nodes_width: opt_width(l.preempt_nodes),
        max_idle_cpus: num_width(l.idle_cpus),
        max_total_cpus: num_width(l.total_cpus),
        max_preempt_cpus_width: opt_width(l.preempt_cpus),
    }
}

/// Each width the wider of the two.
pub open spec fn widths_max(a: ColumnWidths, b: ColumnWidths) -> ColumnWidths {
    ColumnWidths {
        max_idle_nodes: wider(a.max_idle_nodes, b.max_idle_nodes),
        max_total_nodes: wider(a.max_total_nodes, b.max_total_nodes),
        max_preempt_nodes_width: wider(a.max_preempt_nodes_width, b.max_preempt_nodes_width),
        max_idle_cpus: wider(a.max_idle_cpus, b.max_idle_cpus),
        max_total_cpus: wider(a.max_total_cpus, b.max_total_cpus),
        max_preempt_cpus_width: wider(a.max_preempt_cpus_width, b.max_preempt_cpus_width),
    }
}

/// The widths the counts of `t` and of every level beneath it need.
pub open spec fn tree_widths(t: TreeView) -> ColumnWidths
    decreases t,
{
    forest_widths(t.children, line_widths(t.stats))
}

/// `w` widened by the widths the levels `s` need.
pub open spec fn forest_widths(s: Seq<TreeView>, w: ColumnWidths) -> ColumnWidths
    decreases s,
{
    if s.len() == 0 {
        w
    } else {
        widths_max(forest_widths(s.drop_last(), w), tree_widths(s.last()))
    }
}

fn wider_exec(a: usize, b: usize) -> (r: usize)
    ensures
        r == wider(a, b),
{
    if a >= b {
        a
    } else {
        b
    }
}

fn num_width_exec(n: u32) -> (w: usize)
    ensures
        w == num_width(n as int),
{
    decimal_chars(n as u64).len()
}

fn opt_width_exec(o: Option<u32>) -> (w: usize)
    ensures
        w == opt_width(crate::tree::opt_int(o)),
{
    match o {
        Some(n) => num_width_exec(n),
        None => 0,
    }
}

fn widths_max_exec(a: ColumnWidths, b: ColumnWidths) -> (r: ColumnWidths)
    ensures
        r == widths_max(a, b),
{
    ColumnWidths {
        max_idle_nodes: wider_exec(a.max_idle_nodes, b.max_idle_nodes),
        max_total_nodes: wider_exec(a.max_total_nodes, b.max_total_nodes),
        max_preempt_nodes_width: wider_exec(a.max_preempt_nodes_width, b.max_preempt_nodes_width),
        max_idle_cpus: wider_exec(a.max_idle_cpus, b.max_idle_cpus),
        max_total_cpus: wider_exec(a.max_total_cpus, b.max_total_cpus),
        max_preempt_cpus_width: wider_exec(a.max_preempt_cpus_width, b.max_preempt_cpus_width),
    }
}

/// The widths the counts of `tree_node` and of every level beneath it need.
pub fn calculate_column_widths(tree_node: &TreeNode) -> (w: ColumnWidths)
    ensures
        w == tree_widths(tree_node@),
    decreases tree_node,
{
    let s = &tree_node.stats;
    let mut widths = ColumnWidths {
        max_idle_nodes: num_width_exec(s.idle_nodes),
        max_total_nodes: num_width_exec(s.total_nodes),
        max_preempt_nodes_width: opt_width_exec(s.preempt_nodes),
        max_idle_cpus: num_width_exec(s.idle_cpus),
        max_total_cpus: num_width_exec(s.total_cpus),
        max_preempt_cpus_width: opt_width_exec(s.preempt_cpus),
    };
    let ghost start = widths;
    let ghost kids = trees_view(tree_node.children@);
    proof {
        crate::tree::lemma_trees_view(tree_node.children@);
    }
    let mut i: usize = 0;
    while i < tree_node.children.len()
        invariant
            i <= tree_node.children@.len(),
            kids == trees_view(tree_node.children@),
            kids.len() == tree_node.children@.len(),
            forall|k: int| 0 <= k < kids.len() ==> #[trigger] kids[k] == tree_view(tree_node.children@[k]),
            widths == forest_widths(kids.take(i as int), start),
        decreases tree_node.children@.len() - i,
    {
        assert(kids.take(i + 1).drop_last() =~= kids.take(i as int));
        let child_widths = calculate_column_widths(&tree_node.children[i]);
        widths = widths_max_exec(widths, child_widths);
        i = i + 1;
    }
    assert(kids.take(i as int) =~= kids);
    widths
}


/// Bars are never drawn wider than this, however wide the terminal is.
pub const BAR_WIDTH_MAX: usize = 20;
/// A bar narrower than this conveys nothing, so it is dropped instead.
pub const BAR_WIDTH_MIN: usize = 4;

/// The resolved column widths for one rendering of the tree table.
///
/// The header and data rows only line up if the title field is exactly `bar_width + 2`
/// (the width of a bar including its two `│`), so titles are chosen to fit that field and
/// never allowed to widen it.
#[derive(Debug, Clone, Copy, PartialEq, Eq)]
pub struct Layout {
    pub feature_w: usize,
    pub nodes_w: usize,
    pub cpus_w: usize,
    /// `None` suppresses the bars, which moves the titles over the numeric columns
    pub bar_width: Option<usize>,
    /// Room reserved for the node-names title, or 0 when names are not shown
    pub names_w: usize,
}

/// The bar width that fits a line budget: full width with no budget, and otherwise half
/// of what the budget leaves after the other columns, four single-space gaps and the two
/// `│` of each bar, up to the maximum.
pub open spec fn bar_width_for(fixed: int, budget: Option<usize>) -> int {
    match budget {
        None => BAR_WIDTH_MAX as int,
        Some(b) => {
            let room: int = if b >= fixed {
                (b - fixed) / 2
            } else {
                0
            };
            if room <= BAR_WIDTH_MAX {
                room
            } else {
                BAR_WIDTH_MAX as int
            }
        },
    }
}

/// The layout `Layout::solve` chooses. Where no bar fits, the bars are dropped and the
/// count columns widened to hold their short titles ("Nodes", and "GPUs" or "Cores").
pub open spec fn solved_layout(
    feature_w: usize,
    nodes_data_w: usize,
    cpus_data_w: usize,
    names_w: usize,
    gpu: bool,
    budget: Option<usize>,
) -> Layout {
    let bar = bar_width_for(feature_w + nodes_data_w + cpus_data_w + names_w + 8, budget);
    if bar >= BAR_WIDTH_MIN {
        Layout { feature_w, nodes_w: nodes_data_w, cpus_w: cpus_data_w, bar_width: Some(bar as usize), names_w }
    } else {
        Layout {
            feature_w,
            nodes_w: wider(nodes_data_w, 5),
            cpus_w: wider(cpus_data_w, if gpu { 4 } else { 5 }),
            bar_width: None,
            names_w,
        }
    }
}

/// The width of a full row, which the separator line matches.
pub open spec fn layout_total_width(l: Layout) -> int {
    l.feature_w + l.nodes_w + l.cpus_w + 2 + match l.bar_width {
        Some(w) => 2 * (w + 2) + 2,
        None => 0,
    }
}

/// The rule under the header: `═` across the row and the names title, with a junction
/// wherever a bar's `│` descends from it, the rightmost taking a corner where it ends the
/// rule.
pub open spec fn separator_text(l: Layout) -> Seq<char> {
    let width = layout_total_width(l) + l.names_w;
    match l.bar_width {
        None => Seq::new(width as nat, |_i: int| '═'),
        Some(w) => {
            let nodes_bar = l.feature_w + l.nodes_w + 2;
            let cpus_bar = nodes_bar + w + l.cpus_w + 4;
            Seq::new(
                width as nat,
                |i: int|
                    if i == nodes_bar || i == nodes_bar + w + 1 || i == cpus_bar || i == cpus_bar + w + 1 {
                        if i + 1 == width {
                            '╕'
                        } else {
                            '╤'
                        }
                    } else {
                        '═'
                    },
            )
        },
    }
}

/// The (nodes, cores or GPUs) titles: the long forms when a bar can hold the longer of
/// them up to its closing `│`, and the short forms otherwise; both switch together.
pub open spec fn titles_of(l: Layout, gpu: bool) -> (Seq<char>, Seq<char>) {
    let long_cpus = if gpu { "GPUs Available"@ } else { "Cores Available"@ };
    let short_cpus = if gpu { "GPUs"@ } else { "Cores"@ };
    match l.bar_width {
        Some(w) => if 15 <= w + 1 {
            ("Nodes Available"@, long_cpus)
        } else {
            ("Nodes"@, short_cpus)
        },
        None => ("Nodes"@, short_cpus),
    }
}

impl Layout {
    /// Fits the table into `budget` columns by shrinking the bars; no budget means full
    /// width bars. The feature column keeps its natural width: if it alone overruns the
    /// budget the line spills, since truncating feature names would hide the answer.
    pub fn solve(
        feature_w: usize,
        nodes_data_w: usize,
        cpus_data_w: usize,
        names_w: usize,
        gpu: bool,
        budget: Option<usize>,
    ) -> (l: Layout)
        requires
            feature_w + nodes_data_w + cpus_data_w + names_w + 8 <= usize::MAX,
        ensures
            l == solved_layout(feature_w, nodes_data_w, cpus_data_w, names_w, gpu, budget),
    {
        let bar_width: usize = match budget {
            None => BAR_WIDTH_MAX,
            Some(budget) => {
                // four single-space column gaps, plus the two `│` of each bar
                let fixed = feature_w + nodes_data_w + cpus_data_w + names_w + 4 + 4;
                let room = if budget >= fixed {
                    (budget - fixed) / 2
                } else {
                    0
                };
                if room <= BAR_WIDTH_MAX {
                    room
                } else {
                    BAR_WIDTH_MAX
                }
            },
        };
        if bar_width >= BAR_WIDTH_MIN {
            Layout { feature_w, nodes_w: nodes_data_w, cpus_w: cpus_data_w, bar_width: Some(bar_width), names_w }
        } else {
            Layout {
                feature_w,
                nodes_w: wider_exec(nodes_data_w, 5),
                cpus_w: wider_exec(cpus_data_w, if gpu { 4 } else { 5 }),
                bar_width: None,
                names_w,
            }
        }
    }

    /// The rendered width of one bar, including its two `│`; none without bars.
    pub fn bar_field(&self) -> (w: usize)
        requires
            self.bar_width matches Some(b) ==> b + 2 <= usize::MAX,
        ensures
            w == match self.bar_width {
                Some(b) => b + 2,
                None => 0,
            },
    {
        match self.bar_width {
            Some(b) => b + 2,
            None => 0,
        }
    }

    /// The width of a full row, which the separator line matches.
    pub fn total_width(&self) -> (w: usize)
        requires
            layout_total_width(*self) <= usize::MAX,
        ensures
            w == layout_total_width(*self),
    {
        let bars = match self.bar_width {
            Some(b) => 2 * (b + 2) + 2,
            None => 0,
        };
        self.feature_w + self.nodes_w + self.cpus_w + 2 + bars
    }

    /// The rule under the header.
    pub fn separator(&self) -> (s: String)
        requires
            layout_total_width(*self) + self.names_w <= usize::MAX,
        ensures
            s@ == separator_text(*self),
    {
        let width = self.total_width() + self.names_w;
        let mut rule: Vec<char> = Vec::new();
        let mut i: usize = 0;
        while i < width
            invariant
                i <= width,
                width == layout_total_width(*self) + self.names_w,
                rule@.len() == i,
                forall|k: int| 0 <= k < i ==> #[trigger] rule@[k] == '═',
            decreases width - i,
        {
            rule.push('═');
            i = i + 1;
        }
        match self.bar_width {
            Some(w) => {
                let nodes_bar = self.feature_w + self.nodes_w + 2;
                let cpus_bar = nodes_bar + w + self.cpus_w + 4;
                let borders = [nodes_bar, nodes_bar + w + 1, cpus_bar, cpus_bar + w + 1];
                let mut j: usize = 0;
                while j < 4
                    invariant
                        j <= 4,
                        width == layout_total_width(*self) + self.names_w,
                        rule@.len() == width,
                        borders@ == seq![nodes_bar, (nodes_bar + w + 1) as usize, cpus_bar, (cpus_bar + w + 1) as usize],
                        nodes_bar == self.feature_w + self.nodes_w + 2,
                        cpus_bar == nodes_bar + w + self.cpus_w + 4,
                        self.bar_width == Some(w),
                        forall|k: int| 0 <= k < width ==> #[trigger] rule@[k] == if (exists|m: int| 0 <= m < j && borders@[m] == k) {
                            if k + 1 == width {
                                '╕'
                            } else {
                                '╤'
                            }
                        } else {
                            '═'
                        },
                    decreases 4 - j,
                {
                    let border = borders[j];
                    let ghost before = rule@;
                    // the rightmost border ends the rule, so it takes a corner rather than a tee
                    let mark = if border + 1 == width {
                        '╕'
                    } else {
                        '╤'
                    };
                    rule.set(border, mark);
                    proof {
                        assert forall|k: int| 0 <= k < width implies #[trigger] rule@[k] == if (exists|m: int| 0 <= m < j + 1 && borders@[m] == k) {
                            if k + 1 == width {
                                '╕'
                            } else {
                                '╤'
                            }
                        } else {
                            '═'
                        } by {
                            if k == border {
                                assert(borders@[j as int] == k);
                            } else {
                                assert(rule@[k] == before[k]);
                                if exists|m: int| 0 <= m < j + 1 && borders@[m] == k {
                                    let m = choose|m: int| 0 <= m < j + 1 && borders@[m] == k;
                                    assert(m < j);
                                }
                            }
                        }
                    }
                    j = j + 1;
                }
                assert(rule@ =~= separator_text(*self)) by {
                    assert forall|k: int| 0 <= k < width implies rule@[k] == separator_text(*self)[k] by {
                        if k == nodes_bar || k == nodes_bar + w + 1 || k == cpus_bar || k == cpus_bar + w + 1 {
                            if k == nodes_bar {
                                assert(borders@[0] == k);
                            } else if k == nodes_bar + w + 1 {
                                assert(borders@[1] == k);
                            } else if k == cpus_bar {
                                assert(borders@[2] == k);
                            } else {
                                assert(borders@[3] == k);
                            }
                        }
                    }
                }
            },
            None => {
                assert(rule@ =~= separator_text(*self));
            },
        }
        string_of(&rule)
    }

    /// The (nodes, cores or GPUs) titles for this layout.
    pub fn titles(&self, gpu: bool) -> (t: (String, String))
        ensures
            (t.0@, t.1@) == titles_of(*self, gpu),
    {
        let long = match self.bar_width {
            Some(w) => 15 <= w as u128 + 1,
            None => false,
        };
        let nodes = if long {
            chars_of("Nodes Available")
        } else {
            chars_of("Nodes")
        };
        let cpus = if gpu {
            if long {
                chars_of("GPUs Available")
            } else {
                chars_of("GPUs")
            }
        } else {
            if long {
                chars_of("Cores Available")
            } else {
                chars_of("Cores")
            }
        };
        (string_of(&nodes), string_of(&cpus))
    }
}

pub open spec fn max_int(a: int, b: int) -> int {
    if a >= b {
        a
    } else {
        b
    }
}

/// The width the feature column needs for `t` and the levels beneath it, `t`'s name
/// indented by `prefix_len` and following the names `acc` it was collapsed under. Where
/// `collapse` is set, a level with a single sub-level is shown on one line with it, the
/// names joined by ", "; a line takes its indent, its name's length in bytes, three for
/// the connector and two of padding.
pub open spec fn max_width(t: TreeView, prefix_len: int, collapse: bool, acc: Seq<Seq<char>>) -> int
    decreases t, 0int,
{
    if collapse && t.children.len() == 1 {
        max_width(t.children[0], prefix_len, collapse, acc.push(t.name))
    } else {
        let current = prefix_len + byte_len(join(acc.push(t.name), ", "@)) + 5;
        max_int(current, children_max_width(t.children, prefix_len + 3))
    }
}

/// The widest of `max_width` over the levels `s`, each indented by `prefix_len`; zero
/// for none.
pub open spec fn children_max_width(s: Seq<TreeView>, prefix_len: int) -> int
    decreases s, s.len(),
{
    if s.len() == 0 {
        0
    } else {
        max_int(children_max_width(s.drop_last(), prefix_len), max_width(s.last(), prefix_len, true, Seq::empty()))
    }
}

proof fn lemma_max_width_ge(t: TreeView, prefix_len: int, collapse: bool, acc: Seq<Seq<char>>)
    requires
        prefix_len >= 0,
    ensures
        max_width(t, prefix_len, collapse, acc) >= prefix_len + 5,
    decreases t,
{
    if collapse && t.children.len() == 1 {
        lemma_max_width_ge(t.children[0], prefix_len, collapse, acc.push(t.name));
    }
}

proof fn lemma_children_max_width_ge(s: Seq<TreeView>, prefix_len: int, i: int)
    requires
        0 <= i < s.len(),
    ensures
        children_max_width(s, prefix_len) >= max_width(s[i], prefix_len, true, Seq::empty()),
        children_max_width(s, prefix_len) >= children_max_width(s.take(i), prefix_len),
    decreases s.len(),
{
    if i < s.len() - 1 {
        assert(s.drop_last()[i] == s[i]);
        assert(s.drop_last().take(i) =~= s.take(i));
        lemma_children_max_width_ge(s.drop_last(), prefix_len, i);
    } else {
        assert(s.drop_last() =~= s.take(i));
    }
}

fn join_names(names: &Vec<Vec<char>>) -> (out: Vec<char>)
    ensures
        out@ == join(names.deep_view(), ", "@),
{
    let sep = chars_of(", ");
    crate::text::join_chars(names, &sep)
}

fn max_width_exec(t: &TreeNode, prefix_len: usize, collapse: bool, acc: Vec<Vec<char>>) -> (w: usize)
    requires
        max_width(t@, prefix_len as int, collapse, acc.deep_view()) <= usize::MAX,
    ensures
        w == max_width(t@, prefix_len as int, collapse, acc.deep_view()),
    decreases t,
{
    proof {
        crate::tree::lemma_trees_view(t.children@);
    }
    let mut names = acc;
    let ghost before = names.deep_view();
    let name = chars_of(t.name.as_str());
    proof {
        crate::text::lemma_chars_deep_view(name);
    }
    names.push(name);
    assert(names.deep_view() =~= before.push(t.name@));
    if collapse && t.children.len() == 1 {
        return max_width_exec(&t.children[0], prefix_len, collapse, names);
    }
    let joined = join_names(&names);
    let joined_text = string_of(&joined);
    let ghost kids = t@.children;
    let current = prefix_len + text_len(joined_text.as_str()) + 5;
    let mut best: usize = 0;
    let mut i: usize = 0;
    while i < t.children.len()
        invariant
            i <= t.children@.len(),
            kids == t@.children,
            kids.len() == t.children@.len(),
            forall|k: int| 0 <= k < kids.len() ==> #[trigger] kids[k] == tree_view(t.children@[k]),
            max_int(current as int, children_max_width(kids, prefix_len + 3)) <= usize::MAX,
            best == children_max_width(kids.take(i as int), prefix_len + 3),
        decreases t.children@.len() - i,
    {
        assert(kids.take(i + 1).drop_last() =~= kids.take(i as int));
        proof {
            lemma_children_max_width_ge(kids, prefix_len + 3, i as int);
            lemma_max_width_ge(kids[i as int], prefix_len + 3, true, Seq::empty());
        }
        let fresh: Vec<Vec<char>> = Vec::new();
        assert(fresh.deep_view() =~= Seq::<Seq<char>>::empty());
        let child = max_width_exec(&t.children[i], prefix_len + 3, true, fresh);
        if child > best {
            best = child;
        }
        i = i + 1;
    }
    assert(kids.take(i as int) =~= kids);
    if current >= best {
        current
    } else {
        best
    }
}

/// The width the feature column needs for `tree_node` and the levels beneath it.
pub fn calculate_max_width(tree_node: &TreeNode, prefix_len: usize, collapse: bool) -> (w: usize)
    requires
        max_width(tree_node@, prefix_len as int, collapse, Seq::empty()) <= usize::MAX,
    ensures
        w == max_width(tree_node@, prefix_len as int, collapse, Seq::empty()),
{
    let acc: Vec<Vec<char>> = Vec::new();
    assert(acc.deep_view() =~= Seq::<Seq<char>>::empty());
    max_width_exec(tree_node, prefix_len, collapse, acc)
}

/// What a bar measures, which decides its color.
#[derive(Debug, Clone, Copy, PartialEq, Eq)]
pub enum BarKind {
    Nodes,
    Cores,
    Gpus,
}

/// A piece of a printed line, with how it is to be shown.
#[derive(Debug)]
pub enum Span {
    /// Text shown as it is
    Plain(String),
    /// Text shown in bold
    Bold(String),
    /// A count of preemptable resources, highlighted
    Preempt(String),
    /// A bar `width` cells wide, filled in proportion to `current` out of `total`
    Bar { current: u32, total: u32, width: usize, kind: BarKind },
}

pub enum SpanView {
    Plain(Seq<char>),
    Bold(Seq<char>),
    Preempt(Seq<char>),
    Bar { current: u32, total: u32, width: usize, kind: BarKind },
}

impl View for Span {
    type V = SpanView;

    open spec fn view(&self) -> SpanView {
        match *self {
            Span::Plain(t) => SpanView::Plain(t@),
            Span::Bold(t) => SpanView::Bold(t@),
            Span::Preempt(t) => SpanView::Preempt(t@),
            Span::Bar { current, total, width, kind } => SpanView::Bar { current, total, width, kind },
        }
    }
}

pub open spec fn line_view(l: Seq<Span>) -> Seq<SpanView> {
    l.map_values(|s: Span| s@)
}

pub open spec fn lines_view(ls: Seq<Vec<Span>>) -> Seq<Seq<SpanView>> {
    ls.map_values(|l: Vec<Span>| line_view(l@))
}

/// One "idle/total" cell: the idle count and the total right-aligned in their widths,
/// with the preemptable count "(-n)" between them where there is one (or its width in
/// spaces where the column has such counts), the whole right-aligned in `col_w`.
pub open spec fn count_cell(
    idle: int,
    total: int,
    preempt: Option<int>,
    idle_w: usize,
    total_w: usize,
    preempt_w: usize,
    col_w: usize,
) -> Seq<SpanView> {
    let idle_s = pad_left(decimal(idle as nat), idle_w as nat);
    let total_s = seq!['/'] + pad_left(decimal(total as nat), total_w as nat);
    let mid = match preempt {
        Some(p) => seq!['(', '-'] + pad_left(decimal(p as nat), preempt_w as nat) + seq![')'],
        None => if preempt_w > 0 {
            spaces((preempt_w + 3) as nat)
        } else {
            Seq::empty()
        },
    };
    let plain_len = idle_s.len() + mid.len() + total_s.len();
    let lead = spaces(
        if plain_len < col_w {
            (col_w - plain_len) as nat
        } else {
            0
        },
    );
    match preempt {
        Some(_) => seq![SpanView::Plain(lead + idle_s), SpanView::Preempt(mid), SpanView::Plain(total_s)],
        None => seq![SpanView::Plain(lead + idle_s + mid + total_s)],
    }
}

fn count_cell_exec(
    idle: u32,
    total: u32,
    preempt: Option<u32>,
    idle_w: usize,
    total_w: usize,
    preempt_w: usize,
    col_w: usize,
) -> (out: Vec<Span>)
    requires
        preempt_w + 3 <= usize::MAX,
    ensures
        line_view(out@) == count_cell(idle as int, total as int, crate::tree::opt_int(preempt), idle_w, total_w, preempt_w, col_w),
{
    let idle_d = decimal_chars(idle as u64);
    let idle_s = pad_left_chars(&idle_d, idle_w);
    let total_d = decimal_chars(total as u64);
    let total_p = pad_left_chars(&total_d, total_w);
    let slash = ['/'];
    assert(slash@ =~= seq!['/']);
    let total_s = concat(&slash, &total_p);
    let mid: Vec<char> = match preempt {
        Some(p) => {
            let d = decimal_chars(p as u64);
            let padded = pad_left_chars(&d, preempt_w);
            let open = ['(', '-'];
            let close = [')'];
            assert(open@ =~= seq!['(', '-']);
            assert(close@ =~= seq![')']);
            let a = concat(&open, &padded);
            concat(&a, &close)
        },
        None => if preempt_w > 0 {
            spaces_chars(preempt_w + 3)
        } else {
            Vec::new()
        },
    };
    assert(mid@ =~= match crate::tree::opt_int(preempt) {
        Some(p) => seq!['(', '-'] + pad_left(decimal(p as nat), preempt_w as nat) + seq![')'],
        None => if preempt_w > 0 {
            spaces((preempt_w + 3) as nat)
        } else {
            Seq::empty()
        },
    });
    let plain_len: u128 = idle_s.len() as u128 + mid.len() as u128 + total_s.len() as u128;
    let lead = spaces_chars(if plain_len < col_w as u128 {
        (col_w as u128 - plain_len) as usize
    } else {
        0
    });
    let first = concat(&lead, &idle_s);
    let mut out: Vec<Span> = Vec::new();
    match preempt {
        Some(_) => {
            out.push(Span::Plain(string_of(&first)));
            out.push(Span::Preempt(string_of(&mid)));
            out.push(Span::Plain(string_of(&total_s)));
        },
        None => {
            let a = concat(&first, &mid);
            let b = concat(&a, &total_s);
            out.push(Span::Plain(string_of(&b)));
        },
    }
    assert(line_view(out@) =~= count_cell(idle as int, total as int, crate::tree::opt_int(preempt), idle_w, total_w, preempt_w, col_w));
    out
}

/// What a row needs beyond its level: the layout, the count widths, whether node names
/// are shown, how sub-levels are ordered, what the bars measure against, and whether the
/// counts are GPUs.
#[derive(Debug, Clone, Copy)]
pub struct RowCtx {
    pub layout: Layout,
    pub widths: ColumnWidths,
    pub show_names: bool,
    pub sort: bool,
    pub max_nodes: u32,
    pub max_cpus: u32,
    pub gpu: bool,
}

pub open spec fn cpu_kind(gpu: bool) -> BarKind {
    if gpu {
        BarKind::Gpus
    } else {
        BarKind::Cores
    }
}

/// A bar after its column gap, or nothing where bars are suppressed.
pub open spec fn bar_spans(l: Layout, current: int, total: u32, kind: BarKind) -> Seq<SpanView> {
    match l.bar_width {
        Some(w) => seq![SpanView::Plain(seq![' ']), SpanView::Bar { current: current as u32, total, width: w, kind }],
        None => Seq::empty(),
    }
}

/// A line of counts: the bold name padded to the feature column, the node cell and its
/// bar against `nodes_total`, and the core (or GPU) cell and its bar against `cpus_total`.
pub open spec fn stats_spans(name: Seq<char>, st: LineView, ctx: RowCtx, nodes_total: u32, cpus_total: u32) -> Seq<SpanView> {
    let l = ctx.layout;
    let w = ctx.widths;
    seq![SpanView::Bold(pad_right(name, l.feature_w as nat)), SpanView::Plain(seq![' '])]
        + count_cell(st.idle_nodes, st.total_nodes, st.preempt_nodes, w.max_idle_nodes, w.max_total_nodes, w.max_preempt_nodes_width, l.nodes_w)
        + bar_spans(l, st.idle_nodes, nodes_total, BarKind::Nodes)
        + seq![SpanView::Plain(seq![' '])]
        + count_cell(st.idle_cpus, st.total_cpus, st.preempt_cpus, w.max_idle_cpus, w.max_total_cpus, w.max_preempt_cpus_width, l.cpus_w)
        + bar_spans(l, st.idle_cpus, cpus_total, cpu_kind(ctx.gpu))
}

/// Whether the count widths leave room for a preemptable count's parentheses.
pub open spec fn ctx_fits(ctx: RowCtx) -> bool {
    &&& ctx.widths.max_preempt_nodes_width + 3 <= usize::MAX
    &&& ctx.widths.max_preempt_cpus_width + 3 <= usize::MAX
}

fn push_bar(out: &mut Vec<Span>, l: &Layout, current: u32, total: u32, kind: BarKind)
    ensures
        line_view(final(out)@) == line_view(old(out)@) + bar_spans(*l, current as int, total, kind),
{
    match l.bar_width {
        Some(w) => {
            let gap = [' '];
            assert(gap@ =~= seq![' ']);
            out.push(Span::Plain(string_of(&gap)));
            out.push(Span::Bar { current, total, width: w, kind });
        },
        None => {},
    }
    assert(line_view(out@) =~= line_view(old(out)@) + bar_spans(*l, current as int, total, kind));
}

fn append_spans(out: &mut Vec<Span>, more: Vec<Span>)
    ensures
        line_view(final(out)@) == line_view(old(out)@) + line_view(more@),
{
    let mut more = more;
    let ghost m = line_view(more@);
    let ghost start = line_view(out@);
    let mut i: usize = 0;
    let n = more.len();
    while more.len() > 0
        invariant
            i + more@.len() == n,
            n == m.len(),
            line_view(more@) == m.skip(i as int),
            line_view(out@) == start + m.take(i as int),
        decreases more@.len(),
    {
        let ghost mv = line_view(more@);
        let x = more.remove(0);
        assert(line_view(more@) =~= mv.drop_first());
        assert(x@ == m[i as int]) by {
            assert(mv[0] == x@);
        }
        let ghost before = line_view(out@);
        out.push(x);
        assert(line_view(out@) =~= before.push(m[i as int]));
        assert(m.take(i + 1) =~= m.take(i as int).push(m[i as int]));
        assert(m.skip(i as int).drop_first() =~= m.skip(i + 1));
        i = i + 1;
    }
    assert(m.take(i as int) =~= m);
}

fn stats_spans_exec(name: &Vec<char>, st: &ReportLine, ctx: &RowCtx, nodes_total: u32, cpus_total: u32) -> (out: Vec<Span>)
    requires
        ctx_fits(*ctx),
    ensures
        line_view(out@) == stats_spans(name@, st@, *ctx, nodes_total, cpus_total),
{
    let l = &ctx.layout;
    let w = &ctx.widths;
    let mut out: Vec<Span> = Vec::new();
    let padded = pad_right_chars(name, l.feature_w);
    out.push(Span::Bold(string_of(&padded)));
    let gap = [' '];
    assert(gap@ =~= seq![' ']);
    out.push(Span::Plain(string_of(&gap)));
    let ghost p0 = line_view(out@);
    assert(p0 =~= seq![SpanView::Bold(pad_right(name@, l.feature_w as nat)), SpanView::Plain(seq![' '])]);
    let nodes = count_cell_exec(st.idle_nodes, st.total_nodes, st.preempt_nodes, w.max_idle_nodes, w.max_total_nodes, w.max_preempt_nodes_width, l.nodes_w);
    let ghost c1 = line_view(nodes@);
    append_spans(&mut out, nodes);
    push_bar(&mut out, l, st.idle_nodes, nodes_total, BarKind::Nodes);
    let ghost p1 = line_view(out@);
    assert(p1 == p0 + c1 + bar_spans(*l, st.idle_nodes as int, nodes_total, BarKind::Nodes));
    out.push(Span::Plain(string_of(&gap)));
    let ghost p2 = line_view(out@);
    assert(p2 =~= p1 + seq![SpanView::Plain(seq![' '])]);
    let cpus = count_cell_exec(st.idle_cpus, st.total_cpus, st.preempt_cpus, w.max_idle_cpus, w.max_total_cpus, w.max_preempt_cpus_width, l.cpus_w);
    let ghost c2 = line_view(cpus@);
    append_spans(&mut out, cpus);
    let kind = if ctx.gpu {
        BarKind::Gpus
    } else {
        BarKind::Cores
    };
    push_bar(&mut out, l, st.idle_cpus, cpus_total, kind);
    assert(line_view(out@) == p2 + c2 + bar_spans(*l, st.idle_cpus as int, cpus_total, kind));
    assert(line_view(out@) =~= stats_spans(name@, st@, *ctx, nodes_total, cpus_total));
    out
}

/// The keys that order sub-levels by size: largest total first, ties in the order the
/// levels were made.
pub open spec fn total_keys(kids: Seq<TreeView>) -> Seq<(u32, usize)> {
    Seq::new(kids.len(), |i: int| ((u32::MAX - kids[i].stats.total_nodes) as u32, i as usize))
}

/// The keys that order sub-levels by name.
pub open spec fn name_keys(kids: Seq<TreeView>) -> Seq<(Seq<char>, usize)> {
    Seq::new(kids.len(), |i: int| (kids[i].name, i as usize))
}

/// The order in which the sub-levels `kids` are shown, as positions: by name if `sort`,
/// and otherwise largest total first.
pub open spec fn child_order(kids: Seq<TreeView>, sort: bool) -> Seq<int> {
    if sort {
        name_keys(kids).sort_by(name_index_le()).map_values(|p: (Seq<char>, usize)| p.1 as int)
    } else {
        total_keys(kids).sort_by(pair_le()).map_values(|p: (u32, usize)| p.1 as int)
    }
}

fn child_order_exec(kids: &Vec<TreeNode>, sort: bool) -> (out: Vec<usize>)
    ensures
        out@.map_values(|i: usize| i as int) == child_order(trees_view(kids@), sort),
        forall|k: int| 0 <= k < out@.len() ==> #[trigger] out@[k] < kids@.len(),
{
    let ghost tv = trees_view(kids@);
    proof {
        crate::tree::lemma_trees_view(kids@);
    }
    let mut out: Vec<usize> = Vec::new();
    if sort {
        let mut keys: Vec<(Vec<char>, usize)> = Vec::new();
        let mut i: usize = 0;
        while i < kids.len()
            invariant
                i <= kids@.len(),
                tv == trees_view(kids@),
                tv.len() == kids@.len(),
                forall|k: int| 0 <= k < tv.len() ==> #[trigger] tv[k] == tree_view(kids@[k]),
                named_view(keys@) == name_keys(tv).take(i as int),
            decreases kids@.len() - i,
        {
            let name = chars_of(kids[i].name.as_str());
            let ghost before = named_view(keys@);
            keys.push((name, i));
            assert(named_view(keys@) =~= before.push((tv[i as int].name, i)));
            assert(name_keys(tv).take(i + 1) =~= name_keys(tv).take(i as int).push((tv[i as int].name, i)));
            i = i + 1;
        }
        assert(name_keys(tv).take(i as int) =~= name_keys(tv));
        let sorted = sort_named(keys);
        let ghost srt = named_view(sorted@);
        proof {
            crate::order::lemma_name_index_le_total_ordering();
            name_keys(tv).lemma_sort_by_ensures(name_index_le());
        }
        let mut k: usize = 0;
        while k < sorted.len()
            invariant
                k <= sorted@.len(),
                srt == named_view(sorted@),
                srt == name_keys(tv).sort_by(name_index_le()),
                forall|x: (Seq<char>, usize)| !name_keys(tv).contains(x) ==> !(#[trigger] srt.contains(x)),
                tv.len() == kids@.len(),
                out@.map_values(|i: usize| i as int) == srt.take(k as int).map_values(|p: (Seq<char>, usize)| p.1 as int),
                forall|j: int| 0 <= j < out@.len() ==> #[trigger] out@[j] < kids@.len(),
            decreases sorted@.len() - k,
        {
            let idx = sorted[k].1;
            assert(srt[k as int] == (sorted@[k as int].0@, idx));
            assert(srt.contains(srt[k as int]));
            assert(idx < kids@.len()) by {
                assert(name_keys(tv).contains(srt[k as int]));
                let j = choose|j: int| 0 <= j < name_keys(tv).len() && name_keys(tv)[j] == srt[k as int];
            }
            let ghost ob = out@;
            out.push(idx);
            assert(out@ =~= ob.push(idx));
            assert(srt.take(k + 1) =~= srt.take(k as int).push(srt[k as int]));
            assert(out@.map_values(|i: usize| i as int) =~= ob.map_values(|i: usize| i as int).push(idx as int));
            assert(srt.take(k + 1).map_values(|p: (Seq<char>, usize)| p.1 as int) =~= srt.take(k as int).map_values(|p: (Seq<char>, usize)| p.1 as int).push(idx as int));
            k = k + 1;
        }
        assert(srt.take(k as int) =~= srt);
    } else {
        let mut keys: Vec<(u32, usize)> = Vec::new();
        let mut i: usize = 0;
        while i < kids.len()
            invariant
                i <= kids@.len(),
                tv == trees_view(kids@),
                tv.len() == kids@.len(),
                forall|k: int| 0 <= k < tv.len() ==> #[trigger] tv[k] == tree_view(kids@[k]),
                keys@ == total_keys(tv).take(i as int),
            decreases kids@.len() - i,
        {
            keys.push((u32::MAX - kids[i].stats.total_nodes, i));
            assert(keys@ =~= total_keys(tv).take(i + 1));
            i = i + 1;
        }
        assert(total_keys(tv).take(i as int) =~= total_keys(tv));
        let sorted = sort_pairs(keys);
        proof {
            crate::order::lemma_pair_le_total_ordering();
            total_keys(tv).lemma_sort_by_ensures(pair_le());
        }
        let mut k: usize = 0;
        while k < sorted.len()
            invariant
                k <= sorted@.len(),
                sorted@ == total_keys(tv).sort_by(pair_le()),
                forall|x: (u32, usize)| !total_keys(tv).contains(x) ==> !(#[trigger] sorted@.contains(x)),
                tv.len() == kids@.len(),
                out@.map_values(|i: usize| i as int) == sorted@.take(k as int).map_values(|p: (u32, usize)| p.1 as int),
                forall|j: int| 0 <= j < out@.len() ==> #[trigger] out@[j] < kids@.len(),
            decreases sorted@.len() - k,
        {
            let idx = sorted[k].1;
            assert(sorted@.contains(sorted@[k as int]));
            assert(idx < kids@.len()) by {
                assert(total_keys(tv).contains(sorted@[k as int]));
                let j = choose|j: int| 0 <= j < total_keys(tv).len() && total_keys(tv)[j] == sorted@[k as int];
            }
            let ghost ob = out@;
            out.push(idx);
            assert(out@ =~= ob.push(idx));
            assert(sorted@.take(k + 1) =~= sorted@.take(k as int).push(sorted@[k as int]));
            assert(out@.map_values(|i: usize| i as int) =~= ob.map_values(|i: usize| i as int).push(idx as int));
            assert(sorted@.take(k + 1).map_values(|p: (u32, usize)| p.1 as int) =~= sorted@.take(k as int).map_values(|p: (u32, usize)| p.1 as int).push(idx as int));
            k = k + 1;
        }
        assert(sorted@.take(k as int) =~= sorted@);
    }
    out
}

/// The rows for level `t` and the levels beneath it, `t` drawn after `prefix` as the last
/// of its siblings or not, and following the names `acc` it was collapsed under. A level
/// with a single sub-level covering the same nodes shares its line, the names joined by
/// ", "; sub-levels follow their parent, each line drawn with "├──" or "└──" (the last),
/// indented under "│  " or "   ".
pub open spec fn node_rows(t: TreeView, prefix: Seq<char>, is_last: bool, acc: Seq<Seq<char>>, ctx: RowCtx) -> Seq<Seq<SpanView>>
    decreases t, 0int,
{
    if t.children.len() == 1 && t.stats.total_nodes == t.children[0].stats.total_nodes {
        node_rows(t.children[0], prefix, is_last, acc.push(t.name), ctx)
    } else {
        let display = prefix + (if is_last {
            "└──"@
        } else {
            "├──"@
        }) + join(acc.push(t.name), ", "@);
        let names = if ctx.show_names {
            seq![SpanView::Plain(seq![' '] + compressed(t.stats.node_names))]
        } else {
            Seq::empty()
        };
        let line = stats_spans(display, t.stats, ctx, ctx.max_nodes, ctx.max_cpus) + names;
        let child_prefix = prefix + (if is_last {
            "   "@
        } else {
            "│  "@
        });
        seq![line] + rows_in_order(t.children, child_order(t.children, ctx.sort), 0, child_prefix, ctx)
    }
}

/// The rows for the levels `kids` taken in `order` from its `k`th on, after `prefix`.
pub open spec fn rows_in_order(kids: Seq<TreeView>, order: Seq<int>, k: int, prefix: Seq<char>, ctx: RowCtx) -> Seq<Seq<SpanView>>
    decreases kids, order.len() - k,
{
    if k < 0 || k >= order.len() {
        Seq::empty()
    } else {
        let i = order[k];
        let here = if 0 <= i < kids.len() {
            node_rows(kids[i], prefix, k == order.len() - 1, Seq::empty(), ctx)
        } else {
            Seq::empty()
        };
        here + rows_in_order(kids, order, k + 1, prefix, ctx)
    }
}

fn push_line(out: &mut Vec<Vec<Span>>, line: Vec<Span>)
    ensures
        lines_view(final(out)@) == lines_view(old(out)@).push(line_view(line@)),
{
    let ghost before = lines_view(out@);
    let ghost lv = line_view(line@);
    out.push(line);
    assert(lines_view(out@) =~= before.push(lv));
}

fn push_rows_in_order(kids: &Vec<TreeNode>, order: &Vec<usize>, prefix: &Vec<char>, ctx: &RowCtx, out: &mut Vec<Vec<Span>>)
    requires
        ctx_fits(*ctx),
        forall|k: int| 0 <= k < order@.len() ==> #[trigger] order@[k] < kids@.len(),
    ensures
        lines_view(final(out)@) == lines_view(old(out)@) + rows_in_order(
            trees_view(kids@),
            order@.map_values(|i: usize| i as int),
            0,
            prefix@,
            *ctx,
        ),
    decreases kids,
{
    let ghost tv = trees_view(kids@);
    let ghost ord = order@.map_values(|i: usize| i as int);
    let ghost target = lines_view(out@) + rows_in_order(tv, ord, 0, prefix@, *ctx);
    proof {
        crate::tree::lemma_trees_view(kids@);
        assert(lines_view(out@) + rows_in_order(tv, ord, 0, prefix@, *ctx) == target);
    }
    let mut k: usize = 0;
    while k < order.len()
        invariant
            k <= order@.len(),
            ctx_fits(*ctx),
            tv == trees_view(kids@),
            tv.len() == kids@.len(),
            forall|j: int| 0 <= j < tv.len() ==> #[trigger] tv[j] == tree_view(kids@[j]),
            ord == order@.map_values(|i: usize| i as int),
            forall|j: int| 0 <= j < order@.len() ==> #[trigger] order@[j] < kids@.len(),
            lines_view(out@) + rows_in_order(tv, ord, k as int, prefix@, *ctx) == target,
        decreases order@.len() - k,
    {
        let idx = order[k];
        let ghost before = lines_view(out@);
        let ghost rest = rows_in_order(tv, ord, k + 1, prefix@, *ctx);
        assert(ord[k as int] == idx as int);
        let is_last = k == order.len() - 1;
        let fresh: Vec<Vec<char>> = Vec::new();
        assert(fresh.deep_view() =~= Seq::<Seq<char>>::empty());
        push_node_rows(&kids[idx], prefix, is_last, fresh, ctx, out);
        assert(lines_view(out@) + rest =~= before + rows_in_order(tv, ord, k as int, prefix@, *ctx));
        k = k + 1;
    }
    assert(rows_in_order(tv, ord, k as int, prefix@, *ctx) =~= Seq::<Seq<SpanView>>::empty());
    assert(lines_view(out@) =~= target);
}

fn push_node_rows(t: &TreeNode, prefix: &Vec<char>, is_last: bool, acc: Vec<Vec<char>>, ctx: &RowCtx, out: &mut Vec<Vec<Span>>)
    requires
        ctx_fits(*ctx),
    ensures
        lines_view(final(out)@) == lines_view(old(out)@) + node_rows(t@, prefix@, is_last, acc.deep_view(), *ctx),
    decreases t,
{
    proof {
        crate::tree::lemma_trees_view(t.children@);
    }
    let mut names = acc;
    let ghost before_names = names.deep_view();
    let name = chars_of(t.name.as_str());
    proof {
        crate::text::lemma_chars_deep_view(name);
    }
    names.push(name);
    assert(names.deep_view() =~= before_names.push(t.name@));
    if t.children.len() == 1 && t.stats.total_nodes == t.children[0].stats.total_nodes {
        push_node_rows(&t.children[0], prefix, is_last, names, ctx, out);
        return;
    }
    let connector = if is_last {
        chars_of("└──")
    } else {
        chars_of("├──")
    };
    let joined = join_names(&names);
    let head = concat(prefix, &connector);
    let display = concat(&head, &joined);
    let mut line = stats_spans_exec(&display, &t.stats, ctx, ctx.max_nodes, ctx.max_cpus);
    if ctx.show_names {
        let hosts = compress_hostlist(t.stats.node_names.as_slice());
        let hc = chars_of(hosts.as_str());
        let gap = [' '];
        assert(gap@ =~= seq![' ']);
        let text = concat(&gap, &hc);
        let ghost lb = line_view(line@);
        line.push(Span::Plain(string_of(&text)));
        assert(line_view(line@) =~= lb + seq![SpanView::Plain(seq![' '] + compressed(t.stats.node_names.deep_view()))]);
    } else {
        assert(line_view(line@) =~= line_view(line@) + Seq::<SpanView>::empty());
    }
    let ghost lv = line_view(line@);
    push_line(out, line);
    let indent = if is_last {
        chars_of("   ")
    } else {
        chars_of("│  ")
    };
    let child_prefix = concat(prefix, &indent);
    let order = child_order_exec(&t.children, ctx.sort);
    let ghost mid = lines_view(out@);
    push_rows_in_order(&t.children, &order, &child_prefix, ctx, out);
    assert(lines_view(out@) =~= lines_view(old(out)@) + node_rows(t@, prefix@, is_last, acc.deep_view(), *ctx));
}

/// The node-names title, trailing the last column where names are shown.
pub open spec fn names_title(show_names: bool) -> Seq<SpanView> {
    if show_names {
        seq![SpanView::Plain(seq![' ']), SpanView::Bold("Node Names"@)]
    } else {
        Seq::empty()
    }
}

/// The header line. With bars, the titles sit over the bars and the numeric columns are
/// left unlabelled, the cores title padded out to its bar's closing `│` where the names
/// title follows it; without bars, the titles are right-aligned over the numeric columns.
pub open spec fn header_spans(l: Layout, gpu: bool, show_names: bool) -> Seq<SpanView> {
    let titles = titles_of(l, gpu);
    match l.bar_width {
        Some(b) => seq![
            SpanView::Bold(pad_right("Feature"@, l.feature_w as nat)),
            SpanView::Plain(seq![' '] + spaces(l.nodes_w as nat) + spaces(2)),
            SpanView::Bold(pad_right(titles.0, (b + 2) as nat)),
            SpanView::Plain(spaces(l.cpus_w as nat) + spaces(2)),
            SpanView::Bold(pad_right(titles.1, if show_names { (b + 1) as nat } else { 0 })),
        ] + names_title(show_names),
        None => seq![
            SpanView::Bold(pad_right("Feature"@, l.feature_w as nat)),
            SpanView::Plain(seq![' ']),
            SpanView::Bold(pad_left(titles.0, l.nodes_w as nat)),
            SpanView::Plain(seq![' ']),
            SpanView::Bold(pad_left(titles.1, l.cpus_w as nat)),
        ] + names_title(show_names),
    }
}

fn header_exec(l: &Layout, gpu: bool, show_names: bool) -> (out: Vec<Span>)
    requires
        l.bar_width matches Some(b) ==> b + 2 <= usize::MAX,
    ensures
        line_view(out@) == header_spans(*l, gpu, show_names),
{
    let (nt, ct) = l.titles(gpu);
    let ntc = chars_of(nt.as_str());
    let ctc = chars_of(ct.as_str());
    let feature = chars_of("Feature");
    let mut out: Vec<Span> = Vec::new();
    out.push(Span::Bold(string_of(&pad_right_chars(&feature, l.feature_w))));
    let gap = [' '];
    assert(gap@ =~= seq![' ']);
    match l.bar_width {
        Some(b) => {
            let two = spaces_chars(2);
            let nodes_blank = spaces_chars(l.nodes_w);
            let a = concat(&gap, &nodes_blank);
            let a2 = concat(&a, &two);
            out.push(Span::Plain(string_of(&a2)));
            out.push(Span::Bold(string_of(&pad_right_chars(&ntc, b + 2))));
            let cpus_blank = spaces_chars(l.cpus_w);
            let c2 = concat(&cpus_blank, &two);
            out.push(Span::Plain(string_of(&c2)));
            let tw = if show_names {
                b + 1
            } else {
                0
            };
            out.push(Span::Bold(string_of(&pad_right_chars(&ctc, tw))));
        },
        None => {
            out.push(Span::Plain(string_of(&gap)));
            out.push(Span::Bold(string_of(&pad_left_chars(&ntc, l.nodes_w))));
            out.push(Span::Plain(string_of(&gap)));
            out.push(Span::Bold(string_of(&pad_left_chars(&ctc, l.cpus_w))));
        },
    }
    if show_names {
        out.push(Span::Plain(string_of(&gap)));
        let title = chars_of("Node Names");
        out.push(Span::Bold(string_of(&title)));
    }
    assert(line_view(out@) =~= header_spans(*l, gpu, show_names));
    out
}

/// The level shown at the top: the single branch of a single selection, and otherwise
/// the root.
pub open spec fn top_of(root: TreeView, single_filter: bool) -> TreeView {
    if single_filter && root.children.len() > 0 {
        root.children[0]
    } else {
        root
    }
}

/// The width of a count column's data: the idle and total widths with the slash between
/// them, and room for "(-n)" where the column has preemptable counts.
pub open spec fn data_width(idle_w: usize, total_w: usize, preempt_w: usize) -> int {
    idle_w + total_w + 1 + if preempt_w > 0 {
        preempt_w + 3
    } else {
        0
    }
}

/// The feature column's width: what the names need beyond the connector and padding
/// that are counted in, but at least the width of "Feature".
pub open spec fn feature_width_of(top: TreeView) -> int {
    let m = max_width(top, 0, false, Seq::empty());
    let w = if m >= 4 {
        m - 4
    } else {
        0
    };
    if w >= 7 {
        w
    } else {
        7
    }
}

/// What the rows of the report of `top` are laid out with.
pub open spec fn report_ctx(top: TreeView, show_names: bool, sort: bool, gpu: bool, budget: Option<usize>) -> RowCtx {
    let w = tree_widths(top);
    let names_w: usize = if show_names {
        11
    } else {
        0
    };
    let layout = solved_layout(
        feature_width_of(top) as usize,
        data_width(w.max_idle_nodes, w.max_total_nodes, w.max_preempt_nodes_width) as usize,
        data_width(w.max_idle_cpus, w.max_total_cpus, w.max_preempt_cpus_width) as usize,
        names_w,
        gpu,
        budget,
    );
    RowCtx {
        layout,
        widths: w,
        show_names,
        sort,
        max_nodes: top.stats.total_nodes as u32,
        max_cpus: top.stats.total_cpus as u32,
        gpu,
    }
}

/// The lines of the tree report: the header, the separator, the top level's line with
/// bars against its own totals, and the rows of the levels beneath it, whose bars measure
/// against the top level's totals.
pub open spec fn report_lines(root: TreeView, single_filter: bool, show_names: bool, sort: bool, gpu: bool, budget: Option<usize>) -> Seq<Seq<SpanView>> {
    let top = top_of(root, single_filter);
    let ctx = report_ctx(top, show_names, sort, gpu, budget);
    seq![
        header_spans(ctx.layout, gpu, show_names),
        seq![SpanView::Plain(separator_text(ctx.layout))],
        stats_spans(top.name, top.stats, ctx, ctx.max_nodes, ctx.max_cpus),
    ] + rows_in_order(top.children, child_order(top.children, sort), 0, Seq::empty(), ctx)
}

pub open spec fn widths_small(w: ColumnWidths) -> bool {
    &&& w.max_idle_nodes <= 10
    &&& w.max_total_nodes <= 10
    &&& w.max_preempt_nodes_width <= 10
    &&& w.max_idle_cpus <= 10
    &&& w.max_total_cpus <= 10
    &&& w.max_preempt_cpus_width <= 10
}

proof fn lemma_widths_small(t: TreeNode)
    ensures
        widths_small(tree_widths(t@)),
    decreases t,
{
    crate::text::lemma_decimal_len_u32(t.stats.idle_nodes);
    crate::text::lemma_decimal_len_u32(t.stats.total_nodes);
    crate::text::lemma_decimal_len_u32(t.stats.idle_cpus);
    crate::text::lemma_decimal_len_u32(t.stats.total_cpus);
    match t.stats.preempt_nodes {
        Some(v) => crate::text::lemma_decimal_len_u32(v),
        None => {},
    }
    match t.stats.preempt_cpus {
        Some(v) => crate::text::lemma_decimal_len_u32(v),
        None => {},
    }
    lemma_forest_widths_small(t.children@, line_widths(t.stats@));
}

proof fn lemma_forest_widths_small(s: Seq<TreeNode>, w: ColumnWidths)
    requires
        widths_small(w),
    ensures
        widths_small(forest_widths(trees_view(s), w)),
    decreases s,
{
    if s.len() > 0 {
        assert(trees_view(s).drop_last() == trees_view(s.drop_last()));
        assert(trees_view(s).last() == tree_view(s.last()));
        lemma_forest_widths_small(s.drop_last(), w);
        lemma_widths_small(s.last());
    }
}

fn data_width_exec(idle_w: usize, total_w: usize, preempt_w: usize) -> (w: usize)
    requires
        idle_w <= 10,
        total_w <= 10,
        preempt_w <= 10,
    ensures
        w == data_width(idle_w, total_w, preempt_w),
        w <= 34,
{
    idle_w + total_w + 1 + if preempt_w > 0 {
        preempt_w + 3
    } else {
        0
    }
}

fn feature_width_exec(top: &TreeNode) -> (w: usize)
    requires
        max_width(top@, 0, false, Seq::empty()) <= usize::MAX - 256,
    ensures
        w == feature_width_of(top@),
        w <= usize::MAX - 252,
{
    let raw = calculate_max_width(top, 0, false);
    let stripped = if raw >= 4 {
        raw - 4
    } else {
        0
    };
    wider_exec(stripped, 7)
}

proof fn lemma_solved_fits(feature_w: usize, nodes_w: usize, cpus_w: usize, names_w: usize, gpu: bool, budget: Option<usize>)
    requires
        feature_w <= usize::MAX - 252,
        nodes_w <= 34,
        cpus_w <= 34,
        names_w <= 11,
    ensures
        ({
            let l = solved_layout(feature_w, nodes_w, cpus_w, names_w, gpu, budget);
            &&& l.bar_width matches Some(b) ==> b <= BAR_WIDTH_MAX
            &&& layout_total_width(l) + l.names_w <= usize::MAX
        }),
{
}

/// Bars are never drawn wider than `BAR_WIDTH_MAX`, however wide the terminal is, nor
/// narrower than `BAR_WIDTH_MIN`, below which they are dropped. Where bars are drawn within
/// a budget, the row and the names' title fit in it; and each title over a bar fits its
/// field, running at most to the bar's closing `│`, so that the header lines up with the
/// rows.
pub proof fn lemma_layout_bounds(
    feature_w: usize,
    nodes_data_w: usize,
    cpus_data_w: usize,
    names_w: usize,
    gpu: bool,
    budget: Option<usize>,
)
    ensures
        ({
            let l = solved_layout(feature_w, nodes_data_w, cpus_data_w, names_w, gpu, budget);
            &&& l.bar_width matches Some(w) ==> BAR_WIDTH_MIN <= w <= BAR_WIDTH_MAX
            &&& match budget {
                Some(b) => l.bar_width is Some ==> layout_total_width(l) + names_w <= b,
                None => true,
            }
            &&& l.bar_width matches Some(w) ==> {
                &&& titles_of(l, gpu).0.len() <= w + 1
                &&& titles_of(l, gpu).1.len() <= w + 1
            }
        }),
{
    reveal_strlit("Nodes Available");
    reveal_strlit("Cores Available");
    reveal_strlit("GPUs Available");
    reveal_strlit("Nodes");
    reveal_strlit("Cores");
    reveal_strlit("GPUs");
}

fn report_ctx_exec(top: &TreeNode, show_node_names: bool, sort: bool, gpu: bool, budget: Option<usize>) -> (ctx: RowCtx)
    requires
        max_width(top@, 0, false, Seq::empty()) <= usize::MAX - 256,
    ensures
        ctx == report_ctx(top@, show_node_names, sort, gpu, budget),
        ctx_fits(ctx),
        ctx.layout.bar_width matches Some(b) ==> b <= BAR_WIDTH_MAX,
        layout_total_width(ctx.layout) + ctx.layout.names_w <= usize::MAX,
{
    let feature_width = feature_width_exec(top);
    let col_widths = calculate_column_widths(top);
    proof {
        lemma_widths_small(*top);
    }
    let nodes_data_width = data_width_exec(col_widths.max_idle_nodes, col_widths.max_total_nodes, col_widths.max_preempt_nodes_width);
    let cpus_data_width = data_width_exec(col_widths.max_idle_cpus, col_widths.max_total_cpus, col_widths.max_preempt_cpus_width);
    let names_width: usize = if show_node_names {
        11
    } else {
        0
    };
    let layout = Layout::solve(feature_width, nodes_data_width, cpus_data_width, names_width, gpu, budget);
    proof {
        lemma_solved_fits(feature_width, nodes_data_width, cpus_data_width, names_width, gpu, budget);
    }
    RowCtx {
        layout,
        widths: col_widths,
        show_names: show_node_names,
        sort,
        max_nodes: top.stats.total_nodes,
        max_cpus: top.stats.total_cpus,
        gpu,
    }
}

/// Lays the tree report of `root` out as lines of styled spans (see `report_lines`),
/// fitted into `budget` columns where one is given.
pub fn tree_report_lines(root: &TreeNode, show_node_names: bool, sort: bool, gpu: bool, budget: Option<usize>) -> (lines: Vec<Vec<Span>>)
    requires
        max_width(top_of(root@, root.single_filter), 0, false, Seq::empty()) <= usize::MAX - 256,
    ensures
        lines_view(lines@) == report_lines(root@, root.single_filter, show_node_names, sort, gpu, budget),
{
    proof {
        crate::tree::lemma_trees_view(root.children@);
    }
    let top: &TreeNode = if root.single_filter && root.children.len() > 0 {
        &root.children[0]
    } else {
        root
    };
    let ghost tv = top@;
    assert(tv == top_of(root@, root.single_filter));
    let ctx = report_ctx_exec(top, show_node_names, sort, gpu, budget);
    let layout = ctx.layout;
    let mut lines: Vec<Vec<Span>> = Vec::new();
    push_line(&mut lines, header_exec(&layout, gpu, show_node_names));
    let mut sep: Vec<Span> = Vec::new();
    sep.push(Span::Plain(layout.separator()));
    assert(line_view(sep@) =~= seq![SpanView::Plain(separator_text(layout))]);
    push_line(&mut lines, sep);
    let name = chars_of(top.name.as_str());
    push_line(&mut lines, stats_spans_exec(&name, &top.stats, &ctx, top.stats.total_nodes, top.stats.total_cpus));
    let order = child_order_exec(&top.children, sort);
    let empty_prefix: Vec<char> = Vec::new();
    let ghost head = lines_view(lines@);
    push_rows_in_order(&top.children, &order, &empty_prefix, &ctx, &mut lines);
    assert(empty_prefix@ =~= Seq::<char>::empty());
    assert(lines_view(lines@) =~= report_lines(root@, root.single_filter, show_node_names, sort, gpu, budget));
    lines
}

/// Whether span `s`, where it is a bar, measures against `nodes_total` (a node bar) or
/// `cpus_total` (a core or GPU bar).
pub open spec fn bar_against(s: SpanView, nodes_total: u32, cpus_total: u32) -> bool {
    match s {
        SpanView::Bar { current: _, total, width: _, kind } => total == (if kind == BarKind::Nodes {
            nodes_total
        } else {
            cpus_total
        }),
        _ => true,
    }
}

/// Whether every bar of `line` measures against those totals.
pub open spec fn bars_against(line: Seq<SpanView>, nodes_total: u32, cpus_total: u32) -> bool {
    forall|j: int| 0 <= j < line.len() ==> bar_against(#[trigger] line[j], nodes_total, cpus_total)
}

/// Whether every bar of every line of `lines` measures against those totals.
pub open spec fn lines_against(lines: Seq<Seq<SpanView>>, nodes_total: u32, cpus_total: u32) -> bool {
    forall|k: int| 0 <= k < lines.len() ==> bars_against(#[trigger] lines[k], nodes_total, cpus_total)
}

proof fn lemma_bars_concat(a: Seq<SpanView>, b: Seq<SpanView>, n: u32, c: u32)
    requires
        bars_against(a, n, c),
        bars_against(b, n, c),
    ensures
        bars_against(a + b, n, c),
{
    assert forall|j: int| 0 <= j < (a + b).len() implies bar_against(#[trigger] (a + b)[j], n, c) by {
        if j < a.len() {
            assert((a + b)[j] == a[j]);
        } else {
            assert((a + b)[j] == b[j - a.len()]);
        }
    }
}

proof fn lemma_lines_concat(a: Seq<Seq<SpanView>>, b: Seq<Seq<SpanView>>, n: u32, c: u32)
    requires
        lines_against(a, n, c),
        lines_against(b, n, c),
    ensures
        lines_against(a + b, n, c),
{
    assert forall|k: int| 0 <= k < (a + b).len() implies bars_against(#[trigger] (a + b)[k], n, c) by {
        if k < a.len() {
            assert((a + b)[k] == a[k]);
        } else {
            assert((a + b)[k] == b[k - a.len()]);
        }
    }
}

/// A line of counts draws its node bar against `nodes_total` and its other bar against
/// `cpus_total`.
proof fn lemma_stats_bars(name: Seq<char>, st: LineView, ctx: RowCtx, n: u32, c: u32)
    ensures
        bars_against(stats_spans(name, st, ctx, n, c), n, c),
{
    let l = ctx.layout;
    let w = ctx.widths;
    let p1 = seq![SpanView::Bold(pad_right(name, l.feature_w as nat)), SpanView::Plain(seq![' '])];
    let c1 = count_cell(st.idle_nodes, st.total_nodes, st.preempt_nodes, w.max_idle_nodes, w.max_total_nodes, w.max_preempt_nodes_width, l.nodes_w);
    let b1 = bar_spans(l, st.idle_nodes, n, BarKind::Nodes);
    let p2 = seq![SpanView::Plain(seq![' '])];
    let c2 = count_cell(st.idle_cpus, st.total_cpus, st.preempt_cpus, w.max_idle_cpus, w.max_total_cpus, w.max_preempt_cpus_width, l.cpus_w);
    let b2 = bar_spans(l, st.idle_cpus, c, cpu_kind(ctx.gpu));
    assert(bars_against(p1, n, c));
    assert(bars_against(c1, n, c));
    assert(bars_against(b1, n, c));
    assert(bars_against(p2, n, c));
    assert(bars_against(c2, n, c));
    assert(bars_against(b2, n, c));
    lemma_bars_concat(p1, c1, n, c);
    lemma_bars_concat(p1 + c1, b1, n, c);
    lemma_bars_concat(p1 + c1 + b1, p2, n, c);
    lemma_bars_concat(p1 + c1 + b1 + p2, c2, n, c);
    lemma_bars_concat(p1 + c1 + b1 + p2 + c2, b2, n, c);
}

proof fn lemma_node_rows_bars(t: TreeView, prefix: Seq<char>, is_last: bool, acc: Seq<Seq<char>>, ctx: RowCtx)
    ensures
        lines_against(node_rows(t, prefix, is_last, acc, ctx), ctx.max_nodes, ctx.max_cpus),
    decreases t, 0int,
{
    if t.children.len() == 1 && t.stats.total_nodes == t.children[0].stats.total_nodes {
        lemma_node_rows_bars(t.children[0], prefix, is_last, acc.push(t.name), ctx);
    } else {
        let display = prefix + (if is_last {
            "└──"@
        } else {
            "├──"@
        }) + join(acc.push(t.name), ", "@);
        let names = if ctx.show_names {
            seq![SpanView::Plain(seq![' '] + compressed(t.stats.node_names))]
        } else {
            Seq::empty()
        };
        let stats = stats_spans(display, t.stats, ctx, ctx.max_nodes, ctx.max_cpus);
        lemma_stats_bars(display, t.stats, ctx, ctx.max_nodes, ctx.max_cpus);
        assert(bars_against(names, ctx.max_nodes, ctx.max_cpus));
        lemma_bars_concat(stats, names, ctx.max_nodes, ctx.max_cpus);
        let line = stats + names;
        let child_prefix = prefix + (if is_last {
            "   "@
        } else {
            "│  "@
        });
        let rest = rows_in_order(t.children, child_order(t.children, ctx.sort), 0, child_prefix, ctx);
        lemma_rows_bars(t.children, child_order(t.children, ctx.sort), 0, child_prefix, ctx);
        assert(lines_against(seq![line], ctx.max_nodes, ctx.max_cpus));
        lemma_lines_concat(seq![line], rest, ctx.max_nodes, ctx.max_cpus);
    }
}

proof fn lemma_rows_bars(kids: Seq<TreeView>, order: Seq<int>, k: int, prefix: Seq<char>, ctx: RowCtx)
    ensures
        lines_against(rows_in_order(kids, order, k, prefix, ctx), ctx.max_nodes, ctx.max_cpus),
    decreases kids, order.len() - k,
{
    if k < 0 || k >= order.len() {
    } else {
        let i = order[k];
        let here = if 0 <= i < kids.len() {
            node_rows(kids[i], prefix, k == order.len() - 1, Seq::empty(), ctx)
        } else {
            Seq::empty()
        };
        if 0 <= i < kids.len() {
            lemma_node_rows_bars(kids[i], prefix, k == order.len() - 1, Seq::empty(), ctx);
        }
        lemma_rows_bars(kids, order, k + 1, prefix, ctx);
        lemma_lines_concat(here, rows_in_order(kids, order, k + 1, prefix, ctx), ctx.max_nodes, ctx.max_cpus);
    }
}

/// The tree's bars show absolute counts: on every line, every bar measures against the
/// top level's totals, node bars against its nodes and the other bars against its cores
/// (or GPUs), so that bars can be compared down the tree.
pub proof fn lemma_bars_show_absolute_counts(
    root: TreeView,
    single_filter: bool,
    show_names: bool,
    sort: bool,
    gpu: bool,
    budget: Option<usize>,
)
    ensures
        ({
            let top = top_of(root, single_filter);
            lines_against(
                report_lines(root, single_filter, show_names, sort, gpu, budget),
                top.stats.total_nodes as u32,
                top.stats.total_cpus as u32,
            )
        }),
{
    let top = top_of(root, single_filter);
    let ctx = report_ctx(top, show_names, sort, gpu, budget);
    let n = ctx.max_nodes;
    let c = ctx.max_cpus;
    let header = header_spans(ctx.layout, gpu, show_names);
    let rule = seq![SpanView::Plain(separator_text(ctx.layout))];
    let first = stats_spans(top.name, top.stats, ctx, n, c);
    assert(bars_against(names_title(show_names), n, c));
    match ctx.layout.bar_width {
        Some(b) => {
            let titles = titles_of(ctx.layout, gpu);
            let front = seq![
                SpanView::Bold(pad_right("Feature"@, ctx.layout.feature_w as nat)),
                SpanView::Plain(seq![' '] + spaces(ctx.layout.nodes_w as nat) + spaces(2)),
                SpanView::Bold(pad_right(titles.0, (b + 2) as nat)),
                SpanView::Plain(spaces(ctx.layout.cpus_w as nat) + spaces(2)),
                SpanView::Bold(pad_right(titles.1, if show_names { (b + 1) as nat } else { 0 })),
            ];
            assert(bars_against(front, n, c));
            lemma_bars_concat(front, names_title(show_names), n, c);
        },
        None => {
            let titles = titles_of(ctx.layout, gpu);
            let front = seq![
                SpanView::Bold(pad_right("Feature"@, ctx.layout.feature_w as nat)),
                SpanView::Plain(seq![' ']),
                SpanView::Bold(pad_left(titles.0, ctx.layout.nodes_w as nat)),
                SpanView::Plain(seq![' ']),
                SpanView::Bold(pad_left(titles.1, ctx.layout.cpus_w as nat)),
            ];
            assert(bars_against(front, n, c));
            lemma_bars_concat(front, names_title(show_names), n, c);
        },
    }
    assert(bars_against(header, n, c));
    assert(bars_against(rule, n, c));
    lemma_stats_bars(top.name, top.stats, ctx, n, c);
    let heads = seq![header, rule, first];
    assert(lines_against(heads, n, c));
    lemma_rows_bars(top.children, child_order(top.children, sort), 0, Seq::empty(), ctx);
    lemma_lines_concat(heads, rows_in_order(top.children, child_order(top.children, sort), 0, Seq::empty(), ctx), n, c);
    assert(report_lines(root, single_filter, show_names, sort, gpu, budget) == heads + rows_in_order(
        top.children,
        child_order(top.children, sort),
        0,
        Seq::empty(),
        ctx,
    ));
}

} // verus!
