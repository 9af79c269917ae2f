//! The layout of a dashboard page: its charts in name order on a grid that scrolls by rows,
//! and for each chart the bars shown, their labels and the capacity line it is drawn
//! against.
use vstd::prelude::*;
use vstd::relations::sorted_by;
use crate::order::{sort_texts, text_le};
use crate::text::{chars_of, concat, decimal, decimal_chars, string_of};
use crate::tres_map::NameMap;
use crate::tui::{sat_sub, AppView, ChartData};

verus! {

/// What the bars of a chart show.
#[derive(Debug, Clone, Copy, PartialEq, Eq)]
pub enum DisplayMode {
    Usage,
    Availability,
}

/// The colors the charts take in turn.
pub const PALETTE_SIZE: usize = 10;

/// The label under a bar `step` steps back from the latest: "Now", or the steps negated.
pub open spec fn time_label(step: nat) -> Seq<char> {
    if step == 0 {
        "Now"@
    } else {
        seq!['-'] + decimal(step)
    }
}

/// The `i`th value of `s`, zero past its end.
pub open spec fn at_or_zero(s: Seq<u64>, i: int) -> u64 {
    if 0 <= i < s.len() {
        s[i]
    } else {
        0
    }
}

/// The largest of `s`, zero where it is empty.
pub open spec fn seq_max(s: Seq<u64>) -> u64
    decreases s.len(),
{
    if s.len() == 0 {
        0
    } else {
        let m = seq_max(s.drop_last());
        if s.last() > m {
            s.last()
        } else {
            m
        }
    }
}

/// The series a chart is measured against: on the accounts page the cluster's total, on the
/// others the chart's own group; empty where there is none.
pub open spec fn capacity_series(capacity: Map<Seq<char>, Vec<u64>>, view: AppView, name: Seq<char>) -> Seq<u64> {
    let key = if view == AppView::CpuByAccount {
        "Total"@
    } else {
        name
    };
    if capacity.contains_key(key) {
        capacity[key]@
    } else {
        Seq::empty()
    }
}

/// How far a chart of `n` points scrolls sideways: to `offset`, but no further than shows
/// its last `max_bars` points.
pub open spec fn chart_offset(n: nat, offset: usize, max_bars: usize) -> nat {
    let max_h = sat_sub(n, max_bars as nat);
    if offset < max_h {
        offset as nat
    } else {
        max_h
    }
}

/// How many bars a chart of `n` points shows from `h` on.
pub open spec fn visible_count(n: nat, h: nat, max_bars: usize) -> nat {
    let rest = sat_sub(n, h);
    if rest < max_bars {
        rest
    } else {
        max_bars as nat
    }
}

/// The bar for the point at `i` of `values`: its value, or in availability mode what the
/// capacity leaves over it (none where it is above the capacity); labelled by its age.
pub open spec fn bar_at(values: Seq<u64>, cap: Seq<u64>, i: int, mode: DisplayMode) -> (u64, Seq<char>) {
    let usage = values[i];
    let avail = if at_or_zero(cap, i) >= usage {
        (at_or_zero(cap, i) - usage) as u64
    } else {
        0
    };
    (
        if mode == DisplayMode::Usage {
            usage
        } else {
            avail
        },
        time_label((values.len() - 1 - i) as nat),
    )
}

/// One chart as drawn.
#[derive(Debug)]
pub struct ChartPlan {
    pub name: String,
    /// Which color of the palette it takes
    pub color: usize,
    /// Its bars, earliest first: value and label
    pub bars: Vec<(u64, String)>,
    /// The highest capacity over the whole series, drawn as a last bar
    pub max: u64,
    /// Whether there are earlier points to scroll to
    pub more_left: bool,
    /// Whether there are later points to scroll to
    pub more_right: bool,
}

/// Whether `c` is the chart of group `name`, the `index`th of the page counting from the
/// first, from the usage `source` and capacity `capacity` (see `chart_offset`,
/// `visible_count`, `bar_at`).
pub open spec fn chart_ok(
    c: ChartPlan,
    name: Seq<char>,
    index: nat,
    source: Map<Seq<char>, Vec<u64>>,
    capacity: Map<Seq<char>, Vec<u64>>,
    view: AppView,
    offset: usize,
    max_bars: usize,
    mode: DisplayMode,
) -> bool {
    let values = source[name]@;
    let cap = capacity_series(capacity, view, name);
    let h = chart_offset(values.len(), offset, max_bars);
    &&& c.name@ == name
    &&& c.color == index % (PALETTE_SIZE as nat)
    &&& c.bars@.len() == visible_count(values.len(), h, max_bars)
    &&& forall|k: int|
        0 <= k < c.bars@.len() ==> {
            let b = #[trigger] c.bars@[k];
            (b.0, b.1@) == bar_at(values, cap, h + k, mode)
        }
    &&& c.max == seq_max(cap)
    &&& c.more_left == (h > 0)
    &&& c.more_right == (h < sat_sub(values.len(), max_bars as nat))
}

/// A page of charts as drawn.
#[derive(Debug)]
pub struct ChartPage {
    /// Every group's name, in order
    pub names: Vec<String>,
    /// Charts per row
    pub num_cols: usize,
    /// The position among `names` of the first chart shown
    pub first: usize,
    /// The page shown, counting from one, and how many there are
    pub current_page: usize,
    pub total_pages: usize,
    /// Whether rows are hidden above and below
    pub more_above: bool,
    pub more_below: bool,
    /// The charts shown, row by row
    pub charts: Vec<ChartPlan>,
}

/// Charts per row: as many of the narrowest width as fit, at least one.
pub open spec fn grid_cols(width: u16, min_width: u16) -> nat {
    let c = (width / min_width) as nat;
    if c >= 1 {
        c
    } else {
        1
    }
}

/// Rows of charts that fit the height.
pub open spec fn grid_rows(height: u16, chart_height: u16) -> nat {
    (height / chart_height) as nat
}

/// How far the grid of `n` charts scrolls down: the rows past those that fit.
pub open spec fn grid_max_offset(n: nat, cols: nat, rows: nat) -> nat {
    sat_sub(((n + cols - 1) as nat / cols) as nat, rows)
}

/// The row the grid starts at: `scroll`, but no further than `grid_max_offset`.
pub open spec fn grid_offset(n: nat, cols: nat, rows: nat, scroll: usize) -> nat {
    let m = grid_max_offset(n, cols, rows);
    if scroll < m {
        scroll as nat
    } else {
        m
    }
}

/// How many charts the page shows from the first on.
pub open spec fn grid_shown(n: nat, cols: nat, rows: nat, first: nat) -> nat {
    let rest = sat_sub(n, first);
    if rows * cols < rest {
        rows * cols
    } else {
        rest
    }
}

fn time_label_exec(step: usize) -> (s: String)
    ensures
        s@ == time_label(step as nat),
{
    if step == 0 {
        string_of(&chars_of("Now"))
    } else {
        let d = decimal_chars(step as u64);
        let mut dash: Vec<char> = Vec::new();
        dash.push('-');
        let t = concat(&dash, &d);
        assert(dash@ =~= seq!['-']);
        string_of(&t)
    }
}

fn seq_max_exec(s: &Vec<u64>) -> (m: u64)
    ensures
        m == seq_max(s@),
{
    let mut m: u64 = 0;
    let mut i: usize = 0;
    while i < s.len()
        invariant
            i <= s@.len(),
            m == seq_max(s@.take(i as int)),
        decreases s@.len() - i,
    {
        assert(s@.take(i + 1).drop_last() =~= s@.take(i as int));
        assert(s@.take(i + 1).last() == s@[i as int]);
        if s[i] > m {
            m = s[i];
        }
        i = i + 1;
    }
    assert(s@.take(i as int) =~= s@);
    m
}

/// The chart of group `name`, the `index`th of the page (see `chart_ok`).
fn chart_plan(
    name: &Vec<char>,
    index: usize,
    data: &ChartData,
    view: AppView,
    max_bars: usize,
    mode: DisplayMode,
) -> (c: ChartPlan)
    requires
        data.source_data.wf(),
        data.capacity_data.wf(),
        data.source_data@.contains_key(name@),
    ensures
        chart_ok(
            c,
            name@,
            index as nat,
            data.source_data@,
            data.capacity_data@,
            view,
            data.horizontal_scroll_offset,
            max_bars,
            mode,
        ),
{
    let name_text = string_of(name);
    let values = data.source_data.get_ref(name_text.as_str()).unwrap();
    let on_accounts = match view {
        AppView::CpuByAccount => true,
        _ => false,
    };
    let key = if on_accounts {
        string_of(&chars_of("Total"))
    } else {
        string_of(name)
    };
    let empty: Vec<u64> = Vec::new();
    let cap = match data.capacity_data.get_ref(key.as_str()) {
        Some(c) => c,
        None => &empty,
    };
    assert(cap@ == capacity_series(data.capacity_data@, view, name@));
    let np = values.len();
    let max_h = if np >= max_bars {
        np - max_bars
    } else {
        0
    };
    let h = if data.horizontal_scroll_offset < max_h {
        data.horizontal_scroll_offset
    } else {
        max_h
    };
    let rest = np - h;
    let vis = if rest < max_bars {
        rest
    } else {
        max_bars
    };
    let ghost vals = values@;
    let ghost caps = cap@;
    let mut bars: Vec<(u64, String)> = Vec::new();
    let mut k: usize = 0;
    while k < vis
        invariant
            k <= vis,
            vis <= np - h,
            np == vals.len(),
            vals == values@,
            caps == cap@,
            bars@.len() == k,
            forall|j: int|
                0 <= j < k ==> {
                    let b = #[trigger] bars@[j];
                    (b.0, b.1@) == bar_at(vals, caps, h + j, mode)
                },
        decreases vis - k,
    {
        let i = h + k;
        let usage = values[i];
        let c = if i < cap.len() {
            cap[i]
        } else {
            0
        };
        let avail = if c >= usage {
            c - usage
        } else {
            0
        };
        let value = match mode {
            DisplayMode::Usage => usage,
            DisplayMode::Availability => avail,
        };
        let label = time_label_exec(np - 1 - i);
        bars.push((value, label));
        k = k + 1;
    }
    let max = seq_max_exec(cap);
    ChartPlan {
        name: name_text,
        color: index % PALETTE_SIZE,
        bars,
        max,
        more_left: h > 0,
        more_right: h < max_h,
    }
}

/// The page of charts for `data` on a `width` by `height` area: the groups in name order on
/// a grid of `grid_cols` columns, scrolled down `scroll_offset` rows as far as there are
/// rows to show (see `grid_offset`, `grid_shown`, `chart_ok`). With no groups it is the one
/// empty page.
pub fn chart_page(
    data: &ChartData,
    view: AppView,
    mode: DisplayMode,
    width: u16,
    height: u16,
    min_chart_width: u16,
    chart_height: u16,
    scroll_offset: usize,
    max_bars: usize,
) -> (p: ChartPage)
    requires
        data.source_data.wf(),
        data.capacity_data.wf(),
        min_chart_width > 0,
        chart_height > 0,
        data.source_data@.dom().len() + 65536 <= usize::MAX,
    ensures
        sorted_by(p.names.deep_view(), text_le()),
        p.names.deep_view().no_duplicates(),
        forall|k: Seq<char>| #[trigger] p.names.deep_view().contains(k) <==> data.source_data@.contains_key(k),
        p.names@.len() == 0 ==> {
            &&& p.current_page == 1
            &&& p.total_pages == 1
            &&& !p.more_above
            &&& !p.more_below
            &&& p.charts@.len() == 0
        },
        p.names@.len() > 0 ==> {
            let n = p.names@.len();
            let cols = grid_cols(width, min_chart_width);
            let rows = grid_rows(height, chart_height);
            let m = grid_max_offset(n, cols, rows);
            let off = grid_offset(n, cols, rows, scroll_offset);
            &&& p.num_cols == cols
            &&& p.first == off * cols
            &&& p.current_page == off + 1
            &&& p.total_pages == m + 1
            &&& p.more_above == (m > 0 && off > 0)
            &&& p.more_below == (m > 0 && off < m)
            &&& p.charts@.len() == grid_shown(n, cols, rows, p.first as nat)
            &&& forall|k: int|
                0 <= k < p.charts@.len() ==> chart_ok(
                    #[trigger] p.charts@[k],
                    p.names.deep_view()[p.first + k],
                    (p.first + k) as nat,
                    data.source_data@,
                    data.capacity_data@,
                    view,
                    data.horizontal_scroll_offset,
                    max_bars,
                    mode,
                )
        },
{
    broadcast use vstd::seq_lib::group_to_multiset_ensures;
    let raw = data.source_data.names();
    let sorted = sort_texts(raw);
    let ghost names = sorted.deep_view();
    proof {
        raw.deep_view().lemma_multiset_has_no_duplicates();
        assert forall|x: Seq<char>| names.to_multiset().contains(x) implies names.to_multiset().count(x) == 1 by {
            assert(raw.deep_view().to_multiset().contains(x));
        }
        names.lemma_multiset_has_no_duplicates_conv();
        assert forall|k: Seq<char>| #[trigger] names.contains(k) <==> data.source_data@.contains_key(k) by {
            assert(names.contains(k) <==> names.to_multiset().count(k) > 0);
            assert(raw.deep_view().contains(k) <==> raw.deep_view().to_multiset().count(k) > 0);
        }
        crate::text::lemma_texts_deep_view(sorted);
    }
    let n = sorted.len();
    assert(n == names.len());
    assert(n <= data.source_data@.dom().len()) by {
        assert(raw.deep_view().to_multiset().len() == names.to_multiset().len());
    }
    let w = width / min_chart_width;
    let cols: usize = if w >= 1 {
        w as usize
    } else {
        1
    };
    let rows: usize = (height / chart_height) as usize;
    let total_rows = (n + cols - 1) / cols;
    let max_off = if total_rows >= rows {
        total_rows - rows
    } else {
        0
    };
    let off = if scroll_offset < max_off {
        scroll_offset
    } else {
        max_off
    };
    assert(off * cols <= n + cols) by (nonlinear_arith)
        requires
            off <= total_rows,
            total_rows == (n + cols - 1) as int / cols as int,
            cols >= 1,
    ;
    let first = off * cols;
    let rest = if n >= first {
        n - first
    } else {
        0
    };
    assert(rows * cols <= 65535 * 65535) by (nonlinear_arith)
        requires
            rows <= 65535,
            cols <= 65535,
    ;
    let cap = rows * cols;
    let shown = if cap < rest {
        cap
    } else {
        rest
    };
    let out_names = crate::hostlist::strings_of(&sorted);
    if n == 0 {
        return ChartPage {
            names: out_names,
            num_cols: cols,
            first: 0,
            current_page: 1,
            total_pages: 1,
            more_above: false,
            more_below: false,
            charts: Vec::new(),
        };
    }
    let mut charts: Vec<ChartPlan> = Vec::new();
    let mut k: usize = 0;
    while k < shown
        invariant
            k <= shown,
            shown == 0 || first + shown <= n,
            n == names.len(),
            names == sorted.deep_view(),
            forall|j: int| 0 <= j < sorted@.len() ==> #[trigger] sorted.deep_view()[j] == sorted@[j]@,
            forall|x: Seq<char>| #[trigger] names.contains(x) <==> data.source_data@.contains_key(x),
            data.source_data.wf(),
            data.capacity_data.wf(),
            charts@.len() == k,
            forall|j: int|
                0 <= j < k ==> chart_ok(
                    #[trigger] charts@[j],
                    names[first + j],
                    (first + j) as nat,
                    data.source_data@,
                    data.capacity_data@,
                    view,
                    data.horizontal_scroll_offset,
                    max_bars,
                    mode,
                ),
        decreases shown - k,
    {
        let idx = first + k;
        assert(names.contains(names[idx as int]));
        assert(names[idx as int] == sorted@[idx as int]@);
        let c = chart_plan(&sorted[idx], idx, data, view, max_bars, mode);
        charts.push(c);
        k = k + 1;
    }
    ChartPage {
        names: out_names,
        num_cols: cols,
        first,
        current_page: off + 1,
        total_pages: max_off + 1,
        more_above: max_off > 0 && off > 0,
        more_below: max_off > 0 && off < max_off,
        charts,
    }
}

} // verus!
