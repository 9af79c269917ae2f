//! The usage-against-limits table: one row per account (or QOS), each resource shown as
//! "used/limit", with column widths measured over the rows so that separate tables line up.
use vstd::prelude::*;
use crate::text::{
    byte_len, concat, decimal, decimal_chars, pad_left, pad_left_chars, pad_right,
    pad_right_chars, spaces, spaces_chars, string_of, text_len, chars_of,
};

verus! {

/// Usage of one account, alongside the limits it counts against.
/// `None` is no limit, which is not the same as a limit of zero: Slurm reads a zero limit
/// as permission to run nothing at all.
#[derive(Debug, Clone)]
pub struct AccountJobUsage {
    pub account: String,
    /// Where these limits come from, shown in its own column when any row supplies it
    pub qos: Option<String>,
    pub cores: u32,
    pub nodes: u32,
    pub gpus: u32,
    pub jobs: u32,
    pub max_cores: Option<u32>,
    pub max_nodes: Option<u32>,
    pub max_gpus: Option<u32>,
    pub max_jobs: Option<u32>,
}

impl AccountJobUsage {
    pub fn new(
        account: &str,
        qos: Option<String>,
        cores: u32,
        nodes: u32,
        gpus: u32,
        jobs: u32,
        max_cores: Option<u32>,
        max_nodes: Option<u32>,
        max_gpus: Option<u32>,
        max_jobs: Option<u32>,
    ) -> (a: AccountJobUsage)
        ensures
            a.account@ == account@,
            a.qos == qos,
            a.cores == cores,
            a.nodes == nodes,
            a.gpus == gpus,
            a.jobs == jobs,
            a.max_cores == max_cores,
            a.max_nodes == max_nodes,
            a.max_gpus == max_gpus,
            a.max_jobs == max_jobs,
    {
        let name = chars_of(account);
        AccountJobUsage {
            account: string_of(&name),
            qos,
            cores,
            nodes,
            gpus,
            jobs,
            max_cores,
            max_nodes,
            max_gpus,
            max_jobs,
        }
    }
}

/// The column widths needed to print a set of `AccountJobUsage` rows. Widths can be
/// accumulated over several sets so that separate reports align with each other.
#[derive(Debug, Clone, Copy)]
pub struct AcctUsageWidths {
    pub name_length: usize,
    pub qos_length: usize,
    pub core_length: usize,
    pub max_core_length: usize,
    pub node_length: usize,
    pub max_node_length: usize,
    pub gpu_length: usize,
    pub max_gpu_length: usize,
    pub job_length: usize,
    pub max_job_length: usize,
}

impl Default for AcctUsageWidths {
    fn default() -> (w: AcctUsageWidths)
        ensures
            w == no_widths(),
    {
        AcctUsageWidths {
            name_length: 0,
            qos_length: 0,
            core_length: 0,
            max_core_length: 0,
            node_length: 0,
            max_node_length: 0,
            gpu_length: 0,
            max_gpu_length: 0,
            job_length: 0,
            max_job_length: 0,
        }
    }
}

/// Every width zero: nothing measured yet.
pub open spec fn no_widths() -> AcctUsageWidths {
    AcctUsageWidths {
        name_length: 0,
        qos_length: 0,
        core_length: 0,
        max_core_length: 0,
        node_length: 0,
        max_node_length: 0,
        gpu_length: 0,
        max_gpu_length: 0,
        job_length: 0,
        max_job_length: 0,
    }
}

/// How a limit is printed: its number, or `-` for no limit.
pub open spec fn limit_text(limit: Option<u32>) -> Seq<char> {
    match limit {
        Some(n) => decimal(n as nat),
        None => seq!['-'],
    }
}

pub open spec fn wider(a: usize, b: usize) -> usize {
    if a >= b {
        a
    } else {
        b
    }
}

/// The widths `w` widened to fit the row `acc` as well.
pub open spec fn widened(w: AcctUsageWidths, acc: AccountJobUsage) -> AcctUsageWidths {
    AcctUsageWidths {
        name_length: wider(w.name_length, byte_len(acc.account@)),
        qos_length: wider(
            w.qos_length,
            match acc.qos {
                Some(q) => byte_len(q@),
                None => 0,
            },
        ),
        core_length: wider(w.core_length, decimal(acc.cores as nat).len() as usize),
        max_core_length: wider(w.max_core_length, limit_text(acc.max_cores).len() as usize),
        node_length: wider(w.node_length, decimal(acc.nodes as nat).len() as usize),
        max_node_length: wider(w.max_node_length, limit_text(acc.max_nodes).len() as usize),
        gpu_length: wider(w.gpu_length, decimal(acc.gpus as nat).len() as usize),
        max_gpu_length: wider(w.max_gpu_length, limit_text(acc.max_gpus).len() as usize),
        job_length: wider(w.job_length, decimal(acc.jobs as nat).len() as usize),
        max_job_length: wider(w.max_job_length, limit_text(acc.max_jobs).len() as usize),
    }
}

/// The widths `w` widened to fit every row of `accs`.
pub open spec fn measured(w: AcctUsageWidths, accs: Seq<AccountJobUsage>) -> AcctUsageWidths
    decreases accs.len(),
{
    if accs.len() == 0 {
        w
    } else {
        widened(measured(w, accs.drop_last()), accs.last())
    }
}

fn wider_exec(a: usize, b: usize) -> (r: usize)
    ensures
        r == wider(a, b),
{
    if a >= b {
        a
    } else {
        b
    }
}

/// The number of characters `{}` writes for `n`.
fn decimal_len(n: u32) -> (len: usize)
    ensures
        len == decimal(n as nat).len(),
{
    let d = decimal_chars(n as u64);
    d.len()
}

/// How a limit is printed: its number, or `-` where there is none.
pub fn limit_str(limit: Option<u32>) -> (s: String)
    ensures
        s@ == limit_text(limit),
{
    match limit {
        Some(n) => {
            let d = decimal_chars(n as u64);
            string_of(&d)
        },
        None => {
            let dash = ['-'];
            let s = string_of(&dash);
            assert(s@ =~= seq!['-']);
            s
        },
    }
}

impl AcctUsageWidths {
    /// These widths, widened to fit every row of `accounts`.
    pub fn measure(self, accounts: &[AccountJobUsage]) -> (w: AcctUsageWidths)
        ensures
            w == measured(self, accounts@),
    {
        let mut w = self;
        let mut i: usize = 0;
        while i < accounts.len()
            invariant
                i <= accounts@.len(),
                w == measured(self, accounts@.take(i as int)),
            decreases accounts@.len() - i,
        {
            let acc = &accounts[i];
            assert(accounts@.take(i + 1).drop_last() =~= accounts@.take(i as int));
            let qos_len = match &acc.qos {
                Some(q) => text_len(q.as_str()),
                None => 0,
            };
            let max_cores = limit_str(acc.max_cores);
            let max_nodes = limit_str(acc.max_nodes);
            let max_gpus = limit_str(acc.max_gpus);
            let max_jobs = limit_str(acc.max_jobs);
            let max_cores_len = chars_of(max_cores.as_str()).len();
            let max_nodes_len = chars_of(max_nodes.as_str()).len();
            let max_gpus_len = chars_of(max_gpus.as_str()).len();
            let max_jobs_len = chars_of(max_jobs.as_str()).len();
            w = AcctUsageWidths {
                name_length: wider_exec(w.name_length, text_len(acc.account.as_str())),
                qos_length: wider_exec(w.qos_length, qos_len),
                core_length: wider_exec(w.core_length, decimal_len(acc.cores)),
                max_core_length: wider_exec(w.max_core_length, max_cores_len),
                node_length: wider_exec(w.node_length, decimal_len(acc.nodes)),
                max_node_length: wider_exec(w.max_node_length, max_nodes_len),
                gpu_length: wider_exec(w.gpu_length, decimal_len(acc.gpus)),
                max_gpu_length: wider_exec(w.max_gpu_length, max_gpus_len),
                job_length: wider_exec(w.job_length, decimal_len(acc.jobs)),
                max_job_length: wider_exec(w.max_job_length, max_jobs_len),
            };
            i = i + 1;
        }
        assert(accounts@.take(i as int) =~= accounts@);
        w
    }
}


/// The space between two columns.
pub const GAP: usize = 4;

/// An ASCII text takes a byte per character.
proof fn lemma_ascii_byte_len(s: &str)
    requires
        vstd::string::is_ascii(s),
    ensures
        byte_len(s@) == s@.len() as usize,
{
    vstd::utf8::is_ascii_chars_encode_utf8(s@);
}

/// One "used/limit" column: the widths of each half, and of the column as a whole.
#[derive(Debug, Clone, Copy)]
pub struct Column {
    pub used: usize,
    pub limit: usize,
    pub width: usize,
}

/// The width of a column whose halves take `used` and `limit` characters, with the slash
/// between them, under a header `header_len` long.
pub open spec fn column_width(used: usize, limit: usize, header_len: usize) -> usize {
    if used + 1 + limit >= header_len {
        (used + 1 + limit) as usize
    } else {
        header_len
    }
}

impl Column {
    pub fn new(used: usize, limit: usize, header: &str) -> (c: Column)
        requires
            used + 1 + limit <= usize::MAX,
        ensures
            c.used == used,
            c.limit == limit,
            c.width == column_width(used, limit, byte_len(header@)),
    {
        // the slash sits between the halves, and the header has to fit as well
        let width = wider_exec(used + 1 + limit, text_len(header));
        Column { used, limit, width }
    }
}

/// A report's columns, laid out once so that printing it and measuring it cannot disagree.
#[derive(Debug, Clone, Copy)]
pub struct Layout {
    pub name: usize,
    /// `None` when no row carries a QOS, in which case the column is left out entirely
    pub qos: Option<usize>,
    pub cores: Column,
    pub nodes: Column,
    pub gpus: Column,
    pub jobs: Column,
}

/// Whether each column's two halves and slash fit in a `usize`.
pub open spec fn columns_fit(w: AcctUsageWidths) -> bool {
    &&& w.core_length + 1 + w.max_core_length <= usize::MAX
    &&& w.node_length + 1 + w.max_node_length <= usize::MAX
    &&& w.gpu_length + 1 + w.max_gpu_length <= usize::MAX
    &&& w.job_length + 1 + w.max_job_length <= usize::MAX
}

/// The layout of a report with widths `w` whose first column is headed `title`. The
/// headers "QOS", "CORES", "NODES", "GPUS" and "JOBS" take 3, 5, 5, 4 and 4 characters.
pub open spec fn layout_of(w: AcctUsageWidths, title: Seq<char>) -> Layout {
    Layout {
        name: wider(w.name_length, byte_len(title)),
        qos: if w.qos_length > 0 {
            Some(wider(w.qos_length, 3))
        } else {
            None
        },
        cores: Column {
            used: w.core_length,
            limit: w.max_core_length,
            width: column_width(w.core_length, w.max_core_length, 5),
        },
        nodes: Column {
            used: w.node_length,
            limit: w.max_node_length,
            width: column_width(w.node_length, w.max_node_length, 5),
        },
        gpus: Column {
            used: w.gpu_length,
            limit: w.max_gpu_length,
            width: column_width(w.gpu_length, w.max_gpu_length, 4),
        },
        jobs: Column {
            used: w.job_length,
            limit: w.max_job_length,
            width: column_width(w.job_length, w.max_job_length, 4),
        },
    }
}

/// The printed width of a line of a report laid out as `l`: its columns with a gap
/// between each two.
pub open spec fn layout_width(l: Layout) -> int {
    l.name + match l.qos {
        Some(q) => GAP + q,
        None => 0,
    } + GAP + l.cores.width + GAP + l.nodes.width + GAP + l.gpus.width + GAP + l.jobs.width
}

/// The header line of a report laid out as `l`: the title and "QOS" left-aligned, the
/// numeric headers right-aligned over their columns.
pub open spec fn header_text(l: Layout, title: Seq<char>) -> Seq<char> {
    pad_right(title, l.name as nat) + match l.qos {
        Some(q) => spaces(GAP as nat) + pad_right("QOS"@, q as nat),
        None => Seq::empty(),
    } + spaces(GAP as nat) + pad_left("CORES"@, l.cores.width as nat) + spaces(GAP as nat)
        + pad_left("NODES"@, l.nodes.width as nat) + spaces(GAP as nat) + pad_left(
        "GPUS"@,
        l.gpus.width as nat,
    ) + spaces(GAP as nat) + pad_left("JOBS"@, l.jobs.width as nat)
}

/// The start of an account's row: its name, and its QOS (or `-`) where the report has
/// that column.
pub open spec fn row_label_text(l: Layout, acc: AccountJobUsage) -> Seq<char> {
    pad_right(acc.account@, l.name as nat) + match l.qos {
        Some(q) => spaces(GAP as nat) + pad_right(
            match acc.qos {
                Some(name) => name@,
                None => seq!['-'],
            },
            q as nat,
        ),
        None => Seq::empty(),
    }
}

/// A "used/limit" cell before it is padded: each half right-aligned in its width.
pub open spec fn usage_text(used: u32, limit: Option<u32>, used_width: usize, limit_width: usize) -> Seq<char> {
    pad_left(decimal(used as nat), used_width as nat) + seq!['/'] + pad_left(
        limit_text(limit),
        limit_width as nat,
    )
}

/// How full a cell is, which decides its color: idle cells stay plain, usage under no
/// limit is shown at the low end of the scale, usage that has reached its limit is shown
/// as over it, and other usage is placed on the scale by its fraction of the limit.
#[derive(Debug, Clone, Copy, PartialEq, Eq)]
pub enum UsageLevel {
    Idle,
    Unlimited,
    Over,
    Under { used: u32, limit: u32 },
}

pub open spec fn usage_level_of(used: u32, limit: Option<u32>) -> UsageLevel {
    if used == 0 {
        UsageLevel::Idle
    } else {
        match limit {
            None => UsageLevel::Unlimited,
            Some(l) => if used >= l {
                UsageLevel::Over
            } else {
                UsageLevel::Under { used, limit: l }
            },
        }
    }
}

/// How full a cell with `used` under `limit` is. A limit of zero permits nothing, so any
/// usage under it is over.
pub fn usage_level(used: u32, limit: Option<u32>) -> (l: UsageLevel)
    ensures
        l == usage_level_of(used, limit),
{
    if used == 0 {
        UsageLevel::Idle
    } else {
        match limit {
            None => UsageLevel::Unlimited,
            Some(l) => if used >= l {
                UsageLevel::Over
            } else {
                UsageLevel::Under { used, limit: l }
            },
        }
    }
}

/// A "used/limit" cell, and the spaces that pad it to `col_width` characters. The padding
/// is kept apart so that coloring the cell leaves it out.
pub fn usage_cell_text(used: u32, limit: Option<u32>, used_width: usize, limit_width: usize, col_width: usize) -> (r: (String, String))
    ensures
        r.0@ == usage_text(used, limit, used_width, limit_width),
        r.1@ == spaces(
            if r.0@.len() < col_width {
                (col_width - r.0@.len()) as nat
            } else {
                0
            },
        ),
{
    let d = decimal_chars(used as u64);
    let left = pad_left_chars(&d, used_width);
    let lim = limit_str(limit);
    let lim_chars = chars_of(lim.as_str());
    let right = pad_left_chars(&lim_chars, limit_width);
    let slash = ['/'];
    let a = concat(&left, &slash);
    let plain = concat(&a, &right);
    assert(plain@ =~= usage_text(used, limit, used_width, limit_width));
    let fill = if plain.len() < col_width {
        col_width - plain.len()
    } else {
        0
    };
    let pad = spaces_chars(fill);
    (string_of(&plain), string_of(&pad))
}

impl Layout {
    pub fn new(widths: &AcctUsageWidths, label_title: &str) -> (l: Layout)
        requires
            columns_fit(*widths),
        ensures
            l == layout_of(*widths, label_title@),
    {
        proof {
            reveal_strlit("QOS");
            reveal_strlit("CORES");
            reveal_strlit("NODES");
            reveal_strlit("GPUS");
            reveal_strlit("JOBS");
            lemma_ascii_byte_len("CORES");
            lemma_ascii_byte_len("NODES");
            lemma_ascii_byte_len("GPUS");
            lemma_ascii_byte_len("JOBS");
            lemma_ascii_byte_len("QOS");
        }
        let qos = if widths.qos_length > 0 {
            Some(wider_exec(widths.qos_length, text_len("QOS")))
        } else {
            None
        };
        Layout {
            // the title has to fit too, and every report sharing these widths is given the
            // same one, so they stay aligned
            name: wider_exec(widths.name_length, text_len(label_title)),
            qos,
            cores: Column::new(widths.core_length, widths.max_core_length, "CORES"),
            nodes: Column::new(widths.node_length, widths.max_node_length, "NODES"),
            gpus: Column::new(widths.gpu_length, widths.max_gpu_length, "GPUS"),
            jobs: Column::new(widths.job_length, widths.max_job_length, "JOBS"),
        }
    }

    /// The printed width of a line, which callers use to lay out headings over the report.
    pub fn width(&self) -> (w: usize)
        requires
            layout_width(*self) <= usize::MAX,
        ensures
            w == layout_width(*self),
    {
        let qos = match self.qos {
            Some(q) => GAP + q,
            None => 0,
        };
        self.name + qos + GAP + self.cores.width + GAP + self.nodes.width + GAP + self.gpus.width
            + GAP + self.jobs.width
    }

    /// The header line, the first column headed `label_title`.
    pub fn header(&self, label_title: &str) -> (s: String)
        ensures
            s@ == header_text(*self, label_title@),
    {
        let gap = spaces_chars(GAP);
        let title = chars_of(label_title);
        let mut line = pad_right_chars(&title, self.name);
        match self.qos {
            Some(q) => {
                let h = chars_of("QOS");
                let cell = pad_right_chars(&h, q);
                let with_gap = concat(&line, &gap);
                line = concat(&with_gap, &cell);
            },
            None => {},
        }
        let ghost front = line@;
        let cores_h = chars_of("CORES");
        let nodes_h = chars_of("NODES");
        let gpus_h = chars_of("GPUS");
        let jobs_h = chars_of("JOBS");
        let c1 = pad_left_chars(&cores_h, self.cores.width);
        let c2 = pad_left_chars(&nodes_h, self.nodes.width);
        let c3 = pad_left_chars(&gpus_h, self.gpus.width);
        let c4 = pad_left_chars(&jobs_h, self.jobs.width);
        let l1 = concat(&line, &gap);
        let l2 = concat(&l1, &c1);
        let l3 = concat(&l2, &gap);
        let l4 = concat(&l3, &c2);
        let l5 = concat(&l4, &gap);
        let l6 = concat(&l5, &c3);
        let l7 = concat(&l6, &gap);
        let l8 = concat(&l7, &c4);
        assert(l8@ =~= header_text(*self, label_title@));
        string_of(&l8)
    }

    /// The start of `acc`'s row: its name, and its QOS where the report has that column.
    pub fn row_label(&self, acc: &AccountJobUsage) -> (s: String)
        ensures
            s@ == row_label_text(*self, *acc),
    {
        let name = chars_of(acc.account.as_str());
        let mut line = pad_right_chars(&name, self.name);
        match self.qos {
            Some(q) => {
                let gap = spaces_chars(GAP);
                let qos = match &acc.qos {
                    Some(n) => chars_of(n.as_str()),
                    None => {
                        let dash = ['-'];
                        let v = concat(&dash, &[]);
                        assert(v@ =~= seq!['-']);
                        v
                    },
                };
                let cell = pad_right_chars(&qos, q);
                let with_gap = concat(&line, &gap);
                line = concat(&with_gap, &cell);
            },
            None => {},
        }
        assert(line@ =~= row_label_text(*self, *acc));
        string_of(&line)
    }
}

impl AcctUsageWidths {
    /// The printed width of a report with these widths, for laying out a heading over it.
    pub fn table_width(&self, label_title: &str) -> (w: usize)
        requires
            columns_fit(*self),
            layout_width(layout_of(*self, label_title@)) <= usize::MAX,
        ensures
            w == layout_width(layout_of(*self, label_title@)),
    {
        Layout::new(self, label_title).width()
    }
}
/// Whether every width of `x` is at most that of `y`.
pub open spec fn widths_le(x: AcctUsageWidths, y: AcctUsageWidths) -> bool {
    &&& x.name_length <= y.name_length
    &&& x.qos_length <= y.qos_length
    &&& x.core_length <= y.core_length
    &&& x.max_core_length <= y.max_core_length
    &&& x.node_length <= y.node_length
    &&& x.max_node_length <= y.max_node_length
    &&& x.gpu_length <= y.gpu_length
    &&& x.max_gpu_length <= y.max_gpu_length
    &&& x.job_length <= y.job_length
    &&& x.max_job_length <= y.max_job_length
}

/// Whether the widths `w` already fit the row `acc`: widening them for it changes nothing.
pub open spec fn row_fits(w: AcctUsageWidths, acc: AccountJobUsage) -> bool {
    widened(w, acc) == w
}

proof fn lemma_widened_grows(w: AcctUsageWidths, acc: AccountJobUsage)
    ensures
        widths_le(w, widened(w, acc)),
        row_fits(widened(w, acc), acc),
{
}

proof fn lemma_fits_wider(x: AcctUsageWidths, y: AcctUsageWidths, acc: AccountJobUsage)
    requires
        row_fits(x, acc),
        widths_le(x, y),
    ensures
        row_fits(y, acc),
{
}

proof fn lemma_measured_grows(w: AcctUsageWidths, accs: Seq<AccountJobUsage>)
    ensures
        widths_le(w, measured(w, accs)),
        forall|k: int| 0 <= k < accs.len() ==> row_fits(measured(w, accs), #[trigger] accs[k]),
    decreases accs.len(),
{
    if accs.len() > 0 {
        let init = accs.drop_last();
        lemma_measured_grows(w, init);
        let m0 = measured(w, init);
        lemma_widened_grows(m0, accs.last());
        assert forall|k: int| 0 <= k < accs.len() implies row_fits(measured(w, accs), #[trigger] accs[k]) by {
            if k < accs.len() - 1 {
                assert(accs[k] == init[k]);
                lemma_fits_wider(m0, measured(w, accs), accs[k]);
            }
        }
    }
}

/// Widths measured over one table and then another fit every row of both, so that the
/// two tables, printed with them, line up column for column.
pub proof fn lemma_shared_widths_fit(w: AcctUsageWidths, a: Seq<AccountJobUsage>, b: Seq<AccountJobUsage>)
    ensures
        forall|k: int| 0 <= k < a.len() ==> row_fits(measured(measured(w, a), b), #[trigger] a[k]),
        forall|k: int| 0 <= k < b.len() ==> row_fits(measured(measured(w, a), b), #[trigger] b[k]),
{
    lemma_measured_grows(w, a);
    lemma_measured_grows(measured(w, a), b);
    assert forall|k: int| 0 <= k < a.len() implies row_fits(measured(measured(w, a), b), #[trigger] a[k]) by {
        lemma_fits_wider(measured(w, a), measured(measured(w, a), b), a[k]);
    }
}

} // verus!
