//! The limits report: for each partition a user may submit to, what the user, and the
//! account the user belongs to, are running there, against the limits of the partition's QOS.
use vstd::prelude::*;
use crate::accounts::AccountJobUsage;
use crate::db::{opt_text, tres_max_of, PartitionLimits, TresMax};
use crate::jobs::{
    cpu_total, gres_total, job_gres, job_gres_exec, kept_jobs, lemma_gres_nonneg,
    lemma_totals_nonneg, node_total, FilterMethod, Job, SlurmJobs,
};
use crate::nodes::Node;
use std::collections::HashMap;
use crate::order::{name_index_le, named_view, sort_named};
use crate::states::JobState;
use crate::text::{byte_len, chars_eq, chars_of, split_on, string_of, text_len};

verus! {

/// Whether `job` counts in the row of partition `partition` for `who`: it is running
/// there, and `who` is its account (in the center table) or its user.
pub open spec fn counts_for(job: Job, partition: Seq<char>, who: Seq<char>, center: bool) -> bool {
    &&& job.job_state == JobState::Running
    &&& job.partition@ == partition
    &&& if center {
        job.account@ == who
    } else {
        job.user_name@ == who
    }
}

/// The jobs of `jobs` that count in that row, in order.
pub open spec fn counted_jobs(jobs: Seq<Job>, partition: Seq<char>, who: Seq<char>, center: bool) -> Seq<Job>
    decreases jobs.len(),
{
    if jobs.len() == 0 {
        Seq::empty()
    } else {
        let init = counted_jobs(jobs.drop_last(), partition, who, center);
        if counts_for(jobs.last(), partition, who, center) {
            init.push(jobs.last())
        } else {
            init
        }
    }
}

/// Whether the nodes, cores and GPUs of the jobs counted in a row each sum to a `u32`.
pub open spec fn tally_fits(jobs: Seq<Job>, partition: Seq<char>, who: Seq<char>, center: bool) -> bool {
    let c = counted_jobs(jobs, partition, who, center);
    &&& node_total(c) <= u32::MAX
    &&& cpu_total(c) <= u32::MAX
    &&& gres_total(c) <= u32::MAX
}

/// The totals over the jobs counted among a prefix of the jobs are at most those over all.
proof fn lemma_counted_prefix(jobs: Seq<Job>, partition: Seq<char>, who: Seq<char>, center: bool, i: int)
    requires
        0 <= i <= jobs.len(),
    ensures
        node_total(counted_jobs(jobs.take(i), partition, who, center)) <= node_total(
            counted_jobs(jobs, partition, who, center),
        ),
        cpu_total(counted_jobs(jobs.take(i), partition, who, center)) <= cpu_total(
            counted_jobs(jobs, partition, who, center),
        ),
        gres_total(counted_jobs(jobs.take(i), partition, who, center)) <= gres_total(
            counted_jobs(jobs, partition, who, center),
        ),
        counted_jobs(jobs.take(i), partition, who, center).len() <= i,
    decreases jobs.len(),
{
    if i < jobs.len() {
        assert(jobs.drop_last().take(i) =~= jobs.take(i));
        lemma_counted_prefix(jobs.drop_last(), partition, who, center, i);
        let c = counted_jobs(jobs.drop_last(), partition, who, center);
        lemma_totals_nonneg(c);
        if counts_for(jobs.last(), partition, who, center) {
            assert(c.push(jobs.last()).drop_last() =~= c);
            match jobs.last().gres_total {
                Some(g) => lemma_gres_nonneg(split_on(g@, seq![':'])),
                None => {},
            }
        }
    } else {
        assert(jobs.take(i) =~= jobs);
        lemma_count_len(jobs, partition, who, center);
    }
}

proof fn lemma_count_len(jobs: Seq<Job>, partition: Seq<char>, who: Seq<char>, center: bool)
    ensures
        counted_jobs(jobs, partition, who, center).len() <= jobs.len(),
    decreases jobs.len(),
{
    if jobs.len() > 0 {
        lemma_count_len(jobs.drop_last(), partition, who, center);
    }
}

/// What the jobs counted in a row hold: (nodes, cores, GPUs, jobs).
pub open spec fn tally_of(jobs: Seq<Job>, partition: Seq<char>, who: Seq<char>, center: bool) -> (u32, u32, u32, u32) {
    let c = counted_jobs(jobs, partition, who, center);
    (node_total(c) as u32, cpu_total(c) as u32, gres_total(c) as u32, c.len() as u32)
}

/// Sums what the jobs counted in a row hold (see `tally_of`); the job count is truncated to
/// a `u32`, as a cast of the number of jobs would.
fn tally(jobs: &[Job], partition: &[char], who: &[char], center: bool) -> (t: (u32, u32, u32, u32))
    requires
        tally_fits(jobs@, partition@, who@, center),
    ensures
        t == tally_of(jobs@, partition@, who@, center),
{
    let ghost all = jobs@;
    let mut nodes: u32 = 0;
    let mut cores: u32 = 0;
    let mut gpus: u32 = 0;
    let mut count: usize = 0;
    let mut i: usize = 0;
    while i < jobs.len()
        invariant
            i <= all.len(),
            all == jobs@,
            tally_fits(all, partition@, who@, center),
            nodes == node_total(counted_jobs(all.take(i as int), partition@, who@, center)),
            cores == cpu_total(counted_jobs(all.take(i as int), partition@, who@, center)),
            gpus == gres_total(counted_jobs(all.take(i as int), partition@, who@, center)),
            count == counted_jobs(all.take(i as int), partition@, who@, center).len(),
        decreases all.len() - i,
    {
        let job = &jobs[i];
        assert(all.take(i + 1).drop_last() =~= all.take(i as int));
        assert(all.take(i + 1).last() == all[i as int]);
        proof {
            lemma_counted_prefix(all, partition@, who@, center, i + 1);
        }
        let p = chars_of(job.partition.as_str());
        let w = if center {
            chars_of(job.account.as_str())
        } else {
            chars_of(job.user_name.as_str())
        };
        let ghost c = counted_jobs(all.take(i as int), partition@, who@, center);
        if job.job_state.is_running() && chars_eq(&p, partition) && chars_eq(&w, who) {
            proof {
                assert(counts_for(all[i as int], partition@, who@, center));
                assert(counted_jobs(all.take(i + 1), partition@, who@, center) == c.push(all[i as int]));
                assert(c.push(all[i as int]).drop_last() =~= c);
                lemma_totals_nonneg(counted_jobs(all.take(i as int), partition@, who@, center));
                match all[i as int].gres_total {
                    Some(g) => lemma_gres_nonneg(split_on(g@, seq![':'])),
                    None => {},
                }
            }
            let g = job_gres_exec(job);
            nodes = nodes + job.num_nodes;
            cores = cores + job.num_cpus;
            gpus = gpus + g as u32;
            count = count + 1;
        } else {
            assert(!counts_for(all[i as int], partition@, who@, center));
        }
        i = i + 1;
    }
    assert(all.take(i as int) =~= all);
    (nodes, cores, gpus, count as u32)
}

/// A text that may be missing, read as empty where it is.
pub open spec fn text_or_empty(o: Option<String>) -> Seq<char> {
    match o {
        Some(s) => s@,
        None => Seq::empty(),
    }
}

/// The TRES limits of a row: the per-user ones, or in the center table the per-group ones.
pub open spec fn row_limits(limits: PartitionLimits, center: bool) -> TresMax {
    if center {
        tres_max_of(text_or_empty(limits.max_tres_per_group))
    } else {
        tres_max_of(text_or_empty(limits.max_tres_per_user))
    }
}

/// What the QOS column of a row holds: nothing unless every row is shown, and then the
/// partition's QOS, or `-` where it has none.
pub open spec fn qos_label(qos: Option<String>, show_all: bool) -> Option<Seq<char>> {
    if show_all {
        Some(
            match qos {
                Some(q) => q@,
                None => "-"@,
            },
        )
    } else {
        None
    }
}

/// Whether `row` is the row of partition `limits` for `who`: the user `who` in the user
/// table, the account `who` in the center table. The center has no job-count limit, that
/// being a per-user one.
pub open spec fn row_ok(
    row: AccountJobUsage,
    limits: PartitionLimits,
    jobs: Seq<Job>,
    who: Seq<char>,
    center: bool,
    show_all: bool,
) -> bool {
    let t = tally_of(jobs, limits.partition@, who, center);
    let max = row_limits(limits, center);
    &&& row.account@ == limits.partition@
    &&& opt_text(row.qos) == qos_label(limits.qos, show_all)
    &&& row.nodes == t.0
    &&& row.cores == t.1
    &&& row.gpus == t.2
    &&& row.jobs == t.3
    &&& row.max_nodes == max.max_nodes
    &&& row.max_cores == max.max_cores
    &&& row.max_gpus == max.max_gpus
    &&& row.max_jobs == (if center {
        None
    } else {
        limits.max_jobs_per_user
    })
}

/// The partitions whose user rows are shown even when they hold nothing and set no limit.
pub open spec fn always_shown(partition: Seq<char>) -> bool {
    partition == "preempt"@ || partition == "gpupreempt"@
}

/// Whether the row of partition `limits` is shown. With `show_all` every row is; otherwise
/// a center row where the partition sets a group limit, and a user row where the user runs
/// something there, where a limit applies, or where the partition is always shown.
pub open spec fn row_shown(limits: PartitionLimits, jobs: Seq<Job>, who: Seq<char>, center: bool, show_all: bool) -> bool {
    let t = tally_of(jobs, limits.partition@, who, center);
    let max = row_limits(limits, center);
    let group_limit = max.max_nodes is Some || max.max_cores is Some || max.max_gpus is Some;
    if show_all {
        true
    } else if center {
        group_limit
    } else {
        ||| always_shown(limits.partition@)
        ||| t.0 != 0 || t.1 != 0 || t.2 != 0 || t.3 != 0
        ||| group_limit
        ||| limits.max_jobs_per_user is Some
    }
}

/// The shown rows, as (partition name, position) pairs in partition order.
pub open spec fn shown_rows(
    ps: Seq<PartitionLimits>,
    jobs: Seq<Job>,
    who: Seq<char>,
    center: bool,
    show_all: bool,
) -> Seq<(Seq<char>, usize)>
    decreases ps.len(),
{
    if ps.len() == 0 {
        Seq::empty()
    } else {
        let init = shown_rows(ps.drop_last(), jobs, who, center, show_all);
        if row_shown(ps.last(), jobs, who, center, show_all) {
            init.push((ps.last().partition@, (ps.len() - 1) as usize))
        } else {
            init
        }
    }
}

/// The order a table's rows come in: the shown rows sorted by partition name, a stable
/// sort.
pub open spec fn table_order(
    ps: Seq<PartitionLimits>,
    jobs: Seq<Job>,
    who: Seq<char>,
    center: bool,
    show_all: bool,
) -> Seq<(Seq<char>, usize)> {
    shown_rows(ps, jobs, who, center, show_all).sort_by(name_index_le())
}

/// Every shown row names a position of `ps` whose row is shown, and that partition's name.
pub proof fn lemma_shown_rows(ps: Seq<PartitionLimits>, jobs: Seq<Job>, who: Seq<char>, center: bool, show_all: bool)
    requires
        ps.len() <= usize::MAX,
    ensures
        forall|m: int|
            0 <= m < shown_rows(ps, jobs, who, center, show_all).len() ==> {
                let e = #[trigger] shown_rows(ps, jobs, who, center, show_all)[m];
                &&& e.1 < ps.len()
                &&& e.0 == ps[e.1 as int].partition@
                &&& row_shown(ps[e.1 as int], jobs, who, center, show_all)
            },
    decreases ps.len(),
{
    if ps.len() > 0 {
        lemma_shown_rows(ps.drop_last(), jobs, who, center, show_all);
        let init = shown_rows(ps.drop_last(), jobs, who, center, show_all);
        let all = shown_rows(ps, jobs, who, center, show_all);
        assert forall|m: int| 0 <= m < all.len() implies {
            let e = #[trigger] all[m];
            &&& e.1 < ps.len()
            &&& e.0 == ps[e.1 as int].partition@
            &&& row_shown(ps[e.1 as int], jobs, who, center, show_all)
        } by {
            if m < init.len() {
                assert(all[m] == init[m]);
                assert(ps.drop_last()[init[m].1 as int] == ps[init[m].1 as int]);
            } else {
                assert(all[m].1 == ps.len() - 1);
            }
        }
    }
}

/// The row of partition `limits` from its tally (see `row_ok`).
fn row_of(limits: &PartitionLimits, t: (u32, u32, u32, u32), center: bool, show_all: bool) -> (row: AccountJobUsage)
    ensures
        row.account@ == limits.partition@,
        opt_text(row.qos) == qos_label(limits.qos, show_all),
        row.nodes == t.0,
        row.cores == t.1,
        row.gpus == t.2,
        row.jobs == t.3,
        row.max_nodes == row_limits(*limits, center).max_nodes,
        row.max_cores == row_limits(*limits, center).max_cores,
        row.max_gpus == row_limits(*limits, center).max_gpus,
        row.max_jobs == (if center {
            None
        } else {
            limits.max_jobs_per_user
        }),
{
    let max = limits_of(limits, center);
    let qos = if show_all {
        match &limits.qos {
            Some(q) => Some(string_of(&chars_of(q.as_str()))),
            None => Some(string_of(&chars_of("-"))),
        }
    } else {
        None
    };
    let account = string_of(&chars_of(limits.partition.as_str()));
    AccountJobUsage {
        account,
        qos,
        cores: t.1,
        nodes: t.0,
        gpus: t.2,
        jobs: t.3,
        max_cores: max.max_cores,
        max_nodes: max.max_nodes,
        max_gpus: max.max_gpus,
        max_jobs: if center {
            None
        } else {
            limits.max_jobs_per_user
        },
    }
}

/// Whether the `j`th of `rows` is the row of the partition that `order` names at that place.
pub open spec fn row_at_ok(
    rows: Seq<AccountJobUsage>,
    order: Seq<(Seq<char>, usize)>,
    ps: Seq<PartitionLimits>,
    jobs: Seq<Job>,
    who: Seq<char>,
    center: bool,
    show_all: bool,
    j: int,
) -> bool {
    &&& order[j].1 < ps.len()
    &&& row_ok(rows[j], ps[order[j].1 as int], jobs, who, center, show_all)
}

/// Whether each of `rows` is the row of the partition that `order` names at its place.
pub open spec fn rows_ok(
    rows: Seq<AccountJobUsage>,
    order: Seq<(Seq<char>, usize)>,
    ps: Seq<PartitionLimits>,
    jobs: Seq<Job>,
    who: Seq<char>,
    center: bool,
    show_all: bool,
) -> bool {
    forall|j: int| 0 <= j < rows.len() ==> #[trigger] row_at_ok(rows, order, ps, jobs, who, center, show_all, j)
}

proof fn lemma_rows_ok_push(
    rows: Seq<AccountJobUsage>,
    row: AccountJobUsage,
    order: Seq<(Seq<char>, usize)>,
    ps: Seq<PartitionLimits>,
    jobs: Seq<Job>,
    who: Seq<char>,
    center: bool,
    show_all: bool,
)
    requires
        rows_ok(rows, order, ps, jobs, who, center, show_all),
        order[rows.len() as int].1 < ps.len(),
        row_ok(row, ps[order[rows.len() as int].1 as int], jobs, who, center, show_all),
    ensures
        rows_ok(rows.push(row), order, ps, jobs, who, center, show_all),
{
    let r = rows.push(row);
    assert forall|j: int| 0 <= j < r.len() implies #[trigger] row_at_ok(r, order, ps, jobs, who, center, show_all, j) by {
        if j < rows.len() {
            assert(r[j] == rows[j]);
            assert(row_at_ok(rows, order, ps, jobs, who, center, show_all, j));
        }
    }
}

/// The TRES limits of a row (see `row_limits`).
fn limits_of(limits: &PartitionLimits, center: bool) -> (max: TresMax)
    ensures
        max == row_limits(*limits, center),
{
    let tres = if center {
        &limits.max_tres_per_group
    } else {
        &limits.max_tres_per_user
    };
    let text = match tres {
        Some(s) => string_of(&chars_of(s.as_str())),
        None => string_of(&chars_of("")),
    };
    proof {
        reveal_strlit("");
    }
    TresMax::new(text)
}

fn always_shown_exec(partition: &[char]) -> (r: bool)
    ensures
        r == always_shown(partition@),
{
    let preempt = chars_of("preempt");
    let gpupreempt = chars_of("gpupreempt");
    chars_eq(partition, &preempt) || chars_eq(partition, &gpupreempt)
}

/// One table of the limits report: the shown rows (see `row_shown`) of the partitions
/// `partitions`, for the user `who`, or in the center table for the account `who`, in
/// partition name order (see `table_order`).
pub fn limit_table(
    partitions: &[PartitionLimits],
    jobs: &[Job],
    who: &str,
    center: bool,
    show_all: bool,
) -> (rows: Vec<AccountJobUsage>)
    requires
        forall|i: int|
            0 <= i < partitions@.len() ==> tally_fits(jobs@, #[trigger] partitions@[i].partition@, who@, center),
    ensures
        rows@.len() == table_order(partitions@, jobs@, who@, center, show_all).len(),
        rows_ok(rows@, table_order(partitions@, jobs@, who@, center, show_all), partitions@, jobs@, who@, center, show_all),
{
    let ghost ps = partitions@;
    let whos = chars_of(who);
    let mut tallies: Vec<(u32, u32, u32, u32)> = Vec::new();
    let mut keys: Vec<(Vec<char>, usize)> = Vec::new();
    let mut i: usize = 0;
    while i < partitions.len()
        invariant
            i <= ps.len(),
            ps == partitions@,
            whos@ == who@,
            forall|j: int| 0 <= j < ps.len() ==> tally_fits(jobs@, #[trigger] ps[j].partition@, who@, center),
            tallies@.len() == i,
            forall|j: int|
                0 <= j < i ==> #[trigger] tallies@[j] == tally_of(jobs@, ps[j].partition@, who@, center),
            named_view(keys@) == shown_rows(ps.take(i as int), jobs@, who@, center, show_all),
        decreases ps.len() - i,
    {
        let p = chars_of(partitions[i].partition.as_str());
        let t = tally(jobs, &p, &whos, center);
        tallies.push(t);
        let max = limits_of(&partitions[i], center);
        let group_limit = max.max_nodes.is_some() || max.max_cores.is_some() || max.max_gpus.is_some();
        let shown = if show_all {
            true
        } else if center {
            group_limit
        } else {
            always_shown_exec(&p) || t.0 != 0 || t.1 != 0 || t.2 != 0 || t.3 != 0 || group_limit
                || partitions[i].max_jobs_per_user.is_some()
        };
        assert(ps.take(i + 1).drop_last() =~= ps.take(i as int));
        assert(ps.take(i + 1).last() == ps[i as int]);
        assert(shown == row_shown(ps[i as int], jobs@, who@, center, show_all));
        if shown {
            let ghost before = named_view(keys@);
            keys.push((p, i));
            assert(named_view(keys@) =~= before.push((ps[i as int].partition@, i)));
        }
        i = i + 1;
    }
    assert(ps.take(i as int) =~= ps);
    let ghost shown = shown_rows(ps, jobs@, who@, center, show_all);
    let sorted = sort_named(keys);
    let ghost srt = named_view(sorted@);
    proof {
        lemma_shown_rows(ps, jobs@, who@, center, show_all);
        crate::order::lemma_name_index_le_total_ordering();
        shown.lemma_sort_by_ensures(name_index_le());
        assert(srt.len() == shown.len()) by {
            broadcast use vstd::seq_lib::group_to_multiset_ensures;
            assert(srt.to_multiset().len() == shown.to_multiset().len());
        }
    }
    let mut rows: Vec<AccountJobUsage> = Vec::new();
    let mut k: usize = 0;
    while k < sorted.len()
        invariant
            k <= sorted@.len(),
            ps == partitions@,
            srt == named_view(sorted@),
            srt == shown.sort_by(name_index_le()),
            shown == shown_rows(ps, jobs@, who@, center, show_all),
            forall|x: (Seq<char>, usize)| !shown.contains(x) ==> !(#[trigger] srt.contains(x)),
            forall|m: int|
                0 <= m < shown.len() ==> {
                    let e = #[trigger] shown[m];
                    &&& e.1 < ps.len()
                    &&& e.0 == ps[e.1 as int].partition@
                },
            tallies@.len() == ps.len(),
            forall|j: int|
                0 <= j < ps.len() ==> #[trigger] tallies@[j] == tally_of(jobs@, ps[j].partition@, who@, center),
            rows@.len() == k,
            rows_ok(rows@, srt, ps, jobs@, who@, center, show_all),
        decreases sorted@.len() - k,
    {
        let idx = sorted[k].1;
        assert(srt[k as int] == (sorted@[k as int].0@, idx));
        assert(srt.contains(srt[k as int]));
        assert(idx < ps.len()) by {
            assert(shown.contains(srt[k as int]));
            let m = choose|m: int| 0 <= m < shown.len() && shown[m] == srt[k as int];
            assert(shown[m].1 < ps.len());
        }
        let row = row_of(&partitions[idx], tallies[idx], center, show_all);
        assert(tallies@[idx as int] == tally_of(jobs@, ps[idx as int].partition@, who@, center));
        assert(row_ok(row, ps[idx as int], jobs@, who@, center, show_all));
        let ghost before = rows@;
        rows.push(row);
        k = k + 1;
        proof {
            lemma_rows_ok_push(before, row, srt, ps, jobs@, who@, center, show_all);
        }
    }
    rows
}

/// The two tables of the limits report for the user `name` of account `user_acct`: what
/// the user runs in each partition against the per-user limits, and what the account runs
/// there against the per-group ones (see `limit_table`).
pub fn limit_tables(
    name: &str,
    user_acct: &str,
    partitions: &[PartitionLimits],
    jobs: &[Job],
    show_all: bool,
) -> (tables: (Vec<AccountJobUsage>, Vec<AccountJobUsage>))
    requires
        forall|i: int|
            0 <= i < partitions@.len() ==> tally_fits(jobs@, #[trigger] partitions@[i].partition@, name@, false),
        forall|i: int|
            0 <= i < partitions@.len() ==> tally_fits(jobs@, #[trigger] partitions@[i].partition@, user_acct@, true),
    ensures
        tables.0@.len() == table_order(partitions@, jobs@, name@, false, show_all).len(),
        rows_ok(tables.0@, table_order(partitions@, jobs@, name@, false, show_all), partitions@, jobs@, name@, false, show_all),
        tables.1@.len() == table_order(partitions@, jobs@, user_acct@, true, show_all).len(),
        rows_ok(tables.1@, table_order(partitions@, jobs@, user_acct@, true, show_all), partitions@, jobs@, user_acct@, true, show_all),
{
    let user_rows = limit_table(partitions, jobs, name, false, show_all);
    let center_rows = limit_table(partitions, jobs, user_acct, true, show_all);
    (user_rows, center_rows)
}

/// The widths of the two runs of `═` either side of a section heading: `title` with a space
/// either side, centred in a rule `table_width` wide, the left run the shorter by one where
/// they cannot be equal, and both empty where the heading is the wider.
pub fn heading_rules(title: &str, table_width: usize) -> (r: (usize, usize))
    requires
        byte_len(title@) + 2 <= usize::MAX,
    ensures
        ({
            let rule = if table_width >= byte_len(title@) + 2 {
                table_width - (byte_len(title@) + 2)
            } else {
                0
            };
            r.0 == rule / 2 && r.1 == rule - rule / 2
        }),
{
    let heading = text_len(title) + 2;
    let rule = if table_width >= heading {
        table_width - heading
    } else {
        0
    };
    let left = rule / 2;
    (left, rule - left)
}

/// Whether `job` is a running job of user `user`.
pub open spec fn runs_for(job: Job, user: Seq<char>) -> bool {
    job.job_state == JobState::Running && job.user_name@ == user
}

/// The running jobs of `user`, in order.
pub open spec fn user_jobs(jobs: Seq<Job>, user: Seq<char>) -> Seq<Job>
    decreases jobs.len(),
{
    if jobs.len() == 0 {
        Seq::empty()
    } else {
        let init = user_jobs(jobs.drop_last(), user);
        if runs_for(jobs.last(), user) {
            init.push(jobs.last())
        } else {
            init
        }
    }
}

/// Whether `user` has a running job.
pub open spec fn is_runner(jobs: Seq<Job>, user: Seq<char>) -> bool {
    exists|j: int| 0 <= j < jobs.len() && #[trigger] runs_for(jobs[j], user)
}

/// What `user`'s running jobs hold: (nodes, cores).
pub open spec fn user_score(jobs: Seq<Job>, user: Seq<char>) -> (int, int) {
    (node_total(user_jobs(jobs, user)), cpu_total(user_jobs(jobs, user)))
}

/// Whether score `a` is no more than `b`: fewer nodes, or as many and no more cores.
pub open spec fn score_le(a: (int, int), b: (int, int)) -> bool {
    a.0 < b.0 || (a.0 == b.0 && a.1 <= b.1)
}

/// Whether `rows` is the leaderboard of the `top_n` users with the most running: each a
/// user with a running job, with that user's nodes and cores, each once, from the most to
/// the least; and every user left out has no more than the last shown, there being
/// `top_n` rows. Users with equal scores may come in either order.
pub open spec fn board_ok(rows: Seq<(Seq<char>, u32, u32)>, jobs: Seq<Job>, top_n: nat) -> bool {
    &&& rows.len() <= top_n
    &&& forall|i: int|
        0 <= i < rows.len() ==> {
            &&& is_runner(jobs, (#[trigger] rows[i]).0)
            &&& rows[i].1 == user_score(jobs, rows[i].0).0
            &&& rows[i].2 == user_score(jobs, rows[i].0).1
        }
    &&& forall|i: int, j: int|
        0 <= i < j < rows.len() ==> (#[trigger] rows[i]).0 != (#[trigger] rows[j]).0 && score_le(
            (rows[j].1 as int, rows[j].2 as int),
            (rows[i].1 as int, rows[i].2 as int),
        )
    &&& forall|u: Seq<char>|
        #[trigger] is_runner(jobs, u) && (forall|i: int| 0 <= i < rows.len() ==> rows[i].0 != u) ==> {
            &&& rows.len() == top_n
            &&& rows.len() > 0 ==> score_le(
                user_score(jobs, u),
                (rows.last().1 as int, rows.last().2 as int),
            )
        }
}

/// Whether every user's running jobs hold a `u32` of nodes and of cores.
pub open spec fn scores_fit(jobs: Seq<Job>) -> bool {
    forall|u: Seq<char>| #![auto] user_score(jobs, u).0 <= u32::MAX && user_score(jobs, u).1 <= u32::MAX
}

proof fn lemma_user_jobs_prefix(jobs: Seq<Job>, u: Seq<char>, i: int)
    requires
        0 <= i <= jobs.len(),
    ensures
        node_total(user_jobs(jobs.take(i), u)) <= node_total(user_jobs(jobs, u)),
        cpu_total(user_jobs(jobs.take(i), u)) <= cpu_total(user_jobs(jobs, u)),
    decreases jobs.len(),
{
    if i < jobs.len() {
        assert(jobs.drop_last().take(i) =~= jobs.take(i));
        lemma_user_jobs_prefix(jobs.drop_last(), u, i);
        let c = user_jobs(jobs.drop_last(), u);
        if runs_for(jobs.last(), u) {
            assert(c.push(jobs.last()).drop_last() =~= c);
        }
    } else {
        assert(jobs.take(i) =~= jobs);
    }
}

/// Whether `u` is among `names`.
pub open spec fn lists_user(names: Seq<Vec<char>>, u: Seq<char>) -> bool {
    exists|k: int| 0 <= k < names.len() && (#[trigger] names[k])@ == u
}

/// The running users of `jobs`, each once in the order first met, with their nodes and
/// cores.
fn user_totals(jobs: &[Job]) -> (r: (Vec<Vec<char>>, Vec<(u32, u32)>))
    requires
        scores_fit(jobs@),
    ensures
        r.0@.len() == r.1@.len(),
        forall|a: int, b: int| 0 <= a < b < r.0@.len() ==> (#[trigger] r.0@[a])@ != (#[trigger] r.0@[b])@,
        forall|k: int|
            0 <= k < r.0@.len() ==> {
                &&& is_runner(jobs@, (#[trigger] r.0@[k])@)
                &&& r.1@[k].0 == user_score(jobs@, r.0@[k]@).0
                &&& r.1@[k].1 == user_score(jobs@, r.0@[k]@).1
            },
        forall|u: Seq<char>| #[trigger] is_runner(jobs@, u) ==> lists_user(r.0@, u),
{
    let ghost all = jobs@;
    let mut names: Vec<Vec<char>> = Vec::new();
    let mut totals: Vec<(u32, u32)> = Vec::new();
    let mut i: usize = 0;
    while i < jobs.len()
        invariant
            i <= all.len(),
            all == jobs@,
            scores_fit(all),
            names@.len() == totals@.len(),
            forall|a: int, b: int| 0 <= a < b < names@.len() ==> (#[trigger] names@[a])@ != (#[trigger] names@[b])@,
            forall|k: int|
                0 <= k < names@.len() ==> {
                    &&& is_runner(all.take(i as int), (#[trigger] names@[k])@)
                    &&& totals@[k].0 == node_total(user_jobs(all.take(i as int), names@[k]@))
                    &&& totals@[k].1 == cpu_total(user_jobs(all.take(i as int), names@[k]@))
                },
            forall|u: Seq<char>|
                #[trigger] is_runner(all.take(i as int), u) ==> exists|k: int|
                    0 <= k < names@.len() && (#[trigger] names@[k])@ == u,
        decreases all.len() - i,
    {
        let ghost pre = all.take(i as int);
        let ghost post = all.take(i + 1);
        assert(post.drop_last() =~= pre);
        assert(post.last() == all[i as int]);
        assert forall|u: Seq<char>| #[trigger] is_runner(pre, u) implies is_runner(post, u) by {
            let j = choose|j: int| 0 <= j < pre.len() && #[trigger] runs_for(pre[j], u);
            assert(post[j] == pre[j]);
        }
        let job = &jobs[i];
        let ghost u = job.user_name@;
        if job.job_state.is_running() {
            let name = chars_of(job.user_name.as_str());
            let mut found: Option<usize> = None;
            let mut k: usize = 0;
            while k < names.len()
                invariant
                    k <= names@.len(),
                    name@ == u,
                    found matches Some(f) ==> f < names@.len() && names@[f as int]@ == u,
                    found is None ==> forall|m: int| 0 <= m < k ==> (#[trigger] names@[m])@ != u,
                decreases names@.len() - k,
            {
                if found.is_none() && chars_eq(&names[k], &name) {
                    found = Some(k);
                }
                k = k + 1;
            }
            proof {
                lemma_user_jobs_prefix(all, u, i + 1);
                assert(user_jobs(post, u) == user_jobs(pre, u).push(all[i as int]));
                assert(user_jobs(pre, u).push(all[i as int]).drop_last() =~= user_jobs(pre, u));
                assert(runs_for(post[i as int], u));
            }
            match found {
                Some(f) => {
                    let (n, c) = totals[f];
                    assert(names@[f as int]@ == u);
                    assert(n == node_total(user_jobs(pre, u)) && c == cpu_total(user_jobs(pre, u)));
                    assert(user_score(all, u).0 <= u32::MAX && user_score(all, u).1 <= u32::MAX);
                    assert(node_total(user_jobs(post, u)) == n + job.num_nodes);
                    assert(cpu_total(user_jobs(post, u)) == c + job.num_cpus);
                    let ghost before = totals@;
                    totals.set(f, (n + job.num_nodes, c + job.num_cpus));
                    assert forall|k2: int|
                        0 <= k2 < names@.len() implies {
                            &&& is_runner(post, (#[trigger] names@[k2])@)
                            &&& totals@[k2].0 == node_total(user_jobs(post, names@[k2]@))
                            &&& totals@[k2].1 == cpu_total(user_jobs(post, names@[k2]@))
                        } by {
                        if k2 != f {
                            assert(names@[k2]@ != u);
                            assert(!runs_for(all[i as int], names@[k2]@));
                            assert(user_jobs(post, names@[k2]@) == user_jobs(pre, names@[k2]@));
                            assert(totals@[k2] == before[k2]);
                        }
                    }
                    assert forall|v: Seq<char>| #[trigger] is_runner(post, v) implies exists|k2: int|
                        0 <= k2 < names@.len() && (#[trigger] names@[k2])@ == v by {
                        if v != u {
                            let j = choose|j: int| 0 <= j < post.len() && #[trigger] runs_for(post[j], v);
                            assert(j != i);
                            assert(pre[j] == post[j]);
                            assert(is_runner(pre, v));
                        } else {
                            assert(names@[f as int]@ == v);
                        }
                    }
                },
                None => {
                    let ghost before_names = names@;
                    let ghost before = totals@;
                    proof {
                        assert(user_jobs(pre, u).len() == 0) by {
                            lemma_user_jobs_empty(pre, u);
                        }
                    }
                    names.push(name);
                    totals.push((job.num_nodes, job.num_cpus));
                    assert forall|a: int, b: int| 0 <= a < b < names@.len() implies (#[trigger] names@[a])@
                        != (#[trigger] names@[b])@ by {
                        if b == names@.len() - 1 {
                            assert(before_names[a]@ != u);
                        } else {
                            assert(names@[a] == before_names[a] && names@[b] == before_names[b]);
                        }
                    }
                    assert forall|k2: int|
                        0 <= k2 < names@.len() implies {
                            &&& is_runner(post, (#[trigger] names@[k2])@)
                            &&& totals@[k2].0 == node_total(user_jobs(post, names@[k2]@))
                            &&& totals@[k2].1 == cpu_total(user_jobs(post, names@[k2]@))
                        } by {
                        if k2 < before_names.len() {
                            assert(names@[k2] == before_names[k2]);
                            assert(names@[k2]@ != u);
                            assert(!runs_for(all[i as int], names@[k2]@));
                            assert(user_jobs(post, names@[k2]@) == user_jobs(pre, names@[k2]@));
                            assert(totals@[k2] == before[k2]);
                        } else {
                            assert(names@[k2]@ == u);
                            assert(totals@[k2] == (all[i as int].num_nodes, all[i as int].num_cpus));
                            assert(runs_for(post[i as int], u));
                            assert(is_runner(post, u));
                            assert(user_jobs(pre, u).push(all[i as int]) =~= seq![all[i as int]]);
                            assert(seq![all[i as int]].drop_last() =~= Seq::<Job>::empty());
                            assert(user_jobs(post, u) == seq![all[i as int]]);
                            let ghost e = seq![all[i as int]];
                            assert(e.drop_last().len() == 0);
                            assert(node_total(e.drop_last()) == 0);
                            assert(cpu_total(e.drop_last()) == 0);
                            assert(e.last() == all[i as int]);
                            assert(node_total(e) == all[i as int].num_nodes);
                            assert(cpu_total(e) == all[i as int].num_cpus);
                        }
                    }
                    assert forall|v: Seq<char>| #[trigger] is_runner(post, v) implies exists|k2: int|
                        0 <= k2 < names@.len() && (#[trigger] names@[k2])@ == v by {
                        if v != u {
                            let j = choose|j: int| 0 <= j < post.len() && #[trigger] runs_for(post[j], v);
                            assert(j != i);
                            assert(pre[j] == post[j]);
                            assert(is_runner(pre, v));
                            let k3 = choose|k3: int| 0 <= k3 < before_names.len() && (#[trigger] before_names[k3])@ == v;
                            assert(names@[k3] == before_names[k3]);
                        } else {
                            assert(names@[names@.len() - 1]@ == v);
                        }
                    }
                },
            }
        } else {
            assert forall|v: Seq<char>| user_jobs(post, v) == user_jobs(pre, v) by {
                assert(!runs_for(all[i as int], v));
            }
            assert forall|v: Seq<char>| #[trigger] is_runner(post, v) implies is_runner(pre, v) by {
                let j = choose|j: int| 0 <= j < post.len() && #[trigger] runs_for(post[j], v);
                assert(j != i);
                assert(pre[j] == post[j]);
            }
        }
        i = i + 1;
    }
    assert(all.take(i as int) =~= all);
    assert forall|u: Seq<char>| #[trigger] is_runner(jobs@, u) implies lists_user(names@, u) by {
        assert(is_runner(all.take(i as int), u));
    }
    (names, totals)
}

proof fn lemma_user_jobs_empty(jobs: Seq<Job>, u: Seq<char>)
    requires
        !is_runner(jobs, u),
    ensures
        user_jobs(jobs, u).len() == 0,
    decreases jobs.len(),
{
    if jobs.len() > 0 {
        assert forall|j: int| 0 <= j < jobs.len() - 1 implies !runs_for(#[trigger] jobs.drop_last()[j], u) by {
            assert(jobs.drop_last()[j] == jobs[j]);
        }
        assert(!runs_for(jobs[jobs.len() - 1], u));
        lemma_user_jobs_empty(jobs.drop_last(), u);
    }
}

/// Whether `x` is among `s`.
pub open spec fn has_index(s: Seq<usize>, x: int) -> bool {
    exists|j: int| 0 <= j < s.len() && s[j] == x
}

pub open spec fn board_view(rows: Seq<(String, u32, u32)>) -> Seq<(Seq<char>, u32, u32)> {
    rows.map_values(|r: (String, u32, u32)| (r.0@, r.1, r.2))
}

pub open spec fn tot(t: (u32, u32)) -> (int, int) {
    (t.0 as int, t.1 as int)
}

/// The leaderboard of the `top_n` users with the most running, by nodes and then cores
/// (see `board_ok`).
pub fn leaderboard(jobs: &[Job], top_n: usize) -> (rows: Vec<(String, u32, u32)>)
    requires
        scores_fit(jobs@),
    ensures
        board_ok(board_view(rows@), jobs@, top_n as nat),
{
    let (names, totals) = user_totals(jobs);
    let m = names.len();
    let mut rest: Vec<usize> = Vec::new();
    let mut k: usize = 0;
    while k < m
        invariant
            k <= m,
            m == names@.len(),
            rest@.len() == k,
            forall|j: int| 0 <= j < k ==> rest@[j] == j,
        decreases m - k,
    {
        rest.push(k);
        k = k + 1;
    }
    let mut out: Vec<usize> = Vec::new();
    assert forall|x: int| 0 <= x < m implies #[trigger] has_index(out@, x) || has_index(rest@, x) by {
        assert(rest@[x] == x);
    }
    while out.len() < top_n && rest.len() > 0
        invariant
            m == names@.len(),
            m == totals@.len(),
            out@.len() <= top_n,
            forall|j: int| 0 <= j < rest@.len() ==> rest@[j] < m,
            forall|j: int| 0 <= j < out@.len() ==> out@[j] < m,
            forall|a: int, b: int| 0 <= a < b < rest@.len() ==> rest@[a] != rest@[b],
            forall|a: int, b: int| 0 <= a < b < out@.len() ==> out@[a] != out@[b],
            forall|a: int, b: int| 0 <= a < out@.len() && 0 <= b < rest@.len() ==> out@[a] != rest@[b],
            forall|x: int| 0 <= x < m ==> #[trigger] has_index(out@, x) || has_index(rest@, x),
            forall|a: int, b: int|
                0 <= a < b < out@.len() ==> score_le(tot(totals@[out@[b] as int]), tot(totals@[out@[a] as int])),
            out@.len() > 0 ==> forall|j: int|
                0 <= j < rest@.len() ==> score_le(
                    tot(totals@[rest@[j] as int]),
                    tot(totals@[out@[out@.len() - 1] as int]),
                ),
        decreases rest@.len(),
    {
        let mut bp: usize = 0;
        let mut q: usize = 1;
        while q < rest.len()
            invariant
                0 <= bp < q <= rest@.len(),
                m == totals@.len(),
                forall|j: int| 0 <= j < rest@.len() ==> rest@[j] < m,
                forall|j: int| 0 <= j < q ==> score_le(tot(totals@[rest@[j] as int]), tot(totals@[rest@[bp as int] as int])),
            decreases rest@.len() - q,
        {
            let a = totals[rest[q]];
            let b = totals[rest[bp]];
            if a.0 > b.0 || (a.0 == b.0 && a.1 > b.1) {
                bp = q;
            }
            q = q + 1;
        }
        let ghost old_rest = rest@;
        let ghost old_out = out@;
        let pick = rest.remove(bp);
        assert(pick == old_rest[bp as int]);
        assert(rest@ =~= old_rest.remove(bp as int));
        out.push(pick);
        assert(out@ =~= old_out.push(pick));
        assert forall|j: int| 0 <= j < rest@.len() implies rest@[j] == (if j < bp {
            old_rest[j]
        } else {
            old_rest[j + 1]
        }) by {}
        assert forall|x: int| 0 <= x < m implies #[trigger] has_index(out@, x) || has_index(rest@, x) by {
            assert(has_index(old_out, x) || has_index(old_rest, x));
            if has_index(old_out, x) {
                let j = choose|j: int| 0 <= j < old_out.len() && old_out[j] == x;
                assert(out@[j] == x);
            } else {
                let j = choose|j: int| 0 <= j < old_rest.len() && old_rest[j] == x;
                if j == bp {
                    assert(out@[old_out.len() as int] == x);
                } else if j < bp {
                    assert(rest@[j] == x);
                } else {
                    assert(rest@[j - 1] == x);
                }
            }
        }
        assert forall|a: int, b: int| 0 <= a < b < out@.len() implies out@[a] != out@[b] by {
            if b == old_out.len() {
                assert(out@[b] == old_rest[bp as int]);
            }
        }
        assert forall|a: int, b: int| 0 <= a < out@.len() && 0 <= b < rest@.len() implies out@[a] != rest@[b] by {
            if a == old_out.len() {
                if b < bp {
                    assert(rest@[b] == old_rest[b]);
                } else {
                    assert(rest@[b] == old_rest[b + 1]);
                }
            } else {
                if b < bp {
                    assert(rest@[b] == old_rest[b]);
                } else {
                    assert(rest@[b] == old_rest[b + 1]);
                }
            }
        }
        assert forall|a: int, b: int| 0 <= a < b < out@.len() implies score_le(
            tot(totals@[out@[b] as int]),
            tot(totals@[out@[a] as int]),
        ) by {
            if b == old_out.len() {
                assert(out@[b] == old_rest[bp as int]);
                if a < old_out.len() - 1 {
                    assert(score_le(
                        tot(totals@[old_out[old_out.len() - 1] as int]),
                        tot(totals@[old_out[a] as int]),
                    ));
                }
            }
        }
        assert forall|j: int| 0 <= j < rest@.len() implies score_le(
            tot(totals@[rest@[j] as int]),
            tot(totals@[out@[out@.len() - 1] as int]),
        ) by {
            if j < bp {
                assert(rest@[j] == old_rest[j]);
            } else {
                assert(rest@[j] == old_rest[j + 1]);
            }
        }
    }
    let mut rows: Vec<(String, u32, u32)> = Vec::new();
    let mut r: usize = 0;
    while r < out.len()
        invariant
            r <= out@.len(),
            m == names@.len(),
            m == totals@.len(),
            forall|j: int| 0 <= j < out@.len() ==> out@[j] < m,
            rows@.len() == r,
            forall|j: int|
                0 <= j < r ==> (#[trigger] board_view(rows@)[j]) == (
                    names@[out@[j] as int]@,
                    totals@[out@[j] as int].0,
                    totals@[out@[j] as int].1,
                ),
        decreases out@.len() - r,
    {
        let idx = out[r];
        let t = totals[idx];
        let ghost before = board_view(rows@);
        rows.push((string_of(&names[idx]), t.0, t.1));
        assert(board_view(rows@) =~= before.push((names@[idx as int]@, t.0, t.1)));
        r = r + 1;
    }
    let ghost bv = board_view(rows@);
    assert forall|u: Seq<char>| #[trigger] is_runner(jobs@, u) && (forall|i: int| 0 <= i < bv.len() ==> bv[i].0 != u) implies {
        &&& bv.len() == top_n
        &&& bv.len() > 0 ==> score_le(user_score(jobs@, u), (bv.last().1 as int, bv.last().2 as int))
    } by {
        assert(lists_user(names@, u));
        let x = choose|x: int| 0 <= x < names@.len() && (#[trigger] names@[x])@ == u;
        assert(has_index(out@, x) || has_index(rest@, x));
        if has_index(out@, x) {
            let j = choose|j: int| 0 <= j < out@.len() && out@[j] == x;
            assert(bv[j].0 == u);
        } else {
            let j = choose|j: int| 0 <= j < rest@.len() && rest@[j] == x;
            assert(rest@.len() > 0);
            if bv.len() > 0 {
                assert(bv.last() == bv[bv.len() - 1]);
            }
        }
    }
    assert forall|i: int, j: int| 0 <= i < j < bv.len() implies (#[trigger] bv[i]).0 != (#[trigger] bv[j]).0 && score_le(
        (bv[j].1 as int, bv[j].2 as int),
        (bv[i].1 as int, bv[i].2 as int),
    ) by {
        assert(bv[i] == (names@[out@[i] as int]@, totals@[out@[i] as int].0, totals@[out@[i] as int].1));
        assert(bv[j] == (names@[out@[j] as int]@, totals@[out@[j] as int].0, totals@[out@[j] as int].1));
        assert(out@[i] != out@[j]);
        if out@[i] < out@[j] {
            assert(names@[out@[i] as int]@ != names@[out@[j] as int]@);
        } else {
            assert(names@[out@[j] as int]@ != names@[out@[i] as int]@);
        }
        assert(score_le(tot(totals@[out@[j] as int]), tot(totals@[out@[i] as int])));
    }
    rows
}

/// Whether a node with `node_features` has any of `wanted`.
pub open spec fn has_any(node_features: Seq<Seq<char>>, wanted: Seq<Seq<char>>) -> bool {
    exists|k: int| 0 <= k < node_features.len() && wanted.contains(#[trigger] node_features[k])
}

/// The ids of the jobs on the nodes that have any of `wanted`, node by node, as the map from
/// node positions to job ids lists them.
pub open spec fn feature_ids(nodes: Seq<Node>, map: Map<usize, Vec<u32>>, wanted: Seq<Seq<char>>) -> Seq<u32>
    decreases nodes.len(),
{
    if nodes.len() == 0 {
        Seq::empty()
    } else {
        let init = feature_ids(nodes.drop_last(), map, wanted);
        let n = nodes.last();
        if has_any(n.features.deep_view(), wanted) && map.contains_key(n.id) {
            init + map[n.id]@
        } else {
            init
        }
    }
}

/// The jobs of `jobs` whose ids are among `ids`, in order.
pub open spec fn jobs_with_ids(jobs: Seq<Job>, ids: Seq<u32>) -> Seq<Job>
    decreases jobs.len(),
{
    if jobs.len() == 0 {
        Seq::empty()
    } else {
        let init = jobs_with_ids(jobs.drop_last(), ids);
        if ids.contains(jobs.last().job_id) {
            init.push(jobs.last())
        } else {
            init
        }
    }
}

proof fn lemma_kept_ids(jobs: Seq<Job>, v: Vec<u32>)
    ensures
        kept_jobs(jobs, FilterMethod::JobIds(v)) == jobs_with_ids(jobs, v@),
    decreases jobs.len(),
{
    if jobs.len() > 0 {
        lemma_kept_ids(jobs.drop_last(), v);
    }
}

fn has_any_exec(node_features: &Vec<String>, wanted: &[String]) -> (b: bool)
    ensures
        b == has_any(node_features.deep_view(), wanted.deep_view()),
{
    assert(node_features.deep_view().len() == node_features@.len());
    assert(wanted.deep_view().len() == wanted@.len());
    let mut k: usize = 0;
    while k < node_features.len()
        invariant
            k <= node_features@.len(),
            node_features.deep_view().len() == node_features@.len(),
            wanted.deep_view().len() == wanted@.len(),
            forall|j: int| 0 <= j < k ==> !wanted.deep_view().contains(#[trigger] node_features.deep_view()[j]),
        decreases node_features@.len() - k,
    {
        let f = chars_of(node_features[k].as_str());
        assert(node_features.deep_view()[k as int] == f@);
        let mut w: usize = 0;
        while w < wanted.len()
            invariant
                w <= wanted@.len(),
                k < node_features@.len(),
                node_features.deep_view().len() == node_features@.len(),
                wanted.deep_view().len() == wanted@.len(),
                f@ == node_features.deep_view()[k as int],
                forall|j: int| 0 <= j < w ==> wanted.deep_view()[j] != f@,
            decreases wanted@.len() - w,
        {
            let g = chars_of(wanted[w].as_str());
            if chars_eq(&f, &g) {
                assert(wanted.deep_view()[w as int] == g@);
                assert(wanted.deep_view().contains(node_features.deep_view()[k as int]));
                assert(has_any(node_features.deep_view(), wanted.deep_view()));
                return true;
            }
            w = w + 1;
        }
        k = k + 1;
    }
    false
}

/// The ids of the jobs on the nodes that have any of `features` (see `feature_ids`).
pub fn feature_job_ids(nodes: &[Node], node_to_job_map: &HashMap<usize, Vec<u32>>, features: &[String]) -> (ids: Vec<u32>)
    ensures
        ids@ == feature_ids(nodes@, node_to_job_map@, features.deep_view()),
{
    broadcast use vstd::std_specs::hash::group_hash_axioms;
    let mut ids: Vec<u32> = Vec::new();
    let mut i: usize = 0;
    while i < nodes.len()
        invariant
            i <= nodes@.len(),
            ids@ == feature_ids(nodes@.take(i as int), node_to_job_map@, features.deep_view()),
        decreases nodes@.len() - i,
    {
        assert(nodes@.take(i + 1).drop_last() =~= nodes@.take(i as int));
        assert(nodes@.take(i + 1).last() == nodes@[i as int]);
        let node = &nodes[i];
        if has_any_exec(&node.features, features) {
            match node_to_job_map.get(&node.id) {
                Some(on) => {
                    let ghost before = ids@;
                    let mut q: usize = 0;
                    while q < on.len()
                        invariant
                            q <= on@.len(),
                            ids@ == before + on@.take(q as int),
                        decreases on@.len() - q,
                    {
                        ids.push(on[q]);
                        assert(on@.take(q + 1) =~= on@.take(q as int).push(on@[q as int]));
                        assert(ids@ =~= before + on@.take(q + 1));
                        q = q + 1;
                    }
                    assert(on@.take(q as int) =~= on@);
                },
                None => {},
            }
        }
        i = i + 1;
    }
    assert(nodes@.take(i as int) =~= nodes@);
    ids
}

/// The leaderboard of the users running on the nodes that have any of `features` (see
/// `feature_ids`, `board_ok`); `node_to_job_map` maps node positions to the jobs on them.
pub fn leaderboard_feature(
    jobs: SlurmJobs,
    nodes: &[Node],
    node_to_job_map: &HashMap<usize, Vec<u32>>,
    features: &[String],
    top_n: usize,
) -> (rows: Vec<(String, u32, u32)>)
    requires
        jobs.wf(),
        scores_fit(jobs_with_ids(jobs.jobs@, feature_ids(nodes@, node_to_job_map@, features.deep_view()))),
    ensures
        board_ok(
            board_view(rows@),
            jobs_with_ids(jobs.jobs@, feature_ids(nodes@, node_to_job_map@, features.deep_view())),
            top_n as nat,
        ),
{
    let ids = feature_job_ids(nodes, node_to_job_map, features);
    let ghost all = jobs.jobs@;
    let ghost idv = ids;
    let filtered = jobs.filter_by(FilterMethod::JobIds(ids));
    proof {
        lemma_kept_ids(all, idv);
    }
    leaderboard(filtered.jobs.as_slice(), top_n)
}

} // verus!
