//! Jobs as the reports see them, and the sums and filters the reports take over them.
use vstd::prelude::*;
use crate::states::JobState;
use std::collections::HashMap;
use crate::text::{chars_eq, chars_of, lemma_texts_deep_view, parse_nat, parse_unsigned, split_chars, split_on};
use crate::tres_map::{NameMap, TresMap};
use crate::hostlist::{hostlist_names, parse_slurm_hostlist};

verus! {

/// A job, with the fields the reports read. Times are seconds since the epoch.
#[derive(Debug)]
pub struct Job {
    pub job_id: u32,
    pub array_job_id: u32,
    pub array_task_id: u32,
    pub name: String,
    pub user_id: u32,
    pub user_name: String,
    pub group_id: u32,
    pub partition: String,
    pub account: String,
    pub job_state: JobState,
    /// The flags reported alongside `job_state` (see `job_state_flags`), e.g. a running
    /// job whose epilog has started
    pub state_flags: u32,
    pub state_description: String,
    pub submit_time: i64,
    pub start_time: i64,
    pub end_time: i64,
    pub time_limit_minutes: u32,
    /// When the job becomes preemptable; zero where it never does
    pub preemptable_time: i64,
    pub num_nodes: u32,
    pub num_cpus: u32,
    pub num_tasks: u32,
    /// The hostlist of the job's nodes, emptied once `node_ids` is filled from it
    pub raw_hostlist: String,
    pub node_ids: Vec<usize>,
    pub allocated_gres: TresMap,
    pub gres_total: Option<String>,
    pub work_dir: String,
    pub command: String,
    pub exit_code: u32,
}

/// Which jobs to keep.
#[derive(Debug)]
pub enum FilterMethod {
    JobIds(Vec<u32>),
    UserId(u32),
    UserName(String),
    Partition(String),
    Account(String),
}

/// The jobs Slurm reported, in the order it reported them.
#[derive(Debug)]
pub struct SlurmJobs {
    pub jobs: Vec<Job>,
    /// When the controller last updated this information
    pub last_update: i64,
    /// When the last backfill cycle ran
    pub last_backfill: i64,
}

/// Whether some job of `jobs` has the id `id`.
pub open spec fn has_id(jobs: Seq<Job>, id: u32) -> bool {
    exists|k: int| 0 <= k < jobs.len() && #[trigger] jobs[k].job_id == id
}

/// Whether no two jobs of `jobs` share an id, as in a collection keyed by id.
pub open spec fn ids_unique(jobs: Seq<Job>) -> bool {
    forall|i: int, j: int| 0 <= i < j < jobs.len() ==> #[trigger] jobs[i].job_id != #[trigger] jobs[j].job_id
}

/// The jobs of `jobs` that no later job replaces by its id, in order: what is left when
/// each job is filed under its id and a later job with the same id takes the place of an
/// earlier one.
pub open spec fn latest_by_id(jobs: Seq<Job>) -> Seq<Job>
    decreases jobs.len(),
{
    if jobs.len() == 0 {
        Seq::empty()
    } else {
        let rest = latest_by_id(jobs.drop_first());
        if has_id(jobs.drop_first(), jobs[0].job_id) {
            rest
        } else {
            seq![jobs[0]] + rest
        }
    }
}

proof fn lemma_latest_by_id(jobs: Seq<Job>)
    ensures
        ids_unique(latest_by_id(jobs)),
        forall|id: u32| has_id(latest_by_id(jobs), id) ==> has_id(jobs, id),
    decreases jobs.len(),
{
    if jobs.len() > 0 {
        let tail = jobs.drop_first();
        lemma_latest_by_id(tail);
        let rest = latest_by_id(tail);
        assert forall|id: u32| has_id(tail, id) implies has_id(jobs, id) by {
            let k = choose|k: int| 0 <= k < tail.len() && #[trigger] tail[k].job_id == id;
            assert(jobs[k + 1] == tail[k]);
        }
        if !has_id(tail, jobs[0].job_id) {
            let out = seq![jobs[0]] + rest;
            assert(!has_id(rest, jobs[0].job_id));
            assert forall|i: int, j: int| 0 <= i < j < out.len() implies #[trigger] out[i].job_id
                != #[trigger] out[j].job_id by {
                if i == 0 {
                    assert(out[j] == rest[j - 1]);
                    if out[j].job_id == jobs[0].job_id {
                        assert(has_id(rest, jobs[0].job_id));
                    }
                } else {
                    assert(out[i] == rest[i - 1] && out[j] == rest[j - 1]);
                }
            }
            assert forall|id: u32| has_id(out, id) implies has_id(jobs, id) by {
                let k = choose|k: int| 0 <= k < out.len() && #[trigger] out[k].job_id == id;
                if k == 0 {
                    assert(jobs[0].job_id == id);
                } else {
                    assert(out[k] == rest[k - 1]);
                    assert(has_id(rest, id));
                }
            }
        }
    }
}

/// The jobs `filter` keeps come from `jobs`, so they share no id where `jobs` share none.
proof fn lemma_kept_ids_unique(jobs: Seq<Job>, method: FilterMethod)
    requires
        ids_unique(jobs),
    ensures
        ids_unique(kept_jobs(jobs, method)),
        forall|id: u32| has_id(kept_jobs(jobs, method), id) ==> has_id(jobs, id),
    decreases jobs.len(),
{
    if jobs.len() > 0 {
        let init = jobs.drop_last();
        lemma_kept_ids_unique(init, method);
        let r = kept_jobs(init, method);
        assert forall|id: u32| has_id(init, id) implies has_id(jobs, id) by {
            let k = choose|k: int| 0 <= k < init.len() && #[trigger] init[k].job_id == id;
            assert(jobs[k] == init[k]);
        }
        if keeps(method, jobs.last()) {
            let out = r.push(jobs.last());
            assert(!has_id(init, jobs.last().job_id)) by {
                if has_id(init, jobs.last().job_id) {
                    let k = choose|k: int| 0 <= k < init.len() && #[trigger] init[k].job_id == jobs.last().job_id;
                    assert(jobs[k] == init[k]);
                    assert(jobs[k].job_id != jobs[jobs.len() - 1].job_id);
                }
            }
            assert forall|i: int, j: int| 0 <= i < j < out.len() implies #[trigger] out[i].job_id
                != #[trigger] out[j].job_id by {
                assert(out[i] == r[i]);
                if j == out.len() - 1 {
                    if out[i].job_id == jobs.last().job_id {
                        assert(has_id(r, jobs.last().job_id));
                    }
                } else {
                    assert(out[j] == r[j]);
                }
            }
            assert forall|id: u32| has_id(out, id) implies has_id(jobs, id) by {
                let k = choose|k: int| 0 <= k < out.len() && #[trigger] out[k].job_id == id;
                if k == out.len() - 1 {
                    assert(jobs[jobs.len() - 1].job_id == id);
                } else {
                    assert(out[k] == r[k]);
                    assert(has_id(r, id));
                }
            }
        }
    }
}

impl SlurmJobs {
    /// Whether no two of these jobs share an id.
    pub open spec fn wf(&self) -> bool {
        ids_unique(self.jobs@)
    }

    /// The jobs Slurm reported, filed by id: where two carry the same id the later one
    /// stands (see `latest_by_id`).
    pub fn from_jobs(jobs: Vec<Job>, last_update: i64, last_backfill: i64) -> (s: SlurmJobs)
        ensures
            s.wf(),
            s.jobs@ == latest_by_id(jobs@),
            s.last_update == last_update,
            s.last_backfill == last_backfill,
    {
        broadcast use vstd::std_specs::hash::group_hash_axioms;
        let ghost all = jobs@;
        let mut rest = jobs;
        let mut seen: std::collections::HashSet<u32> = std::collections::HashSet::new();
        let mut rev: Vec<Job> = Vec::new();
        while rest.len() > 0
            invariant
                rest@ == all.take(rest@.len() as int),
                rest@.len() <= all.len(),
                forall|id: u32| #[trigger] seen@.contains(id) <==> has_id(all.skip(rest@.len() as int), id),
                rev@.reverse() == latest_by_id(all.skip(rest@.len() as int)),
            decreases rest@.len(),
        {
            let ghost n = rest@.len();
            let ghost tail = all.skip(n as int);
            let job = rest.pop().unwrap();
            let ghost next = all.skip(n - 1);
            proof {
                assert(job == all[n - 1]);
                assert(rest@ =~= all.take(n - 1));
                assert(next.drop_first() =~= tail);
                assert(next[0] == job);
            }
            let id = job.job_id;
            let ghost before = rev@;
            if !seen.contains(&id) {
                rev.push(job);
                assert(rev@.reverse() =~= seq![next[0]] + before.reverse());
            }
            seen.insert(id);
            proof {
                assert forall|x: u32| #[trigger] seen@.contains(x) <==> has_id(next, x) by {
                    if has_id(next, x) && x != id {
                        let k = choose|k: int| 0 <= k < next.len() && #[trigger] next[k].job_id == x;
                        assert(k > 0);
                        assert(tail[k - 1] == next[k]);
                        assert(has_id(tail, x));
                    }
                    if has_id(tail, x) {
                        let k = choose|k: int| 0 <= k < tail.len() && #[trigger] tail[k].job_id == x;
                        assert(next[k + 1] == tail[k]);
                    }
                    if x == id {
                        assert(next[0].job_id == x);
                    }
                }
            }
        }
        assert(all.skip(0) =~= all);
        let ghost r = rev@;
        let mut out: Vec<Job> = Vec::new();
        while rev.len() > 0
            invariant
                rev@ == r.take(rev@.len() as int),
                rev@.len() <= r.len(),
                out@ == r.reverse().take(r.len() - rev@.len()),
            decreases rev@.len(),
        {
            let ghost n = rev@.len();
            let job = rev.pop().unwrap();
            proof {
                assert(job == r[n - 1]);
                assert(rev@ =~= r.take(n - 1));
            }
            out.push(job);
            assert(out@ =~= r.reverse().take(r.len() - (n - 1)));
        }
        assert(out@ =~= r.reverse());
        proof {
            lemma_latest_by_id(all);
        }
        SlurmJobs { jobs: out, last_update, last_backfill }
    }
}

/// Whether `job` is one that `method` keeps.
pub open spec fn keeps(method: FilterMethod, job: Job) -> bool {
    match method {
        FilterMethod::JobIds(ids) => ids@.contains(job.job_id),
        FilterMethod::UserId(id) => id == job.user_id,
        FilterMethod::UserName(name) => name@ == job.user_name@,
        FilterMethod::Partition(p) => p@ == job.partition@,
        FilterMethod::Account(a) => a@ == job.account@,
    }
}

/// The jobs of `jobs` that `method` keeps, in order.
pub open spec fn kept_jobs(jobs: Seq<Job>, method: FilterMethod) -> Seq<Job>
    decreases jobs.len(),
{
    if jobs.len() == 0 {
        Seq::empty()
    } else {
        let init = kept_jobs(jobs.drop_last(), method);
        if keeps(method, jobs.last()) {
            init.push(jobs.last())
        } else {
            init
        }
    }
}

/// The nodes and the cores that `jobs` hold between them.
pub open spec fn node_total(jobs: Seq<Job>) -> int
    decreases jobs.len(),
{
    if jobs.len() == 0 {
        0
    } else {
        node_total(jobs.drop_last()) + jobs.last().num_nodes
    }
}

pub open spec fn cpu_total(jobs: Seq<Job>) -> int
    decreases jobs.len(),
{
    if jobs.len() == 0 {
        0
    } else {
        cpu_total(jobs.drop_last()) + jobs.last().num_cpus
    }
}

pub proof fn lemma_totals_nonneg(jobs: Seq<Job>)
    ensures
        node_total(jobs) >= 0,
        cpu_total(jobs) >= 0,
        gres_total(jobs) >= 0,
    decreases jobs.len(),
{
    if jobs.len() > 0 {
        lemma_totals_nonneg(jobs.drop_last());
        match jobs.last().gres_total {
            Some(g) => lemma_gres_nonneg(split_on(g@, seq![':'])),
            None => {},
        }
    }
}

/// The totals over a prefix of the jobs are at most the totals over all of them.
proof fn lemma_totals_monotone(jobs: Seq<Job>, i: int)
    requires
        0 <= i <= jobs.len(),
    ensures
        0 <= node_total(jobs.take(i)) <= node_total(jobs),
        0 <= cpu_total(jobs.take(i)) <= cpu_total(jobs),
        0 <= gres_total(jobs.take(i)) <= gres_total(jobs),
    decreases jobs.len(),
{
    lemma_totals_nonneg(jobs.take(i));
    if i < jobs.len() {
        assert(jobs.drop_last().take(i) =~= jobs.take(i));
        lemma_totals_monotone(jobs.drop_last(), i);
        match jobs.last().gres_total {
            Some(g) => lemma_gres_nonneg(split_on(g@, seq![':'])),
            None => {},
        }
    } else {
        assert(jobs.take(i) =~= jobs);
    }
}

fn keeps_exec(method: &FilterMethod, job: &Job) -> (r: bool)
    ensures
        r == keeps(*method, *job),
{
    match method {
        FilterMethod::JobIds(ids) => {
            let mut i: usize = 0;
            while i < ids.len()
                invariant
                    i <= ids@.len(),
                    keeps(*method, *job) == ids@.contains(job.job_id),
                    forall|k: int| 0 <= k < i ==> ids@[k] != job.job_id,
                decreases ids@.len() - i,
            {
                if ids[i] == job.job_id {
                    assert(ids@[i as int] == job.job_id);
                    assert(ids@.contains(job.job_id));
                    return true;
                }
                i = i + 1;
            }
            false
        },
        FilterMethod::UserId(id) => *id == job.user_id,
        FilterMethod::UserName(name) => text_eq(name, &job.user_name),
        FilterMethod::Partition(p) => text_eq(p, &job.partition),
        FilterMethod::Account(a) => text_eq(a, &job.account),
    }
}

/// Whether two strings are equal.
pub fn text_eq(a: &String, b: &String) -> (r: bool)
    ensures
        r == (a@ == b@),
{
    let x = chars_of(a.as_str());
    let y = chars_of(b.as_str());
    chars_eq(&x, &y)
}

/// The count a GRES total gives: the number after its last `:` (its last `:`-separated
/// piece), or 0 where that piece is not a number.
pub open spec fn gres_count(pieces: Seq<Seq<char>>) -> int {
    if pieces.len() == 0 {
        0
    } else {
        match parse_nat(pieces.last(), u32::MAX as nat) {
            Some(v) => v as int,
            None => 0,
        }
    }
}

/// What a job's GRES total adds to the sum: the number after its last `:`.
pub open spec fn job_gres(job: Job) -> int {
    match job.gres_total {
        Some(g) => gres_count(split_on(g@, seq![':'])),
        None => 0,
    }
}

pub open spec fn gres_total(jobs: Seq<Job>) -> int
    decreases jobs.len(),
{
    if jobs.len() == 0 {
        0
    } else {
        gres_total(jobs.drop_last()) + job_gres(jobs.last())
    }
}

pub proof fn lemma_gres_nonneg(pieces: Seq<Seq<char>>)
    ensures
        0 <= gres_count(pieces) <= u32::MAX,
{
}

pub(crate) fn job_gres_exec(job: &Job) -> (n: u64)
    ensures
        n == job_gres(*job),
        n <= u32::MAX,
{
    match &job.gres_total {
        None => 0,
        Some(g) => {
            let cs = chars_of(g.as_str());
            let pieces = split_chars(&cs, &[':']);
            assert([':'].view() =~= seq![':']);
            proof {
                lemma_texts_deep_view(pieces);
            }
            let ghost ps = pieces.deep_view();
            if pieces.len() == 0 {
                return 0;
            }
            let last = pieces.len() - 1;
            assert(ps.last() == pieces@[last as int]@);
            match parse_unsigned(&pieces[last], u32::MAX as u64) {
                Some(v) => v,
                None => 0,
            }
        },
    }
}

impl SlurmJobs {
    /// Keeps only the jobs that `method` selects, in their order.
    pub fn filter_by(self, method: FilterMethod) -> (out: Self)
        ensures
            out.jobs@ == kept_jobs(self.jobs@, method),
            out.last_update == self.last_update,
            out.last_backfill == self.last_backfill,
            self.wf() ==> out.wf(),
    {
        proof {
            if self.wf() {
                lemma_kept_ids_unique(self.jobs@, method);
            }
        }
        let SlurmJobs { jobs, last_update, last_backfill } = self;
        let n: usize = jobs.len();
        let ghost all = jobs@;
        let mut kept: Vec<Job> = Vec::new();
        let mut rest = jobs;
        let mut i: usize = 0;
        while rest.len() > 0
            invariant
                i + rest@.len() == all.len(),
                all.len() == n,
                rest@ == all.skip(i as int),
                kept@ == kept_jobs(all.take(i as int), method),
            decreases rest@.len(),
        {
            let job = rest.remove(0);
            proof {
                assert(job == all[i as int]);
                assert(all.take(i + 1).drop_last() =~= all.take(i as int));
                assert(rest@ =~= all.skip(i + 1));
            }
            if keeps_exec(&method, &job) {
                kept.push(job);
            }
            i = i + 1;
        }
        assert(all.take(i as int) =~= all);
        SlurmJobs { jobs: kept, last_update, last_backfill }
    }

    /// The nodes and the cores all these jobs hold, summed.
    pub fn get_resource_use(&self) -> (r: (u32, u32))
        requires
            self.wf(),
            node_total(self.jobs@) <= u32::MAX,
            cpu_total(self.jobs@) <= u32::MAX,
        ensures
            r.0 == node_total(self.jobs@),
            r.1 == cpu_total(self.jobs@),
    {
        let mut nodes: u32 = 0;
        let mut cores: u32 = 0;
        let mut i: usize = 0;
        while i < self.jobs.len()
            invariant
                i <= self.jobs@.len(),
                node_total(self.jobs@) <= u32::MAX,
                cpu_total(self.jobs@) <= u32::MAX,
                nodes == node_total(self.jobs@.take(i as int)),
                cores == cpu_total(self.jobs@.take(i as int)),
            decreases self.jobs@.len() - i,
        {
            proof {
                lemma_totals_monotone(self.jobs@, i + 1);
                assert(self.jobs@.take(i + 1).drop_last() =~= self.jobs@.take(i as int));
            }
            nodes = nodes + self.jobs[i].num_nodes;
            cores = cores + self.jobs[i].num_cpus;
            i = i + 1;
        }
        assert(self.jobs@.take(i as int) =~= self.jobs@);
        (nodes, cores)
    }

    /// The generic resources these jobs hold: for each job with a GRES total, the number
    /// after its last `:`, summed.
    pub fn get_gres_total(&self) -> (n: u32)
        requires
            self.wf(),
            gres_total(self.jobs@) <= u32::MAX,
        ensures
            n == gres_total(self.jobs@),
    {
        let mut total: u32 = 0;
        let mut i: usize = 0;
        while i < self.jobs.len()
            invariant
                i <= self.jobs@.len(),
                gres_total(self.jobs@) <= u32::MAX,
                total == gres_total(self.jobs@.take(i as int)),
            decreases self.jobs@.len() - i,
        {
            proof {
                lemma_totals_monotone(self.jobs@, i + 1);
                assert(self.jobs@.take(i + 1).drop_last() =~= self.jobs@.take(i as int));
            }
            let g = job_gres_exec(&self.jobs[i]);
            total = total + g as u32;
            i = i + 1;
        }
        assert(self.jobs@.take(i as int) =~= self.jobs@);
        total
    }
}


/// The positions of the nodes named in `names` that `index` knows, in order; a name it
/// does not know is passed over.
pub open spec fn known_ids(names: Seq<Seq<char>>, index: Map<Seq<char>, usize>) -> Seq<usize>
    decreases names.len(),
{
    if names.len() == 0 {
        Seq::empty()
    } else {
        let init = known_ids(names.drop_last(), index);
        if index.contains_key(names.last()) {
            init.push(index[names.last()])
        } else {
            init
        }
    }
}

/// `b` is `a` but for its node positions and its hostlist.
pub open spec fn same_but_nodes(a: Job, b: Job) -> bool {
    &&& b.job_id == a.job_id
    &&& b.array_job_id == a.array_job_id
    &&& b.array_task_id == a.array_task_id
    &&& b.name == a.name
    &&& b.user_id == a.user_id
    &&& b.user_name == a.user_name
    &&& b.group_id == a.group_id
    &&& b.partition == a.partition
    &&& b.account == a.account
    &&& b.job_state == a.job_state
    &&& b.state_flags == a.state_flags
    &&& b.state_description == a.state_description
    &&& b.submit_time == a.submit_time
    &&& b.start_time == a.start_time
    &&& b.end_time == a.end_time
    &&& b.time_limit_minutes == a.time_limit_minutes
    &&& b.preemptable_time == a.preemptable_time
    &&& b.num_nodes == a.num_nodes
    &&& b.num_cpus == a.num_cpus
    &&& b.num_tasks == a.num_tasks
    &&& b.allocated_gres == a.allocated_gres
    &&& b.gres_total == a.gres_total
    &&& b.work_dir == a.work_dir
    &&& b.command == a.command
    &&& b.exit_code == a.exit_code
}

/// What filling in node positions makes of a job: one with a hostlist gains the positions
/// of the nodes it names that `index` knows, in the hostlist's order, and its hostlist is
/// emptied; one without a hostlist is left as it was.
pub open spec fn enriched(before: Job, after: Job, index: Map<Seq<char>, usize>) -> bool {
    &&& same_but_nodes(before, after)
    &&& if before.raw_hostlist@.len() == 0 {
        after.node_ids@ == before.node_ids@ && after.raw_hostlist == before.raw_hostlist
    } else {
        &&& after.node_ids@ == before.node_ids@ + known_ids(
            hostlist_names(before.raw_hostlist@),
            index,
        )
        &&& after.raw_hostlist@.len() == 0
    }
}

fn enrich_job(job: Job, name_to_id: &NameMap<usize>) -> (out: Job)
    requires
        name_to_id.wf(),
    ensures
        enriched(job, out, name_to_id@),
{
    let mut job = job;
    if job.raw_hostlist.as_str().is_empty() {
        return job;
    }
    let names = parse_slurm_hostlist(job.raw_hostlist.as_str());
    let ghost all = hostlist_names(job.raw_hostlist@);
    let ghost start = job.node_ids@;
    let ghost orig = job;
    let mut i: usize = 0;
    while i < names.len()
        invariant
            i <= names@.len(),
            same_but_nodes(orig, job),
            job.raw_hostlist == orig.raw_hostlist,
            name_to_id.wf(),
            names.deep_view() == all,
            job.node_ids@ == start + known_ids(all.take(i as int), name_to_id@),
        decreases names@.len() - i,
    {
        assert(all.take(i + 1).drop_last() =~= all.take(i as int));
        assert(names.deep_view()[i as int] == names@[i as int]@);
        match name_to_id.get(names[i].as_str()) {
            Some(id) => {
                job.node_ids.push(id);
            },
            None => {},
        }
        i = i + 1;
    }
    assert(all.take(i as int) =~= all);
    job.raw_hostlist = String::new();
    job
}

/// Fills in every job's node positions from its hostlist, each named node looked up in
/// `name_to_id`; a job's hostlist is emptied once read.
pub fn enrich_jobs_with_node_ids(slurm_jobs: &mut SlurmJobs, name_to_id: &NameMap<usize>)
    requires
        name_to_id.wf(),
    ensures
        final(slurm_jobs).jobs@.len() == old(slurm_jobs).jobs@.len(),
        forall|k: int|
            0 <= k < old(slurm_jobs).jobs@.len() ==> enriched(
                #[trigger] old(slurm_jobs).jobs@[k],
                final(slurm_jobs).jobs@[k],
                name_to_id@,
            ),
        final(slurm_jobs).last_update == old(slurm_jobs).last_update,
        final(slurm_jobs).last_backfill == old(slurm_jobs).last_backfill,
        old(slurm_jobs).wf() ==> final(slurm_jobs).wf(),
{
    let n: usize = slurm_jobs.jobs.len();
    let ghost all = slurm_jobs.jobs@;
    let mut rest: Vec<Job> = Vec::new();
    std::mem::swap(&mut rest, &mut slurm_jobs.jobs);
    let mut done: Vec<Job> = Vec::new();
    let mut i: usize = 0;
    while rest.len() > 0
        invariant
            i + rest@.len() == all.len(),
            all.len() == n,
            rest@ == all.skip(i as int),
            name_to_id.wf(),
            done@.len() == i,
            forall|k: int| 0 <= k < i ==> enriched(#[trigger] all[k], done@[k], name_to_id@),
        decreases rest@.len(),
    {
        let job = rest.remove(0);
        assert(job == all[i as int]);
        assert(rest@ =~= all.skip(i + 1));
        let e = enrich_job(job, name_to_id);
        done.push(e);
        i = i + 1;
    }
    slurm_jobs.jobs = done;
    assert forall|a: int, b: int| 0 <= a < b < all.len() implies #[trigger] done@[a].job_id
        == all[a].job_id && #[trigger] done@[b].job_id == all[b].job_id by {
        assert(enriched(all[a], done@[a], name_to_id@));
        assert(enriched(all[b], done@[b], name_to_id@));
    }
}

/// How often `n` occurs in `ids`.
pub open spec fn occurrences(ids: Seq<usize>, n: usize) -> nat
    decreases ids.len(),
{
    if ids.len() == 0 {
        0
    } else {
        occurrences(ids.drop_last(), n) + if ids.last() == n {
            1nat
        } else {
            0nat
        }
    }
}

/// What job `j` contributes to node `n`'s list, counting the node positions `ids`: its id
/// once per time `ids` lists `n`, if it is running, and nothing otherwise.
pub open spec fn job_share_on(j: Job, ids: Seq<usize>, n: usize) -> Seq<u32> {
    if j.job_state == JobState::Running {
        Seq::new(occurrences(ids, n), |_k: int| j.job_id)
    } else {
        Seq::empty()
    }
}

/// The ids of the running jobs that list node `n`, in the jobs' order, a job's id as often
/// as the job lists the node.
pub open spec fn job_ids_on(jobs: Seq<Job>, n: usize) -> Seq<u32>
    decreases jobs.len(),
{
    if jobs.len() == 0 {
        Seq::empty()
    } else {
        job_ids_on(jobs.drop_last(), n) + job_share_on(jobs.last(), jobs.last().node_ids@, n)
    }
}

/// For each node that running jobs are on, the ids of those jobs.
pub fn build_node_to_job_map(slurm_jobs: &SlurmJobs) -> (m: HashMap<usize, Vec<u32>>)
    requires
        slurm_jobs.wf(),
    ensures
        forall|n: usize| #[trigger] m@.contains_key(n) <==> job_ids_on(slurm_jobs.jobs@, n).len() > 0,
        forall|n: usize| #[trigger] m@.contains_key(n) ==> m@[n]@ == job_ids_on(slurm_jobs.jobs@, n),
{
    broadcast use vstd::std_specs::hash::group_hash_axioms;
    let jobs = &slurm_jobs.jobs;
    let mut m: HashMap<usize, Vec<u32>> = HashMap::new();
    let mut i: usize = 0;
    while i < jobs.len()
        invariant
            i <= jobs@.len(),
            forall|n: usize| #[trigger] m@.contains_key(n) <==> job_ids_on(jobs@.take(i as int), n).len() > 0,
            forall|n: usize| #[trigger] m@.contains_key(n) ==> m@[n]@ == job_ids_on(jobs@.take(i as int), n),
        decreases jobs@.len() - i,
    {
        let job = &jobs[i];
        let ghost before = jobs@.take(i as int);
        assert(jobs@.take(i + 1).drop_last() =~= before);
        if job.job_state.is_running() {
            let mut j: usize = 0;
            while j < job.node_ids.len()
                invariant
                    j <= job.node_ids@.len(),
                    job.job_state == JobState::Running,
                    forall|n: usize| #[trigger] m@.contains_key(n) <==> (job_ids_on(before, n)
                        + job_share_on(*job, job.node_ids@.take(j as int), n)).len() > 0,
                    forall|n: usize| #[trigger] m@.contains_key(n) ==> m@[n]@ == job_ids_on(before, n)
                        + job_share_on(*job, job.node_ids@.take(j as int), n),
                decreases job.node_ids@.len() - j,
            {
                let id = job.node_ids[j];
                let ghost prev = m@;
                assert(job.node_ids@.take(j + 1).drop_last() =~= job.node_ids@.take(j as int));
                let v = match m.remove(&id) {
                    Some(v) => {
                        let mut v = v;
                        v.push(job.job_id);
                        v
                    },
                    None => {
                        let mut v: Vec<u32> = Vec::new();
                        v.push(job.job_id);
                        v
                    },
                };
                m.insert(id, v);
                proof {
                    let k = occurrences(job.node_ids@.take(j as int), id);
                    assert(Seq::new(k + 1, |_k: int| job.job_id) =~= Seq::new(k, |_k: int| job.job_id).push(job.job_id));
                    assert forall|n: usize| #[trigger] m@.contains_key(n) implies m@[n]@ == job_ids_on(before, n)
                        + job_share_on(*job, job.node_ids@.take(j + 1), n) by {
                        if n == id {
                            if prev.contains_key(id) {
                                assert(v@ =~= prev[id]@.push(job.job_id));
                            } else {
                                assert(job_ids_on(before, id) + job_share_on(*job, job.node_ids@.take(j as int), id) =~= Seq::<u32>::empty());
                                assert(k == 0);
                                assert(job_ids_on(before, id).len() == 0);
                            }
                            assert(job_ids_on(before, n) + job_share_on(*job, job.node_ids@.take(j + 1), n) =~= (job_ids_on(before, n) + job_share_on(*job, job.node_ids@.take(j as int), n)).push(job.job_id));
                        } else {
                            assert(job_share_on(*job, job.node_ids@.take(j + 1), n) =~= job_share_on(*job, job.node_ids@.take(j as int), n));
                        }
                    }
                    assert forall|n: usize| #[trigger] m@.contains_key(n) <==> (job_ids_on(before, n)
                        + job_share_on(*job, job.node_ids@.take(j + 1), n)).len() > 0 by {
                        if n != id {
                            assert(job_share_on(*job, job.node_ids@.take(j + 1), n) =~= job_share_on(*job, job.node_ids@.take(j as int), n));
                        }
                    }
                }
                j = j + 1;
            }
            assert(job.node_ids@.take(j as int) =~= job.node_ids@);
        } else {
            assert forall|n: usize| job_share_on(*job, job.node_ids@, n) =~= Seq::<u32>::empty() by {}
        }
        proof {
            assert forall|n: usize| #[trigger] job_ids_on(jobs@.take(i + 1), n) == job_ids_on(before, n)
                + job_share_on(*job, job.node_ids@, n) by {
                assert(jobs@.take(i + 1).last() == *job);
            }
        }
        i = i + 1;
    }
    assert(jobs@.take(i as int) =~= jobs@);
    m
}

} // verus!
