//! What the accounting database tells about limits: QOS records, the limits a partition's
//! QOS sets, TRES limits as Slurm writes them, and who may use a partition.
use vstd::prelude::*;
use crate::assoc::unlimited_to_none;
use crate::text::{chars_eq, chars_of, lemma_texts_deep_view, parse_nat, parse_unsigned, split_chars, split_on, split_once, split_once_chars, string_of};

verus! {

/// What can go wrong reading QOS records from the database.
#[derive(Debug, Clone, Copy, PartialEq, Eq)]
pub enum QosError {
    EmptyAssocError,
    SlurmUserError,
    AssocListNull,
    QosListNull,
    UserListNull,
    DbConnError,
    EmptyQosListError,
}

impl QosError {
    /// What the error says.
    pub fn message(&self) -> (s: String)
        ensures
            s@ == qos_error_text(*self),
    {
        let t = match self {
            QosError::EmptyAssocError => chars_of("Assoc vector was empty"),
            QosError::SlurmUserError => chars_of("No users found"),
            QosError::AssocListNull => chars_of("Pointer to assoc_list is null"),
            QosError::QosListNull => chars_of("Pointer to qos_list is null"),
            QosError::UserListNull => chars_of("Pointer to user_list is null"),
            QosError::DbConnError => chars_of(
                "Database connection failed. Please ensure that SlurmDB is present and slurm_init has been run",
            ),
            QosError::EmptyQosListError => chars_of("List of QoS successfully retrieved but empty"),
        };
        string_of(&t)
    }
}

pub open spec fn qos_error_text(e: QosError) -> Seq<char> {
    match e {
        QosError::EmptyAssocError => "Assoc vector was empty"@,
        QosError::SlurmUserError => "No users found"@,
        QosError::AssocListNull => "Pointer to assoc_list is null"@,
        QosError::QosListNull => "Pointer to qos_list is null"@,
        QosError::UserListNull => "Pointer to user_list is null"@,
        QosError::DbConnError => "Database connection failed. Please ensure that SlurmDB is present and slurm_init has been run"@,
        QosError::EmptyQosListError => "List of QoS successfully retrieved but empty"@,
    }
}

/// What can go wrong reading job records from the database.
#[derive(Debug, Clone, Copy, PartialEq, Eq)]
pub enum JobsError {
    EmptyAssocError,
    SlurmUserError,
    AssocListNull,
    JobsListNull,
    UserListNull,
    DbConnError,
    EmptyJobsListError,
}

pub open spec fn jobs_error_text(e: JobsError) -> Seq<char> {
    match e {
        JobsError::EmptyAssocError => "Assoc vector was empty"@,
        JobsError::SlurmUserError => "No users found"@,
        JobsError::AssocListNull => "Pointer to assoc_list is null"@,
        JobsError::JobsListNull => "Pointer to jobs_list is null"@,
        JobsError::UserListNull => "Pointer to user_list is null"@,
        JobsError::DbConnError => "Database connection failed. Please ensure that SlurmDB is present and slurm_init has been run"@,
        JobsError::EmptyJobsListError => "List of jobs successfully retrieved but empty"@,
    }
}

impl JobsError {
    /// What the error says.
    pub fn message(&self) -> (s: String)
        ensures
            s@ == jobs_error_text(*self),
    {
        let t = match self {
            JobsError::EmptyAssocError => chars_of("Assoc vector was empty"),
            JobsError::SlurmUserError => chars_of("No users found"),
            JobsError::AssocListNull => chars_of("Pointer to assoc_list is null"),
            JobsError::JobsListNull => chars_of("Pointer to jobs_list is null"),
            JobsError::UserListNull => chars_of("Pointer to user_list is null"),
            JobsError::DbConnError => chars_of(
                "Database connection failed. Please ensure that SlurmDB is present and slurm_init has been run",
            ),
            JobsError::EmptyJobsListError => chars_of("List of jobs successfully retrieved but empty"),
        };
        string_of(&t)
    }
}

/// What can go wrong opening the accounting database.
#[derive(Debug, Clone, Copy, PartialEq, Eq)]
pub enum DbConnError {
    DbConnectionError,
}

pub open spec fn db_conn_error_text(e: DbConnError) -> Seq<char> {
    "Could not establish connection to SlurmDB. Please ensure that SlurmDB is present and slurm_init has been run."@
}

impl DbConnError {
    /// What the error says.
    pub fn message(&self) -> (s: String)
        ensures
            s@ == db_conn_error_text(*self),
    {
        string_of(
            &chars_of(
                "Could not establish connection to SlurmDB. Please ensure that SlurmDB is present and slurm_init has been run.",
            ),
        )
    }
}

/// Which QOS records to ask the database for.
#[derive(Debug)]
pub struct QosConfig {
    pub name_list: Option<Vec<String>>,
    pub format_list: Option<Vec<String>>,
    pub id_list: Option<Vec<String>>,
}

/// Part of a QOS record. An unset limit is `None`, or `u32::MAX` (Slurm's INFINITE) for
/// the scalar ones.
#[derive(Debug)]
pub struct SlurmQos {
    pub name: String,
    pub priority: u32,
    pub max_jobs_per_user: u32,
    pub max_tres_per_user: Option<String>,
    pub max_tres_per_group: Option<String>,
    pub max_tres_per_account: Option<String>,
    pub max_tres_per_job: Option<String>,
}

/// `1` for true and `0` for false, as Slurm's flags take them.
pub fn bool_to_int(b: bool) -> (n: u16)
    ensures
        n == (if b {
            1u16
        } else {
            0u16
        }),
{
    if b {
        1
    } else {
        0
    }
}

/// The limits that apply to a user's jobs in one partition, taken from that partition's
/// QOS. `None` is no limit, as is a partition having no QOS of its own; a `Some(0)` limit
/// permits nothing and is not the same thing.
#[derive(Debug)]
pub struct PartitionLimits {
    pub partition: String,
    /// The QOS these limits came from, which is not always named after the partition
    pub qos: Option<String>,
    pub max_jobs_per_user: Option<u32>,
    pub max_tres_per_user: Option<String>,
    pub max_tres_per_group: Option<String>,
}

pub open spec fn opt_text(o: Option<String>) -> Option<Seq<char>> {
    match o {
        Some(s) => Some(s@),
        None => None,
    }
}

fn copy_opt(o: &Option<String>) -> (r: Option<String>)
    ensures
        opt_text(r) == opt_text(*o),
{
    match o {
        Some(s) => Some(string_of(&chars_of(s.as_str()))),
        None => None,
    }
}

impl PartitionLimits {
    /// The limits of partition `partition`, whose QOS is named `qos`; `record` is that QOS
    /// where the database had one to return, and without it there are no limits.
    pub fn new(partition: &str, qos: Option<String>, record: Option<&SlurmQos>) -> (l: PartitionLimits)
        ensures
            l.partition@ == partition@,
            l.qos == qos,
            match record {
                Some(r) => {
                    &&& l.max_jobs_per_user == (if r.max_jobs_per_user >= u32::MAX - 1 {
                        None
                    } else {
                        Some(r.max_jobs_per_user)
                    })
                    &&& opt_text(l.max_tres_per_user) == opt_text(r.max_tres_per_user)
                    &&& opt_text(l.max_tres_per_group) == opt_text(r.max_tres_per_group)
                },
                None => {
                    &&& l.max_jobs_per_user is None
                    &&& l.max_tres_per_user is None
                    &&& l.max_tres_per_group is None
                },
            },
    {
        let partition = string_of(&chars_of(partition));
        match record {
            Some(record) => PartitionLimits {
                partition,
                qos,
                max_jobs_per_user: unlimited_to_none(record.max_jobs_per_user),
                max_tres_per_user: copy_opt(&record.max_tres_per_user),
                max_tres_per_group: copy_opt(&record.max_tres_per_group),
            },
            None => PartitionLimits {
                partition,
                qos,
                max_jobs_per_user: None,
                max_tres_per_user: None,
                max_tres_per_group: None,
            },
        }
    }
}

/// The node, core, memory and GPU limits a TRES limit string sets.
#[derive(Debug, Clone, Copy, PartialEq, Eq)]
pub struct TresMax {
    pub max_nodes: Option<u32>,
    pub max_cores: Option<u32>,
    pub max_memory: Option<u32>,
    pub max_gpus: Option<u32>,
}

/// The value a TRES limit entry gives: its quantity as a `u32`, or 8675309 where that is
/// not a number that fits.
pub open spec fn limit_value(q: Seq<char>) -> u32 {
    match parse_nat(q, u32::MAX as nat) {
        Some(n) => n as u32,
        None => 8675309,
    }
}

/// `t` after one `id=quantity` entry of a TRES limit string: Slurm numbers cores 1,
/// memory 2, nodes 4 and GPUs 1001; other entries, and pieces without `=`, change nothing.
pub open spec fn tres_max_step(t: TresMax, piece: Seq<char>) -> TresMax {
    match split_once(piece, '=') {
        Some((category, quantity)) => {
            let v = limit_value(quantity);
            if category == "1"@ {
                TresMax { max_cores: Some(v), ..t }
            } else if category == "2"@ {
                TresMax { max_memory: Some(v), ..t }
            } else if category == "4"@ {
                TresMax { max_nodes: Some(v), ..t }
            } else if category == "1001"@ {
                TresMax { max_gpus: Some(v), ..t }
            } else {
                t
            }
        },
        None => t,
    }
}

pub open spec fn tres_max_fold(t: TresMax, pieces: Seq<Seq<char>>) -> TresMax
    decreases pieces.len(),
{
    if pieces.len() == 0 {
        t
    } else {
        tres_max_step(tres_max_fold(t, pieces.drop_last()), pieces.last())
    }
}

pub open spec fn no_limits() -> TresMax {
    TresMax { max_nodes: None, max_cores: None, max_memory: None, max_gpus: None }
}

/// The limits a TRES limit string such as `1=64,4=2,1001=8` sets, a later entry for a
/// resource replacing an earlier one.
pub open spec fn tres_max_of(tres: Seq<char>) -> TresMax {
    tres_max_fold(no_limits(), split_on(tres, seq![',']))
}

impl TresMax {
    /// Reads a TRES limit string (see `tres_max_of`).
    pub fn new(tres: String) -> (t: TresMax)
        ensures
            t == tres_max_of(tres@),
    {
        let cs = chars_of(tres.as_str());
        let pieces = split_chars(&cs, &[',']);
        assert([','].view() =~= seq![',']);
        proof {
            lemma_texts_deep_view(pieces);
        }
        let ghost ps = pieces.deep_view();
        let one = chars_of("1");
        let two = chars_of("2");
        let four = chars_of("4");
        let gpu = chars_of("1001");
        let mut init = TresMax { max_nodes: None, max_cores: None, max_memory: None, max_gpus: None };
        let mut i: usize = 0;
        while i < pieces.len()
            invariant
                i <= pieces@.len(),
                ps == pieces.deep_view(),
                ps == split_on(tres@, seq![',']),
                ps.len() == pieces@.len(),
                forall|k: int| 0 <= k < pieces@.len() ==> #[trigger] ps[k] == pieces@[k]@,
                one@ == "1"@,
                two@ == "2"@,
                four@ == "4"@,
                gpu@ == "1001"@,
                init == tres_max_fold(no_limits(), ps.take(i as int)),
            decreases pieces@.len() - i,
        {
            assert(ps.take(i + 1).drop_last() =~= ps.take(i as int));
            assert(ps[i as int] == pieces@[i as int]@);
            match split_once_chars(&pieces[i], '=') {
                Some((category, quantity)) => {
                    let v = match parse_unsigned(&quantity, u32::MAX as u64) {
                        Some(n) => n as u32,
                        None => 8675309,
                    };
                    if chars_eq(&category, &one) {
                        init = TresMax { max_cores: Some(v), ..init };
                    } else if chars_eq(&category, &two) {
                        init = TresMax { max_memory: Some(v), ..init };
                    } else if chars_eq(&category, &four) {
                        init = TresMax { max_nodes: Some(v), ..init };
                    } else if chars_eq(&category, &gpu) {
                        init = TresMax { max_gpus: Some(v), ..init };
                    }
                },
                None => {},
            }
            i = i + 1;
        }
        assert(ps.take(i as int) =~= ps);
        init
    }
}

/// A text, or nothing where it is empty.
pub open spec fn non_empty_text(s: Seq<char>) -> Option<Seq<char>> {
    if s.len() == 0 {
        None
    } else {
        Some(s)
    }
}

/// A partition, with what tells who may submit to it and which limits apply there.
#[derive(Debug)]
pub struct Partition {
    pub name: String,
    /// The partition QOS, whose limits apply to every job in the partition regardless of
    /// the QOS the job requests; `None` where the partition has no QOS of its own
    pub qos: Option<String>,
    /// The accounts that may submit, where the partition restricts them
    pub allow_accounts: Option<Vec<String>>,
    /// The accounts that may not submit, where the partition denies some
    pub deny_accounts: Option<Vec<String>>,
}

/// An account list as Slurm writes it: comma-separated, empty or "ALL" for unrestricted.
pub open spec fn account_list_of(raw: Seq<char>) -> Option<Seq<Seq<char>>> {
    if raw.len() == 0 || raw == "ALL"@ {
        None
    } else {
        Some(split_on(raw, seq![',']))
    }
}

/// Reads an account list as Slurm writes it (see `account_list_of`).
pub fn account_list(raw: &str) -> (r: Option<Vec<String>>)
    ensures
        match r {
            Some(v) => account_list_of(raw@) == Some(v.deep_view()),
            None => account_list_of(raw@) is None,
        },
{
    let cs = chars_of(raw);
    let all = chars_of("ALL");
    if cs.len() == 0 || chars_eq(&cs, &all) {
        return None;
    }
    let pieces = split_chars(&cs, &[',']);
    assert([','].view() =~= seq![',']);
    Some(crate::hostlist::strings_of(&pieces))
}

pub open spec fn opt_list(o: Option<Vec<String>>) -> Option<Seq<Seq<char>>> {
    match o {
        Some(v) => Some(v.deep_view()),
        None => None,
    }
}

/// Whether the account lists allow `account`: where accounts are denied, any account not
/// denied; where some are allowed, those; and otherwise any account.
pub open spec fn allows(allow: Option<Seq<Seq<char>>>, deny: Option<Seq<Seq<char>>>, account: Seq<char>) -> bool {
    match deny {
        Some(denied) => !denied.contains(account),
        None => match allow {
            Some(allowed) => allowed.contains(account),
            None => true,
        },
    }
}

fn list_contains(v: &Vec<String>, x: &str) -> (r: bool)
    ensures
        r == v.deep_view().contains(x@),
{
    let xs = chars_of(x);
    let mut i: usize = 0;
    while i < v.len()
        invariant
            i <= v@.len(),
            xs@ == x@,
            forall|k: int| 0 <= k < i ==> v.deep_view()[k] != x@,
        decreases v@.len() - i,
    {
        let y = chars_of(v[i].as_str());
        assert(v.deep_view()[i as int] == v@[i as int]@);
        if chars_eq(&y, &xs) {
            return true;
        }
        i = i + 1;
    }
    false
}

impl Partition {
    /// A partition from its name, QOS name and account lists as Slurm writes them, an
    /// empty QOS name being none. Slurm rejects setting both lists on one partition, so at
    /// most one is populated.
    pub fn from_fields(name: String, qos: String, allow_accounts: &str, deny_accounts: &str) -> (p: Partition)
        ensures
            p.name@ == name@,
            opt_text(p.qos) == non_empty_text(qos@),
            opt_list(p.allow_accounts) == account_list_of(allow_accounts@),
            opt_list(p.deny_accounts) == account_list_of(deny_accounts@),
    {
        let qos = if qos.as_str().is_empty() {
            None
        } else {
            Some(qos)
        };
        Partition { name, qos, allow_accounts: account_list(allow_accounts), deny_accounts: account_list(deny_accounts) }
    }

    /// The accounts allowed, where the partition lists them.
    pub open spec fn allowed(&self) -> Option<Seq<Seq<char>>> {
        opt_list(self.allow_accounts)
    }

    /// The accounts denied, where the partition lists them.
    pub open spec fn denied(&self) -> Option<Seq<Seq<char>>> {
        opt_list(self.deny_accounts)
    }

    /// Whether `account` may submit to this partition. Group restrictions are not
    /// considered, so a partition open to an account but closed to the user's groups still
    /// counts as allowed.
    pub fn allows_account(&self, account: &str) -> (r: bool)
        ensures
            r == allows(self.allowed(), self.denied(), account@),
    {
        match &self.deny_accounts {
            Some(denied) => !list_contains(denied, account),
            None => match &self.allow_accounts {
                Some(allowed) => list_contains(allowed, account),
                None => true,
            },
        }
    }
}

/// The partitions of `ps` that `account` may submit to, in order.
pub open spec fn allowed_partitions(ps: Seq<Partition>, account: Seq<char>) -> Seq<Partition>
    decreases ps.len(),
{
    if ps.len() == 0 {
        Seq::empty()
    } else {
        let init = allowed_partitions(ps.drop_last(), account);
        if allows(ps.last().allowed(), ps.last().denied(), account) {
            init.push(ps.last())
        } else {
            init
        }
    }
}

/// Keeps the partitions that `account` may submit to, in their order.
pub fn account_partitions(partitions: Vec<Partition>, account: &str) -> (out: Vec<Partition>)
    ensures
        out@ == allowed_partitions(partitions@, account@),
{
    let ghost all = partitions@;
    let n: usize = partitions.len();
    let mut kept: Vec<Partition> = Vec::new();
    let mut rest = partitions;
    let mut i: usize = 0;
    while rest.len() > 0
        invariant
            i + rest@.len() == all.len(),
            all.len() == n,
            rest@ == all.skip(i as int),
            kept@ == allowed_partitions(all.take(i as int), account@),
        decreases rest@.len(),
    {
        let p = rest.remove(0);
        proof {
            assert(p == all[i as int]);
            assert(all.take(i + 1).drop_last() =~= all.take(i as int));
            assert(rest@ =~= all.skip(i + 1));
        }
        if p.allows_account(account) {
            kept.push(p);
        }
        i = i + 1;
    }
    assert(all.take(i as int) =~= all);
    kept
}

/// The QOS names the partitions declare, in partition order.
pub open spec fn declared_qos(ps: Seq<Partition>) -> Seq<Seq<char>>
    decreases ps.len(),
{
    if ps.len() == 0 {
        Seq::empty()
    } else {
        let init = declared_qos(ps.drop_last());
        match ps.last().qos {
            Some(q) => init.push(q@),
            None => init,
        }
    }
}

/// `s` with each run of equal neighbours cut to its first, as `Vec::dedup` does.
pub open spec fn dedup(s: Seq<Seq<char>>) -> Seq<Seq<char>>
    decreases s.len(),
{
    if s.len() == 0 {
        s
    } else {
        let init = dedup(s.drop_last());
        if s.len() >= 2 && s[s.len() - 2] == s.last() {
            init
        } else {
            init.push(s.last())
        }
    }
}

/// The QOS names to ask the database for: those the partitions declare, sorted, each once.
pub fn qos_names(partitions: &[Partition]) -> (out: Vec<String>)
    ensures
        out.deep_view() == dedup(declared_qos(partitions@).sort_by(crate::order::text_le())),
{
    let ghost ps = partitions@;
    let mut names: Vec<Vec<char>> = Vec::new();
    let mut i: usize = 0;
    while i < partitions.len()
        invariant
            i <= ps.len(),
            ps == partitions@,
            names.deep_view() == declared_qos(ps.take(i as int)),
        decreases ps.len() - i,
    {
        assert(ps.take(i + 1).drop_last() =~= ps.take(i as int));
        assert(ps.take(i + 1).last() == ps[i as int]);
        match &partitions[i].qos {
            Some(q) => {
                let ghost before = names@;
                proof {
                    lemma_texts_deep_view(names);
                }
                names.push(chars_of(q.as_str()));
                proof {
                    lemma_texts_deep_view(names);
                    assert forall|k: int| 0 <= k < before.len() implies names@[k] == before[k] by {}
                }
                assert(names.deep_view() =~= declared_qos(ps.take(i as int)).push(q@));
            },
            None => {},
        }
        i = i + 1;
    }
    assert(ps.take(i as int) =~= ps);
    let sorted = crate::order::sort_texts(names);
    let ghost srt = sorted.deep_view();
    let mut out: Vec<String> = Vec::new();
    let mut k: usize = 0;
    while k < sorted.len()
        invariant
            k <= sorted@.len(),
            srt == sorted.deep_view(),
            srt.len() == sorted@.len(),
            out.deep_view() == dedup(srt.take(k as int)),
        decreases sorted@.len() - k,
    {
        assert(srt.take(k + 1).drop_last() =~= srt.take(k as int));
        assert(srt.take(k + 1).last() == srt[k as int]);
        assert(srt[k as int] == sorted@[k as int]@);
        let repeat = k > 0 && chars_eq(&sorted[k - 1], &sorted[k]);
        proof {
            if k > 0 {
                assert(srt.take(k + 1)[k - 1] == srt[k - 1]);
                assert(srt[k - 1] == sorted@[k - 1]@);
            }
        }
        if !repeat {
            let ghost before = out.deep_view();
            out.push(string_of(&sorted[k]));
            assert(out.deep_view() =~= before.push(srt[k as int]));
        }
        k = k + 1;
    }
    assert(srt.take(k as int) =~= srt);
    out
}

/// The position of the last of `qos` named `name`, where one is.
pub open spec fn last_named(qos: Seq<SlurmQos>, name: Seq<char>) -> Option<int>
    decreases qos.len(),
{
    if qos.len() == 0 {
        None
    } else if qos.last().name@ == name {
        Some(qos.len() - 1)
    } else {
        last_named(qos.drop_last(), name)
    }
}

proof fn lemma_last_named_in_range(qos: Seq<SlurmQos>, name: Seq<char>)
    ensures
        match last_named(qos, name) {
            Some(j) => 0 <= j < qos.len() && qos[j].name@ == name,
            None => true,
        },
    decreases qos.len(),
{
    if qos.len() > 0 {
        lemma_last_named_in_range(qos.drop_last(), name);
    }
}

/// The QOS record a partition's limits come from: the last record named as its QOS, so that
/// a later record of one name stands for it, as when collected into a map by name.
pub open spec fn record_of(p: Partition, qos: Seq<SlurmQos>) -> Option<SlurmQos> {
    match p.qos {
        Some(q) => match last_named(qos, q@) {
            Some(j) => Some(qos[j]),
            None => None,
        },
        None => None,
    }
}

/// Whether `l` holds the limits of partition `p` from the QOS records `qos` (see
/// `PartitionLimits::new` and `record_of`).
pub open spec fn limits_from(l: PartitionLimits, p: Partition, qos: Seq<SlurmQos>) -> bool {
    &&& l.partition@ == p.name@
    &&& opt_text(l.qos) == opt_text(p.qos)
    &&& match record_of(p, qos) {
        Some(r) => {
            &&& l.max_jobs_per_user == (if r.max_jobs_per_user >= u32::MAX - 1 {
                None
            } else {
                Some(r.max_jobs_per_user)
            })
            &&& opt_text(l.max_tres_per_user) == opt_text(r.max_tres_per_user)
            &&& opt_text(l.max_tres_per_group) == opt_text(r.max_tres_per_group)
        },
        None => {
            &&& l.max_jobs_per_user is None
            &&& l.max_tres_per_user is None
            &&& l.max_tres_per_group is None
        },
    }
}

/// The position of the last of `qos` named `name`, where one is (see `last_named`).
fn find_last_named(qos: &[SlurmQos], name: &str) -> (r: Option<usize>)
    ensures
        match r {
            Some(j) => last_named(qos@, name@) == Some(j as int),
            None => last_named(qos@, name@) is None,
        },
{
    let ghost all = qos@;
    let target = chars_of(name);
    let mut i: usize = qos.len();
    assert(all.take(i as int) =~= all);
    while i > 0
        invariant
            i <= all.len(),
            all == qos@,
            target@ == name@,
            last_named(all, name@) == last_named(all.take(i as int), name@),
        decreases i,
    {
        let ghost t = all.take(i as int);
        assert(t.drop_last() =~= all.take(i - 1));
        assert(t.last() == all[i - 1]);
        let n = chars_of(qos[i - 1].name.as_str());
        if chars_eq(&n, &target) {
            return Some(i - 1);
        }
        i = i - 1;
    }
    None
}

/// The limits of each partition from the QOS records the database returned (see
/// `limits_from`), in partition order.
pub fn partition_limits(partitions: &[Partition], qos: &[SlurmQos]) -> (out: Vec<PartitionLimits>)
    ensures
        out@.len() == partitions@.len(),
        forall|i: int| 0 <= i < out@.len() ==> #[trigger] limits_from(out@[i], partitions@[i], qos@),
{
    let mut out: Vec<PartitionLimits> = Vec::new();
    let mut i: usize = 0;
    while i < partitions.len()
        invariant
            i <= partitions@.len(),
            out@.len() == i,
            forall|k: int| 0 <= k < i ==> #[trigger] limits_from(out@[k], partitions@[k], qos@),
        decreases partitions@.len() - i,
    {
        let p = &partitions[i];
        let record = match &p.qos {
            Some(q) => match find_last_named(qos, q.as_str()) {
                Some(j) => {
                    proof {
                        lemma_last_named_in_range(qos@, q@);
                    }
                    Some(&qos[j])
                },
                None => None,
            },
            None => None,
        };
        let qos_name = copy_opt(&p.qos);
        let l = PartitionLimits::new(p.name.as_str(), qos_name, record);
        assert(limits_from(l, partitions@[i as int], qos@));
        out.push(l);
        i = i + 1;
    }
    out
}

} // verus!
