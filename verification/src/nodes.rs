//! Nodes as the reports see them, and the GPU summary read from a node's GRES strings.
use vstd::prelude::*;
use crate::states::NodeState;
use crate::text::{chars_of, copy_range, parse_nat, parse_unsigned, split_chars, split_on, trim, trim_chars, lemma_texts_deep_view, string_of};
use crate::tres::{last_index, rsplit_once};

verus! {

/// The GPUs of a node, assuming it has one kind of GPU.
#[derive(Debug)]
pub struct GpuInfo {
    pub name: String,
    pub total_gpus: u64,
    pub allocated_gpus: u64,
}

/// A node, with the fields the reports read.
#[derive(Debug)]
pub struct Node {
    /// The node's position among the cluster's nodes
    pub id: usize,
    pub name: String,
    pub state: NodeState,
    pub cpus: u16,
    /// Memory, in megabytes
    pub real_memory: u64,
    pub free_memory: u64,
    pub features: Vec<String>,
    pub active_features: Vec<String>,
    pub gpu_info: Option<GpuInfo>,
    pub gres: String,
    pub gres_used: String,
    pub partitions: String,
    pub reason: String,
}

/// Every node of the cluster, each at the position its `id` names.
#[derive(Debug)]
pub struct SlurmNodes {
    pub nodes: Vec<Node>,
    /// When the controller last updated this information, in seconds since the epoch
    pub last_update: i64,
}

/// One entry of a node's GRES string, read as `name:count` once any parenthesized detail
/// is cut off and the rest trimmed; `None` where there is no `:` or the count is not a
/// number that fits in a `u64`.
pub open spec fn local_gres_entry(entry: Seq<char>) -> Option<(Seq<char>, u64)> {
    let main = trim(split_on(entry, seq!['('])[0]);
    match rsplit_once(main, ':') {
        Some((key, count)) => match parse_nat(count, u64::MAX as nat) {
            Some(v) => Some((key, v as u64)),
            None => None,
        },
        None => None,
    }
}

/// The readable entries of a GRES string, in order.
pub open spec fn local_gres_entries(pieces: Seq<Seq<char>>) -> Seq<(Seq<char>, u64)>
    decreases pieces.len(),
{
    if pieces.len() == 0 {
        Seq::empty()
    } else {
        let init = local_gres_entries(pieces.drop_last());
        match local_gres_entry(pieces.last()) {
            Some(e) => init.push(e),
            None => init,
        }
    }
}

/// The count recorded for `key` among `entries`, the last entry for it winning; zero
/// where there is none.
pub open spec fn count_for(entries: Seq<(Seq<char>, u64)>, key: Seq<char>) -> u64
    decreases entries.len(),
{
    if entries.len() == 0 {
        0
    } else if entries.last().0 == key {
        entries.last().1
    } else {
        count_for(entries.drop_last(), key)
    }
}

pub open spec fn starts_with_gpu(key: Seq<char>) -> bool {
    key.len() >= 3 && key[0] == 'g' && key[1] == 'p' && key[2] == 'u'
}

/// The position of the first entry whose name starts with `gpu`.
pub open spec fn first_gpu_entry(entries: Seq<(Seq<char>, u64)>) -> Option<int>
    decreases entries.len(),
{
    if entries.len() == 0 {
        None
    } else {
        match first_gpu_entry(entries.drop_last()) {
            Some(i) => Some(i),
            None => if starts_with_gpu(entries.last().0) {
                Some(entries.len() - 1)
            } else {
                None
            },
        }
    }
}

/// The GPU summary of a node with configured GRES `gres` and allocated GRES `used`: the
/// first configured GRES named `gpu...`, its configured count and the count allocated of
/// it, or `None` where there is no such GRES or it counts no GPUs.
pub open spec fn gpu_summary(gres: Seq<char>, used: Seq<char>) -> Option<(Seq<char>, u64, u64)> {
    let configured = local_gres_entries(split_on(gres, seq![',']));
    let allocated = local_gres_entries(split_on(used, seq![',']));
    match first_gpu_entry(configured) {
        Some(i) => {
            let key = configured[i].0;
            let total = count_for(configured, key);
            if total > 0 {
                Some((key, total, count_for(allocated, key)))
            } else {
                None
            }
        },
        None => None,
    }
}

proof fn lemma_first_gpu_entry(entries: Seq<(Seq<char>, u64)>)
    ensures
        first_gpu_entry(entries) matches Some(i) ==> 0 <= i < entries.len() && starts_with_gpu(
            entries[i].0,
        ),
    decreases entries.len(),
{
    if entries.len() > 0 {
        lemma_first_gpu_entry(entries.drop_last());
    }
}

fn local_entry(entry: &[char]) -> (r: Option<(Vec<char>, u64)>)
    ensures
        r matches Some(e) ==> local_gres_entry(entry@) == Some((e.0@, e.1)),
        r is None ==> local_gres_entry(entry@) is None,
{
    let parts = split_chars(entry, &['(']);
    assert(['('].view() =~= seq!['(']);
    proof {
        crate::text::lemma_split_on_nonempty(entry@, seq!['(']);
        lemma_texts_deep_view(parts);
    }
    let main = trim_chars(&parts[0]);
    proof {
        crate::tres::lemma_last_index(main@, ':');
    }
    match crate::tres::rfind_char(&main, ':') {
        Some(k) => {
            let len = main.len();
            let key = copy_range(&main, 0, k);
            let count = copy_range(&main, k + 1, len);
            assert(key@ =~= main@.take(k as int));
            assert(count@ =~= main@.skip(k + 1));
            match parse_unsigned(&count, u64::MAX) {
                Some(v) => Some((key, v)),
                None => None,
            }
        },
        None => None,
    }
}

fn local_entries(s: &str) -> (out: Vec<(Vec<char>, u64)>)
    ensures
        out@.map_values(|e: (Vec<char>, u64)| (e.0@, e.1)) == local_gres_entries(
            split_on(s@, seq![',']),
        ),
{
    let cs = chars_of(s);
    let pieces = split_chars(&cs, &[',']);
    assert([','].view() =~= seq![',']);
    proof {
        lemma_texts_deep_view(pieces);
    }
    let ghost ps = pieces.deep_view();
    let mut out: Vec<(Vec<char>, u64)> = Vec::new();
    let mut i: usize = 0;
    while i < pieces.len()
        invariant
            i <= pieces@.len(),
            ps == pieces.deep_view(),
            ps.len() == pieces@.len(),
            forall|k: int| 0 <= k < pieces@.len() ==> #[trigger] ps[k] == pieces@[k]@,
            out@.map_values(|e: (Vec<char>, u64)| (e.0@, e.1)) == local_gres_entries(
                ps.take(i as int),
            ),
        decreases pieces@.len() - i,
    {
        assert(ps[i as int] == pieces@[i as int]@);
        assert(ps.take(i + 1).drop_last() =~= ps.take(i as int));
        let ghost before = out@;
        match local_entry(&pieces[i]) {
            Some(e) => {
                out.push(e);
                assert(out@.map_values(|e: (Vec<char>, u64)| (e.0@, e.1)) =~= before.map_values(
                    |e: (Vec<char>, u64)| (e.0@, e.1),
                ).push((out@.last().0@, out@.last().1)));
            },
            None => {},
        }
        i = i + 1;
    }
    assert(ps.take(pieces@.len() as int) =~= ps);
    out
}

pub open spec fn entries_of(v: Seq<(Vec<char>, u64)>) -> Seq<(Seq<char>, u64)> {
    v.map_values(|e: (Vec<char>, u64)| (e.0@, e.1))
}

fn count_in(entries: &Vec<(Vec<char>, u64)>, key: &[char]) -> (n: u64)
    ensures
        n == count_for(entries_of(entries@), key@),
{
    let mut j: usize = entries.len();
    let ghost es = entries_of(entries@);
    assert(es.take(j as int) =~= es);
    while j > 0
        invariant
            j <= entries@.len(),
            es == entries_of(entries@),
            count_for(es, key@) == count_for(es.take(j as int), key@),
        decreases j,
    {
        assert(es.take(j as int).drop_last() =~= es.take(j - 1));
        assert(es[j - 1] == (entries@[j - 1].0@, entries@[j - 1].1));
        if crate::text::chars_eq(&entries[j - 1].0, key) {
            return entries[j - 1].1;
        }
        j = j - 1;
    }
    0
}

fn is_gpu_name(key: &[char]) -> (b: bool)
    ensures
        b == starts_with_gpu(key@),
{
    key.len() >= 3 && key[0] == 'g' && key[1] == 'p' && key[2] == 'u'
}

/// Reads a node's GPUs from its configured GRES `gres` and allocated GRES `gres_used`.
pub fn create_gpu_info(gres: &str, gres_used: &str) -> (r: Option<GpuInfo>)
    ensures
        r matches Some(g) ==> gpu_summary(gres@, gres_used@) == Some(
            (g.name@, g.total_gpus, g.allocated_gpus),
        ),
        r is None ==> gpu_summary(gres@, gres_used@) is None,
{
    let configured = local_entries(gres);
    let allocated = local_entries(gres_used);
    let ghost cs = entries_of(configured@);
    proof {
        lemma_first_gpu_entry(cs);
    }
    let mut i: usize = 0;
    while i < configured.len() && !is_gpu_name(&configured[i].0)
        invariant
            i <= configured@.len(),
            cs == entries_of(configured@),
            first_gpu_entry(cs.take(i as int)) is None,
        decreases configured@.len() - i,
    {
        assert(cs.take(i + 1).drop_last() =~= cs.take(i as int));
        assert(cs[i as int].0 == configured@[i as int].0@);
        i = i + 1;
    }
    if i == configured.len() {
        assert(cs.take(i as int) =~= cs);
        return None;
    }
    proof {
        assert(cs.take(i + 1).drop_last() =~= cs.take(i as int));
        assert(cs[i as int].0 == configured@[i as int].0@);
        lemma_first_gpu_prefix(cs, i as int + 1);
    }
    let key = copy_range(&configured[i].0, 0, configured[i].0.len());
    assert(key@ =~= cs[i as int].0);
    let total = count_in(&configured, &key);
    if total > 0 {
        let used = count_in(&allocated, &key);
        Some(GpuInfo { name: string_of(&key), total_gpus: total, allocated_gpus: used })
    } else {
        None
    }
}

proof fn lemma_first_gpu_prefix(es: Seq<(Seq<char>, u64)>, n: int)
    requires
        0 <= n <= es.len(),
        first_gpu_entry(es.take(n)) is Some,
    ensures
        first_gpu_entry(es) == first_gpu_entry(es.take(n)),
    decreases es.len() - n,
{
    if n < es.len() {
        assert(es.take(n + 1).drop_last() =~= es.take(n));
        lemma_first_gpu_prefix(es, n + 1);
    } else {
        assert(es.take(n) =~= es);
    }
}

} // verus!
