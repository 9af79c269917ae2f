//! The orders the reports sort by: text by code point, as `String`'s `Ord` does (UTF-8
//! byte order and code point order agree), and number/width pairs by number first.
use vstd::prelude::*;
use vstd::relations::*;

verus! {

broadcast use vstd::seq_lib::group_to_multiset_ensures;

/// Lexicographic order on character sequences, comparing code points.
pub open spec fn seq_le(a: Seq<char>, b: Seq<char>) -> bool
    decreases a.len(),
{
    if a.len() == 0 {
        true
    } else if b.len() == 0 {
        false
    } else if a[0] < b[0] {
        true
    } else if a[0] > b[0] {
        false
    } else {
        seq_le(a.drop_first(), b.drop_first())
    }
}

pub open spec fn text_le() -> spec_fn(Seq<char>, Seq<char>) -> bool {
    |a: Seq<char>, b: Seq<char>| seq_le(a, b)
}

proof fn lemma_seq_le_antisym(a: Seq<char>, b: Seq<char>)
    requires
        seq_le(a, b),
        seq_le(b, a),
    ensures
        a == b,
    decreases a.len(),
{
    if a.len() == 0 {
        assert(b.len() == 0);
        assert(a =~= b);
    } else {
        assert(b.len() > 0);
        assert(a[0] == b[0]);
        lemma_seq_le_antisym(a.drop_first(), b.drop_first());
        assert(a =~= seq![a[0]] + a.drop_first());
        assert(b =~= seq![b[0]] + b.drop_first());
    }
}

proof fn lemma_seq_le_trans(a: Seq<char>, b: Seq<char>, c: Seq<char>)
    requires
        seq_le(a, b),
        seq_le(b, c),
    ensures
        seq_le(a, c),
    decreases a.len(),
{
    if a.len() > 0 && b.len() > 0 && c.len() > 0 {
        if a[0] == b[0] && b[0] == c[0] {
            lemma_seq_le_trans(a.drop_first(), b.drop_first(), c.drop_first());
        }
    }
}

proof fn lemma_seq_le_total(a: Seq<char>, b: Seq<char>)
    ensures
        seq_le(a, b) || seq_le(b, a),
    decreases a.len(),
{
    if a.len() > 0 && b.len() > 0 {
        lemma_seq_le_total(a.drop_first(), b.drop_first());
    }
}

proof fn lemma_seq_le_refl(a: Seq<char>)
    ensures
        seq_le(a, a),
    decreases a.len(),
{
    if a.len() > 0 {
        lemma_seq_le_refl(a.drop_first());
    }
}

/// Code point order on text is a total order.
pub proof fn lemma_text_le_total_ordering()
    ensures
        total_ordering(text_le()),
{
    assert forall|x: Seq<char>| #[trigger] text_le()(x, x) by {
        lemma_seq_le_refl(x);
    }
    assert forall|x: Seq<char>, y: Seq<char>|
        #[trigger] text_le()(x, y) && #[trigger] text_le()(y, x) implies x == y by {
        lemma_seq_le_antisym(x, y);
    }
    assert forall|x: Seq<char>, y: Seq<char>, z: Seq<char>|
        #[trigger] text_le()(x, y) && #[trigger] text_le()(y, z) implies text_le()(x, z) by {
        lemma_seq_le_trans(x, y, z);
    }
    assert forall|x: Seq<char>, y: Seq<char>|
        #[trigger] text_le()(x, y) || #[trigger] text_le()(y, x) by {
        lemma_seq_le_total(x, y);
    }
}

/// Whether `a` sorts no later than `b`.
pub fn chars_le(a: &[char], b: &[char]) -> (r: bool)
    ensures
        r == seq_le(a@, b@),
{
    let mut i: usize = 0;
    assert(a@.skip(0) =~= a@ && b@.skip(0) =~= b@);
    while i < a.len() && i < b.len() && a[i] == b[i]
        invariant
            i <= a@.len(),
            i <= b@.len(),
            a@.take(i as int) == b@.take(i as int),
            seq_le(a@, b@) == seq_le(a@.skip(i as int), b@.skip(i as int)),
        decreases a@.len() - i,
    {
        proof {
            let sa = a@.skip(i as int);
            let sb = b@.skip(i as int);
            assert(sa.drop_first() =~= a@.skip(i + 1));
            assert(sb.drop_first() =~= b@.skip(i + 1));
            assert(a@.take(i + 1) =~= a@.take(i as int).push(a@[i as int]));
            assert(b@.take(i + 1) =~= b@.take(i as int).push(b@[i as int]));
        }
        i = i + 1;
    }
    let ghost sa = a@.skip(i as int);
    let ghost sb = b@.skip(i as int);
    if i == a.len() {
        assert(sa.len() == 0);
        true
    } else if i == b.len() {
        assert(sb.len() == 0 && sa.len() > 0);
        false
    } else {
        assert(sa[0] == a@[i as int] && sb[0] == b@[i as int]);
        a[i] < b[i]
    }
}

/// `slice::sort` on text: the items of `v` in code point order.
pub fn sort_texts(v: Vec<Vec<char>>) -> (out: Vec<Vec<char>>)
    ensures
        out.deep_view() == v.deep_view().sort_by(text_le()),
        out.deep_view().to_multiset() == v.deep_view().to_multiset(),
        sorted_by(out.deep_view(), text_le()),
{
    proof {
        lemma_text_le_total_ordering();
    }
    let mut out: Vec<Vec<char>> = Vec::new();
    let mut i: usize = 0;
    while i < v.len()
        invariant
            i <= v@.len(),
            total_ordering(text_le()),
            sorted_by(out.deep_view(), text_le()),
            out.deep_view().to_multiset() == v.deep_view().take(i as int).to_multiset(),
        decreases v@.len() - i,
    {
        let x = v[i].clone();
        let mut p: usize = 0;
        proof {
            crate::text::lemma_texts_deep_view(out);
        }
        while p < out.len() && chars_le(&out[p], &x)
            invariant
                p <= out@.len(),
                forall|k: int| 0 <= k < out@.len() ==> #[trigger] out.deep_view()[k] == out@[k]@,
                forall|k: int| 0 <= k < p ==> seq_le(#[trigger] out.deep_view()[k], x@),
            decreases out@.len() - p,
        {
            p = p + 1;
        }
        let ghost before = out.deep_view();
        proof {
            assert(x.deep_view() =~= x@);
            assert(x@ == v.deep_view()[i as int]);
            if p < out@.len() {
                assert(!seq_le(before[p as int], x@));
                lemma_seq_le_total(before[p as int], x@);
                assert forall|k: int| p <= k < before.len() implies seq_le(x@, #[trigger] before[k]) by {
                    if k > p {
                        assert(text_le()(before[p as int], before[k]));
                        lemma_seq_le_trans(x@, before[p as int], before[k]);
                    }
                }
            }
        }
        out.insert(p, x);
        proof {
            let after = out.deep_view();
            assert(after =~= before.insert(p as int, v.deep_view()[i as int]));
            assert(sorted_by(after, text_le())) by {
                assert forall|a: int, b: int| 0 <= a < b < after.len() implies #[trigger] text_le()(
                    after[a],
                    after[b],
                ) by {
                    if b < p {
                        assert(after[a] == before[a] && after[b] == before[b]);
                    } else if b == p {
                        assert(after[a] == before[a]);
                    } else if a < p {
                        assert(after[a] == before[a] && after[b] == before[b - 1]);
                        assert(seq_le(before[a], x@));
                        assert(seq_le(x@, before[b - 1]));
                        lemma_seq_le_trans(before[a], x@, before[b - 1]);
                    } else if a == p {
                        assert(after[b] == before[b - 1]);
                    } else {
                        assert(after[a] == before[a - 1] && after[b] == before[b - 1]);
                    }
                }
            }
            vstd::seq_lib::to_multiset_insert(before, p as int, v.deep_view()[i as int]);
            assert(v.deep_view().take(i + 1) =~= v.deep_view().take(i as int).push(
                v.deep_view()[i as int],
            ));
        }
        i = i + 1;
    }
    proof {
        assert(v.deep_view().take(v@.len() as int) =~= v.deep_view());
        v.deep_view().lemma_sort_by_ensures(text_le());
        vstd::seq_lib::lemma_sorted_unique(
            out.deep_view(),
            v.deep_view().sort_by(text_le()),
            text_le(),
        );
    }
    out
}

/// Order on (number, width) pairs: by number, then by width, as tuples compare.
pub open spec fn pair_le() -> spec_fn((u32, usize), (u32, usize)) -> bool {
    |a: (u32, usize), b: (u32, usize)| a.0 < b.0 || (a.0 == b.0 && a.1 <= b.1)
}

pub proof fn lemma_pair_le_total_ordering()
    ensures
        total_ordering(pair_le()),
{
}

/// `slice::sort` on (number, width) pairs.
pub fn sort_pairs(v: Vec<(u32, usize)>) -> (out: Vec<(u32, usize)>)
    ensures
        out@ == v@.sort_by(pair_le()),
        out@.to_multiset() == v@.to_multiset(),
        sorted_by(out@, pair_le()),
{
    proof {
        lemma_pair_le_total_ordering();
    }
    let mut out: Vec<(u32, usize)> = Vec::new();
    let mut i: usize = 0;
    while i < v.len()
        invariant
            i <= v@.len(),
            total_ordering(pair_le()),
            sorted_by(out@, pair_le()),
            out@.to_multiset() == v@.take(i as int).to_multiset(),
        decreases v@.len() - i,
    {
        let x = v[i];
        let mut p: usize = 0;
        while p < out.len() && (out[p].0 < x.0 || (out[p].0 == x.0 && out[p].1 <= x.1))
            invariant
                p <= out@.len(),
                forall|k: int| 0 <= k < p ==> #[trigger] pair_le()(out@[k], x),
            decreases out@.len() - p,
        {
            p = p + 1;
        }
        let ghost before = out@;
        proof {
            if p < out@.len() {
                assert(!pair_le()(before[p as int], x));
                assert forall|k: int| p <= k < before.len() implies #[trigger] pair_le()(x, before[k]) by {
                    if k > p {
                        assert(pair_le()(before[p as int], before[k]));
                    }
                }
            }
        }
        out.insert(p, x);
        proof {
            let after = out@;
            assert(sorted_by(after, pair_le())) by {
                assert forall|a: int, b: int| 0 <= a < b < after.len() implies #[trigger] pair_le()(
                    after[a],
                    after[b],
                ) by {
                    if b < p {
                        assert(after[a] == before[a] && after[b] == before[b]);
                    } else if b == p {
                        assert(after[a] == before[a]);
                    } else if a < p {
                        assert(after[a] == before[a] && after[b] == before[b - 1]);
                        assert(pair_le()(before[a], x));
                        assert(pair_le()(x, before[b - 1]));
                    } else if a == p {
                        assert(after[b] == before[b - 1]);
                    } else {
                        assert(after[a] == before[a - 1] && after[b] == before[b - 1]);
                    }
                }
            }
            vstd::seq_lib::to_multiset_insert(before, p as int, x);
            assert(v@.take(i + 1) =~= v@.take(i as int).push(x));
        }
        i = i + 1;
    }
    proof {
        assert(v@.take(v@.len() as int) =~= v@);
        v@.lemma_sort_by_ensures(pair_le());
        vstd::seq_lib::lemma_sorted_unique(out@, v@.sort_by(pair_le()), pair_le());
    }
    out
}


/// Order on (name, position) pairs: by name in code point order, then by position, so
/// that sorting by it is a stable sort by name.
pub open spec fn name_index_le() -> spec_fn((Seq<char>, usize), (Seq<char>, usize)) -> bool {
    |a: (Seq<char>, usize), b: (Seq<char>, usize)|
        if a.0 == b.0 {
            a.1 <= b.1
        } else {
            seq_le(a.0, b.0)
        }
}

pub proof fn lemma_name_index_le_total_ordering()
    ensures
        total_ordering(name_index_le()),
{
    let r = name_index_le();
    assert forall|x: (Seq<char>, usize)| #[trigger] r(x, x) by {}
    assert forall|x: (Seq<char>, usize), y: (Seq<char>, usize)|
        #[trigger] r(x, y) && #[trigger] r(y, x) implies x == y by {
        if x.0 != y.0 {
            lemma_seq_le_antisym(x.0, y.0);
        }
    }
    assert forall|x: (Seq<char>, usize), y: (Seq<char>, usize), z: (Seq<char>, usize)|
        #[trigger] r(x, y) && #[trigger] r(y, z) implies r(x, z) by {
        if x.0 != y.0 && y.0 != z.0 {
            lemma_seq_le_trans(x.0, y.0, z.0);
            if x.0 == z.0 {
                lemma_seq_le_antisym(x.0, y.0);
            }
        }
    }
    assert forall|x: (Seq<char>, usize), y: (Seq<char>, usize)|
        #[trigger] r(x, y) || #[trigger] r(y, x) by {
        lemma_seq_le_total(x.0, y.0);
    }
}

fn name_index_le_exec(a: &(Vec<char>, usize), b: &(Vec<char>, usize)) -> (r: bool)
    ensures
        r == name_index_le()((a.0@, a.1), (b.0@, b.1)),
{
    if crate::text::chars_eq(&a.0, &b.0) {
        a.1 <= b.1
    } else {
        chars_le(&a.0, &b.0)
    }
}

pub open spec fn named_view(v: Seq<(Vec<char>, usize)>) -> Seq<(Seq<char>, usize)> {
    v.map_values(|e: (Vec<char>, usize)| (e.0@, e.1))
}

/// A stable sort of (name, position) pairs by name.
pub fn sort_named(v: Vec<(Vec<char>, usize)>) -> (out: Vec<(Vec<char>, usize)>)
    ensures
        named_view(out@) == named_view(v@).sort_by(name_index_le()),
{
    proof {
        lemma_name_index_le_total_ordering();
    }
    let ghost src = named_view(v@);
    let mut out: Vec<(Vec<char>, usize)> = Vec::new();
    let mut v = v;
    let mut i: usize = 0;
    let n = v.len();
    while v.len() > 0
        invariant
            i + v@.len() == n,
            n == src.len(),
            named_view(v@) == src.skip(i as int),
            total_ordering(name_index_le()),
            sorted_by(named_view(out@), name_index_le()),
            named_view(out@).to_multiset() == src.take(i as int).to_multiset(),
        decreases v@.len(),
    {
        let ghost old_v = named_view(v@);
        let x = v.remove(0);
        let ghost xv = (x.0@, x.1);
        assert(xv == src[i as int]) by {
            assert(src.skip(i as int)[0] == src[i as int]);
            assert(old_v[0] == xv);
        }
        assert(named_view(v@) =~= old_v.drop_first());
        assert(old_v.drop_first() =~= src.skip(i + 1));
        let mut p: usize = 0;
        while p < out.len() && name_index_le_exec(&out[p], &x)
            invariant
                p <= out@.len(),
                xv == (x.0@, x.1),
                forall|k: int| 0 <= k < p ==> #[trigger] name_index_le()(named_view(out@)[k], xv),
            decreases out@.len() - p,
        {
            p = p + 1;
        }
        let ghost before = named_view(out@);
        proof {
            if p < out@.len() {
                assert(!name_index_le()(before[p as int], xv));
                assert(name_index_le()(xv, before[p as int]) || name_index_le()(before[p as int], xv));
                assert forall|k: int| p <= k < before.len() implies #[trigger] name_index_le()(xv, before[k]) by {
                    if k > p {
                        assert(name_index_le()(before[p as int], before[k]));
                        assert(name_index_le()(xv, before[p as int]) && name_index_le()(before[p as int], before[k]));
                    }
                }
            }
        }
        out.insert(p, x);
        proof {
            let after = named_view(out@);
            assert(after =~= before.insert(p as int, xv));
            assert(sorted_by(after, name_index_le())) by {
                assert forall|a: int, b: int| 0 <= a < b < after.len() implies #[trigger] name_index_le()(
                    after[a],
                    after[b],
                ) by {
                    if b < p {
                        assert(after[a] == before[a] && after[b] == before[b]);
                    } else if b == p {
                        assert(after[a] == before[a]);
                    } else if a < p {
                        assert(after[a] == before[a] && after[b] == before[b - 1]);
                        assert(name_index_le()(before[a], xv));
                        assert(name_index_le()(xv, before[b - 1]));
                    } else if a == p {
                        assert(after[b] == before[b - 1]);
                    } else {
                        assert(after[a] == before[a - 1] && after[b] == before[b - 1]);
                    }
                }
            }
            vstd::seq_lib::to_multiset_insert(before, p as int, xv);
            assert(src.take(i + 1) =~= src.take(i as int).push(xv));
        }
        i = i + 1;
    }
    proof {
        assert(src.take(i as int) =~= src);
        src.lemma_sort_by_ensures(name_index_le());
        vstd::seq_lib::lemma_sorted_unique(named_view(out@), src.sort_by(name_index_le()), name_index_le());
    }
    out
}
} // verus!
