//! Values keyed by name: counts keyed by resource name, as Slurm names trackable
//! resources ("cpu", "mem", "gres/gpu"), and node positions keyed by node name.
use vstd::prelude::*;
use crate::text::{chars_eq, chars_of};

verus! {

/// Values keyed by name, each name held once.
#[derive(Debug)]
pub struct NameMap<V> {
    entries: Vec<(String, V)>,
}

/// Counts keyed by resource name.
pub type TresMap = NameMap<u64>;

/// The map that inserting `entries` in order into an empty map builds.
pub open spec fn map_of<V>(entries: Seq<(Seq<char>, V)>) -> Map<Seq<char>, V>
    decreases entries.len(),
{
    if entries.len() == 0 {
        Map::empty()
    } else {
        map_of(entries.drop_last()).insert(entries.last().0, entries.last().1)
    }
}

pub open spec fn entries_view<V>(entries: Seq<(String, V)>) -> Seq<(Seq<char>, V)> {
    entries.map_values(|e: (String, V)| (e.0@, e.1))
}

pub open spec fn keys_unique<V>(entries: Seq<(Seq<char>, V)>) -> bool {
    forall|i: int, j: int|
        0 <= i < j < entries.len() ==> #[trigger] entries[i].0 != #[trigger] entries[j].0
}

proof fn lemma_map_of_unique<V>(entries: Seq<(Seq<char>, V)>)
    requires
        keys_unique(entries),
    ensures
        forall|k: Seq<char>|
            #[trigger] map_of(entries).contains_key(k) <==> exists|i: int|
                0 <= i < entries.len() && entries[i].0 == k,
        forall|i: int|
            0 <= i < entries.len() ==> #[trigger] map_of(entries)[entries[i].0] == entries[i].1,
        map_of(entries).dom().finite(),
        map_of(entries).dom().len() == entries.len(),
    decreases entries.len(),
{
    if entries.len() > 0 {
        let init = entries.drop_last();
        assert(keys_unique(init));
        lemma_map_of_unique(init);
        let last = entries.last();
        assert(!map_of(init).contains_key(last.0)) by {
            if map_of(init).contains_key(last.0) {
                let i = choose|i: int| 0 <= i < init.len() && init[i].0 == last.0;
                assert(entries[i].0 != entries[entries.len() - 1].0);
            }
        }
        assert forall|k: Seq<char>|
            #[trigger] map_of(entries).contains_key(k) <==> exists|i: int|
                0 <= i < entries.len() && entries[i].0 == k by {
            if map_of(entries).contains_key(k) && k != last.0 {
                let i = choose|i: int| 0 <= i < init.len() && init[i].0 == k;
                assert(entries[i].0 == k);
            }
            if exists|i: int| 0 <= i < entries.len() && entries[i].0 == k {
                let i = choose|i: int| 0 <= i < entries.len() && entries[i].0 == k;
                if i < entries.len() - 1 {
                    assert(init[i].0 == k);
                }
            }
        }
        assert forall|i: int| 0 <= i < entries.len() implies #[trigger] map_of(entries)[entries[i].0]
            == entries[i].1 by {
            if i < entries.len() - 1 {
                assert(init[i] == entries[i]);
                assert(entries[i].0 != last.0);
            }
        }
    }
}

impl<V> View for NameMap<V> {
    type V = Map<Seq<char>, V>;

    closed spec fn view(&self) -> Map<Seq<char>, V> {
        map_of(entries_view(self.entries@))
    }
}

impl<V> Default for NameMap<V> {
    fn default() -> (m: NameMap<V>)
        ensures
            m.wf(),
            m@ == Map::<Seq<char>, V>::empty(),
    {
        NameMap::new()
    }
}

impl<V> NameMap<V> {
    /// Each name held once.
    pub closed spec fn wf(&self) -> bool {
        keys_unique(entries_view(self.entries@))
    }

    /// An empty map.
    pub fn new() -> (m: NameMap<V>)
        ensures
            m.wf(),
            m@ == Map::<Seq<char>, V>::empty(),
    {
        let m = NameMap { entries: Vec::new() };
        assert(entries_view(m.entries@) =~= Seq::empty());
        m
    }

    fn find(&self, key: &[char]) -> (r: Option<usize>)
        requires
            self.wf(),
        ensures
            r matches Some(i) ==> i < self.entries@.len() && self.entries@[i as int].0@ == key@,
            r is None ==> forall|i: int|
                0 <= i < self.entries@.len() ==> #[trigger] self.entries@[i].0@ != key@,
    {
        let mut i: usize = 0;
        while i < self.entries.len()
            invariant
                i <= self.entries@.len(),
                forall|k: int| 0 <= k < i ==> #[trigger] self.entries@[k].0@ != key@,
            decreases self.entries@.len() - i,
        {
            let name = chars_of(self.entries[i].0.as_str());
            if chars_eq(&name, key) {
                return Some(i);
            }
            i = i + 1;
        }
        None
    }

    /// Sets the count for `key`, replacing any it had, as `HashMap::insert` does.
    pub fn insert(&mut self, key: String, value: V)
        requires
            old(self).wf(),
        ensures
            final(self).wf(),
            final(self)@ == old(self)@.insert(key@, value),
    {
        let k = chars_of(key.as_str());
        let ghost ev = entries_view(self.entries@);
        proof {
            lemma_map_of_unique(ev);
        }
        match self.find(&k) {
            Some(i) => {
                self.entries.set(i, (key, value));
                proof {
                    let nv = entries_view(self.entries@);
                    assert(nv =~= ev.update(i as int, (k@, value)));
                    assert(keys_unique(nv)) by {
                        assert forall|a: int, b: int| 0 <= a < b < nv.len() implies #[trigger] nv[a].0
                            != #[trigger] nv[b].0 by {
                            if a != i && b != i {
                                assert(nv[a] == ev[a] && nv[b] == ev[b]);
                            } else if a == i {
                                assert(nv[b] == ev[b]);
                                assert(ev[a].0 == k@);
                            } else {
                                assert(nv[a] == ev[a]);
                                assert(ev[b].0 == k@);
                            }
                        }
                    }
                    lemma_map_of_unique(nv);
                    assert(map_of(nv) =~= map_of(ev).insert(k@, value)) by {
                        assert forall|x: Seq<char>| #[trigger] map_of(nv).contains_key(x)
                            <==> map_of(ev).insert(k@, value).contains_key(x) by {
                            if map_of(ev).contains_key(x) {
                                let j = choose|j: int| 0 <= j < ev.len() && ev[j].0 == x;
                                if j != i {
                                    assert(nv[j].0 == x);
                                }
                            }
                            if map_of(nv).contains_key(x) {
                                let j = choose|j: int| 0 <= j < nv.len() && nv[j].0 == x;
                                if j != i {
                                    assert(ev[j].0 == x);
                                }
                            }
                            assert(nv[i as int].0 == k@);
                        }
                        assert forall|x: Seq<char>| #[trigger] map_of(nv).contains_key(x) implies
                            map_of(nv)[x] == map_of(ev).insert(k@, value)[x] by {
                            let j = choose|j: int| 0 <= j < nv.len() && nv[j].0 == x;
                            if j != i {
                                assert(nv[j] == ev[j]);
                                assert(ev[j].0 != k@) by {
                                    assert(ev[i as int].0 == k@);
                                }
                            } else {
                                assert(x == k@);
                            }
                        }
                    }
                }
            },
            None => {
                self.entries.push((key, value));
                proof {
                    let nv = entries_view(self.entries@);
                    assert(nv =~= ev.push((k@, value)));
                    assert(nv.drop_last() =~= ev);
                    assert(keys_unique(nv)) by {
                        assert forall|a: int, b: int| 0 <= a < b < nv.len() implies #[trigger] nv[a].0
                            != #[trigger] nv[b].0 by {
                            if b < ev.len() {
                                assert(nv[a] == ev[a] && nv[b] == ev[b]);
                            } else {
                                assert(nv[a] == ev[a]);
                                assert(self.entries@[a].0@ == ev[a].0);
                            }
                        }
                    }
                }
            },
        }
    }

    /// The value for `key`, if it has one.
    pub fn get_ref(&self, key: &str) -> (r: Option<&V>)
        requires
            self.wf(),
        ensures
            match r {
                Some(v) => self@.contains_key(key@) && *v == self@[key@],
                None => !self@.contains_key(key@),
            },
    {
        let k = chars_of(key);
        proof {
            lemma_map_of_unique(entries_view(self.entries@));
        }
        match self.find(&k) {
            Some(i) => {
                assert(entries_view(self.entries@)[i as int].0 == key@);
                Some(&self.entries[i].1)
            },
            None => {
                assert(!self@.contains_key(key@)) by {
                    if self@.contains_key(key@) {
                        let j = choose|j: int|
                            0 <= j < entries_view(self.entries@).len() && entries_view(
                                self.entries@,
                            )[j].0 == key@;
                        assert(self.entries@[j].0@ != key@);
                    }
                }
                None
            },
        }
    }

    /// How many names have a count.
    pub fn len(&self) -> (n: usize)
        requires
            self.wf(),
        ensures
            n == self@.dom().len(),
    {
        proof {
            lemma_map_of_unique(entries_view(self.entries@));
        }
        self.entries.len()
    }

    pub fn is_empty(&self) -> (b: bool)
        requires
            self.wf(),
        ensures
            b == (self@.dom().len() == 0),
    {
        self.len() == 0
    }
}

impl<V: Copy> NameMap<V> {
    /// The value for `key`, if it has one.
    pub fn get(&self, key: &str) -> (r: Option<V>)
        requires
            self.wf(),
        ensures
            r == (if self@.contains_key(key@) {
                Some(self@[key@])
            } else {
                None::<V>
            }),
    {
        let k = chars_of(key);
        proof {
            lemma_map_of_unique(entries_view(self.entries@));
        }
        match self.find(&k) {
            Some(i) => {
                assert(entries_view(self.entries@)[i as int].0 == key@);
                Some(self.entries[i].1)
            },
            None => {
                assert(!self@.contains_key(key@)) by {
                    if self@.contains_key(key@) {
                        let j = choose|j: int|
                            0 <= j < entries_view(self.entries@).len() && entries_view(
                                self.entries@,
                            )[j].0 == key@;
                        assert(self.entries@[j].0@ != key@);
                    }
                }
                None
            },
        }
    }


    /// A copy of this map.
    pub fn duplicate(&self) -> (m: NameMap<V>)
        ensures
            m@ == self@,
            m.wf() == self.wf(),
    {
        let mut entries: Vec<(String, V)> = Vec::new();
        let mut i: usize = 0;
        while i < self.entries.len()
            invariant
                i <= self.entries@.len(),
                entries_view(entries@) == entries_view(self.entries@).take(i as int),
            decreases self.entries@.len() - i,
        {
            let name = crate::text::string_of(&chars_of(self.entries[i].0.as_str()));
            let ghost before = entries_view(entries@);
            entries.push((name, self.entries[i].1));
            assert(entries_view(entries@) =~= before.push(entries_view(self.entries@)[i as int]));
            assert(entries_view(self.entries@).take(i + 1) =~= entries_view(self.entries@).take(i as int).push(entries_view(self.entries@)[i as int]));
            i = i + 1;
        }
        assert(entries_view(self.entries@).take(i as int) =~= entries_view(self.entries@));
        NameMap { entries }
    }
}

/// Whether `n` is the length of the longest series `m` holds, or zero where it holds none.
pub open spec fn is_longest(m: Map<Seq<char>, Vec<u64>>, n: nat) -> bool {
    &&& forall|k: Seq<char>| #[trigger] m.contains_key(k) ==> m[k]@.len() <= n
    &&& n > 0 ==> exists|k: Seq<char>| #[trigger] m.contains_key(k) && m[k]@.len() == n
}

/// The length of the longest series `m` holds, zero where it holds none.
pub open spec fn longest_len(m: Map<Seq<char>, Vec<u64>>) -> nat {
    choose|n: nat| is_longest(m, n)
}

/// At most one length is the longest.
pub proof fn lemma_longest_unique(m: Map<Seq<char>, Vec<u64>>, a: nat, b: nat)
    requires
        is_longest(m, a),
        is_longest(m, b),
    ensures
        a == b,
{
    if a > 0 {
        let k = choose|k: Seq<char>| #[trigger] m.contains_key(k) && m[k]@.len() == a;
        assert(m[k]@.len() <= b);
    }
    if b > 0 {
        let k = choose|k: Seq<char>| #[trigger] m.contains_key(k) && m[k]@.len() == b;
        assert(m[k]@.len() <= a);
    }
}

impl NameMap<Vec<u64>> {
    /// The length of the longest series held, zero where none is (see `is_longest`).
    pub fn longest(&self) -> (n: usize)
        requires
            self.wf(),
        ensures
            is_longest(self@, n as nat),
            n as nat == longest_len(self@),
    {
        let ghost ev = entries_view(self.entries@);
        proof {
            lemma_map_of_unique(ev);
        }
        let mut best: usize = 0;
        let mut i: usize = 0;
        while i < self.entries.len()
            invariant
                i <= self.entries@.len(),
                ev == entries_view(self.entries@),
                forall|j: int| 0 <= j < i ==> (#[trigger] self.entries@[j]).1@.len() <= best,
                best > 0 ==> exists|j: int| 0 <= j < i && (#[trigger] self.entries@[j]).1@.len() == best,
            decreases self.entries@.len() - i,
        {
            let l = self.entries[i].1.len();
            if l > best {
                best = l;
                assert(self.entries@[i as int].1@.len() == best);
            }
            i = i + 1;
        }
        let ghost m = self@;
        assert forall|k: Seq<char>| #[trigger] m.contains_key(k) implies m[k]@.len() <= best by {
            let j = choose|j: int| 0 <= j < ev.len() && ev[j].0 == k;
            assert(m[ev[j].0] == ev[j].1);
            assert(ev[j].1 == self.entries@[j].1);
        }
        if best > 0 {
            let ghost j = choose|j: int| 0 <= j < self.entries@.len() && (#[trigger] self.entries@[j]).1@.len() == best;
            assert(m.contains_key(ev[j].0) && m[ev[j].0]@.len() == best) by {
                assert(ev[j] == (self.entries@[j].0@, self.entries@[j].1));
            }
        }
        assert(is_longest(m, best as nat));
        proof {
            let c = longest_len(m);
            assert(is_longest(m, c));
            lemma_longest_unique(m, c, best as nat);
        }
        best
    }
}

impl<V> NameMap<V> {
    /// The names held, each once, in no particular order.
    pub fn names(&self) -> (v: Vec<Vec<char>>)
        requires
            self.wf(),
        ensures
            v.deep_view().no_duplicates(),
            forall|k: Seq<char>| #[trigger] v.deep_view().contains(k) <==> self@.contains_key(k),
            v.deep_view().len() == self@.dom().len(),
    {
        let ghost ev = entries_view(self.entries@);
        proof {
            lemma_map_of_unique(ev);
        }
        let mut v: Vec<Vec<char>> = Vec::new();
        let mut i: usize = 0;
        while i < self.entries.len()
            invariant
                i <= self.entries@.len(),
                ev == entries_view(self.entries@),
                keys_unique(ev),
                v@.len() == i,
                forall|j: int| 0 <= j < i ==> (#[trigger] v@[j])@ == ev[j].0,
            decreases self.entries@.len() - i,
        {
            let k = chars_of(self.entries[i].0.as_str());
            v.push(k);
            i = i + 1;
        }
        proof {
            crate::text::lemma_texts_deep_view(v);
        }
        let ghost names = v.deep_view();
        assert(names.no_duplicates()) by {
            assert forall|a: int, b: int| 0 <= a < names.len() && 0 <= b < names.len() && a != b implies names[a]
                != names[b] by {
                assert(names[a] == v@[a]@ && names[b] == v@[b]@);
                if a < b {
                    assert(ev[a].0 != ev[b].0);
                } else {
                    assert(ev[b].0 != ev[a].0);
                }
            }
        }
        assert forall|k: Seq<char>| #[trigger] names.contains(k) <==> self@.contains_key(k) by {
            if names.contains(k) {
                let j = choose|j: int| 0 <= j < names.len() && names[j] == k;
                assert(names[j] == v@[j]@);
                assert(ev[j].0 == k);
            }
            if self@.contains_key(k) {
                let j = choose|j: int| 0 <= j < ev.len() && ev[j].0 == k;
                assert(names[j] == v@[j]@);
                assert(names[j] == k);
            }
        }
        v
    }
}

} // verus!
