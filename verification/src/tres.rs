//! Trackable-resource (TRES) and generic-resource (GRES) strings:
//! `"cpu=4,mem=8G,gres/gpu=1"` and `"gpu:a100:4(IDX:0-3)"`.
use vstd::prelude::*;
use crate::text::{
    all_digits, chars_of, copy_range, digits_value, is_digit, parse_nat, parse_unsigned,
    split_chars, split_on, split_once, split_once_chars, string_of, lemma_texts_deep_view,
};
use crate::tres_map::TresMap;

verus! {

/// How many ASCII digits `s` starts with.
pub open spec fn leading_digits(s: Seq<char>) -> nat
    decreases s.len(),
{
    if s.len() > 0 && is_digit(s[0]) {
        1 + leading_digits(s.drop_first())
    } else {
        0
    }
}

proof fn lemma_leading_digits(s: Seq<char>)
    ensures
        leading_digits(s) <= s.len(),
        all_digits(s.take(leading_digits(s) as int)),
        leading_digits(s) < s.len() ==> !is_digit(s[leading_digits(s) as int]),
    decreases s.len(),
{
    if s.len() > 0 && is_digit(s[0]) {
        lemma_leading_digits(s.drop_first());
        let n = leading_digits(s.drop_first()) as int;
        assert forall|i: int| 0 <= i < n + 1 implies is_digit(#[trigger] s.take(n + 1)[i]) by {
            if i > 0 {
                assert(s.take(n + 1)[i] == s.drop_first().take(n)[i - 1]);
            }
        }
        if n + 1 < s.len() {
            assert(s[n + 1] == s.drop_first()[n]);
        }
    }
}

fn count_leading_digits(s: &[char]) -> (n: usize)
    ensures
        n == leading_digits(s@),
{
    proof {
        lemma_leading_digits(s@);
    }
    let mut i: usize = 0;
    assert(s@.skip(0) =~= s@);
    while i < s.len() && '0' <= s[i] && s[i] <= '9'
        invariant
            i <= s@.len(),
            leading_digits(s@) == i + leading_digits(s@.skip(i as int)),
        decreases s@.len() - i,
    {
        assert(s@.skip(i as int).drop_first() =~= s@.skip(i + 1));
        i = i + 1;
    }
    assert(leading_digits(s@.skip(i as int)) == 0) by {
        if i < s@.len() {
            assert(s@.skip(i as int)[0] == s@[i as int]);
        }
    }
    i
}

/// The factor a unit suffix stands for: binary kilo, mega, giga or tera by its first
/// letter, either case; anything else counts as one.
pub open spec fn unit_multiplier(unit: Seq<char>) -> nat {
    if unit.len() == 0 {
        1
    } else if unit[0] == 'K' || unit[0] == 'k' {
        1024
    } else if unit[0] == 'M' || unit[0] == 'm' {
        1024 * 1024
    } else if unit[0] == 'G' || unit[0] == 'g' {
        1024 * 1024 * 1024
    } else if unit[0] == 'T' || unit[0] == 't' {
        1024 * 1024 * 1024 * 1024
    } else {
        1
    }
}

/// One `key=value` entry of a TRES string, its value scaled by its unit; `None` where the
/// entry has no `=` or its value does not start with a number that fits in a `u64`.
pub open spec fn tres_entry(piece: Seq<char>) -> Option<(Seq<char>, nat)> {
    match split_once(piece, '=') {
        Some((key, value)) => {
            let n = leading_digits(value);
            match parse_nat(value.take(n as int), u64::MAX as nat) {
                Some(base) => Some((key, base * unit_multiplier(value.skip(n as int)))),
                None => None,
            }
        },
        None => None,
    }
}

/// The counts a TRES string's entries `pieces` give, a later entry for a name replacing
/// an earlier one.
pub open spec fn tres_counts(pieces: Seq<Seq<char>>) -> Map<Seq<char>, u64>
    decreases pieces.len(),
{
    if pieces.len() == 0 {
        Map::empty()
    } else {
        let init = tres_counts(pieces.drop_last());
        match tres_entry(pieces.last()) {
            Some((key, value)) => init.insert(key, value as u64),
            None => init,
        }
    }
}

/// Whether every scaled count in the TRES string `s` fits in a `u64`.
pub open spec fn tres_fits(s: Seq<char>) -> bool {
    forall|i: int|
        0 <= i < split_on(s, seq![',']).len() ==> (#[trigger] tres_entry(
            split_on(s, seq![','])[i],
        ) matches Some((key, value)) ==> value <= u64::MAX)
}

fn multiplier_of(unit: &[char]) -> (m: u64)
    ensures
        m == unit_multiplier(unit@),
{
    if unit.len() == 0 {
        1
    } else if unit[0] == 'K' || unit[0] == 'k' {
        1024
    } else if unit[0] == 'M' || unit[0] == 'm' {
        1024 * 1024
    } else if unit[0] == 'G' || unit[0] == 'g' {
        1024 * 1024 * 1024
    } else if unit[0] == 'T' || unit[0] == 't' {
        1024 * 1024 * 1024 * 1024
    } else {
        1
    }
}

fn entry_of(piece: &[char]) -> (r: Option<(Vec<char>, u64)>)
    requires
        tres_entry(piece@) matches Some((k, v)) ==> v <= u64::MAX,
    ensures
        r matches Some((k, v)) ==> tres_entry(piece@) == Some((k@, v as nat)),
        r is None ==> tres_entry(piece@) is None,
{
    match split_once_chars(piece, '=') {
        Some((key, value)) => {
            let n = count_leading_digits(&value);
            proof {
                lemma_leading_digits(value@);
            }
            let numeric = copy_range(&value, 0, n);
            let unit = copy_range(&value, n, value.len());
            assert(numeric@ =~= value@.take(n as int));
            assert(unit@ =~= value@.skip(n as int));
            match parse_unsigned(&numeric, u64::MAX) {
                Some(base) => {
                    let m = multiplier_of(&unit);
                    assert(base * m <= u64::MAX);
                    Some((key, base * m))
                },
                None => None,
            }
        },
        None => None,
    }
}

/// Whether the scaled count of one entry, where it has one, fits in a `u64`.
fn entry_fits(piece: &[char]) -> (b: bool)
    ensures
        b == (tres_entry(piece@) matches Some((k, v)) ==> v <= u64::MAX),
{
    match split_once_chars(piece, '=') {
        Some((_key, value)) => {
            let n = count_leading_digits(&value);
            proof {
                lemma_leading_digits(value@);
            }
            let numeric = copy_range(&value, 0, n);
            let unit = copy_range(&value, n, value.len());
            assert(numeric@ =~= value@.take(n as int));
            assert(unit@ =~= value@.skip(n as int));
            match parse_unsigned(&numeric, u64::MAX) {
                Some(base) => base.checked_mul(multiplier_of(&unit)).is_some(),
                None => true,
            }
        },
        None => true,
    }
}

/// Whether every scaled count in `tres_str` fits in a `u64` (see `tres_fits`), as
/// `parse_tres_str` needs.
pub fn tres_str_fits(tres_str: &str) -> (b: bool)
    ensures
        b == tres_fits(tres_str@),
{
    let s = chars_of(tres_str);
    let pieces = split_chars(&s, &[',']);
    assert([','].view() =~= seq![',']);
    proof {
        lemma_texts_deep_view(pieces);
    }
    let ghost ps = split_on(s@, seq![',']);
    let mut i: usize = 0;
    while i < pieces.len()
        invariant
            i <= pieces@.len(),
            ps == pieces.deep_view(),
            ps.len() == pieces@.len(),
            forall|k: int| 0 <= k < pieces@.len() ==> #[trigger] ps[k] == pieces@[k]@,
            ps == split_on(tres_str@, seq![',']),
            forall|k: int| 0 <= k < i ==> (#[trigger] tres_entry(ps[k]) matches Some((key, value)) ==> value <= u64::MAX),
        decreases pieces@.len() - i,
    {
        assert(ps[i as int] == pieces@[i as int]@);
        if !entry_fits(&pieces[i]) {
            return false;
        }
        i = i + 1;
    }
    true
}

/// Parses a TRES string such as `"cpu=4,mem=8G,gres/gpu=1"` into counts by name.
///
/// A value is read up to its first non-digit; a unit suffix starting with K, M, G or T
/// (either case) scales it to bytes in binary units. Entries without `=` or without a
/// leading number are skipped, and a later entry for a name replaces an earlier one.
pub fn parse_tres_str(tres_str: &str) -> (m: TresMap)
    requires
        tres_fits(tres_str@),
    ensures
        m.wf(),
        m@ == tres_counts(split_on(tres_str@, seq![','])),
{
    let s = chars_of(tres_str);
    let pieces = split_chars(&s, &[',']);
    assert([','].view() =~= seq![',']);
    proof {
        lemma_texts_deep_view(pieces);
    }
    let ghost ps = split_on(s@, seq![',']);
    let mut m = TresMap::new();
    let mut i: usize = 0;
    while i < pieces.len()
        invariant
            i <= pieces@.len(),
            ps == pieces.deep_view(),
            ps.len() == pieces@.len(),
            forall|k: int| 0 <= k < pieces@.len() ==> #[trigger] ps[k] == pieces@[k]@,
            tres_fits(tres_str@),
            ps == split_on(tres_str@, seq![',']),
            m.wf(),
            m@ == tres_counts(ps.take(i as int)),
        decreases pieces@.len() - i,
    {
        assert(ps[i as int] == pieces@[i as int]@);
        assert(tres_entry(ps[i as int]) matches Some((k, v)) ==> v <= u64::MAX);
        assert(ps.take(i + 1).drop_last() =~= ps.take(i as int));
        match entry_of(&pieces[i]) {
            Some((key, value)) => {
                m.insert(string_of(&key), value);
            },
            None => {},
        }
        i = i + 1;
    }
    assert(ps.take(pieces@.len() as int) =~= ps);
    m
}

/// The position of the last occurrence of `c` in `s`, if any.
pub open spec fn last_index(s: Seq<char>, c: char) -> Option<int>
    decreases s.len(),
{
    if s.len() == 0 {
        None
    } else if s.last() == c {
        Some(s.len() - 1)
    } else {
        last_index(s.drop_last(), c)
    }
}

/// `str::rsplit_once`: the text before and after the last `c`, if there is one.
pub open spec fn rsplit_once(s: Seq<char>, c: char) -> Option<(Seq<char>, Seq<char>)> {
    match last_index(s, c) {
        Some(k) => Some((s.take(k), s.skip(k + 1))),
        None => None,
    }
}

pub proof fn lemma_last_index(s: Seq<char>, c: char)
    ensures
        last_index(s, c) matches Some(k) ==> 0 <= k < s.len(),
    decreases s.len(),
{
    if s.len() > 0 && s.last() != c {
        lemma_last_index(s.drop_last(), c);
    }
}

pub fn rfind_char(s: &[char], c: char) -> (r: Option<usize>)
    ensures
        r matches Some(k) ==> last_index(s@, c) == Some(k as int),
        r is None ==> last_index(s@, c) is None,
{
    let mut j: usize = s.len();
    assert(s@.take(j as int) =~= s@);
    while j > 0
        invariant
            j <= s@.len(),
            last_index(s@, c) == last_index(s@.take(j as int), c),
        decreases j,
    {
        assert(s@.take(j as int).drop_last() =~= s@.take(j - 1));
        if s[j - 1] == c {
            return Some(j - 1);
        }
        j = j - 1;
    }
    None
}

/// One GRES entry, `name:count` with anything after the count's digits ignored; `None`
/// where it has no `:` or no count.
pub open spec fn gres_entry(piece: Seq<char>) -> Option<(Seq<char>, nat)> {
    match rsplit_once(piece, ':') {
        Some((name, count)) => match parse_nat(
            count.take(leading_digits(count) as int),
            u64::MAX as nat,
        ) {
            Some(v) => Some((name, v)),
            None => None,
        },
        None => None,
    }
}

/// The counts of a GRES string's entries `pieces`, a later entry for a name replacing an
/// earlier one.
pub open spec fn gres_counts(pieces: Seq<Seq<char>>) -> Map<Seq<char>, u64>
    decreases pieces.len(),
{
    if pieces.len() == 0 {
        Map::empty()
    } else {
        let init = gres_counts(pieces.drop_last());
        match gres_entry(pieces.last()) {
            Some((name, value)) => init.insert(name, value as u64),
            None => init,
        }
    }
}

fn gres_entry_of(piece: &[char]) -> (r: Option<(Vec<char>, u64)>)
    ensures
        r matches Some((k, v)) ==> gres_entry(piece@) == Some((k@, v as nat)),
        r is None ==> gres_entry(piece@) is None,
{
    proof {
        lemma_last_index(piece@, ':');
    }
    match rfind_char(piece, ':') {
        Some(k) => {
            let len = piece.len();
            assert(k < len);
            let name = copy_range(piece, 0, k);
            let count = copy_range(piece, k + 1, len);
            assert(name@ =~= piece@.take(k as int));
            assert(count@ =~= piece@.skip(k + 1));
            let n = count_leading_digits(&count);
            proof {
                lemma_leading_digits(count@);
            }
            let digits = copy_range(&count, 0, n);
            assert(digits@ =~= count@.take(n as int));
            match parse_unsigned(&digits, u64::MAX) {
                Some(v) => Some((name, v)),
                None => None,
            }
        },
        None => None,
    }
}

/// Parses a GRES string such as `"gpu:a100-sxm4-40gb:4(IDX:0-3)"` into counts by full
/// GRES name: each comma-separated entry splits at its last `:`, and the count is the
/// number its remainder starts with.
pub fn parse_gres_str(gres_str: &str) -> (m: TresMap)
    ensures
        m.wf(),
        m@ == gres_counts(split_on(gres_str@, seq![','])),
{
    let s = chars_of(gres_str);
    let pieces = split_chars(&s, &[',']);
    assert([','].view() =~= seq![',']);
    proof {
        lemma_texts_deep_view(pieces);
    }
    let ghost ps = split_on(s@, seq![',']);
    let mut m = TresMap::new();
    let mut i: usize = 0;
    while i < pieces.len()
        invariant
            i <= pieces@.len(),
            ps == pieces.deep_view(),
            ps.len() == pieces@.len(),
            forall|k: int| 0 <= k < pieces@.len() ==> #[trigger] ps[k] == pieces@[k]@,
            m.wf(),
            m@ == gres_counts(ps.take(i as int)),
        decreases pieces@.len() - i,
    {
        assert(ps[i as int] == pieces@[i as int]@);
        assert(ps.take(i + 1).drop_last() =~= ps.take(i as int));
        match gres_entry_of(&pieces[i]) {
            Some((name, value)) => {
                m.insert(string_of(&name), value);
            },
            None => {},
        }
        i = i + 1;
    }
    assert(ps.take(pieces@.len() as int) =~= ps);
    m
}

} // verus!
