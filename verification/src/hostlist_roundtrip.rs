//! That parsing a compressed hostlist gives back the names it was made of: the digit
//! arithmetic of zero-padded numbers, the shape of the compressed text, and how its
//! expansion regroups the names.
use vstd::prelude::*;
use crate::text::{
    all_digits, decimal, digit_char, digit_val, digits_value, is_digit, is_ws, join, parse_nat, split_on, trim,
    trim_end, trim_start, zero_pad,
};
use crate::hostlist::{depth, nonempty_trimmed, top_split};
use crate::pattern::{close_after, last_opening, opens_list, range_captures};
use crate::hostlist::{expand_range_spec, expand_range_specs, run_text, run_texts, runs, lemma_runs_nonempty};
use crate::text::{first_index, lemma_first_index, split_once, all_ascii};
use crate::pattern::{ascii_digit, digit_run_end, first_digit_from, group_text, node_captures, one_line};
use crate::hostlist::{node_entry, node_groups, entry_from, expression_names, range_groups, group_part, compress_parts, compressed, expressions, hostlist_names};
use crate::order::{pair_le, text_le};
use crate::hostlist::{
    expand_all, group_keys, group_nums, standalone_names, key_of, member_pick, standalone_pick,
    lemma_group_keys_contains, lemma_group_keys_no_dup, lemma_group_nums_absent,
    lemma_group_nums_filter_map, lemma_standalone_filter_map, lemma_filter_map_permutation,
    lemma_map_values_as_filter_map,
};

verus! {

/// `m` zeros.
pub open spec fn zeros(m: nat) -> Seq<char> {
    Seq::new(m, |i: int| '0')
}

proof fn lemma_digit_char_val(c: char)
    requires
        is_digit(c),
    ensures
        digit_val(c) < 10,
        digit_char(digit_val(c)) == c,
{
    let n = c as u32;
    assert(48 <= n <= 57);
    assert(((n - 48 + 48) as u8) as u32 == n);
    assert(((digit_val(c) + 48) as u8) as char == c);
}

proof fn lemma_digit_char_is_digit(d: nat)
    requires
        d < 10,
    ensures
        is_digit(digit_char(d)),
        digit_val(digit_char(d)) == d,
{
}

/// All digits of a number spelled with value zero are zeros.
proof fn lemma_zero_value(s: Seq<char>)
    requires
        all_digits(s),
        digits_value(s) == 0,
    ensures
        s =~= zeros(s.len()),
    decreases s.len(),
{
    if s.len() > 0 {
        let init = s.drop_last();
        assert(all_digits(init)) by {
            assert forall|i: int| 0 <= i < init.len() implies is_digit(#[trigger] init[i]) by {
                assert(init[i] == s[i]);
            }
        }
        assert(is_digit(s[s.len() - 1]));
        assert(digits_value(init) == 0);
        lemma_zero_value(init);
        assert(digit_val(s.last()) == 0);
        let n = s.last() as u32;
        assert(n == 48);
        assert(s =~= init.push(s.last()));
    }
}

/// Leading zeros add nothing to a number's value.
proof fn lemma_value_after_zeros(m: nat, s: Seq<char>)
    ensures
        digits_value(zeros(m) + s) == digits_value(s),
    decreases s.len(),
{
    if s.len() == 0 {
        assert(zeros(m) + s =~= zeros(m));
        lemma_value_zeros(m);
    } else {
        lemma_value_after_zeros(m, s.drop_last());
        assert((zeros(m) + s).drop_last() =~= zeros(m) + s.drop_last());
        assert((zeros(m) + s).last() == s.last());
    }
}

proof fn lemma_value_zeros(m: nat)
    ensures
        digits_value(zeros(m)) == 0,
    decreases m,
{
    if m > 0 {
        lemma_value_zeros((m - 1) as nat);
        assert(zeros(m).drop_last() =~= zeros((m - 1) as nat));
        assert(digit_val('0') == 0);
    }
}

/// `decimal` spells `n` in digits, at least one.
pub proof fn lemma_decimal_digits(n: nat)
    ensures
        decimal(n).len() >= 1,
        all_digits(decimal(n)),
        digits_value(decimal(n)) == n,
    decreases n,
{
    if n < 10 {
        lemma_digit_char_is_digit(n);
        assert(decimal(n) =~= seq![digit_char(n)]);
        assert(decimal(n).drop_last() =~= Seq::<char>::empty());
        assert(digits_value(decimal(n).drop_last()) == 0);
        assert(digits_value(decimal(n)) == digits_value(decimal(n).drop_last()) * 10 + digit_val(decimal(n).last()));
    } else {
        lemma_decimal_digits(n / 10);
        lemma_digit_char_is_digit(n % 10);
        let d = decimal(n);
        assert(d.drop_last() =~= decimal(n / 10));
        assert forall|i: int| 0 <= i < d.len() implies is_digit(#[trigger] d[i]) by {
            if i < d.len() - 1 {
                assert(d[i] == decimal(n / 10)[i]);
            }
        }
        assert(n == (n / 10) * 10 + n % 10) by (nonlinear_arith);
        assert(d.last() == digit_char(n % 10));
        assert(digits_value(d) == digits_value(d.drop_last()) * 10 + digit_val(d.last()));
    }
}

/// A number zero-padded to any width is read back as itself.
pub proof fn lemma_parse_padded(n: nat, w: nat)
    requires
        n <= u32::MAX,
    ensures
        parse_nat(zero_pad(decimal(n), w), u32::MAX as nat) == Some(n),
        all_digits(zero_pad(decimal(n), w)),
        zero_pad(decimal(n), w).len() >= 1,
{
    lemma_decimal_digits(n);
    let d = decimal(n);
    let z = zero_pad(d, w);
    if d.len() < w {
        let m = (w - d.len()) as nat;
        assert(z == zeros(m) + d);
        lemma_value_after_zeros(m, d);
        assert forall|i: int| 0 <= i < z.len() implies is_digit(#[trigger] z[i]) by {
            if i >= m {
                assert(z[i] == d[i - m]);
            }
        }
    }
    assert(is_digit(z[0]));
}

/// A run of digits is its value zero-padded to its own width.
pub proof fn lemma_digits_padded(d: Seq<char>)
    requires
        d.len() >= 1,
        all_digits(d),
    ensures
        decimal(digits_value(d)).len() <= d.len(),
        zero_pad(decimal(digits_value(d)), d.len()) == d,
    decreases d.len(),
{
    let init = d.drop_last();
    let c = d.last();
    assert(is_digit(d[d.len() - 1]));
    lemma_digit_char_val(c);
    assert(all_digits(init)) by {
        assert forall|i: int| 0 <= i < init.len() implies is_digit(#[trigger] init[i]) by {
            assert(init[i] == d[i]);
        }
    }
    let v0 = digits_value(init);
    let v = digits_value(d);
    assert(v == v0 * 10 + digit_val(c));
    assert(d =~= init.push(c));
    if v0 == 0 {
        lemma_zero_value(init);
        assert(v == digit_val(c));
        assert(decimal(v) =~= seq![c]);
        if d.len() > 1 {
            assert(zero_pad(seq![c], d.len()) =~= zeros((d.len() - 1) as nat) + seq![c]);
        }
    } else {
        lemma_digits_padded(init);
        assert(v >= 10);
        assert(v / 10 == v0 && v % 10 == digit_val(c)) by (nonlinear_arith)
            requires
                v == v0 * 10 + digit_val(c),
                digit_val(c) < 10,
        ;
        let dv0 = decimal(v0);
        assert(decimal(v) == dv0.push(c));
        if dv0.len() < init.len() {
            let m = (init.len() - dv0.len()) as nat;
            assert(init == zeros(m) + dv0);
            assert(zero_pad(decimal(v), d.len()) =~= zeros(m) + dv0.push(c));
        } else {
            assert(init == dv0);
        }
    }
}

/// Whether `s` holds no comma and no bracket.
pub open spec fn bare(s: Seq<char>) -> bool {
    forall|i: int| 0 <= i < s.len() ==> #[trigger] s[i] != ',' && s[i] != '[' && s[i] != ']'
}

/// Whether `s` holds no bracket.
pub open spec fn unbracketed(s: Seq<char>) -> bool {
    forall|i: int| 0 <= i < s.len() ==> #[trigger] s[i] != '[' && s[i] != ']'
}

/// Whether each comma of `p` stands inside a bracket.
pub open spec fn quiet(p: Seq<char>) -> bool {
    forall|i: int| 0 <= i < p.len() && #[trigger] p[i] == ',' ==> depth(p.take(i)) != 0
}

proof fn lemma_depth_add(a: Seq<char>, b: Seq<char>)
    ensures
        depth(a + b) == depth(a) + depth(b),
    decreases b.len(),
{
    if b.len() == 0 {
        assert(a + b =~= a);
    } else {
        lemma_depth_add(a, b.drop_last());
        assert((a + b).drop_last() =~= a + b.drop_last());
        assert((a + b).last() == b.last());
    }
}

proof fn lemma_depth_unbracketed(s: Seq<char>)
    requires
        unbracketed(s),
    ensures
        depth(s) == 0,
    decreases s.len(),
{
    if s.len() > 0 {
        let init = s.drop_last();
        assert(unbracketed(init)) by {
            assert forall|i: int| 0 <= i < init.len() implies #[trigger] init[i] != '[' && init[i] != ']' by {
                assert(init[i] == s[i]);
            }
        }
        lemma_depth_unbracketed(init);
        assert(s[s.len() - 1] == s.last());
    }
}

proof fn lemma_quiet_prefix(p: Seq<char>)
    requires
        p.len() > 0,
        quiet(p),
    ensures
        quiet(p.drop_last()),
{
    let q = p.drop_last();
    assert forall|i: int| 0 <= i < q.len() && #[trigger] q[i] == ',' implies depth(q.take(i)) != 0 by {
        assert(p[i] == q[i]);
        assert(q.take(i) =~= p.take(i));
    }
}

proof fn lemma_top_split_one(p: Seq<char>)
    requires
        quiet(p),
    ensures
        top_split(p) == seq![p],
    decreases p.len(),
{
    if p.len() == 0 {
        assert(p =~= Seq::<char>::empty());
    } else {
        let init = p.drop_last();
        lemma_quiet_prefix(p);
        lemma_top_split_one(init);
        assert(p[p.len() - 1] == p.last());
        assert(p.take(p.len() - 1) =~= init);
        assert(init.push(p.last()) =~= p);
        assert(seq![init].update(0, init.push(p.last())) =~= seq![p]);
    }
}

proof fn lemma_top_split_after(s: Seq<char>, p: Seq<char>)
    requires
        depth(s) == 0,
        quiet(p),
    ensures
        top_split(s + seq![','] + p) == top_split(s).push(p),
    decreases p.len(),
{
    let head = s + seq![','];
    if p.len() == 0 {
        assert(head + p =~= head);
        assert(head.drop_last() =~= s);
        assert(p =~= Seq::<char>::empty());
    } else {
        let init = p.drop_last();
        lemma_quiet_prefix(p);
        lemma_top_split_after(s, init);
        assert((head + p).drop_last() =~= head + init);
        assert((head + p).last() == p.last());
        lemma_depth_add(head, init);
        lemma_depth_add(s, seq![',']);
        lemma_depth_unbracketed(seq![',']);
        assert(p[p.len() - 1] == p.last());
        assert(p.take(p.len() - 1) =~= init);
        let t = top_split(s).push(init);
        assert(init.push(p.last()) =~= p);
        assert(t.update(t.len() - 1, init.push(p.last())) =~= top_split(s).push(p));
    }
}

proof fn lemma_join_depth(parts: Seq<Seq<char>>)
    requires
        forall|i: int| 0 <= i < parts.len() ==> depth(#[trigger] parts[i]) == 0,
    ensures
        depth(join(parts, seq![','])) == 0,
    decreases parts.len(),
{
    if parts.len() == 0 {
        assert(join(parts, seq![',']).len() == 0);
    } else if parts.len() == 1 {
    } else {
        let init = parts.drop_last();
        assert forall|i: int| 0 <= i < init.len() implies depth(#[trigger] init[i]) == 0 by {
            assert(init[i] == parts[i]);
        }
        lemma_join_depth(init);
        lemma_depth_add(join(init, seq![',']) + seq![','], parts.last());
        lemma_depth_add(join(init, seq![',']), seq![',']);
        lemma_depth_unbracketed(seq![',']);
        assert(depth(parts[parts.len() - 1]) == 0);
    }
}

/// Cutting a comma-joined list of quiet parts at its top-level commas gives the parts back.
proof fn lemma_top_split_join(parts: Seq<Seq<char>>)
    requires
        parts.len() >= 1,
        forall|i: int| 0 <= i < parts.len() ==> quiet(#[trigger] parts[i]) && depth(parts[i]) == 0,
    ensures
        top_split(join(parts, seq![','])) == parts,
    decreases parts.len(),
{
    if parts.len() == 1 {
        lemma_top_split_one(parts[0]);
        assert(seq![parts[0]] =~= parts);
    } else {
        let init = parts.drop_last();
        assert forall|i: int| 0 <= i < init.len() implies quiet(#[trigger] init[i]) && depth(init[i]) == 0 by {
            assert(init[i] == parts[i]);
        }
        lemma_top_split_join(init);
        lemma_join_depth(init);
        assert(quiet(parts[parts.len() - 1]));
        lemma_top_split_after(join(init, seq![',']), parts.last());
        assert(init.push(parts.last()) =~= parts);
    }
}

/// A part that begins and ends with something other than whitespace is its own trim.
proof fn lemma_trim_clean(p: Seq<char>)
    requires
        p.len() > 0,
        !is_ws(p[0]),
        !is_ws(p.last()),
    ensures
        trim(p) == p,
{
    assert(trim_start(p) == p);
    assert(trim_end(p) == p);
}

proof fn lemma_nonempty_trimmed_clean(parts: Seq<Seq<char>>)
    requires
        forall|i: int| 0 <= i < parts.len() ==> (#[trigger] parts[i]).len() > 0 && !is_ws(parts[i][0])
            && !is_ws(parts[i].last()),
    ensures
        nonempty_trimmed(parts) == parts,
    decreases parts.len(),
{
    if parts.len() > 0 {
        let init = parts.drop_last();
        assert forall|i: int| 0 <= i < init.len() implies (#[trigger] init[i]).len() > 0 && !is_ws(init[i][0])
            && !is_ws(init[i].last()) by {
            assert(init[i] == parts[i]);
        }
        lemma_nonempty_trimmed_clean(init);
        assert(parts[parts.len() - 1] == parts.last());
        lemma_trim_clean(parts.last());
        assert(init.push(parts.last()) =~= parts);
    }
}

/// Whether `s` holds no comma.
pub open spec fn commaless(s: Seq<char>) -> bool {
    forall|i: int| 0 <= i < s.len() ==> #[trigger] s[i] != ','
}

proof fn lemma_split_one(t: Seq<char>)
    requires
        commaless(t),
    ensures
        split_on(t, seq![',']) == seq![t],
    decreases t.len(),
{
    if t.len() == 0 {
        assert(t =~= Seq::<char>::empty());
    } else {
        let init = t.drop_last();
        assert(commaless(init)) by {
            assert forall|i: int| 0 <= i < init.len() implies #[trigger] init[i] != ',' by {
                assert(init[i] == t[i]);
            }
        }
        lemma_split_one(init);
        assert(t[t.len() - 1] == t.last());
        assert(!seq![','].contains(t.last()));
        assert(init.push(t.last()) =~= t);
        assert(seq![init].update(0, init.push(t.last())) =~= seq![t]);
    }
}

proof fn lemma_split_after(s: Seq<char>, t: Seq<char>)
    requires
        commaless(t),
    ensures
        split_on(s + seq![','] + t, seq![',']) == split_on(s, seq![',']).push(t),
    decreases t.len(),
{
    let head = s + seq![','];
    if t.len() == 0 {
        assert(head + t =~= head);
        assert(head.drop_last() =~= s);
        assert(seq![','][0] == ',');
        assert(seq![','].contains(','));
        assert(t =~= Seq::<char>::empty());
    } else {
        let init = t.drop_last();
        assert(commaless(init)) by {
            assert forall|i: int| 0 <= i < init.len() implies #[trigger] init[i] != ',' by {
                assert(init[i] == t[i]);
            }
        }
        lemma_split_after(s, init);
        assert((head + t).drop_last() =~= head + init);
        assert((head + t).last() == t.last());
        assert(t[t.len() - 1] == t.last());
        assert(!seq![','].contains(t.last()));
        let r = split_on(s, seq![',']).push(init);
        assert(init.push(t.last()) =~= t);
        assert(r.update(r.len() - 1, init.push(t.last())) =~= split_on(s, seq![',']).push(t));
    }
}

/// Splitting a comma-joined list of comma-free texts at its commas gives the texts back.
proof fn lemma_split_join(ts: Seq<Seq<char>>)
    requires
        ts.len() >= 1,
        forall|i: int| 0 <= i < ts.len() ==> commaless(#[trigger] ts[i]),
    ensures
        split_on(join(ts, seq![',']), seq![',']) == ts,
    decreases ts.len(),
{
    if ts.len() == 1 {
        lemma_split_one(ts[0]);
        assert(seq![ts[0]] =~= ts);
    } else {
        let init = ts.drop_last();
        assert forall|i: int| 0 <= i < init.len() implies commaless(#[trigger] init[i]) by {
            assert(init[i] == ts[i]);
        }
        lemma_split_join(init);
        assert(commaless(ts[ts.len() - 1]));
        lemma_split_after(join(init, seq![',']), ts.last());
        assert(init.push(ts.last()) =~= ts);
    }
}

proof fn lemma_no_opening(t: Seq<char>, n: int)
    requires
        n <= t.len(),
        forall|k: int| 0 <= k < n ==> #[trigger] t[k] != '[',
    ensures
        last_opening(t, n) is None,
    decreases n,
{
    if n > 0 {
        lemma_no_opening(t, n - 1);
    }
}

/// A text without `[` is not a ranged expression.
pub proof fn lemma_range_captures_plain(t: Seq<char>)
    requires
        forall|k: int| 0 <= k < t.len() ==> #[trigger] t[k] != '[',
    ensures
        range_captures(t) is None,
{
    lemma_no_opening(t, t.len() as int);
}

proof fn lemma_close_after(t: Seq<char>, p: int, q: int)
    requires
        0 <= p < q < t.len(),
        t[q] == ']',
        forall|k: int| p < k < q ==> #[trigger] t[k] != ']',
    ensures
        close_after(t, p) == Some(q),
    decreases q - p,
{
    if p + 1 < q {
        lemma_close_after(t, p + 1, q);
    }
}

proof fn lemma_last_opening(t: Seq<char>, p: int, n: int)
    requires
        opens_list(t, p),
        p < n <= t.len(),
        forall|k: int| p < k < n ==> #[trigger] t[k] != '[',
    ensures
        last_opening(t, n) == Some(p),
    decreases n,
{
    if n - 1 > p {
        lemma_last_opening(t, p, n - 1);
    }
}

/// What the range pattern captures of `a[m]b` where only the one pair of brackets occurs.
pub proof fn lemma_range_captures_list(a: Seq<char>, m: Seq<char>, b: Seq<char>)
    requires
        unbracketed(a),
        unbracketed(m),
        unbracketed(b),
        m.len() >= 1,
    ensures
        range_captures(a + seq!['['] + m + seq![']'] + b) == Some(
            seq![Some(a + seq!['['] + m + seq![']'] + b), Some(a), Some(m), Some(b)],
        ),
{
    let t = a + seq!['['] + m + seq![']'] + b;
    let p = a.len() as int;
    let q = p + m.len() + 1;
    assert(t[p] == '[');
    assert(t[q] == ']');
    assert forall|k: int| p < k < q implies #[trigger] t[k] != ']' by {
        assert(t[k] == m[k - p - 1]);
    }
    lemma_close_after(t, p, q);
    assert(opens_list(t, p));
    assert forall|k: int| p < k < t.len() implies #[trigger] t[k] != '[' by {
        if k < q {
            assert(t[k] == m[k - p - 1]);
        } else if k > q {
            assert(t[k] == b[k - q - 1]);
        }
    }
    lemma_last_opening(t, p, t.len() as int);
    assert(t.take(p) =~= a);
    assert(t.subrange(p + 1, q) =~= m);
    assert(t.skip(q + 1) =~= b);
}

/// The name of the member `e` of group `key`: prefix, number padded to its width, suffix.
pub open spec fn member_name(key: (Seq<char>, Seq<char>), e: (u32, usize)) -> Seq<char> {
    key.0 + zero_pad(decimal(e.0 as nat), e.1 as nat) + key.1
}

/// Whether the number of `e` fits the width it was written in.
pub open spec fn width_ok(e: (u32, usize)) -> bool {
    decimal(e.0 as nat).len() <= e.1
}

pub open spec fn run_ok(r: (u32, u32, usize)) -> bool {
    &&& r.0 <= r.1
    &&& decimal(r.0 as nat).len() <= r.2
    &&& decimal(r.1 as nat).len() <= r.2
}

/// The names of a run's members, first to last.
pub open spec fn run_names(key: (Seq<char>, Seq<char>), r: (u32, u32, usize)) -> Seq<Seq<char>> {
    Seq::new(
        (r.1 - r.0 + 1) as nat,
        |k: int| key.0 + zero_pad(decimal((r.0 + k) as nat), r.2 as nat) + key.1,
    )
}

proof fn lemma_first_index_at(a: Seq<char>, b: Seq<char>, c: char)
    requires
        !a.contains(c),
    ensures
        first_index(a + seq![c] + b, c) == Some(a.len() as int),
{
    let t = a + seq![c] + b;
    lemma_first_index(t, c);
    assert(t[a.len() as int] == c);
    if first_index(t, c) is None {
        assert(t.contains(c));
    } else {
        let k = first_index(t, c)->0;
        if k < a.len() {
            assert(t[k] == a[k]);
        }
    }
}

proof fn lemma_digits_no(s: Seq<char>, c: char)
    requires
        all_digits(s),
        !is_digit(c),
    ensures
        !s.contains(c),
{
    if s.contains(c) {
        let k = choose|k: int| 0 <= k < s.len() && s[k] == c;
        assert(is_digit(s[k]));
    }
}

/// A run is written so that the range list reads it back as its members.
proof fn lemma_run_expands(key: (Seq<char>, Seq<char>), r: (u32, u32, usize))
    requires
        run_ok(r),
    ensures
        expand_range_spec(key.0, run_text(r), key.1) == run_names(key, r),
{
    let w = r.2 as nat;
    let a = zero_pad(decimal(r.0 as nat), w);
    lemma_parse_padded(r.0 as nat, w);
    lemma_decimal_digits(r.0 as nat);
    lemma_digits_no(a, '-');
    if r.0 == r.1 {
        lemma_first_index(a, '-');
        assert(run_text(r) == a);
        assert(split_once(a, '-') is None);
        assert(run_names(key, r) =~= seq![key.0 + a + key.1]);
    } else {
        let b = zero_pad(decimal(r.1 as nat), w);
        lemma_parse_padded(r.1 as nat, w);
        let t = a + seq!['-'] + b;
        assert(run_text(r) == t);
        lemma_first_index_at(a, b, '-');
        assert(t.take(a.len() as int) =~= a);
        assert(t.skip(a.len() as int + 1) =~= b);
        assert(a.len() == w);
        assert(expand_range_spec(key.0, t, key.1) =~= run_names(key, r));
    }
}

proof fn lemma_run_texts_update(rs: Seq<(u32, u32, usize)>, x: (u32, u32, usize))
    requires
        rs.len() >= 1,
    ensures
        run_texts(rs.update(rs.len() - 1, x)).drop_last() == run_texts(rs).drop_last(),
        run_texts(rs.update(rs.len() - 1, x)).last() == run_text(x),
        run_texts(rs.update(rs.len() - 1, x)).len() == rs.len(),
{
    assert(run_texts(rs.update(rs.len() - 1, x)).drop_last() =~= run_texts(rs).drop_last());
}

proof fn lemma_run_texts_push(rs: Seq<(u32, u32, usize)>, x: (u32, u32, usize))
    ensures
        run_texts(rs.push(x)).drop_last() == run_texts(rs),
        run_texts(rs.push(x)).last() == run_text(x),
        run_texts(rs.push(x)).len() == rs.len() + 1,
{
    assert(run_texts(rs.push(x)).drop_last() =~= run_texts(rs));
}

/// The runs of a group's numbers, written and read back, give each member's name in
/// order.
pub proof fn lemma_runs_expand(key: (Seq<char>, Seq<char>), ns: Seq<(u32, usize)>)
    requires
        ns.len() >= 1,
        forall|i: int| 0 <= i < ns.len() ==> width_ok(#[trigger] ns[i]),
    ensures
        forall|i: int| 0 <= i < runs(ns).len() ==> run_ok(#[trigger] runs(ns)[i]),
        expand_range_specs(key.0, run_texts(runs(ns)), key.1) == ns.map_values(
            |e: (u32, usize)| member_name(key, e),
        ),
    decreases ns.len(),
{
    let f = |e: (u32, usize)| member_name(key, e);
    if ns.len() == 1 {
        let r = (ns[0].0, ns[0].0, ns[0].1);
        assert(runs(ns) == seq![r]);
        assert(width_ok(ns[0]));
        lemma_run_expands(key, r);
        assert(run_texts(seq![r]) =~= seq![run_text(r)]);
        assert(seq![run_text(r)].drop_last() =~= Seq::<Seq<char>>::empty());
        assert(run_names(key, r) =~= seq![member_name(key, ns[0])]);
        assert(expand_range_specs(key.0, seq![run_text(r)].drop_last(), key.1) =~= Seq::<Seq<char>>::empty());
        assert(seq![run_text(r)].last() == run_text(r));
        assert(expand_range_specs(key.0, seq![run_text(r)], key.1) =~= run_names(key, r));
        assert(ns.map_values(f) =~= seq![member_name(key, ns[0])]);
    } else {
        let init = ns.drop_last();
        assert forall|i: int| 0 <= i < init.len() implies width_ok(#[trigger] init[i]) by {
            assert(init[i] == ns[i]);
        }
        lemma_runs_expand(key, init);
        lemma_runs_nonempty(init);
        let rs = runs(init);
        let last = rs.last();
        let n = ns.last();
        assert(width_ok(ns[ns.len() - 1]));
        assert(run_ok(rs[rs.len() - 1]));
        assert(ns.map_values(f) =~= init.map_values(f).push(member_name(key, n)));
        let body = expand_range_specs(key.0, run_texts(rs).drop_last(), key.1);
        assert(expand_range_specs(key.0, run_texts(rs), key.1) == body + expand_range_spec(
            key.0,
            run_text(last),
            key.1,
        ));
        lemma_run_expands(key, last);
        if n.0 as int == last.1 as int + 1 && n.1 == last.2 {
            let x = (last.0, n.0, last.2);
            assert(runs(ns) == rs.update(rs.len() - 1, x));
            lemma_run_texts_update(rs, x);
            assert(run_ok(x));
            lemma_run_expands(key, x);
            assert(run_names(key, x) =~= run_names(key, last).push(member_name(key, n)));
            assert forall|i: int| 0 <= i < runs(ns).len() implies run_ok(#[trigger] runs(ns)[i]) by {
                if i < rs.len() - 1 {
                    assert(runs(ns)[i] == rs[i]);
                }
            }
            assert(body + run_names(key, x) =~= (body + run_names(key, last)).push(member_name(key, n)));
        } else {
            let x = (n.0, n.0, n.1);
            assert(runs(ns) == rs.push(x));
            lemma_run_texts_push(rs, x);
            assert(run_ok(x));
            lemma_run_expands(key, x);
            assert(run_names(key, x) =~= seq![member_name(key, n)]);
            assert forall|i: int| 0 <= i < runs(ns).len() implies run_ok(#[trigger] runs(ns)[i]) by {
                if i < rs.len() {
                    assert(runs(ns)[i] == rs[i]);
                }
            }
        }
    }
}

/// A name the compressed form carries through unchanged: not empty, ASCII, on one line,
/// without commas or brackets, and not beginning or ending with whitespace; and, as every
/// text in memory, not longer than the address space.
pub open spec fn plain_name(x: Seq<char>) -> bool {
    &&& 0 < x.len() <= usize::MAX
    &&& all_ascii(x)
    &&& bare(x)
    &&& one_line(x)
    &&& !is_ws(x[0])
    &&& !is_ws(x.last())
}

proof fn lemma_first_digit_from(t: Seq<char>, k: int)
    requires
        0 <= k <= t.len(),
    ensures
        k <= first_digit_from(t, k) <= t.len(),
        first_digit_from(t, k) < t.len() ==> ascii_digit(t[first_digit_from(t, k)]),
    decreases t.len() - k,
{
    if k < t.len() && !ascii_digit(t[k]) {
        lemma_first_digit_from(t, k + 1);
    }
}

proof fn lemma_digit_run_end(t: Seq<char>, k: int)
    requires
        0 <= k <= t.len(),
    ensures
        k <= digit_run_end(t, k) <= t.len(),
        forall|m: int| k <= m < digit_run_end(t, k) ==> ascii_digit(#[trigger] t[m]),
    decreases t.len() - k,
{
    if k < t.len() && ascii_digit(t[k]) {
        lemma_digit_run_end(t, k + 1);
    }
}

/// A plain name with a number is its prefix, its number padded to its width and its
/// suffix; the prefix and suffix are plain text from the name's two ends.
pub proof fn lemma_entry_of_plain(x: Seq<char>)
    requires
        plain_name(x),
        node_entry(x) is Some,
    ensures
        ({
            let e = node_entry(x)->0;
            let key = (e.0, e.1);
            &&& member_name(key, (e.2, e.3)) == x
            &&& width_ok((e.2, e.3))
            &&& bare(e.0) && bare(e.1) && one_line(e.0) && one_line(e.1)
            &&& e.0.len() > 0 ==> e.0[0] == x[0]
            &&& e.1.len() > 0 ==> e.1.last() == x.last()
        }),
{
    let i = first_digit_from(x, 0);
    let j = digit_run_end(x, i);
    lemma_first_digit_from(x, 0);
    assert(node_groups(x) == node_captures(x));
    assert(node_captures(x) is Some);
    assert(i < x.len());
    lemma_digit_run_end(x, i);
    let g = seq![Some(x), Some(x.take(i)), Some(x.subrange(i, j)), Some(x.skip(j))];
    assert(node_captures(x) == Some(g));
    let d = x.subrange(i, j);
    assert(group_text(g, 1) == x.take(i));
    assert(group_text(g, 2) == d);
    assert(group_text(g, 3) == x.skip(j));
    assert(j > i);
    assert(all_digits(d)) by {
        assert forall|m: int| 0 <= m < d.len() implies is_digit(#[trigger] d[m]) by {
            assert(d[m] == x[i + m]);
            assert(ascii_digit(x[i + m]));
        }
    }
    assert(d[0] != '+') by {
        assert(is_digit(d[0]));
    }
    let v = digits_value(d);
    assert(parse_nat(d, u32::MAX as nat) == Some(v) || parse_nat(d, u32::MAX as nat) is None);
    assert(parse_nat(d, u32::MAX as nat) is Some);
    assert(v <= u32::MAX);
    lemma_digits_padded(d);
    let e = node_entry(x)->0;
    assert(e == (x.take(i), x.skip(j), v as u32, d.len() as usize));
    assert(x.take(i) + d + x.skip(j) =~= x);
    let a = x.take(i);
    let b = x.skip(j);
    assert(bare(a) && one_line(a)) by {
        assert forall|m: int| 0 <= m < a.len() implies #[trigger] a[m] != ',' && a[m] != '[' && a[m] != ']' by {
            assert(a[m] == x[m]);
        }
        assert forall|m: int| 0 <= m < a.len() implies #[trigger] a[m] != '\n' by {
            assert(a[m] == x[m]);
        }
    }
    assert(bare(b) && one_line(b)) by {
        assert forall|m: int| 0 <= m < b.len() implies #[trigger] b[m] != ',' && b[m] != '[' && b[m] != ']' by {
            assert(b[m] == x[j + m]);
        }
        assert forall|m: int| 0 <= m < b.len() implies #[trigger] b[m] != '\n' by {
            assert(b[m] == x[j + m]);
        }
    }
    if b.len() > 0 {
        assert(b.last() == x[x.len() - 1]);
    }
    if a.len() > 0 {
        assert(a[0] == x[0]);
    }
    assert(((v as u32) as nat) == v);
    assert(((d.len() as usize) as nat) == d.len());
    assert(member_name((a, b), (v as u32, d.len() as usize)) == x);
}

/// Whether `s` is made of digits, `-` and `,` only, as a range list is.
pub open spec fn listy(s: Seq<char>) -> bool {
    forall|i: int| 0 <= i < s.len() ==> is_digit(#[trigger] s[i]) || s[i] == '-' || s[i] == ','
}

proof fn lemma_run_text_listy(r: (u32, u32, usize))
    ensures
        listy(run_text(r)),
        commaless(run_text(r)),
        run_text(r).len() >= 1,
{
    let a = zero_pad(decimal(r.0 as nat), r.2 as nat);
    let b = zero_pad(decimal(r.1 as nat), r.2 as nat);
    lemma_parse_padded(r.0 as nat, r.2 as nat);
    lemma_parse_padded(r.1 as nat, r.2 as nat);
    let t = run_text(r);
    assert forall|i: int| 0 <= i < t.len() implies (is_digit(#[trigger] t[i]) || t[i] == '-') && t[i] != ',' by {
        if r.0 == r.1 {
            assert(is_digit(a[i]));
        } else {
            assert(t == a + seq!['-'] + b);
            if i < a.len() {
                assert(t[i] == a[i]);
                assert(is_digit(a[i]));
            } else if i > a.len() {
                assert(t[i] == b[i - a.len() - 1]);
                assert(is_digit(b[i - a.len() - 1]));
            }
        }
    }
}

proof fn lemma_join_listy(ts: Seq<Seq<char>>)
    requires
        forall|i: int| 0 <= i < ts.len() ==> listy(#[trigger] ts[i]),
        forall|i: int| 0 <= i < ts.len() ==> (#[trigger] ts[i]).len() >= 1,
    ensures
        listy(join(ts, seq![','])),
        ts.len() >= 1 ==> join(ts, seq![',']).len() >= 1,
    decreases ts.len(),
{
    if ts.len() == 1 {
        assert(ts[0].len() >= 1);
    } else if ts.len() > 1 {
        let init = ts.drop_last();
        assert forall|i: int| 0 <= i < init.len() implies listy(#[trigger] init[i]) && init[i].len() >= 1 by {
            assert(init[i] == ts[i]);
        }
        lemma_join_listy(init);
        let j = join(init, seq![',']);
        let l = ts.last();
        assert(listy(ts[ts.len() - 1]));
        let t = j + seq![','] + l;
        assert(join(ts, seq![',']) == t);
        assert forall|i: int| 0 <= i < t.len() implies is_digit(#[trigger] t[i]) || t[i] == '-' || t[i] == ',' by {
            if i < j.len() {
                assert(t[i] == j[i]);
            } else if i > j.len() {
                assert(t[i] == l[i - j.len() - 1]);
            }
        }
    }
}

proof fn lemma_listy_plain(s: Seq<char>)
    requires
        listy(s),
    ensures
        unbracketed(s),
        one_line(s),
{
    assert forall|i: int| 0 <= i < s.len() implies #[trigger] s[i] != '[' && s[i] != ']' by {
        assert(is_digit(s[i]) || s[i] == '-' || s[i] == ',');
    }
    assert forall|i: int| 0 <= i < s.len() implies #[trigger] s[i] != '\n' by {
        assert(is_digit(s[i]) || s[i] == '-' || s[i] == ',');
    }
}

proof fn lemma_bare_unbracketed(s: Seq<char>)
    requires
        bare(s),
    ensures
        unbracketed(s),
        commaless(s),
        depth(s) == 0,
        quiet(s),
        forall|k: int| 0 <= k < s.len() ==> #[trigger] s[k] != '[',
{
    assert forall|i: int| 0 <= i < s.len() implies #[trigger] s[i] != '[' && s[i] != ']' by {
        assert(s[i] != ',' && s[i] != '[' && s[i] != ']');
    }
    assert forall|i: int| 0 <= i < s.len() implies #[trigger] s[i] != ',' by {
        assert(s[i] != ',' && s[i] != '[' && s[i] != ']');
    }
    lemma_depth_unbracketed(s);
}

/// A plain name is an expression of its own, standing for itself.
pub proof fn lemma_plain_part(x: Seq<char>)
    requires
        plain_name(x),
    ensures
        quiet(x),
        depth(x) == 0,
        expression_names(x, range_groups(x)) == seq![x],
{
    lemma_bare_unbracketed(x);
    lemma_range_captures_plain(x);
}

/// Whether the prefix and suffix of a group can stand around a range list.
pub open spec fn key_ok(key: (Seq<char>, Seq<char>)) -> bool {
    &&& bare(key.0) && bare(key.1) && one_line(key.0) && one_line(key.1)
    &&& key.0.len() > 0 ==> !is_ws(key.0[0])
    &&& key.1.len() > 0 ==> !is_ws(key.1.last())
}

proof fn lemma_depth_single(c: char)
    ensures
        depth(seq![c]) == if c == '[' {
            1int
        } else if c == ']' {
            -1int
        } else {
            0int
        },
{
    assert(seq![c].drop_last() =~= Seq::<char>::empty());
    assert(depth(Seq::<char>::empty()) == 0);
    assert(seq![c].last() == c);
    assert(seq![c].len() == 1);
}

/// A group of several members is written as one expression that stands for their names,
/// in order of number.
pub proof fn lemma_group_part(key: (Seq<char>, Seq<char>), nums: Seq<(u32, usize)>)
    requires
        key_ok(key),
        nums.len() >= 2,
        forall|i: int| 0 <= i < nums.len() ==> width_ok(#[trigger] nums[i]),
    ensures
        ({
            let part = group_part(key, nums);
            &&& quiet(part)
            &&& depth(part) == 0
            &&& part.len() > 0
            &&& !is_ws(part[0])
            &&& !is_ws(part.last())
            &&& expression_names(part, range_groups(part)) == nums.sort_by(pair_le()).map_values(
                |e: (u32, usize)| member_name(key, e),
            )
        }),
{
    broadcast use vstd::seq_lib::group_to_multiset_ensures;

    let ns = nums.sort_by(pair_le());
    crate::order::lemma_pair_le_total_ordering();
    nums.lemma_sort_by_ensures(pair_le());
    assert forall|i: int| 0 <= i < ns.len() implies width_ok(#[trigger] ns[i]) by {
        vstd::seq_lib::to_multiset_contains(ns, ns[i]);
        vstd::seq_lib::to_multiset_contains(nums, ns[i]);
        let k = choose|k: int| 0 <= k < nums.len() && nums[k] == ns[i];
        assert(width_ok(nums[k]));
    }
    vstd::seq_lib::to_multiset_len(ns);
    vstd::seq_lib::to_multiset_len(nums);
    let rs = runs(ns);
    lemma_runs_nonempty(ns);
    lemma_runs_expand(key, ns);
    let ts = run_texts(rs);
    assert forall|i: int| 0 <= i < ts.len() implies listy(#[trigger] ts[i]) && ts[i].len() >= 1 && commaless(ts[i]) by {
        lemma_run_text_listy(rs[i]);
    }
    lemma_join_listy(ts);
    let m = join(ts, seq![',']);
    lemma_listy_plain(m);
    lemma_split_join(ts);
    let a = key.0;
    let b = key.1;
    lemma_bare_unbracketed(a);
    lemma_bare_unbracketed(b);
    let part = a + seq!['['] + m + seq![']'] + b;
    assert(group_part(key, nums) == part);
    lemma_range_captures_list(a, m, b);
    assert(one_line(part)) by {
        assert forall|i: int| 0 <= i < part.len() implies #[trigger] part[i] != '\n' by {
            if i < a.len() {
                assert(part[i] == a[i]);
            } else if a.len() < i < a.len() + 1 + m.len() {
                assert(part[i] == m[i - a.len() - 1]);
            } else if i > a.len() + m.len() + 1 {
                assert(part[i] == b[i - a.len() - m.len() - 2]);
            }
        }
    }
    assert(range_groups(part) == range_captures(part));
    let g = seq![Some(part), Some(a), Some(m), Some(b)];
    assert(group_text(g, 1) == a && group_text(g, 2) == m && group_text(g, 3) == b);
    // depth and quiet
    lemma_depth_single('[');
    lemma_depth_single(']');
    lemma_depth_unbracketed(m);
    lemma_depth_add(a, seq!['[']);
    lemma_depth_add(a + seq!['['], m);
    lemma_depth_add(a + seq!['['] + m, seq![']']);
    lemma_depth_add(a + seq!['['] + m + seq![']'], b);
    assert forall|i: int| 0 <= i < part.len() && #[trigger] part[i] == ',' implies depth(part.take(i)) != 0 by {
        if i < a.len() {
            assert(part[i] == a[i]);
        } else if i == a.len() {
        } else if i <= a.len() + m.len() {
            let j = i - a.len() - 1;
            assert(part.take(i) =~= a + seq!['['] + m.take(j));
            assert(unbracketed(m.take(j))) by {
                assert forall|k: int| 0 <= k < m.take(j).len() implies #[trigger] m.take(j)[k] != '['
                    && m.take(j)[k] != ']' by {
                    assert(m.take(j)[k] == m[k]);
                }
            }
            lemma_depth_unbracketed(m.take(j));
            lemma_depth_add(a + seq!['['], m.take(j));
        } else if i == a.len() + m.len() + 1 {
        } else {
            assert(part[i] == b[i - a.len() - m.len() - 2]);
        }
    }
    if a.len() > 0 {
        assert(part[0] == a[0]);
    } else {
        assert(part[0] == '[');
    }
    if b.len() > 0 {
        assert(part.last() == b.last());
    } else {
        assert(part.last() == ']');
    }
}

/// The names one expression stands for.
pub open spec fn part_names(p: Seq<char>) -> Seq<Seq<char>> {
    expression_names(p, range_groups(p))
}

proof fn lemma_expand_all_add(a: Seq<Seq<char>>, b: Seq<Seq<char>>)
    ensures
        expand_all(a + b) == expand_all(a) + expand_all(b),
    decreases b.len(),
{
    if b.len() == 0 {
        assert(a + b =~= a);
        assert(expand_all(a) + expand_all(b) =~= expand_all(a));
    } else {
        assert((a + b).drop_last() =~= a + b.drop_last());
        assert((a + b).last() == b.last());
        lemma_expand_all_add(a, b.drop_last());
        assert(expand_all(a) + expand_all(b) =~= (expand_all(a) + expand_all(b.drop_last())) + part_names(
            b.last(),
        ));
    }
}

proof fn lemma_expand_all_one(p: Seq<char>)
    ensures
        expand_all(seq![p]) == part_names(p),
{
    assert(seq![p].drop_last() =~= Seq::<Seq<char>>::empty());
    assert(seq![p].last() == p);
    assert(expand_all(Seq::<Seq<char>>::empty()) + part_names(p) =~= part_names(p));
}

/// The same expressions in another order stand for the same names in another order.
proof fn lemma_expand_all_permutation(xs: Seq<Seq<char>>, ys: Seq<Seq<char>>)
    requires
        xs.to_multiset() == ys.to_multiset(),
    ensures
        expand_all(xs).to_multiset() == expand_all(ys).to_multiset(),
    decreases xs.len(),
{
    broadcast use vstd::seq_lib::group_to_multiset_ensures;
    broadcast use vstd::multiset::group_multiset_axioms;

    if xs.len() == 0 {
        vstd::seq_lib::to_multiset_len(xs);
        vstd::seq_lib::to_multiset_len(ys);
        assert(ys =~= xs);
    } else {
        let x = xs.last();
        let rest = xs.drop_last();
        assert(xs =~= rest.push(x));
        assert(xs.to_multiset().count(x) > 0);
        assert(ys.contains(x));
        let i = choose|i: int| 0 <= i < ys.len() && ys[i] == x;
        let ys2 = ys.remove(i);
        assert(ys2.to_multiset() == ys.to_multiset().remove(x));
        assert(rest.to_multiset() =~= ys2.to_multiset());
        lemma_expand_all_permutation(rest, ys2);
        let pre = ys.take(i);
        let post = ys.skip(i + 1);
        assert(ys =~= (pre + seq![x]) + post);
        assert(ys2 =~= pre + post);
        lemma_expand_all_add(pre + seq![x], post);
        lemma_expand_all_add(pre, seq![x]);
        lemma_expand_all_add(pre, post);
        lemma_expand_all_add(rest, seq![x]);
        lemma_expand_all_one(x);
        let fx = part_names(x);
        vstd::seq_lib::lemma_multiset_commutative(expand_all(rest), fx);
        vstd::seq_lib::lemma_multiset_commutative(expand_all(pre), fx);
        vstd::seq_lib::lemma_multiset_commutative(expand_all(pre) + fx, expand_all(post));
        vstd::seq_lib::lemma_multiset_commutative(expand_all(pre), expand_all(post));
        assert(expand_all(ys).to_multiset() =~= expand_all(ys2).to_multiset().add(fx.to_multiset()));
    }
}

/// A list of plain names stands for those names.
proof fn lemma_expand_all_plain(xs: Seq<Seq<char>>)
    requires
        forall|i: int| 0 <= i < xs.len() ==> plain_name(#[trigger] xs[i]),
    ensures
        expand_all(xs) == xs,
    decreases xs.len(),
{
    if xs.len() > 0 {
        let init = xs.drop_last();
        assert forall|i: int| 0 <= i < init.len() implies plain_name(#[trigger] init[i]) by {
            assert(init[i] == xs[i]);
        }
        lemma_expand_all_plain(init);
        assert(plain_name(xs[xs.len() - 1]));
        lemma_plain_part(xs.last());
        assert(init + seq![xs.last()] =~= xs);
    }
}

/// The names of the members of group `key` among `xs`, in order.
pub open spec fn block(xs: Seq<Seq<char>>, key: (Seq<char>, Seq<char>)) -> Seq<Seq<char>> {
    group_nums(xs, key).map_values(|e: (u32, usize)| member_name(key, e))
}

/// The names of the members of each group of `ks` in turn.
pub open spec fn blocks(xs: Seq<Seq<char>>, ks: Seq<(Seq<char>, Seq<char>)>) -> Seq<Seq<char>>
    decreases ks.len(),
{
    if ks.len() == 0 {
        Seq::empty()
    } else {
        blocks(xs, ks.drop_last()) + block(xs, ks.last())
    }
}

proof fn lemma_blocks_same(xs: Seq<Seq<char>>, ys: Seq<Seq<char>>, ks: Seq<(Seq<char>, Seq<char>)>)
    requires
        forall|i: int| 0 <= i < ks.len() ==> block(xs, #[trigger] ks[i]) == block(ys, ks[i]),
    ensures
        blocks(xs, ks) == blocks(ys, ks),
    decreases ks.len(),
{
    if ks.len() > 0 {
        assert forall|i: int| 0 <= i < ks.len() - 1 implies block(xs, #[trigger] ks.drop_last()[i]) == block(
            ys,
            ks.drop_last()[i],
        ) by {
            assert(ks.drop_last()[i] == ks[i]);
        }
        lemma_blocks_same(xs, ys, ks.drop_last());
        assert(block(xs, ks[ks.len() - 1]) == block(ys, ks[ks.len() - 1]));
    }
}

proof fn lemma_blocks_grow(
    xs: Seq<Seq<char>>,
    ys: Seq<Seq<char>>,
    ks: Seq<(Seq<char>, Seq<char>)>,
    k: (Seq<char>, Seq<char>),
    v: Seq<char>,
)
    requires
        ks.no_duplicates(),
        ks.contains(k),
        block(ys, k) == block(xs, k).push(v),
        forall|i: int| 0 <= i < ks.len() && #[trigger] ks[i] != k ==> block(ys, ks[i]) == block(xs, ks[i]),
    ensures
        blocks(ys, ks).to_multiset() == blocks(xs, ks).to_multiset().insert(v),
    decreases ks.len(),
{
    broadcast use vstd::seq_lib::group_to_multiset_ensures;
    broadcast use vstd::multiset::group_multiset_axioms;

    let init = ks.drop_last();
    let last = ks.last();
    vstd::seq_lib::lemma_multiset_commutative(blocks(xs, init), block(xs, last));
    vstd::seq_lib::lemma_multiset_commutative(blocks(ys, init), block(ys, last));
    if last == k {
        assert(!init.contains(k)) by {
            if init.contains(k) {
                let j = choose|j: int| 0 <= j < init.len() && init[j] == k;
                assert(ks[j] == ks[ks.len() - 1]);
            }
        }
        assert forall|i: int| 0 <= i < init.len() implies block(ys, #[trigger] init[i]) == block(xs, init[i]) by {
            assert(init[i] == ks[i]);
            assert(init[i] != k);
        }
        lemma_blocks_same(ys, xs, init);
        assert(blocks(ys, init) == blocks(xs, init));
    } else {
        assert(init.contains(k)) by {
            let j = choose|j: int| 0 <= j < ks.len() && ks[j] == k;
            assert(j != ks.len() - 1);
            assert(init[j] == k);
        }
        assert(init.no_duplicates()) by {
            assert forall|a: int, b: int| 0 <= a < init.len() && 0 <= b < init.len() && a != b implies init[a]
                != init[b] by {
                assert(init[a] == ks[a] && init[b] == ks[b]);
            }
        }
        assert forall|i: int| 0 <= i < init.len() && #[trigger] init[i] != k implies block(ys, init[i]) == block(xs, init[i]) by {
            assert(init[i] == ks[i]);
        }
        lemma_blocks_grow(xs, ys, init, k, v);
        assert(block(ys, ks[ks.len() - 1]) == block(xs, ks[ks.len() - 1]));
    }
    assert(block(xs, k).push(v).to_multiset() == block(xs, k).to_multiset().insert(v));
}

/// Each name of a group comes from a name of `xs` with that group's prefix and suffix.
proof fn lemma_group_nums_from(xs: Seq<Seq<char>>, k: (Seq<char>, Seq<char>), e: (u32, usize))
    requires
        group_nums(xs, k).contains(e),
    ensures
        exists|t: Seq<char>| #[trigger] xs.contains(t) && node_entry(t) == Some((k.0, k.1, e.0, e.1)),
{
    lemma_group_nums_filter_map(xs, k);
    xs.lemma_filter_map_contains(member_pick(k), e);
    let t = choose|t: Seq<char>| #[trigger] xs.contains(t) && member_pick(k)(t) == Some(e);
    assert(node_entry(t) == Some((k.0, k.1, e.0, e.1)));
}

proof fn lemma_group_nums_nonempty(xs: Seq<Seq<char>>, k: (Seq<char>, Seq<char>))
    requires
        group_keys(xs).contains(k),
    ensures
        group_nums(xs, k).len() >= 1,
    decreases xs.len(),
{
    if xs.len() > 0 {
        let init = xs.drop_last();
        if group_keys(init).contains(k) {
            lemma_group_nums_nonempty(init, k);
        } else {
            assert(group_keys(init) == group_keys(xs) || node_entry(xs.last()) is Some);
            if node_entry(xs.last()) is None {
                assert(group_keys(xs) == group_keys(init));
            } else {
                let e = node_entry(xs.last())->0;
                if (e.0, e.1) != k {
                    assert(group_keys(xs) == group_keys(init) || group_keys(xs) == group_keys(init).push((e.0, e.1)));
                    if group_keys(xs) == group_keys(init).push((e.0, e.1)) {
                        let j = choose|j: int| 0 <= j < group_keys(xs).len() && group_keys(xs)[j] == k;
                        assert(j < group_keys(init).len());
                        assert(group_keys(init)[j] == k);
                    }
                }
            }
        }
    }
}

/// Every name of `xs` is counted once: either alone or in the block of its group.
proof fn lemma_blocks_cover(xs: Seq<Seq<char>>)
    requires
        forall|i: int| 0 <= i < xs.len() ==> plain_name(#[trigger] xs[i]),
    ensures
        blocks(xs, group_keys(xs)).to_multiset().add(standalone_names(xs).to_multiset()) == xs.to_multiset(),
    decreases xs.len(),
{
    broadcast use vstd::seq_lib::group_to_multiset_ensures;
    broadcast use vstd::multiset::group_multiset_axioms;

    if xs.len() == 0 {
        assert(blocks(xs, group_keys(xs)) =~= Seq::<Seq<char>>::empty());
        assert(standalone_names(xs) =~= Seq::<Seq<char>>::empty());
        assert(blocks(xs, group_keys(xs)).to_multiset().add(standalone_names(xs).to_multiset()) =~= xs.to_multiset());
    } else {
        let init = xs.drop_last();
        let x = xs.last();
        assert forall|i: int| 0 <= i < init.len() implies plain_name(#[trigger] init[i]) by {
            assert(init[i] == xs[i]);
        }
        lemma_blocks_cover(init);
        assert(xs =~= init.push(x));
        assert(plain_name(xs[xs.len() - 1]));
        let ki = group_keys(init);
        lemma_group_keys_no_dup(init);
        match node_entry(x) {
            None => {
                assert(group_keys(xs) == ki);
                assert forall|i: int| 0 <= i < ki.len() implies block(xs, #[trigger] ki[i]) == block(init, ki[i]) by {
                    assert(group_nums(xs, ki[i]) == group_nums(init, ki[i]));
                }
                lemma_blocks_same(xs, init, ki);
                assert(standalone_names(xs) == standalone_names(init).push(x));
                assert(blocks(xs, group_keys(xs)).to_multiset().add(standalone_names(xs).to_multiset())
                    =~= blocks(init, ki).to_multiset().add(standalone_names(init).to_multiset()).insert(x));
            },
            Some(e) => {
                let k = (e.0, e.1);
                lemma_entry_of_plain(x);
                assert(member_name(k, (e.2, e.3)) == x);
                assert(standalone_names(xs) == standalone_names(init));
                assert(group_nums(xs, k) == group_nums(init, k).push((e.2, e.3)));
                assert(block(xs, k) =~= block(init, k).push(x));
                assert forall|k2: (Seq<char>, Seq<char>)| k2 != k implies #[trigger] block(xs, k2) == block(init, k2) by {
                    assert(group_nums(xs, k2) == group_nums(init, k2));
                }
                if ki.contains(k) {
                    assert(group_keys(xs) == ki);
                    lemma_blocks_grow(init, xs, ki, k, x);
                } else {
                    assert(group_keys(xs) == ki.push(k));
                    lemma_group_nums_absent(init, k);
                    assert(block(init, k) =~= Seq::<Seq<char>>::empty());
                    assert forall|i: int| 0 <= i < ki.len() implies block(xs, #[trigger] ki[i]) == block(init, ki[i]) by {
                        assert(ki[i] != k);
                    }
                    lemma_blocks_same(xs, init, ki);
                    assert(ki.push(k).drop_last() =~= ki);
                    assert(blocks(xs, ki.push(k)) == blocks(xs, ki) + block(xs, k));
                    vstd::seq_lib::lemma_multiset_commutative(blocks(xs, ki), block(xs, k));
                    assert(block(xs, k) =~= seq![x]);
                    assert(seq![x].to_multiset() =~= vstd::multiset::Multiset::<Seq<char>>::empty().insert(x)) by {
                        assert(seq![x] =~= Seq::<Seq<char>>::empty().push(x));
                    }
                }
                assert(blocks(xs, group_keys(xs)).to_multiset().add(standalone_names(xs).to_multiset())
                    =~= blocks(init, ki).to_multiset().add(standalone_names(init).to_multiset()).insert(x));
            },
        }
    }
}

/// Whether `p` can stand as one expression of a hostlist and be read back as itself.
pub open spec fn part_clean(p: Seq<char>) -> bool {
    &&& quiet(p)
    &&& depth(p) == 0
    &&& p.len() > 0
    &&& !is_ws(p[0])
    &&& !is_ws(p.last())
}

/// The part written for a group of plain names is clean and stands for the group's names.
proof fn lemma_key_part(xs: Seq<Seq<char>>, k: (Seq<char>, Seq<char>))
    requires
        forall|i: int| 0 <= i < xs.len() ==> plain_name(#[trigger] xs[i]),
        group_keys(xs).contains(k),
    ensures
        part_clean(group_part(k, group_nums(xs, k))),
        part_names(group_part(k, group_nums(xs, k))).to_multiset() == block(xs, k).to_multiset(),
{
    broadcast use vstd::seq_lib::group_to_multiset_ensures;

    let nums = group_nums(xs, k);
    lemma_group_keys_contains(xs, k);
    let t = choose|t: Seq<char>| #[trigger] xs.contains(t) && key_of(t) == Some(k);
    let ti = choose|i: int| 0 <= i < xs.len() && xs[i] == t;
    assert(plain_name(xs[ti]));
    lemma_entry_of_plain(t);
    assert(key_ok(k));
    lemma_group_nums_nonempty(xs, k);
    assert forall|i: int| 0 <= i < nums.len() implies width_ok(#[trigger] nums[i]) by {
        assert(nums.contains(nums[i]));
        lemma_group_nums_from(xs, k, nums[i]);
        let u = choose|u: Seq<char>| #[trigger] xs.contains(u) && node_entry(u) == Some((k.0, k.1, nums[i].0, nums[i].1));
        let ui = choose|j: int| 0 <= j < xs.len() && xs[j] == u;
        assert(plain_name(xs[ui]));
        lemma_entry_of_plain(u);
    }
    let f = |e: (u32, usize)| member_name(k, e);
    if nums.len() == 1 {
        let e = nums[0];
        assert(nums.contains(e));
        lemma_group_nums_from(xs, k, e);
        let u = choose|u: Seq<char>| #[trigger] xs.contains(u) && node_entry(u) == Some((k.0, k.1, e.0, e.1));
        let ui = choose|j: int| 0 <= j < xs.len() && xs[j] == u;
        assert(plain_name(xs[ui]));
        lemma_entry_of_plain(u);
        assert(group_part(k, nums) == member_name(k, e));
        assert(member_name(k, e) == u);
        lemma_plain_part(u);
        assert(block(xs, k) =~= seq![u]);
    } else {
        lemma_group_part(k, nums);
        let ns = nums.sort_by(pair_le());
        crate::order::lemma_pair_le_total_ordering();
        nums.lemma_sort_by_ensures(pair_le());
        lemma_map_values_as_filter_map(ns, f);
        lemma_map_values_as_filter_map(nums, f);
        lemma_filter_map_permutation(ns, nums, |a: (u32, usize)| Some(f(a)));
    }
}

proof fn lemma_group_parts_expand(xs: Seq<Seq<char>>, ks: Seq<(Seq<char>, Seq<char>)>)
    requires
        forall|i: int| 0 <= i < xs.len() ==> plain_name(#[trigger] xs[i]),
        forall|i: int| 0 <= i < ks.len() ==> group_keys(xs).contains(#[trigger] ks[i]),
    ensures
        expand_all(ks.map_values(|k: (Seq<char>, Seq<char>)| group_part(k, group_nums(xs, k)))).to_multiset()
            == blocks(xs, ks).to_multiset(),
    decreases ks.len(),
{
    broadcast use vstd::seq_lib::group_to_multiset_ensures;
    broadcast use vstd::multiset::group_multiset_axioms;

    let hx = |k: (Seq<char>, Seq<char>)| group_part(k, group_nums(xs, k));
    if ks.len() == 0 {
        assert(ks.map_values(hx) =~= Seq::<Seq<char>>::empty());
        assert(blocks(xs, ks) =~= Seq::<Seq<char>>::empty());
    } else {
        let init = ks.drop_last();
        assert forall|i: int| 0 <= i < init.len() implies group_keys(xs).contains(#[trigger] init[i]) by {
            assert(init[i] == ks[i]);
        }
        lemma_group_parts_expand(xs, init);
        let last = ks.last();
        assert(group_keys(xs).contains(ks[ks.len() - 1]));
        lemma_key_part(xs, last);
        assert(ks.map_values(hx).drop_last() =~= init.map_values(hx));
        assert(ks.map_values(hx).last() == hx(last));
        vstd::seq_lib::lemma_multiset_commutative(expand_all(init.map_values(hx)), part_names(hx(last)));
        vstd::seq_lib::lemma_multiset_commutative(blocks(xs, init), block(xs, last));
    }
}

/// Parsing a compressed hostlist gives back the names it was made of, each as often as it
/// occurred, where every name is plain (see `plain_name`): compression is undone by
/// `parse_slurm_hostlist`, up to the order of the names.
pub proof fn lemma_parse_undoes_compression(xs: Seq<Seq<char>>)
    requires
        forall|i: int| 0 <= i < xs.len() ==> plain_name(#[trigger] xs[i]),
    ensures
        hostlist_names(compressed(xs)).to_multiset() == xs.to_multiset(),
{
    broadcast use vstd::seq_lib::group_to_multiset_ensures;
    broadcast use vstd::multiset::group_multiset_axioms;

    let keys = group_keys(xs);
    let hx = |k: (Seq<char>, Seq<char>)| group_part(k, group_nums(xs, k));
    let s0 = standalone_names(xs);
    let g = keys.map_values(hx);
    let p = compress_parts(xs);
    assert(p == s0 + g);
    // the standalone names are names of xs
    lemma_standalone_filter_map(xs);
    assert forall|i: int| 0 <= i < s0.len() implies plain_name(#[trigger] s0[i]) by {
        assert(s0.contains(s0[i]));
        xs.lemma_filter_map_contains(standalone_pick(), s0[i]);
        let t = choose|t: Seq<char>| #[trigger] xs.contains(t) && standalone_pick()(t) == Some(s0[i]);
        let ti = choose|j: int| 0 <= j < xs.len() && xs[j] == t;
        assert(plain_name(xs[ti]));
    }
    // every part is clean
    assert forall|i: int| 0 <= i < p.len() implies part_clean(#[trigger] p[i]) by {
        if i < s0.len() {
            assert(p[i] == s0[i]);
            assert(plain_name(s0[i]));
            lemma_plain_part(s0[i]);
        } else {
            let j = i - s0.len();
            assert(p[i] == g[j]);
            assert(keys.contains(keys[j]));
            lemma_key_part(xs, keys[j]);
        }
    }
    let srt = p.sort_by(text_le());
    crate::order::lemma_text_le_total_ordering();
    p.lemma_sort_by_ensures(text_le());
    assert forall|i: int| 0 <= i < srt.len() implies part_clean(#[trigger] srt[i]) by {
        vstd::seq_lib::to_multiset_contains(srt, srt[i]);
        vstd::seq_lib::to_multiset_contains(p, srt[i]);
        let j = choose|j: int| 0 <= j < p.len() && p[j] == srt[i];
        assert(part_clean(p[j]));
    }
    // the hostlist's expressions are the sorted parts
    if srt.len() == 0 {
        assert(join(srt, seq![',']) == Seq::<char>::empty());
        assert(top_split(Seq::<char>::empty()) == seq![Seq::<char>::empty()]);
        assert(nonempty_trimmed(seq![Seq::<char>::empty()]) =~= Seq::<Seq<char>>::empty()) by {
            let one = seq![Seq::<char>::empty()];
            assert(one.drop_last() =~= Seq::<Seq<char>>::empty());
            assert(one.last().len() == 0);
            assert(nonempty_trimmed(one.drop_last()) == Seq::<Seq<char>>::empty());
        }
        assert(expressions(compressed(xs)) =~= srt);
    } else {
        lemma_top_split_join(srt);
        lemma_nonempty_trimmed_clean(srt);
        assert(expressions(compressed(xs)) == srt);
    }
    // what they stand for
    lemma_expand_all_permutation(srt, p);
    lemma_expand_all_add(s0, g);
    lemma_expand_all_plain(s0);
    assert forall|i: int| 0 <= i < keys.len() implies keys.contains(#[trigger] keys[i]) by {}
    lemma_group_parts_expand(xs, keys);
    lemma_blocks_cover(xs);
    vstd::seq_lib::lemma_multiset_commutative(s0, expand_all(g));
}

} // verus!
