//! Slurm hostlists: `"compute-b[10-12,15],login01"` and the node names they stand for.
use vstd::prelude::*;
use crate::pattern::{group_chars, group_text, node_captures, one_line, range_captures, regex_captures, regex_captures_of};
use crate::text::all_ascii;
use crate::order::{pair_le, sort_pairs, sort_texts, text_le};
use crate::text::{
    chars_of, concat, copy_range, decimal, lemma_chars_deep_view, lemma_texts_deep_view,
    padded_decimal, parse_nat, parse_unsigned, split_chars, split_on, split_once,
    split_once_chars, string_of, trim, trim_chars, zero_pad, join, join_chars, chars_eq,
};

verus! {

/// The bracket depth at the end of `s`: one more for each `[`, one less for each `]`.
pub open spec fn depth(s: Seq<char>) -> int
    decreases s.len(),
{
    if s.len() == 0 {
        0
    } else {
        depth(s.drop_last()) + (if s.last() == '[' {
            1int
        } else if s.last() == ']' {
            -1int
        } else {
            0int
        })
    }
}

/// `s` cut at each comma that stands outside every bracket, the commas dropped.
pub open spec fn top_split(s: Seq<char>) -> Seq<Seq<char>>
    decreases s.len(),
{
    if s.len() == 0 {
        seq![Seq::<char>::empty()]
    } else {
        let init = top_split(s.drop_last());
        if s.last() == ',' && depth(s.drop_last()) == 0 {
            init.push(Seq::<char>::empty())
        } else {
            init.update(init.len() - 1, init.last().push(s.last()))
        }
    }
}

proof fn lemma_top_split_nonempty(s: Seq<char>)
    ensures
        top_split(s).len() >= 1,
    decreases s.len(),
{
    if s.len() > 0 {
        lemma_top_split_nonempty(s.drop_last());
    }
}

/// The non-empty pieces of `pieces`, each trimmed.
pub open spec fn nonempty_trimmed(pieces: Seq<Seq<char>>) -> Seq<Seq<char>>
    decreases pieces.len(),
{
    if pieces.len() == 0 {
        Seq::empty()
    } else {
        let init = nonempty_trimmed(pieces.drop_last());
        if pieces.last().len() > 0 {
            init.push(trim(pieces.last()))
        } else {
            init
        }
    }
}

/// The expressions of a hostlist: its top-level comma-separated pieces, trimmed, the empty
/// ones dropped.
pub open spec fn expressions(s: Seq<char>) -> Seq<Seq<char>> {
    nonempty_trimmed(top_split(s))
}

/// The pattern that picks a ranged expression apart into prefix, range list and suffix.
pub open spec fn range_pattern() -> Seq<char> {
    "^(.*)\\[([^\\]]+)\\](.*)$"@
}

/// The names one entry of a range list stands for: `a-b` is every number from `a` to `b`,
/// padded to the width `a` is written in; an entry without `-` stands for itself. An entry
/// whose ends are not numbers, or whose start exceeds its end, stands for nothing.
pub open spec fn expand_range_spec(prefix: Seq<char>, spec: Seq<char>, suffix: Seq<char>) -> Seq<
    Seq<char>,
> {
    match split_once(spec, '-') {
        Some((a, b)) => {
            if parse_nat(a, u32::MAX as nat) is Some && parse_nat(b, u32::MAX as nat) is Some
                && parse_nat(a, u32::MAX as nat)->0 <= parse_nat(b, u32::MAX as nat)->0 {
                let start = parse_nat(a, u32::MAX as nat)->0;
                let end = parse_nat(b, u32::MAX as nat)->0;
                Seq::new(
                    (end - start + 1) as nat,
                    |k: int| prefix + zero_pad(decimal((start + k) as nat), a.len()) + suffix,
                )
            } else {
                Seq::empty()
            }
        },
        None => seq![prefix + spec + suffix],
    }
}

/// The names that the entries `specs` of one range list stand for, in order.
pub open spec fn expand_range_specs(prefix: Seq<char>, specs: Seq<Seq<char>>, suffix: Seq<char>) -> Seq<
    Seq<char>,
>
    decreases specs.len(),
{
    if specs.len() == 0 {
        Seq::empty()
    } else {
        expand_range_specs(prefix, specs.drop_last(), suffix) + expand_range_spec(
            prefix,
            specs.last(),
            suffix,
        )
    }
}

/// The names one expression stands for, given what the range pattern captured of it: a
/// ranged expression is expanded entry by entry; anything else is a single name.
pub open spec fn expression_names(part: Seq<char>, groups: Option<Seq<Option<Seq<char>>>>) -> Seq<
    Seq<char>,
> {
    match groups {
        Some(g) => expand_range_specs(
            group_text(g, 1),
            split_on(group_text(g, 2), seq![',']),
            group_text(g, 3),
        ),
        None => if part.len() > 0 {
            seq![part]
        } else {
            Seq::empty()
        },
    }
}

/// What the range pattern captures of the expression `part` (see `range_captures`).
pub open spec fn range_groups(part: Seq<char>) -> Option<Seq<Option<Seq<char>>>> {
    if one_line(part) {
        range_captures(part)
    } else {
        regex_captures_of(range_pattern(), part)
    }
}

/// The names that the expressions `parts` stand for, in order.
pub open spec fn expand_all(parts: Seq<Seq<char>>) -> Seq<Seq<char>>
    decreases parts.len(),
{
    if parts.len() == 0 {
        Seq::empty()
    } else {
        expand_all(parts.drop_last()) + expression_names(
            parts.last(),
            range_groups(parts.last()),
        )
    }
}

/// Every node name a hostlist stands for, in the order it names them.
pub open spec fn hostlist_names(s: Seq<char>) -> Seq<Seq<char>> {
    expand_all(expressions(s))
}

/// The top-level expressions of `s`.
pub fn split_expressions(s: &[char]) -> (out: Vec<Vec<char>>)
    ensures
        out.deep_view() == expressions(s@),
{
    let mut exprs: Vec<Vec<char>> = Vec::new();
    let mut cur: Vec<char> = Vec::new();
    let mut level: i128 = 0;
    let ghost mut raw: Seq<Seq<char>> = Seq::empty();
    let mut i: usize = 0;
    while i < s.len()
        invariant
            i <= s@.len(),
            level == depth(s@.take(i as int)),
            -(i as int) <= level <= i,
            top_split(s@.take(i as int)) == raw.push(cur@),
            exprs.deep_view() == nonempty_trimmed(raw),
        decreases s@.len() - i,
    {
        let ch = s[i];
        let ghost pre = s@.take(i as int);
        proof {
            assert(s@.take(i + 1).drop_last() =~= pre);
            assert(s@.take(i + 1).last() == ch);
            lemma_top_split_nonempty(pre);
        }
        if ch == ',' && level == 0 {
            if cur.len() > 0 {
                let t = trim_chars(&cur);
                let ghost before = exprs.deep_view();
                proof {
                    lemma_chars_deep_view(t);
                }
                exprs.push(t);
                assert(exprs.deep_view() =~= before.push(trim(cur@)));
            }
            proof {
                assert(raw.push(cur@).drop_last() =~= raw);
                raw = raw.push(cur@);
            }
            cur = Vec::new();
            assert(top_split(s@.take(i + 1)) =~= raw.push(cur@));
        } else {
            if ch == '[' {
                level = level + 1;
            } else if ch == ']' {
                level = level - 1;
            }
            let ghost old_cur = cur@;
            cur.push(ch);
            assert(top_split(s@.take(i + 1)) =~= raw.push(old_cur).update(
                raw.len() as int,
                old_cur.push(ch),
            ));
            assert(top_split(s@.take(i + 1)) =~= raw.push(cur@));
        }
        i = i + 1;
    }
    assert(s@.take(s@.len() as int) =~= s@);
    assert(raw.push(cur@).drop_last() =~= raw);
    if cur.len() > 0 {
        let t = trim_chars(&cur);
        let ghost before = exprs.deep_view();
        proof {
            lemma_chars_deep_view(t);
        }
        exprs.push(t);
        assert(exprs.deep_view() =~= before.push(trim(cur@)));
    }
    exprs
}

/// Appends the names `prefix{n}suffix` for every `n` from `start` to `end`, each number
/// padded to `width`.
fn push_range(
    out: &mut Vec<Vec<char>>,
    prefix: &[char],
    suffix: &[char],
    start: u32,
    end: u32,
    width: usize,
)
    requires
        start <= end,
    ensures
        final(out).deep_view() == old(out).deep_view() + Seq::new(
            (end - start + 1) as nat,
            |k: int| prefix@ + zero_pad(decimal((start + k) as nat), width as nat) + suffix@,
        ),
{
    let ghost base = old(out).deep_view();
    let ghost names = Seq::new(
        (end - start + 1) as nat,
        |k: int| prefix@ + zero_pad(decimal((start + k) as nat), width as nat) + suffix@,
    );
    let mut n: u64 = start as u64;
    while n <= end as u64
        invariant
            start <= n <= end as u64 + 1,
            names == Seq::new(
                (end - start + 1) as nat,
                |k: int| prefix@ + zero_pad(decimal((start + k) as nat), width as nat) + suffix@,
            ),
            out.deep_view() == base + names.take(n - start),
        decreases end as u64 + 1 - n,
    {
        let digits = padded_decimal(n, width);
        let head = concat(prefix, &digits);
        let name = concat(&head, suffix);
        let ghost before = out.deep_view();
        proof {
            lemma_chars_deep_view(name);
        }
        out.push(name);
        assert(names[n - start] == name@);
        assert(out.deep_view() =~= before.push(name@));
        assert(names.take(n + 1 - start) =~= names.take(n - start).push(names[n - start]));
        n = n + 1;
    }
    assert(names.take(n - start) =~= names);
}

/// Appends the names one entry of a range list stands for.
pub fn push_range_spec(out: &mut Vec<Vec<char>>, prefix: &[char], spec: &[char], suffix: &[char])
    ensures
        final(out).deep_view() == old(out).deep_view() + expand_range_spec(prefix@, spec@, suffix@),
{
    let ghost base = old(out).deep_view();
    match split_once_chars(spec, '-') {
        Some((a, b)) => {
            let lo = parse_unsigned(&a, u32::MAX as u64);
            let hi = parse_unsigned(&b, u32::MAX as u64);
            match (lo, hi) {
                (Some(start), Some(end)) => {
                    if start <= end {
                        push_range(out, prefix, suffix, start as u32, end as u32, a.len());
                    } else {
                        assert(out.deep_view() =~= base + expand_range_spec(prefix@, spec@, suffix@));
                    }
                },
                _ => {
                    assert(out.deep_view() =~= base + expand_range_spec(prefix@, spec@, suffix@));
                },
            }
        },
        None => {
            let head = concat(prefix, spec);
            let name = concat(&head, suffix);
            proof {
                lemma_chars_deep_view(name);
            }
            out.push(name);
            assert(out.deep_view() =~= base + expand_range_spec(prefix@, spec@, suffix@));
        },
    }
}

/// The names that one expression of a hostlist stands for, given what the range pattern
/// captured of it: `groups` is the result of matching `part` against that pattern.
pub fn expression_names_chars(part: &[char], groups: &Option<Vec<Option<String>>>) -> (out: Vec<
    Vec<char>,
>)
    ensures
        out.deep_view() == expression_names(part@, groups.deep_view()),
{
    let mut out: Vec<Vec<char>> = Vec::new();
    match groups {
        None => {
            if part.len() > 0 {
                let p = copy_range(part, 0, part.len());
                assert(p@ =~= part@);
                proof {
                    lemma_chars_deep_view(p);
                }
                out.push(p);
                assert(out.deep_view() =~= seq![part@]);
            }
            out
        },
        Some(g) => {
            let prefix = group_chars(g, 1);
            let list = group_chars(g, 2);
            let suffix = group_chars(g, 3);
            let specs = split_chars(&list, &[',']);
            proof {
                lemma_texts_deep_view(specs);
                assert(seq![','] =~= [','].view());
            }
            let mut j: usize = 0;
            while j < specs.len()
                invariant
                    j <= specs@.len(),
                    forall|k: int| 0 <= k < specs@.len() ==> #[trigger] specs.deep_view()[k] == specs@[k]@,
                    specs.deep_view().len() == specs@.len(),
                    out.deep_view() == expand_range_specs(prefix@, specs.deep_view().take(j as int), suffix@),
                decreases specs@.len() - j,
            {
                push_range_spec(&mut out, &prefix, &specs[j], &suffix);
                assert(specs.deep_view().take(j + 1).drop_last() =~= specs.deep_view().take(j as int));
                j = j + 1;
            }
            assert(specs.deep_view().take(specs@.len() as int) =~= specs.deep_view());
            out
        },
    }
}

/// The node names one hostlist expression stands for, given the groups that matching it
/// against the range pattern gave (`None` where it did not match).
pub fn expand_hostlist_expression(part: &str, groups: Option<Vec<Option<String>>>) -> (out: Vec<String>)
    ensures
        out.deep_view() == expression_names(part@, groups.deep_view()),
{
    let p = chars_of(part);
    let names = expression_names_chars(&p, &groups);
    strings_of(&names)
}

/// The `String`s holding `texts`.
pub fn strings_of(texts: &Vec<Vec<char>>) -> (out: Vec<String>)
    ensures
        out.deep_view() == texts.deep_view(),
{
    proof {
        lemma_texts_deep_view(*texts);
    }
    let mut out: Vec<String> = Vec::new();
    let mut i: usize = 0;
    while i < texts.len()
        invariant
            i <= texts@.len(),
            forall|k: int| 0 <= k < texts@.len() ==> #[trigger] texts.deep_view()[k] == texts@[k]@,
            texts.deep_view().len() == texts@.len(),
            out.deep_view() == texts.deep_view().take(i as int),
        decreases texts@.len() - i,
    {
        let s = string_of(&texts[i]);
        let ghost before = out.deep_view();
        out.push(s);
        assert(out.deep_view() =~= before.push(s@));
        assert(texts.deep_view().take(i + 1) =~= texts.deep_view().take(i as int).push(texts@[i as int]@));
        i = i + 1;
    }
    assert(texts.deep_view().take(texts@.len() as int) =~= texts.deep_view());
    out
}

/// Expands a Slurm hostlist into the node names it stands for.
///
/// Plain comma-separated names (`"n01,n02"`) and ranged expressions with zero padding
/// (`"compute-b[10-12,15]"`, `"gpu-a[01-02]-ib"`) are both understood.
pub fn parse_slurm_hostlist(hostlist_str: &str) -> (out: Vec<String>)
    ensures
        out.deep_view() == hostlist_names(hostlist_str@),
{
    let s = chars_of(hostlist_str);
    let parts = split_expressions(&s);
    proof {
        lemma_texts_deep_view(parts);
    }
    let mut names: Vec<Vec<char>> = Vec::new();
    let mut k: usize = 0;
    while k < parts.len()
        invariant
            k <= parts@.len(),
            forall|j: int| 0 <= j < parts@.len() ==> #[trigger] parts.deep_view()[j] == parts@[j]@,
            parts.deep_view().len() == parts@.len(),
            names.deep_view() == expand_all(parts.deep_view().take(k as int)),
        decreases parts@.len() - k,
    {
        let text = string_of(&parts[k]);
        let groups = regex_captures("^(.*)\\[([^\\]]+)\\](.*)$", text.as_str());
        assert(groups.deep_view() == range_groups(parts@[k as int]@));
        let expanded = expression_names_chars(&parts[k], &groups);
        proof {
            lemma_texts_deep_view(expanded);
            lemma_texts_deep_view(names);
        }
        let mut j: usize = 0;
        let ghost base = names.deep_view();
        while j < expanded.len()
            invariant
                j <= expanded@.len(),
                forall|i: int| 0 <= i < expanded@.len() ==> #[trigger] expanded.deep_view()[i] == expanded@[i]@,
                expanded.deep_view().len() == expanded@.len(),
                names.deep_view() == base + expanded.deep_view().take(j as int),
            decreases expanded@.len() - j,
        {
            let c = copy_range(&expanded[j], 0, expanded[j].len());
            assert(c@ =~= expanded@[j as int]@);
            let ghost before = names.deep_view();
            proof {
                lemma_chars_deep_view(c);
            }
            names.push(c);
            assert(names.deep_view() =~= before.push(expanded@[j as int]@));
            assert(expanded.deep_view().take(j + 1) =~= expanded.deep_view().take(j as int).push(expanded@[j as int]@));
            j = j + 1;
        }
        assert(expanded.deep_view().take(expanded@.len() as int) =~= expanded.deep_view());
        assert(parts.deep_view().take(k + 1).drop_last() =~= parts.deep_view().take(k as int));
        k = k + 1;
    }
    assert(parts.deep_view().take(parts@.len() as int) =~= parts.deep_view());
    strings_of(&names)
}

/// The pattern that picks a node name apart into a non-digit prefix, a number and a
/// non-digit suffix.
pub open spec fn node_pattern() -> Seq<char> {
    "^(\\D*)(\\d+)(\\D*)$"@
}

/// What a node name contributes to a compressed hostlist, given what the node pattern
/// captured of it: prefix, suffix, number and the count of digits it was written with.
/// `None` is a name that stands alone.
pub open spec fn entry_from(groups: Option<Seq<Option<Seq<char>>>>) -> Option<
    (Seq<char>, Seq<char>, u32, usize),
> {
    match groups {
        Some(g) => match parse_nat(group_text(g, 2), u32::MAX as nat) {
            Some(n) => Some(
                (group_text(g, 1), group_text(g, 3), n as u32, group_text(g, 2).len() as usize),
            ),
            None => None,
        },
        None => None,
    }
}

/// What the node pattern captures of the name `x` (see `node_captures`).
pub open spec fn node_groups(x: Seq<char>) -> Option<Seq<Option<Seq<char>>>> {
    if all_ascii(x) {
        node_captures(x)
    } else {
        regex_captures_of(node_pattern(), x)
    }
}

pub open spec fn node_entry(x: Seq<char>) -> Option<(Seq<char>, Seq<char>, u32, usize)> {
    entry_from(node_groups(x))
}

/// The names among `xs` that do not group, in order.
pub open spec fn standalone_names(xs: Seq<Seq<char>>) -> Seq<Seq<char>>
    decreases xs.len(),
{
    if xs.len() == 0 {
        Seq::empty()
    } else {
        let r = standalone_names(xs.drop_last());
        if node_entry(xs.last()) is None {
            r.push(xs.last())
        } else {
            r
        }
    }
}

/// The (prefix, suffix) groups of `xs`, in the order of their first member.
pub open spec fn group_keys(xs: Seq<Seq<char>>) -> Seq<(Seq<char>, Seq<char>)>
    decreases xs.len(),
{
    if xs.len() == 0 {
        Seq::empty()
    } else {
        let ks = group_keys(xs.drop_last());
        match node_entry(xs.last()) {
            Some(e) => if ks.contains((e.0, e.1)) {
                ks
            } else {
                ks.push((e.0, e.1))
            },
            None => ks,
        }
    }
}

/// The (number, width) pairs of the members of group `key`, in order.
pub open spec fn group_nums(xs: Seq<Seq<char>>, key: (Seq<char>, Seq<char>)) -> Seq<(u32, usize)>
    decreases xs.len(),
{
    if xs.len() == 0 {
        Seq::empty()
    } else {
        let r = group_nums(xs.drop_last(), key);
        match node_entry(xs.last()) {
            Some(e) => if (e.0, e.1) == key {
                r.push((e.2, e.3))
            } else {
                r
            },
            None => r,
        }
    }
}

/// The runs of consecutive numbers of one width in `nums`, as (first, last, width).
pub open spec fn runs(nums: Seq<(u32, usize)>) -> Seq<(u32, u32, usize)>
    decreases nums.len(),
{
    if nums.len() == 0 {
        Seq::empty()
    } else if nums.len() == 1 {
        seq![(nums[0].0, nums[0].0, nums[0].1)]
    } else {
        let r = runs(nums.drop_last());
        let last = r.last();
        let n = nums.last();
        if n.0 as int == last.1 as int + 1 && n.1 == last.2 {
            r.update(r.len() - 1, (last.0, n.0, last.2))
        } else {
            r.push((n.0, n.0, n.1))
        }
    }
}

pub(crate) proof fn lemma_runs_nonempty(nums: Seq<(u32, usize)>)
    requires
        nums.len() >= 1,
    ensures
        runs(nums).len() >= 1,
    decreases nums.len(),
{
    if nums.len() > 1 {
        lemma_runs_nonempty(nums.drop_last());
    }
}

/// How one run is written: `07`, or `07-09`.
pub open spec fn run_text(r: (u32, u32, usize)) -> Seq<char> {
    if r.0 == r.1 {
        zero_pad(decimal(r.0 as nat), r.2 as nat)
    } else {
        zero_pad(decimal(r.0 as nat), r.2 as nat) + seq!['-'] + zero_pad(
            decimal(r.1 as nat),
            r.2 as nat,
        )
    }
}

pub open spec fn run_texts(rs: Seq<(u32, u32, usize)>) -> Seq<Seq<char>> {
    rs.map_values(|r: (u32, u32, usize)| run_text(r))
}

/// How one group is written: a lone member as its own name, several as
/// `prefix[runs]suffix` over their numbers in order.
pub open spec fn group_part(key: (Seq<char>, Seq<char>), nums: Seq<(u32, usize)>) -> Seq<char> {
    if nums.len() == 1 {
        key.0 + zero_pad(decimal(nums[0].0 as nat), nums[0].1 as nat) + key.1
    } else {
        key.0 + seq!['['] + join(run_texts(runs(nums.sort_by(pair_le()))), seq![',']) + seq![']']
            + key.1
    }
}

/// The parts of a compressed hostlist, before sorting.
pub open spec fn compress_parts(xs: Seq<Seq<char>>) -> Seq<Seq<char>> {
    standalone_names(xs) + group_keys(xs).map_values(
        |k: (Seq<char>, Seq<char>)| group_part(k, group_nums(xs, k)),
    )
}

/// The compressed hostlist for the names `xs`: its parts in code point order, joined by
/// commas.
pub open spec fn compressed(xs: Seq<Seq<char>>) -> Seq<char> {
    join(compress_parts(xs).sort_by(text_le()), seq![','])
}

pub(crate) proof fn lemma_group_keys_no_dup(xs: Seq<Seq<char>>)
    ensures
        group_keys(xs).no_duplicates(),
    decreases xs.len(),
{
    if xs.len() > 0 {
        lemma_group_keys_no_dup(xs.drop_last());
    }
}

pub(crate) proof fn lemma_group_nums_absent(xs: Seq<Seq<char>>, key: (Seq<char>, Seq<char>))
    requires
        !group_keys(xs).contains(key),
    ensures
        group_nums(xs, key) == Seq::<(u32, usize)>::empty(),
    decreases xs.len(),
{
    if xs.len() > 0 {
        let ks = group_keys(xs.drop_last());
        let all = group_keys(xs);
        assert(forall|k: int| 0 <= k < ks.len() ==> all[k] == #[trigger] ks[k]);
        assert(!ks.contains(key)) by {
            if ks.contains(key) {
                let k = choose|k: int| 0 <= k < ks.len() && ks[k] == key;
                assert(all[k] == key);
            }
        }
        match node_entry(xs.last()) {
            Some(e) => {
                if (e.0, e.1) == key {
                    assert(all.contains(key)) by {
                        assert(all[all.len() - 1] == key);
                    }
                }
            },
            None => {},
        }
        lemma_group_nums_absent(xs.drop_last(), key);
    }
}

/// The node pattern's reading of one name, given the groups matching it gave.
pub fn entry_of(groups: &Option<Vec<Option<String>>>) -> (r: Option<(Vec<char>, Vec<char>, u32, usize)>)
    ensures
        r matches Some(e) ==> entry_from(groups.deep_view()) == Some((e.0@, e.1@, e.2, e.3)),
        r is None ==> entry_from(groups.deep_view()) is None,
{
    match groups {
        None => None,
        Some(g) => {
            let digits = group_chars(g, 2);
            match parse_unsigned(&digits, u32::MAX as u64) {
                Some(n) => {
                    let prefix = group_chars(g, 1);
                    let suffix = group_chars(g, 3);
                    let w = digits.len();
                    Some((prefix, suffix, n as u32, w))
                },
                None => None,
            }
        },
    }
}

/// The written runs of the sorted, non-empty `sorted`.
fn range_texts(sorted: &Vec<(u32, usize)>) -> (out: Vec<Vec<char>>)
    requires
        sorted@.len() >= 1,
    ensures
        out.deep_view() == run_texts(runs(sorted@)),
{
    let mut done: Vec<Vec<char>> = Vec::new();
    let ghost mut done_runs: Seq<(u32, u32, usize)> = Seq::empty();
    let mut start: u32 = sorted[0].0;
    let mut end: u32 = sorted[0].0;
    let mut pad: usize = sorted[0].1;
    assert(sorted@.take(1) =~= seq![sorted@[0]]);
    let mut k: usize = 1;
    while k < sorted.len()
        invariant
            1 <= k <= sorted@.len(),
            runs(sorted@.take(k as int)) == done_runs.push((start, end, pad)),
            done.deep_view() == run_texts(done_runs),
        decreases sorted@.len() - k,
    {
        let (num, width) = sorted[k];
        proof {
            assert(sorted@.take(k + 1).drop_last() =~= sorted@.take(k as int));
            lemma_runs_nonempty(sorted@.take(k as int));
        }
        if num as u64 == end as u64 + 1 && width == pad {
            end = num;
            assert(runs(sorted@.take(k + 1)) =~= done_runs.push((start, end, pad)));
        } else {
            let text = run_chars(start, end, pad);
            let ghost before = done.deep_view();
            proof {
                lemma_chars_deep_view(text);
            }
            done.push(text);
            proof {
                assert(done.deep_view() =~= before.push(run_text((start, end, pad))));
                assert(run_texts(done_runs.push((start, end, pad))) =~= run_texts(done_runs).push(
                    run_text((start, end, pad)),
                ));
                done_runs = done_runs.push((start, end, pad));
            }
            start = num;
            end = num;
            pad = width;
            assert(runs(sorted@.take(k + 1)) =~= done_runs.push((start, end, pad)));
        }
        k = k + 1;
    }
    assert(sorted@.take(k as int) =~= sorted@);
    let text = run_chars(start, end, pad);
    let ghost before = done.deep_view();
    proof {
        lemma_chars_deep_view(text);
    }
    done.push(text);
    assert(done.deep_view() =~= before.push(run_text((start, end, pad))));
    assert(run_texts(done_runs.push((start, end, pad))) =~= run_texts(done_runs).push(
        run_text((start, end, pad)),
    ));
    done
}

fn run_chars(start: u32, end: u32, pad: usize) -> (out: Vec<char>)
    ensures
        out@ == run_text((start, end, pad)),
{
    let first = padded_decimal(start as u64, pad);
    if start == end {
        first
    } else {
        let last = padded_decimal(end as u64, pad);
        let dash = concat(&first, &['-']);
        assert(['-'].view() =~= seq!['-']);
        concat(&dash, &last)
    }
}

/// How the group `prefix`/`suffix` with members `nums` is written.
fn group_part_chars(prefix: &[char], suffix: &[char], nums: Vec<(u32, usize)>) -> (out: Vec<char>)
    requires
        nums@.len() >= 1,
    ensures
        out@ == group_part((prefix@, suffix@), nums@),
{
    if nums.len() == 1 {
        let digits = padded_decimal(nums[0].0 as u64, nums[0].1);
        let head = concat(prefix, &digits);
        concat(&head, suffix)
    } else {
        let ghost unsorted = nums@;
        let sorted = sort_pairs(nums);
        assert(sorted@.len() == unsorted.len()) by {
            sorted@.to_multiset_ensures();
            unsorted.to_multiset_ensures();
        }
        let ranges = range_texts(&sorted);
        let body = join_chars(&ranges, &[',']);
        assert([','].view() =~= seq![',']);
        let open = concat(prefix, &['[']);
        let inner = concat(&open, &body);
        let close = concat(&inner, &[']']);
        assert(['['].view() =~= seq!['[']);
        assert([']'].view() =~= seq![']']);
        concat(&close, suffix)
    }
}

/// Compresses node names into a Slurm hostlist: the reverse of `parse_slurm_hostlist`,
/// which reads back every plain name, each as often, in some order
/// (`hostlist_roundtrip::lemma_parse_undoes_compression`).
///
/// Names that differ only in a number are written once, as `prefix[runs]suffix`; a run of
/// consecutive numbers written in one width becomes `a-b`. Names that do not group, and
/// groups of one, are written as they are. The parts are sorted, so the output does not
/// depend on the order of `nodes` (`lemma_compression_ignores_order`).
pub fn compress_hostlist(nodes: &[String]) -> (out: String)
    ensures
        out@ == compressed(nodes.deep_view()),
{
    let ghost xs = nodes.deep_view();
    let mut standalone: Vec<Vec<char>> = Vec::new();
    let mut pres: Vec<Vec<char>> = Vec::new();
    let mut sufs: Vec<Vec<char>> = Vec::new();
    let mut nums: Vec<Vec<(u32, usize)>> = Vec::new();
    let mut i: usize = 0;
    while i < nodes.len()
        invariant
            i <= nodes@.len(),
            xs == nodes.deep_view(),
            xs.len() == nodes@.len(),
            standalone.deep_view() == standalone_names(xs.take(i as int)),
            pres@.len() == group_keys(xs.take(i as int)).len(),
            sufs@.len() == pres@.len(),
            nums@.len() == pres@.len(),
            forall|j: int|
                0 <= j < pres@.len() ==> (#[trigger] pres@[j]@, sufs@[j]@) == group_keys(
                    xs.take(i as int),
                )[j],
            forall|j: int|
                0 <= j < pres@.len() ==> #[trigger] nums@[j]@ == group_nums(
                    xs.take(i as int),
                    group_keys(xs.take(i as int))[j],
                ),
            forall|j: int| 0 <= j < pres@.len() ==> #[trigger] nums@[j]@.len() >= 1,
        decreases nodes@.len() - i,
    {
        let ghost pre = xs.take(i as int);
        let ghost keys = group_keys(pre);
        let ghost x = xs[i as int];
        proof {
            assert(xs.take(i + 1).drop_last() =~= pre);
            assert(xs.take(i + 1).last() == x);
            assert(nodes@[i as int]@ == x);
            lemma_group_keys_no_dup(pre);
        }
        let groups = regex_captures("^(\\D*)(\\d+)(\\D*)$", nodes[i].as_str());
        assert(groups.deep_view() == node_groups(x));
        match entry_of(&groups) {
            None => {
                let name = chars_of(nodes[i].as_str());
                let ghost before = standalone.deep_view();
                proof {
                    lemma_chars_deep_view(name);
                }
                standalone.push(name);
                assert(standalone.deep_view() =~= before.push(x));
                assert(group_keys(xs.take(i + 1)) == keys);
                assert forall|j: int| 0 <= j < pres@.len() implies #[trigger] nums@[j]@ == group_nums(
                    xs.take(i + 1),
                    group_keys(xs.take(i + 1))[j],
                ) by {
                    assert(group_nums(xs.take(i + 1), keys[j]) == group_nums(pre, keys[j]));
                }
            },
            Some((p, s, n, w)) => {
                let ghost key = (p@, s@);
                assert(standalone_names(xs.take(i + 1)) == standalone_names(pre));
                let mut j: usize = 0;
                let mut found = false;
                while j < pres.len() && !found
                    invariant
                        j <= pres@.len(),
                        pres@.len() == keys.len(),
                        sufs@.len() == pres@.len(),
                        forall|m: int|
                            0 <= m < pres@.len() ==> (#[trigger] pres@[m]@, sufs@[m]@) == keys[m],
                        key == (p@, s@),
                        found ==> j < pres@.len() && keys[j as int] == key,
                        forall|m: int| 0 <= m < j ==> #[trigger] keys[m] != key,
                    decreases pres@.len() - j, (if found { 0int } else { 1int }),
                {
                    assert((pres@[j as int]@, sufs@[j as int]@) == keys[j as int]);
                    let same_prefix = chars_eq(pres[j].as_slice(), p.as_slice());
                    let same_suffix = chars_eq(sufs[j].as_slice(), s.as_slice());
                    if same_prefix && same_suffix {
                        found = true;
                    } else {
                        j = j + 1;
                    }
                }
                if j < pres.len() {
                    assert(keys[j as int] == key);
                    assert(keys.contains(key));
                    let mut v = nums.remove(j);
                    v.push((n, w));
                    nums.insert(j, v);
                    assert(group_keys(xs.take(i + 1)) == keys);
                    assert forall|m: int| 0 <= m < pres@.len() implies #[trigger] nums@[m]@
                        == group_nums(xs.take(i + 1), group_keys(xs.take(i + 1))[m]) by {
                        if m != j {
                            assert(keys[m] != key) by {
                                assert(keys.no_duplicates());
                            }
                        }
                    }
                    assert forall|m: int| 0 <= m < pres@.len() implies #[trigger] nums@[m]@.len()
                        >= 1 by {
                        if m != j {
                        }
                    }
                } else {
                    assert(!keys.contains(key)) by {
                        if keys.contains(key) {
                            let m = choose|m: int| 0 <= m < keys.len() && keys[m] == key;
                            assert(keys[m] != key);
                        }
                    }
                    proof {
                        lemma_group_nums_absent(pre, key);
                    }
                    pres.push(p);
                    sufs.push(s);
                    let mut v: Vec<(u32, usize)> = Vec::new();
                    v.push((n, w));
                    nums.push(v);
                    assert(group_keys(xs.take(i + 1)) == keys.push(key));
                    assert forall|m: int| 0 <= m < pres@.len() implies #[trigger] nums@[m]@
                        == group_nums(xs.take(i + 1), group_keys(xs.take(i + 1))[m]) by {
                        if m < keys.len() {
                            assert(keys[m] != key);
                        } else {
                            assert(v@ =~= seq![(n, w)]);
                        }
                    }
                }
            },
        }
        i = i + 1;
    }
    assert(xs.take(nodes@.len() as int) =~= xs);
    // the parts: the lone names, then one per group
    let mut parts: Vec<Vec<char>> = standalone;
    let ghost keys = group_keys(xs);
    let ghost base = parts.deep_view();
    let mut j: usize = 0;
    while j < pres.len()
        invariant
            j <= pres@.len(),
            keys == group_keys(xs),
            pres@.len() == keys.len(),
            sufs@.len() == pres@.len(),
            nums@.len() == pres@.len(),
            forall|m: int| 0 <= m < pres@.len() ==> (#[trigger] pres@[m]@, sufs@[m]@) == keys[m],
            forall|m: int| 0 <= m < pres@.len() ==> #[trigger] nums@[m]@ == group_nums(xs, keys[m]),
            forall|m: int| 0 <= m < pres@.len() ==> #[trigger] nums@[m]@.len() >= 1,
            base == standalone_names(xs),
            parts.deep_view() == base + keys.take(j as int).map_values(
                |k: (Seq<char>, Seq<char>)| group_part(k, group_nums(xs, k)),
            ),
        decreases pres@.len() - j,
    {
        let members = copy_pairs(&nums[j]);
        let part = group_part_chars(&pres[j], &sufs[j], members);
        let ghost before = parts.deep_view();
        proof {
            lemma_chars_deep_view(part);
        }
        parts.push(part);
        assert(parts.deep_view() =~= before.push(part@));
        assert(keys.take(j + 1).map_values(
            |k: (Seq<char>, Seq<char>)| group_part(k, group_nums(xs, k)),
        ) =~= keys.take(j as int).map_values(
            |k: (Seq<char>, Seq<char>)| group_part(k, group_nums(xs, k)),
        ).push(group_part(keys[j as int], group_nums(xs, keys[j as int]))));
        j = j + 1;
    }
    assert(keys.take(j as int) =~= keys);
    assert(parts.deep_view() =~= compress_parts(xs));
    let sorted = sort_texts(parts);
    let joined = join_chars(&sorted, &[',']);
    assert([','].view() =~= seq![',']);
    string_of(&joined)
}

fn copy_pairs(v: &Vec<(u32, usize)>) -> (out: Vec<(u32, usize)>)
    ensures
        out@ == v@,
{
    let mut out: Vec<(u32, usize)> = Vec::new();
    let mut i: usize = 0;
    while i < v.len()
        invariant
            i <= v@.len(),
            out@ == v@.take(i as int),
        decreases v@.len() - i,
    {
        out.push(v[i]);
        i = i + 1;
        assert(out@ =~= v@.take(i as int));
    }
    assert(v@.take(v@.len() as int) =~= v@);
    out
}

/// `filter_map` over a concatenation is the concatenation of the two results.
pub(crate) proof fn lemma_filter_map_add<A, B>(a: Seq<A>, b: Seq<A>, f: spec_fn(A) -> Option<B>)
    ensures
        (a + b).filter_map(f) == a.filter_map(f) + b.filter_map(f),
    decreases b.len(),
{
    if b.len() == 0 {
        assert(a + b =~= a);
        assert(a.filter_map(f) + b.filter_map(f) =~= a.filter_map(f));
    } else {
        assert((a + b).drop_last() =~= a + b.drop_last());
        assert((a + b).last() == b.last());
        lemma_filter_map_add(a, b.drop_last(), f);
        match f(b.last()) {
            Some(v) => {
                assert(a.filter_map(f) + b.filter_map(f) =~= (a.filter_map(f) + b.drop_last().filter_map(
                    f,
                )) + seq![v]);
            },
            None => {},
        }
    }
}

/// The same items in another order give the same `filter_map` results, in another order.
pub(crate) proof fn lemma_filter_map_permutation<A, B>(xs: Seq<A>, ys: Seq<A>, f: spec_fn(A) -> Option<B>)
    requires
        xs.to_multiset() == ys.to_multiset(),
    ensures
        xs.filter_map(f).to_multiset() == ys.filter_map(f).to_multiset(),
    decreases xs.len(),
{
    broadcast use vstd::seq_lib::group_to_multiset_ensures;
    broadcast use vstd::multiset::group_multiset_axioms;

    if xs.len() == 0 {
        vstd::seq_lib::to_multiset_len(xs);
        vstd::seq_lib::to_multiset_len(ys);
        assert(ys =~= xs);
    } else {
        let x = xs.last();
        let rest = xs.drop_last();
        assert(xs =~= rest.push(x));
        assert(xs.to_multiset().count(x) > 0);
        assert(ys.contains(x));
        let i = choose|i: int| 0 <= i < ys.len() && ys[i] == x;
        let ys2 = ys.remove(i);
        assert(ys2.to_multiset() == ys.to_multiset().remove(x));
        assert(rest.to_multiset() =~= ys2.to_multiset());
        lemma_filter_map_permutation(rest, ys2, f);
        let pre = ys.take(i);
        let post = ys.skip(i + 1);
        assert(ys =~= (pre + seq![x]) + post);
        assert(ys2 =~= pre + post);
        lemma_filter_map_add(pre + seq![x], post, f);
        lemma_filter_map_add(pre, seq![x], f);
        lemma_filter_map_add(pre, post, f);
        lemma_filter_map_add(rest, seq![x], f);
        Seq::<A>::lemma_filter_map_singleton(x, f);
        let fx = seq![x].filter_map(f);
        vstd::seq_lib::lemma_multiset_commutative(rest.filter_map(f), fx);
        vstd::seq_lib::lemma_multiset_commutative(pre.filter_map(f), fx);
        vstd::seq_lib::lemma_multiset_commutative(pre.filter_map(f) + fx, post.filter_map(f));
        vstd::seq_lib::lemma_multiset_commutative(pre.filter_map(f), post.filter_map(f));
        assert(ys.filter_map(f).to_multiset() =~= ys2.filter_map(f).to_multiset().add(fx.to_multiset()));
    }
}

/// A mapped sequence as a `filter_map` that keeps every item.
pub(crate) proof fn lemma_map_values_as_filter_map<A, B>(s: Seq<A>, h: spec_fn(A) -> B)
    ensures
        s.map_values(h) == s.filter_map(|a: A| Some(h(a))),
    decreases s.len(),
{
    if s.len() > 0 {
        lemma_map_values_as_filter_map(s.drop_last(), h);
        assert(s.map_values(h) =~= s.drop_last().map_values(h) + seq![h(s.last())]);
    } else {
        assert(s.map_values(h) =~= Seq::<B>::empty());
    }
}

/// A name that stands alone, picked out of the others.
pub open spec fn standalone_pick() -> spec_fn(Seq<char>) -> Option<Seq<char>> {
    |x: Seq<char>| if node_entry(x) is None {
        Some(x)
    } else {
        None
    }
}

/// The number and width of a name of group `key`, picked out of the others.
pub open spec fn member_pick(key: (Seq<char>, Seq<char>)) -> spec_fn(Seq<char>) -> Option<(u32, usize)> {
    |x: Seq<char>| match node_entry(x) {
        Some(e) => if (e.0, e.1) == key {
            Some((e.2, e.3))
        } else {
            None
        },
        None => None,
    }
}

pub(crate) proof fn lemma_standalone_filter_map(xs: Seq<Seq<char>>)
    ensures
        standalone_names(xs) == xs.filter_map(standalone_pick()),
    decreases xs.len(),
{
    if xs.len() > 0 {
        lemma_standalone_filter_map(xs.drop_last());
        assert(standalone_names(xs.drop_last()).push(xs.last()) =~= xs.drop_last().filter_map(
            standalone_pick(),
        ) + seq![xs.last()]);
    }
}

pub(crate) proof fn lemma_group_nums_filter_map(xs: Seq<Seq<char>>, key: (Seq<char>, Seq<char>))
    ensures
        group_nums(xs, key) == xs.filter_map(member_pick(key)),
    decreases xs.len(),
{
    if xs.len() > 0 {
        lemma_group_nums_filter_map(xs.drop_last(), key);
        match node_entry(xs.last()) {
            Some(e) => {
                assert(group_nums(xs.drop_last(), key).push((e.2, e.3)) =~= xs.drop_last().filter_map(
                    member_pick(key),
                ) + seq![(e.2, e.3)]);
            },
            None => {},
        }
    }
}

/// The group a name belongs to: its prefix and suffix, where it has a number.
pub open spec fn key_of(x: Seq<char>) -> Option<(Seq<char>, Seq<char>)> {
    match node_entry(x) {
        Some(e) => Some((e.0, e.1)),
        None => None,
    }
}

/// A group is named by `group_keys` exactly when a name of it occurs.
pub(crate) proof fn lemma_group_keys_contains(xs: Seq<Seq<char>>, key: (Seq<char>, Seq<char>))
    ensures
        group_keys(xs).contains(key) <==> exists|x: Seq<char>|
            #[trigger] xs.contains(x) && key_of(x) == Some(key),
    decreases xs.len(),
{
    if xs.len() > 0 {
        let rest = xs.drop_last();
        lemma_group_keys_contains(rest, key);
        let ks = group_keys(rest);
        assert(forall|k: int| 0 <= k < ks.len() ==> group_keys(xs)[k] == #[trigger] ks[k]);
        if group_keys(xs).contains(key) {
            if !ks.contains(key) {
                let k = choose|k: int| 0 <= k < group_keys(xs).len() && group_keys(xs)[k] == key;
                if k < ks.len() {
                    assert(ks[k] == key);
                }
                assert(xs.contains(xs.last()) && key_of(xs.last()) == Some(key)) by {
                    assert(xs[xs.len() - 1] == xs.last());
                }
            } else {
                let x = choose|x: Seq<char>|
                    #[trigger] rest.contains(x) && key_of(x) == Some(key);
                let j = choose|j: int| 0 <= j < rest.len() && rest[j] == x;
                assert(xs[j] == x);
                assert(xs.contains(x));
            }
        } else {
            assert(!ks.contains(key)) by {
                if ks.contains(key) {
                    let k = choose|k: int| 0 <= k < ks.len() && ks[k] == key;
                    assert(group_keys(xs)[k] == key);
                }
            }
            if exists|x: Seq<char>|
                #[trigger] xs.contains(x) && key_of(x) == Some(key) {
                let x = choose|x: Seq<char>|
                    #[trigger] xs.contains(x) && key_of(x) == Some(key);
                let j = choose|j: int| 0 <= j < xs.len() && xs[j] == x;
                if j < rest.len() {
                    assert(rest[j] == x);
                    assert(rest.contains(x));
                } else {
                    assert(x == xs.last());
                    let g = group_keys(xs);
                    assert(g[g.len() - 1] == key);
                }
            }
        }
    }
}

/// How a group is written depends on its members, not on the order they came in.
pub(crate) proof fn lemma_group_part_permutation(
    key: (Seq<char>, Seq<char>),
    a: Seq<(u32, usize)>,
    b: Seq<(u32, usize)>,
)
    requires
        a.to_multiset() == b.to_multiset(),
    ensures
        group_part(key, a) == group_part(key, b),
{
    broadcast use vstd::seq_lib::group_to_multiset_ensures;
    broadcast use vstd::multiset::group_multiset_axioms;

    vstd::seq_lib::to_multiset_len(a);
    vstd::seq_lib::to_multiset_len(b);
    if a.len() == 1 {
        assert(a.to_multiset().count(b[0]) > 0);
        assert(a.contains(b[0]));
        assert(a[0] == b[0]);
    } else {
        crate::order::lemma_pair_le_total_ordering();
        a.lemma_sort_by_ensures(pair_le());
        b.lemma_sort_by_ensures(pair_le());
        vstd::seq_lib::lemma_sorted_unique(a.sort_by(pair_le()), b.sort_by(pair_le()), pair_le());
    }
}

/// Compression ignores the order of its input: two lists holding the same names, each
/// as often, compress to the same hostlist.
pub proof fn lemma_compression_ignores_order(xs: Seq<Seq<char>>, ys: Seq<Seq<char>>)
    requires
        xs.to_multiset() == ys.to_multiset(),
    ensures
        compressed(xs) == compressed(ys),
{
    broadcast use vstd::seq_lib::group_to_multiset_ensures;
    broadcast use vstd::multiset::group_multiset_axioms;

    // the lone names
    lemma_standalone_filter_map(xs);
    lemma_standalone_filter_map(ys);
    lemma_filter_map_permutation(xs, ys, standalone_pick());
    // the groups: the same keys, each once
    let kx = group_keys(xs);
    let ky = group_keys(ys);
    lemma_group_keys_no_dup(xs);
    lemma_group_keys_no_dup(ys);
    kx.lemma_multiset_has_no_duplicates();
    ky.lemma_multiset_has_no_duplicates();
    assert forall|k: (Seq<char>, Seq<char>)| kx.to_multiset().count(k) == ky.to_multiset().count(k) by {
        lemma_group_keys_contains(xs, k);
        lemma_group_keys_contains(ys, k);
        assert forall|x: Seq<char>| #[trigger] xs.contains(x) <==> ys.contains(x) by {
            vstd::seq_lib::to_multiset_contains(xs, x);
            vstd::seq_lib::to_multiset_contains(ys, x);
        }
        if kx.contains(k) {
            let x = choose|x: Seq<char>|
                #[trigger] xs.contains(x) && key_of(x) == Some(k);
            assert(ys.contains(x));
        }
        if ky.contains(k) {
            let x = choose|x: Seq<char>|
                #[trigger] ys.contains(x) && key_of(x) == Some(k);
            assert(xs.contains(x));
        }
        assert(kx.contains(k) == ky.contains(k));
    }
    assert(kx.to_multiset() =~= ky.to_multiset());
    // each group is written the same from either list
    let hx = |k: (Seq<char>, Seq<char>)| group_part(k, group_nums(xs, k));
    let hy = |k: (Seq<char>, Seq<char>)| group_part(k, group_nums(ys, k));
    assert forall|k: (Seq<char>, Seq<char>)| #[trigger] hx(k) == hy(k) by {
        lemma_group_nums_filter_map(xs, k);
        lemma_group_nums_filter_map(ys, k);
        lemma_filter_map_permutation(xs, ys, member_pick(k));
        lemma_group_part_permutation(k, group_nums(xs, k), group_nums(ys, k));
    }
    assert(ky.map_values(hy) =~= ky.map_values(hx));
    lemma_map_values_as_filter_map(kx, hx);
    lemma_map_values_as_filter_map(ky, hx);
    lemma_filter_map_permutation(kx, ky, |a: (Seq<char>, Seq<char>)| Some(hx(a)));
    // so the parts are the same, and sorting puts them in one order
    let px = compress_parts(xs);
    let py = compress_parts(ys);
    assert(px == standalone_names(xs) + kx.map_values(hx));
    assert(py == standalone_names(ys) + ky.map_values(hy));
    vstd::seq_lib::lemma_multiset_commutative(standalone_names(xs), kx.map_values(hx));
    vstd::seq_lib::lemma_multiset_commutative(standalone_names(ys), ky.map_values(hx));
    assert(px.to_multiset() =~= py.to_multiset());
    crate::order::lemma_text_le_total_ordering();
    px.lemma_sort_by_ensures(text_le());
    py.lemma_sort_by_ensures(text_le());
    vstd::seq_lib::lemma_sorted_unique(px.sort_by(text_le()), py.sort_by(text_le()), text_le());
}

} // verus!
