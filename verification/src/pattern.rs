//! Regular-expression matching, done by the `regex` crate.
use vstd::prelude::*;
use crate::text::chars_of;

verus! {

/// What `regex::Regex::new(pattern)` followed by `captures(text)` yields: `None` where the
/// pattern does not compile or does not match, else each group's text in order, group 0
/// being the whole match and a group that took no part in the match being `None`.
pub uninterp spec fn regex_captures_of(pattern: Seq<char>, text: Seq<char>) -> Option<
    Seq<Option<Seq<char>>>,
>;

/// Whether `c` is an ASCII digit.
pub open spec fn ascii_digit(c: char) -> bool {
    '0' <= c && c <= '9'
}

/// The first position at or after `k` that holds an ASCII digit, or the length of `t`.
pub open spec fn first_digit_from(t: Seq<char>, k: int) -> int
    decreases t.len() - k,
{
    if k < 0 || k >= t.len() {
        t.len() as int
    } else if ascii_digit(t[k]) {
        k
    } else {
        first_digit_from(t, k + 1)
    }
}

/// The first position at or after `k` that does not hold an ASCII digit, or the length of
/// `t`.
pub open spec fn digit_run_end(t: Seq<char>, k: int) -> int
    decreases t.len() - k,
{
    if k < 0 || k >= t.len() {
        t.len() as int
    } else if !ascii_digit(t[k]) {
        k
    } else {
        digit_run_end(t, k + 1)
    }
}

/// What `^(\D*)(\d+)(\D*)$` captures of an ASCII text: a text with exactly one run of
/// digits is cut into what comes before it, the run and what comes after; any other text
/// does not match.
pub open spec fn node_captures(t: Seq<char>) -> Option<Seq<Option<Seq<char>>>> {
    let i = first_digit_from(t, 0);
    let j = digit_run_end(t, i);
    if i < t.len() && first_digit_from(t, j) == t.len() {
        Some(seq![Some(t), Some(t.take(i)), Some(t.subrange(i, j)), Some(t.skip(j))])
    } else {
        None
    }
}

/// The first position after `p` that holds `]`, if any.
pub open spec fn close_after(t: Seq<char>, p: int) -> Option<int>
    decreases t.len() - p,
{
    if p + 1 >= t.len() || p + 1 < 0 {
        None
    } else if t[p + 1] == ']' {
        Some(p + 1)
    } else {
        close_after(t, p + 1)
    }
}

/// Whether a `[` at `p` opens a range list: some character follows it before the next `]`.
pub open spec fn opens_list(t: Seq<char>, p: int) -> bool {
    &&& 0 <= p < t.len()
    &&& t[p] == '['
    &&& close_after(t, p) is Some
    &&& close_after(t, p)->0 >= p + 2
}

/// The last position before `n` at which a range list opens, if any.
pub open spec fn last_opening(t: Seq<char>, n: int) -> Option<int>
    decreases n,
{
    if n <= 0 {
        None
    } else if opens_list(t, n - 1) {
        Some(n - 1)
    } else {
        last_opening(t, n - 1)
    }
}

/// What `^(.*)\[([^\]]+)\](.*)$` captures of a text without line breaks: the greedy
/// first group reaches the last `[` that opens a list, the second runs to the `]` after
/// it, the third takes the rest. A text with no such `[` does not match.
pub open spec fn range_captures(t: Seq<char>) -> Option<Seq<Option<Seq<char>>>> {
    match last_opening(t, t.len() as int) {
        Some(p) => {
            let q = close_after(t, p)->0;
            Some(seq![Some(t), Some(t.take(p)), Some(t.subrange(p + 1, q)), Some(t.skip(q + 1))])
        },
        None => None,
    }
}

/// Whether `t` holds no line break, which `.` does not match.
pub open spec fn one_line(t: Seq<char>) -> bool {
    forall|i: int| 0 <= i < t.len() ==> #[trigger] t[i] != '\n'
}

/// Calls `regex::Regex::new` on `pattern` and `regex::Regex::captures` on `text`, and hands
/// the groups back as text. The contract states that the result is `regex_captures_of` of
/// the two arguments, and, for the two patterns the hostlist code uses, what the regex
/// syntax makes of them: on an ASCII text `\d` is a digit `0`-`9` and `\D` any other
/// character (`node_captures`), and on a text without line breaks `.` is any character
/// and the greedy `.*` takes the longest prefix that still lets the rest match
/// (`range_captures`). What the engine computes of other patterns and texts is left
/// unstated.
#[verifier::external_body]
pub(crate) fn regex_captures(pattern: &str, text: &str) -> (r: Option<Vec<Option<String>>>)
    ensures
        r.deep_view() == regex_captures_of(pattern@, text@),
        pattern@ == "^(\\D*)(\\d+)(\\D*)$"@ && crate::text::all_ascii(text@) ==> r.deep_view()
            == node_captures(text@),
        pattern@ == "^(.*)\\[([^\\]]+)\\](.*)$"@ && one_line(text@) ==> r.deep_view()
            == range_captures(text@),
{
    let re = regex::Regex::new(pattern).ok()?;
    let caps = re.captures(text)?;
    Some(caps.iter().map(|m| m.map(|m| m.as_str().to_string())).collect())
}

/// The text of group `i`, empty where the group is absent, as `Captures::get(i)` read
/// through `map_or("", ..)` gives it.
pub open spec fn group_text(groups: Seq<Option<Seq<char>>>, i: int) -> Seq<char> {
    if 0 <= i < groups.len() {
        match groups[i] {
            Some(g) => g,
            None => Seq::empty(),
        }
    } else {
        Seq::empty()
    }
}

/// Group `i` of `groups`, empty where absent.
pub fn group_chars(groups: &Vec<Option<String>>, i: usize) -> (g: Vec<char>)
    ensures
        g@ == group_text(groups.deep_view(), i as int),
{
    if i < groups.len() {
        match &groups[i] {
            Some(s) => chars_of(s.as_str()),
            None => Vec::new(),
        }
    } else {
        Vec::new()
    }
}

} // verus!
