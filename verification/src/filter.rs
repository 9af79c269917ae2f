//! Selecting nodes by feature, in the syntax of Slurm's `--constraint`: `&` and `,` for
//! and, `|` (or separate arguments) for or.
use vstd::prelude::*;
use crate::nodes::{Node, SlurmNodes};
use crate::text::{
    chars_eq, chars_of, concat, contains_char, join, join_chars, lemma_texts_deep_view,
    split_chars, split_on, string_of, trim, trim_chars,
};

verus! {

/// One way a node can satisfy a selection: a node must have every feature named here.
#[derive(Debug)]
pub struct Alternative {
    features: Vec<String>,
}

/// Which nodes a report is about, as alternatives that a node may satisfy any of.
#[derive(Debug)]
pub struct FeatureQuery {
    alternatives: Vec<Alternative>,
}

impl View for Alternative {
    type V = Seq<Seq<char>>;

    closed spec fn view(&self) -> Seq<Seq<char>> {
        self.features.deep_view()
    }
}

impl View for FeatureQuery {
    type V = Seq<Seq<Seq<char>>>;

    closed spec fn view(&self) -> Seq<Seq<Seq<char>>> {
        self.alternatives@.map_values(|a: Alternative| a@)
    }
}

/// The characters Slurm reads as "and".
pub open spec fn and_chars() -> Seq<char> {
    seq!['&', ',']
}

/// The characters of Slurm's counted and bracketed constraints, which shape an allocation
/// and mean nothing when picking nodes to look at.
pub open spec fn allocation_only_chars() -> Seq<char> {
    seq!['[', ']', '*', '(', ')']
}

/// The first character of `arg` that only an allocation constraint uses.
pub open spec fn first_allocation_char(arg: Seq<char>) -> Option<char>
    decreases arg.len(),
{
    if arg.len() == 0 {
        None
    } else if allocation_only_chars().contains(arg[0]) {
        Some(arg[0])
    } else {
        first_allocation_char(arg.drop_first())
    }
}

/// The refusal of `arg` for holding `bad`.
pub open spec fn allocation_message(bad: char, arg: Seq<char>) -> Seq<char> {
    seq!['\''] + seq![bad] + "' in \""@ + arg
        + "\" belongs to Slurm's counted and bracketed constraints, which shape an allocation and have no meaning when selecting nodes to display. Use & or , for and, | for or."@
}

/// The refusal of `arg` for an operator with nothing on one side.
pub open spec fn dangling_message(arg: Seq<char>) -> Seq<char> {
    seq!['"'] + arg + "\" has an operator with nothing on one side of it"@
}

/// The features of one alternative as written: its `&`/`,`-separated pieces, trimmed.
pub open spec fn alternative_features(alt: Seq<char>) -> Seq<Seq<char>> {
    split_on(alt, and_chars()).map_values(|f: Seq<char>| trim(f))
}

/// The alternatives one argument writes: its `|`-separated pieces.
pub open spec fn arg_alternatives(arg: Seq<char>) -> Seq<Seq<Seq<char>>> {
    split_on(arg, seq!['|']).map_values(|a: Seq<char>| alternative_features(a))
}

pub open spec fn has_empty_feature(alts: Seq<Seq<Seq<char>>>) -> bool {
    exists|i: int, j: int|
        0 <= i < alts.len() && 0 <= j < alts[i].len() && #[trigger] alts[i][j].len() == 0
}

/// What one argument reads as: its alternatives, or the reason it is refused.
pub open spec fn parse_arg(arg: Seq<char>) -> Result<Seq<Seq<Seq<char>>>, Seq<char>> {
    match first_allocation_char(arg) {
        Some(bad) => Err(allocation_message(bad, arg)),
        None => if has_empty_feature(arg_alternatives(arg)) {
            Err(dangling_message(arg))
        } else {
            Ok(arg_alternatives(arg))
        },
    }
}

/// What a whole selection reads as: the alternatives of every argument in turn, or the
/// refusal of the first argument that is refused.
pub open spec fn parse_args(args: Seq<Seq<char>>) -> Result<Seq<Seq<Seq<char>>>, Seq<char>>
    decreases args.len(),
{
    if args.len() == 0 {
        Ok(Seq::empty())
    } else {
        match parse_args(args.drop_last()) {
            Err(e) => Err(e),
            Ok(alts) => match parse_arg(args.last()) {
                Err(e) => Err(e),
                Ok(more) => Ok(alts + more),
            },
        }
    }
}

/// Whether `needle` occurs in `hay` at position `i`.
pub open spec fn occurs_at(hay: Seq<char>, needle: Seq<char>, i: int) -> bool {
    0 <= i && i + needle.len() <= hay.len() && hay.subrange(i, i + needle.len()) == needle
}

/// `str::contains`: whether `needle` occurs in `hay`.
pub open spec fn contains_text(hay: Seq<char>, needle: Seq<char>) -> bool {
    exists|i: int| occurs_at(hay, needle, i)
}

/// Whether a node with `features` has a feature `wanted`: equal to it when `exact`, else
/// containing it.
pub open spec fn has_feature(features: Seq<Seq<char>>, wanted: Seq<char>, exact: bool) -> bool {
    if exact {
        features.contains(wanted)
    } else {
        exists|k: int| 0 <= k < features.len() && contains_text(#[trigger] features[k], wanted)
    }
}

/// Whether a node with `features` has every feature an alternative names.
pub open spec fn alternative_matches(alt: Seq<Seq<char>>, features: Seq<Seq<char>>, exact: bool) -> bool {
    forall|i: int| 0 <= i < alt.len() ==> has_feature(features, #[trigger] alt[i], exact)
}

/// Whether a node with `features` satisfies some alternative of a query.
pub open spec fn query_matches(q: Seq<Seq<Seq<char>>>, features: Seq<Seq<char>>, exact: bool) -> bool {
    exists|i: int| 0 <= i < q.len() && alternative_matches(#[trigger] q[i], features, exact)
}

fn find_allocation_char(arg: &[char]) -> (r: Option<char>)
    ensures
        r == first_allocation_char(arg@),
{
    let bad = ['[', ']', '*', '(', ')'];
    assert(bad.view() =~= allocation_only_chars());
    let mut i: usize = 0;
    assert(arg@.skip(0) =~= arg@);
    while i < arg.len()
        invariant
            i <= arg@.len(),
            bad@ == allocation_only_chars(),
            first_allocation_char(arg@) == first_allocation_char(arg@.skip(i as int)),
        decreases arg@.len() - i,
    {
        let c = arg[i];
        assert(arg@.skip(i as int)[0] == c);
        assert(arg@.skip(i as int).drop_first() =~= arg@.skip(i + 1));
        if contains_char(&bad, c) {
            return Some(c);
        }
        i = i + 1;
    }
    None
}

fn contains_at(hay: &[char], needle: &[char], i: usize) -> (r: bool)
    ensures
        r == occurs_at(hay@, needle@, i as int),
{
    if needle.len() > hay.len() || i > hay.len() - needle.len() {
        return false;
    }
    let mut k: usize = 0;
    let n = hay.len();
    while k < needle.len()
        invariant
            k <= needle@.len(),
            n == hay@.len(),
            i + needle@.len() <= hay@.len(),
            forall|m: int| 0 <= m < k ==> hay@[i + m] == needle@[m],
        decreases needle@.len() - k,
    {
        assert(i + k < hay@.len());
        if hay[i + k] != needle[k] {
            assert(hay@.subrange(i as int, i + needle@.len())[k as int] != needle@[k as int]);
            return false;
        }
        k = k + 1;
    }
    assert(hay@.subrange(i as int, i + needle@.len()) =~= needle@);
    true
}

/// `str::contains` on text.
pub fn text_contains(hay: &[char], needle: &[char]) -> (r: bool)
    ensures
        r == contains_text(hay@, needle@),
{
    let mut i: usize = 0;
    while i <= hay.len()
        invariant
            i <= hay@.len() + 1,
            forall|m: int| 0 <= m < i ==> !occurs_at(hay@, needle@, m),
        decreases hay@.len() + 1 - i,
    {
        if contains_at(hay, needle, i) {
            return true;
        }
        if i == hay.len() {
            assert forall|m: int| !occurs_at(hay@, needle@, m) by {
                if m > hay@.len() {
                    assert(!(m + needle@.len() <= hay@.len()));
                }
            }
            return false;
        }
        i = i + 1;
    }
    false
}

impl Alternative {
    /// Whether a node with `features` has all of these features, by substring unless
    /// `exact`.
    pub fn matches_features(&self, features: &Vec<String>, exact: bool) -> (r: bool)
        ensures
            r == alternative_matches(self@, features.deep_view(), exact),
    {
        let mut i: usize = 0;
        while i < self.features.len()
            invariant
                i <= self.features@.len(),
                forall|k: int| 0 <= k < i ==> has_feature(features.deep_view(), #[trigger] self@[k], exact),
            decreases self.features@.len() - i,
        {
            let wanted = chars_of(self.features[i].as_str());
            assert(self@[i as int] == wanted@);
            if !has_feature_exec(features, &wanted, exact) {
                return false;
            }
            i = i + 1;
        }
        true
    }

    /// Whether `node` has all of these features, by substring unless `exact`.
    pub fn matches(&self, node: &Node, exact: bool) -> (r: bool)
        ensures
            r == alternative_matches(self@, node.features.deep_view(), exact),
    {
        self.matches_features(&node.features, exact)
    }

    /// How to name this alternative in a report, in the syntax it was written in: its
    /// features joined by `&`.
    pub fn label(&self) -> (s: String)
        ensures
            s@ == join(self@, seq!['&']),
    {
        let mut parts: Vec<Vec<char>> = Vec::new();
        let mut i: usize = 0;
        while i < self.features.len()
            invariant
                i <= self.features@.len(),
                parts.deep_view() == self@.take(i as int),
            decreases self.features@.len() - i,
        {
            let f = chars_of(self.features[i].as_str());
            let ghost before = parts.deep_view();
            proof {
                crate::text::lemma_chars_deep_view(f);
            }
            parts.push(f);
            assert(parts.deep_view() =~= before.push(self@[i as int]));
            assert(self@.take(i + 1) =~= self@.take(i as int).push(self@[i as int]));
            i = i + 1;
        }
        assert(self@.take(i as int) =~= self@);
        let joined = join_chars(&parts, &['&']);
        assert(['&'].view() =~= seq!['&']);
        string_of(&joined)
    }

    /// The features named here.
    pub fn features(&self) -> (f: &[String])
        ensures
            f.deep_view() == self@,
    {
        self.features.as_slice()
    }
}

pub(crate) fn has_feature_exec(features: &Vec<String>, wanted: &[char], exact: bool) -> (r: bool)
    ensures
        r == has_feature(features.deep_view(), wanted@, exact),
{
    let mut k: usize = 0;
    while k < features.len()
        invariant
            k <= features@.len(),
            forall|m: int|
                0 <= m < k ==> if exact {
                    #[trigger] features.deep_view()[m] != wanted@
                } else {
                    !contains_text(features.deep_view()[m], wanted@)
                },
        decreases features@.len() - k,
    {
        let held = chars_of(features[k].as_str());
        assert(features.deep_view()[k as int] == held@);
        if exact {
            if chars_eq(&held, wanted) {
                return true;
            }
        } else {
            if text_contains(&held, wanted) {
                return true;
            }
        }
        k = k + 1;
    }
    false
}

/// The features of one alternative as written.
fn alternative_of(alt: &[char]) -> (out: Vec<String>)
    ensures
        out.deep_view() == alternative_features(alt@),
{
    let pieces = split_chars(alt, &['&', ',']);
    assert(['&', ','].view() =~= and_chars());
    proof {
        lemma_texts_deep_view(pieces);
    }
    let mut out: Vec<String> = Vec::new();
    let mut i: usize = 0;
    while i < pieces.len()
        invariant
            i <= pieces@.len(),
            forall|k: int| 0 <= k < pieces@.len() ==> #[trigger] pieces.deep_view()[k] == pieces@[k]@,
            pieces.deep_view().len() == pieces@.len(),
            pieces.deep_view() == split_on(alt@, and_chars()),
            out.deep_view() == pieces.deep_view().take(i as int).map_values(|f: Seq<char>| trim(f)),
        decreases pieces@.len() - i,
    {
        let t = trim_chars(&pieces[i]);
        let s = string_of(&t);
        let ghost before = out.deep_view();
        out.push(s);
        assert(out.deep_view() =~= before.push(s@));
        assert(pieces.deep_view().take(i + 1).map_values(|f: Seq<char>| trim(f)) =~= pieces.deep_view().take(
            i as int,
        ).map_values(|f: Seq<char>| trim(f)).push(trim(pieces@[i as int]@)));
        i = i + 1;
    }
    assert(pieces.deep_view().take(i as int) =~= pieces.deep_view());
    out
}

fn any_empty(features: &Vec<String>) -> (r: bool)
    ensures
        r == exists|j: int| 0 <= j < features.deep_view().len() && #[trigger] features.deep_view()[j].len() == 0,
{
    let mut j: usize = 0;
    while j < features.len()
        invariant
            j <= features@.len(),
            forall|m: int| 0 <= m < j ==> #[trigger] features.deep_view()[m].len() != 0,
        decreases features@.len() - j,
    {
        assert(features.deep_view()[j as int] == features@[j as int]@);
        if features[j].as_str().is_empty() {
            return true;
        }
        j = j + 1;
    }
    false
}

/// Appends `more` to `msg`.
fn append_text(msg: &mut Vec<char>, more: &str)
    ensures
        final(msg)@ == old(msg)@ + more@,
{
    let m = chars_of(more);
    let joined = concat(msg, &m);
    *msg = joined;
}

impl FeatureQuery {
    /// Reads a selection as written on a command line, one expression per argument.
    ///
    /// `icelake&gpu` and `icelake,gpu` both ask for nodes having both features;
    /// `icelake|gpu` asks for either, as does naming them as separate arguments. Slurm's
    /// counted and bracketed constraints are refused, as is an operator with nothing on
    /// one side of it.
    pub fn parse(args: &[String]) -> (r: Result<FeatureQuery, String>)
        ensures
            r matches Ok(q) ==> parse_args(args.deep_view()) == Ok::<_, Seq<char>>(q@),
            r matches Err(e) ==> parse_args(args.deep_view()) == Err::<Seq<Seq<Seq<char>>>, _>(e@),
    {
        let mut alternatives: Vec<Alternative> = Vec::new();
        let ghost xs = args.deep_view();
        let mut i: usize = 0;
        assert(xs.take(0) =~= Seq::<Seq<char>>::empty());
        assert(alternatives@.map_values(|a: Alternative| a@) =~= Seq::<Seq<Seq<char>>>::empty());
        while i < args.len()
            invariant
                i <= args@.len(),
                xs == args.deep_view(),
                parse_args(xs.take(i as int)) == Ok::<_, Seq<char>>(
                    alternatives@.map_values(|a: Alternative| a@),
                ),
            decreases args@.len() - i,
        {
            let arg = chars_of(args[i].as_str());
            let ghost pre = xs.take(i as int);
            assert(xs.take(i + 1).drop_last() =~= pre);
            assert(xs.take(i + 1).last() == arg@);
            match find_allocation_char(&arg) {
                Some(bad) => {
                    let mut msg: Vec<char> = Vec::new();
                    msg.push('\'');
                    msg.push(bad);
                    append_text(&mut msg, "' in \"");
                    let with_arg = concat(&msg, &arg);
                    msg = with_arg;
                    append_text(
                        &mut msg,
                        "\" belongs to Slurm's counted and bracketed constraints, which shape an allocation and have no meaning when selecting nodes to display. Use & or , for and, | for or.",
                    );
                    assert(msg@ =~= allocation_message(bad, arg@));
                    proof {
                        assert(parse_arg(arg@) is Err);
                        assert(parse_args(xs.take(i + 1)) is Err);
                        lemma_parse_args_err(xs, i as int + 1);
                    }
                    return Err(string_of(&msg));
                },
                None => {},
            }
            let alts = split_chars(&arg, &['|']);
            assert(['|'].view() =~= seq!['|']);
            proof {
                lemma_texts_deep_view(alts);
            }
            let ghost arg_alts = arg_alternatives(arg@);
            let mut found: Vec<Alternative> = Vec::new();
            let mut j: usize = 0;
            while j < alts.len()
                invariant
                    j <= alts@.len(),
                    forall|k: int| 0 <= k < alts@.len() ==> #[trigger] alts.deep_view()[k] == alts@[k]@,
                    alts.deep_view().len() == alts@.len(),
                    alts.deep_view() == split_on(arg@, seq!['|']),
                    arg_alts == arg_alternatives(arg@),
                    i < args@.len(),
                    xs.take(i + 1).drop_last() == xs.take(i as int),
                    xs.take(i + 1).last() == arg@,
                    parse_args(xs.take(i as int)) is Ok,
                    first_allocation_char(arg@) is None,
                    xs == args.deep_view(),
                    found@.map_values(|a: Alternative| a@) == arg_alts.take(j as int),
                    !has_empty_feature(arg_alts.take(j as int)),
                decreases alts@.len() - j,
            {
                let features = alternative_of(&alts[j]);
                assert(arg_alts[j as int] == features.deep_view());
                if any_empty(&features) {
                    let mut msg: Vec<char> = Vec::new();
                    msg.push('"');
                    let with_arg = concat(&msg, &arg);
                    msg = with_arg;
                    append_text(&mut msg, "\" has an operator with nothing on one side of it");
                    assert(msg@ =~= dangling_message(arg@));
                    proof {
                        let jj = choose|jj: int|
                            0 <= jj < features.deep_view().len() && #[trigger] features.deep_view()[jj].len() == 0;
                        assert(arg_alts[j as int][jj].len() == 0);
                        assert(has_empty_feature(arg_alts));
                        assert(parse_arg(arg@) is Err);
                        assert(parse_args(xs.take(i + 1)) is Err);
                        lemma_parse_args_err(xs, i as int + 1);
                    }
                    return Err(string_of(&msg));
                }
                let ghost before = found@.map_values(|a: Alternative| a@);
                found.push(Alternative { features });
                proof {
                    assert(found@.map_values(|a: Alternative| a@) =~= before.push(arg_alts[j as int]));
                    assert(arg_alts.take(j + 1) =~= arg_alts.take(j as int).push(arg_alts[j as int]));
                    assert(!has_empty_feature(arg_alts.take(j + 1))) by {
                        if has_empty_feature(arg_alts.take(j + 1)) {
                            let (a, b) = choose|a: int, b: int|
                                0 <= a < arg_alts.take(j + 1).len() && 0 <= b < arg_alts.take(j + 1)[a].len()
                                    && #[trigger] arg_alts.take(j + 1)[a][b].len() == 0;
                            if a < j {
                                assert(arg_alts.take(j as int)[a][b].len() == 0);
                            } else {
                                assert(features.deep_view()[b].len() == 0);
                            }
                        }
                    }
                }
                j = j + 1;
            }
            assert(arg_alts.take(j as int) =~= arg_alts);
            let ghost before = alternatives@.map_values(|a: Alternative| a@);
            let mut k: usize = 0;
            let ghost found_view = found@.map_values(|a: Alternative| a@);
            while k < found.len()
                invariant
                    k <= found@.len(),
                    alternatives@.map_values(|a: Alternative| a@) == before + found_view.take(k as int),
                    found_view == found@.map_values(|a: Alternative| a@),
                decreases found@.len() - k,
            {
                let copied = copy_alternative(&found[k]);
                let ghost b2 = alternatives@.map_values(|a: Alternative| a@);
                alternatives.push(copied);
                assert(alternatives@.map_values(|a: Alternative| a@) =~= b2.push(found_view[k as int]));
                assert(found_view.take(k + 1) =~= found_view.take(k as int).push(found_view[k as int]));
                k = k + 1;
            }
            assert(found_view.take(k as int) =~= found_view);
            assert(parse_arg(arg@) == Ok::<_, Seq<char>>(arg_alts));
            i = i + 1;
        }
        assert(xs.take(args@.len() as int) =~= xs);
        Ok(FeatureQuery { alternatives })
    }

    /// Whether nothing was selected, so that every node is.
    pub fn is_empty(&self) -> (b: bool)
        ensures
            b == (self@.len() == 0),
    {
        self.alternatives.len() == 0
    }

    /// The alternatives, in the order they were written.
    pub fn alternatives(&self) -> (a: &[Alternative])
        ensures
            a@.map_values(|x: Alternative| x@) == self@,
    {
        self.alternatives.as_slice()
    }

    /// Whether a node with `features` satisfies any alternative.
    pub fn matches_features(&self, features: &Vec<String>, exact: bool) -> (r: bool)
        ensures
            r == query_matches(self@, features.deep_view(), exact),
    {
        let mut i: usize = 0;
        while i < self.alternatives.len()
            invariant
                i <= self.alternatives@.len(),
                forall|k: int| 0 <= k < i ==> !alternative_matches(#[trigger] self@[k], features.deep_view(), exact),
            decreases self.alternatives@.len() - i,
        {
            if self.alternatives[i].matches_features(features, exact) {
                assert(self@[i as int] == self.alternatives@[i as int]@);
                return true;
            }
            i = i + 1;
        }
        false
    }

    /// Whether `node` satisfies any alternative.
    pub fn matches(&self, node: &Node, exact: bool) -> (r: bool)
        ensures
            r == query_matches(self@, node.features.deep_view(), exact),
    {
        self.matches_features(&node.features, exact)
    }
}

fn copy_alternative(a: &Alternative) -> (out: Alternative)
    ensures
        out@ == a@,
{
    let mut features: Vec<String> = Vec::new();
    let mut i: usize = 0;
    while i < a.features.len()
        invariant
            i <= a.features@.len(),
            features.deep_view() == a@.take(i as int),
        decreases a.features@.len() - i,
    {
        let f = a.features[i].clone();
        let ghost before = features.deep_view();
        features.push(f);
        assert(features.deep_view() =~= before.push(a@[i as int]));
        assert(a@.take(i + 1) =~= a@.take(i as int).push(a@[i as int]));
        i = i + 1;
    }
    assert(a@.take(i as int) =~= a@);
    Alternative { features }
}

proof fn lemma_parse_args_err(xs: Seq<Seq<char>>, n: int)
    requires
        0 < n <= xs.len(),
        parse_args(xs.take(n)) is Err,
    ensures
        parse_args(xs) == parse_args(xs.take(n)),
    decreases xs.len() - n,
{
    if n < xs.len() {
        assert(xs.take(n + 1).drop_last() =~= xs.take(n));
        lemma_parse_args_err(xs, n + 1);
    } else {
        assert(xs.take(n) =~= xs);
    }
}

/// Whether a node satisfies a selection: every node does when nothing was selected.
pub open spec fn selected(q: Seq<Seq<Seq<char>>>, n: Node, exact: bool) -> bool {
    q.len() == 0 || query_matches(q, n.features.deep_view(), exact)
}

/// The nodes of `nodes` that a selection picks, in order.
pub open spec fn selected_nodes(nodes: Seq<Node>, q: Seq<Seq<Seq<char>>>, exact: bool) -> Seq<Node>
    decreases nodes.len(),
{
    if nodes.len() == 0 {
        Seq::empty()
    } else {
        let init = selected_nodes(nodes.drop_last(), q, exact);
        if selected(q, nodes.last(), exact) {
            init.push(nodes.last())
        } else {
            init
        }
    }
}

/// The nodes a selection picks, in their order among `all_nodes`; all of them when the
/// selection is empty.
pub fn filter_nodes_by_feature<'a>(
    all_nodes: &'a SlurmNodes,
    selection: &FeatureQuery,
    exact_match: bool,
) -> (out: Vec<&'a Node>)
    ensures
        out@.map_values(|n: &Node| *n) == selected_nodes(all_nodes.nodes@, selection@, exact_match),
{
    let mut out: Vec<&'a Node> = Vec::new();
    let empty = selection.is_empty();
    let mut i: usize = 0;
    while i < all_nodes.nodes.len()
        invariant
            i <= all_nodes.nodes@.len(),
            empty == (selection@.len() == 0),
            out@.map_values(|n: &Node| *n) == selected_nodes(
                all_nodes.nodes@.take(i as int),
                selection@,
                exact_match,
            ),
        decreases all_nodes.nodes@.len() - i,
    {
        let node = &all_nodes.nodes[i];
        assert(all_nodes.nodes@.take(i + 1).drop_last() =~= all_nodes.nodes@.take(i as int));
        let ghost before = out@.map_values(|n: &Node| *n);
        if empty || selection.matches(node, exact_match) {
            out.push(node);
            assert(out@.map_values(|n: &Node| *n) =~= before.push(*node));
        }
        i = i + 1;
    }
    assert(all_nodes.nodes@.take(i as int) =~= all_nodes.nodes@);
    out
}

/// Every feature some node of `nodes` has.
pub open spec fn all_features(nodes: Seq<Node>) -> Set<Seq<char>> {
    Set::new(
        |f: Seq<char>|
            exists|i: int| 0 <= i < nodes.len() && #[trigger] nodes[i].features.deep_view().contains(f),
    )
}

/// Gathers every distinct feature on the cluster, each once, in the order first seen.
pub fn gather_all_features(all_nodes: &SlurmNodes) -> (out: Vec<String>)
    ensures
        out.deep_view().to_set() == all_features(all_nodes.nodes@),
        out.deep_view().no_duplicates(),
{
    let mut out: Vec<String> = Vec::new();
    let mut i: usize = 0;
    while i < all_nodes.nodes.len()
        invariant
            i <= all_nodes.nodes@.len(),
            out.deep_view().no_duplicates(),
            out.deep_view().to_set() == all_features(all_nodes.nodes@.take(i as int)),
        decreases all_nodes.nodes@.len() - i,
    {
        let node = &all_nodes.nodes[i];
        let mut k: usize = 0;
        let ghost base = all_features(all_nodes.nodes@.take(i as int));
        while k < node.features.len()
            invariant
                k <= node.features@.len(),
                out.deep_view().no_duplicates(),
                out.deep_view().to_set() == base + node.features.deep_view().take(k as int).to_set(),
            decreases node.features@.len() - k,
        {
            let f = chars_of(node.features[k].as_str());
            assert(node.features.deep_view()[k as int] == f@);
            if !has_feature_exec(&out, &f, true) {
                let ghost before = out.deep_view();
                out.push(node.features[k].clone());
                assert(out.deep_view() =~= before.push(f@));
                proof {
                    before.lemma_push_to_set_commute(f@);
                }
            }
            assert(node.features.deep_view().take(k + 1) =~= node.features.deep_view().take(k as int).push(f@));
            proof {
                node.features.deep_view().take(k as int).lemma_push_to_set_commute(f@);
                if has_feature(out.deep_view(), f@, true) {
                    assert(out.deep_view().to_set().contains(f@));
                }
            }
            k = k + 1;
        }
        proof {
            assert(node.features.deep_view().take(k as int) =~= node.features.deep_view());
            let t1 = all_nodes.nodes@.take(i + 1);
            assert(all_features(t1) =~= base + node.features.deep_view().to_set()) by {
                assert forall|f: Seq<char>| #[trigger] all_features(t1).contains(f) <==> (base
                    + node.features.deep_view().to_set()).contains(f) by {
                    if all_features(t1).contains(f) {
                        let m = choose|m: int| 0 <= m < t1.len() && #[trigger] t1[m].features.deep_view().contains(f);
                        if m < i {
                            assert(all_nodes.nodes@.take(i as int)[m] == t1[m]);
                        }
                    }
                    if base.contains(f) {
                        let m = choose|m: int| 0 <= m < i && #[trigger] all_nodes.nodes@.take(i as int)[m].features.deep_view().contains(f);
                        assert(t1[m] == all_nodes.nodes@.take(i as int)[m]);
                    }
                    if node.features.deep_view().to_set().contains(f) {
                        assert(t1[i as int] == *node);
                    }
                }
            }
        }
        i = i + 1;
    }
    assert(all_nodes.nodes@.take(i as int) =~= all_nodes.nodes@);
    out
}

/// With nothing selected every node is shown, in its order.
pub proof fn lemma_empty_selection_selects_all(nodes: Seq<Node>, exact: bool)
    ensures
        selected_nodes(nodes, Seq::empty(), exact) == nodes,
    decreases nodes.len(),
{
    if nodes.len() > 0 {
        lemma_empty_selection_selects_all(nodes.drop_last(), exact);
        assert(nodes.drop_last().push(nodes.last()) =~= nodes);
    }
}

/// Splitting at a separator between two texts splits each of them.
proof fn lemma_split_concat(a: Seq<char>, c: char, b: Seq<char>, seps: Seq<char>)
    requires
        seps.contains(c),
    ensures
        split_on(a + seq![c] + b, seps) == split_on(a, seps) + split_on(b, seps),
    decreases b.len(),
{
    let s = a + seq![c] + b;
    if b.len() == 0 {
        assert(s.drop_last() =~= a);
        assert(s.last() == c);
        assert(split_on(a, seps).push(Seq::<char>::empty()) =~= split_on(a, seps) + seq![Seq::<char>::empty()]);
    } else {
        let b2 = b.drop_last();
        assert(s.drop_last() =~= a + seq![c] + b2);
        assert(s.last() == b.last());
        lemma_split_concat(a, c, b2, seps);
        crate::text::lemma_split_on_nonempty(b2, seps);
        crate::text::lemma_split_on_nonempty(a, seps);
        let x = split_on(a, seps);
        let y = split_on(b2, seps);
        if seps.contains(b.last()) {
            assert((x + y).push(Seq::<char>::empty()) =~= x + y.push(Seq::<char>::empty()));
        } else {
            let xy = x + y;
            assert(xy.last() == y.last());
            assert(xy.update(xy.len() - 1, xy.last().push(b.last())) =~= x + y.update(
                y.len() - 1,
                y.last().push(b.last()),
            ));
        }
    }
}

proof fn lemma_first_allocation_concat(x: Seq<char>, y: Seq<char>)
    ensures
        first_allocation_char(x + y) == (if first_allocation_char(x) is Some {
            first_allocation_char(x)
        } else {
            first_allocation_char(y)
        }),
    decreases x.len(),
{
    if x.len() == 0 {
        assert(x + y =~= y);
    } else {
        assert((x + y)[0] == x[0]);
        assert((x + y).drop_first() =~= x.drop_first() + y);
        lemma_first_allocation_concat(x.drop_first(), y);
    }
}

/// A `|` within an argument means what separate arguments mean: the alternatives of both
/// sides, in order.
pub proof fn lemma_bar_is_separate_arguments(a: Seq<char>, b: Seq<char>)
    requires
        parse_arg(a) is Ok,
        parse_arg(b) is Ok,
    ensures
        parse_args(seq![a + seq!['|'] + b]) == parse_args(seq![a, b]),
{
    let s = a + seq!['|'] + b;
    lemma_split_concat(a, '|', b, seq!['|']);
    let f = |p: Seq<char>| alternative_features(p);
    assert(arg_alternatives(s) =~= arg_alternatives(a) + arg_alternatives(b)) by {
        assert(split_on(s, seq!['|']).map_values(f) =~= split_on(a, seq!['|']).map_values(f) + split_on(
            b,
            seq!['|'],
        ).map_values(f));
    }
    lemma_first_allocation_concat(a, seq!['|'] + b);
    lemma_first_allocation_concat(seq!['|'], b);
    assert(seq!['|'].drop_first() =~= Seq::<char>::empty());
    assert(first_allocation_char(Seq::<char>::empty()) is None);
    assert(!allocation_only_chars().contains('|')) by {
        if allocation_only_chars().contains('|') {
            let k = choose|k: int| 0 <= k < allocation_only_chars().len() && allocation_only_chars()[k] == '|';
        }
    }
    assert(first_allocation_char(seq!['|']) is None);
    assert(a + seq!['|'] + b =~= a + (seq!['|'] + b));
    let xa = arg_alternatives(a);
    let xb = arg_alternatives(b);
    assert(!has_empty_feature(xa + xb)) by {
        if has_empty_feature(xa + xb) {
            let (i, j) = choose|i: int, j: int|
                0 <= i < (xa + xb).len() && 0 <= j < (xa + xb)[i].len() && #[trigger] (xa + xb)[i][j].len() == 0;
            if i < xa.len() {
                assert(xa[i][j].len() == 0);
            } else {
                assert(xb[i - xa.len()][j].len() == 0);
            }
        }
    }
    assert(seq![s].drop_last() =~= Seq::<Seq<char>>::empty());
    assert(seq![a, b].drop_last() =~= seq![a]);
    assert(seq![a].drop_last() =~= Seq::<Seq<char>>::empty());
    assert(Seq::<Seq<Seq<char>>>::empty() + (xa + xb) =~= xa + xb);
    assert(Seq::<Seq<Seq<char>>>::empty() + xa =~= xa);
    assert(first_allocation_char(s) is None);
    assert(parse_arg(s) == Ok::<Seq<Seq<Seq<char>>>, Seq<char>>(xa + xb));
    assert(parse_arg(a) == Ok::<Seq<Seq<Seq<char>>>, Seq<char>>(xa));
    assert(parse_arg(b) == Ok::<Seq<Seq<Seq<char>>>, Seq<char>>(xb));
    assert(seq![s].last() == s);
    assert(parse_args(Seq::<Seq<char>>::empty()) == Ok::<Seq<Seq<Seq<char>>>, Seq<char>>(Seq::empty()));
    assert(parse_args(seq![s]) == Ok::<Seq<Seq<Seq<char>>>, Seq<char>>(xa + xb));
    assert(seq![a].last() == a);
    assert(parse_args(seq![a]) == Ok::<Seq<Seq<Seq<char>>>, Seq<char>>(xa));
    assert(seq![a, b].last() == b);
    assert(parse_args(seq![a, b]) == Ok::<Seq<Seq<Seq<char>>>, Seq<char>>(xa + xb));
}

/// Writes `,` for every `&`.
pub open spec fn commas_for_ampersands(s: Seq<char>) -> Seq<char> {
    s.map_values(|c: char| if c == '&' { ',' } else { c })
}

/// Splitting at `&` and `,` does not see which of the two stands at a place.
proof fn lemma_split_and_chars(p: Seq<char>)
    ensures
        split_on(commas_for_ampersands(p), and_chars()) == split_on(p, and_chars()),
    decreases p.len(),
{
    let q = commas_for_ampersands(p);
    if p.len() > 0 {
        assert(q.drop_last() =~= commas_for_ampersands(p.drop_last()));
        lemma_split_and_chars(p.drop_last());
        assert(and_chars().contains(p.last()) == and_chars().contains(q.last())) by {
            if p.last() == '&' {
                assert(and_chars()[0] == '&');
                assert(and_chars()[1] == ',');
            } else if p.last() == ',' {
                assert(and_chars()[1] == ',');
            } else {
                assert(q.last() == p.last());
            }
        }
        if !and_chars().contains(p.last()) {
            assert(q.last() == p.last());
        }
    }
}

/// Writing `,` for `&` and then splitting at `|` gives the pieces of splitting first.
proof fn lemma_split_bar_commas(x: Seq<char>)
    ensures
        split_on(commas_for_ampersands(x), seq!['|']) == split_on(x, seq!['|']).map_values(
            |p: Seq<char>| commas_for_ampersands(p),
        ),
    decreases x.len(),
{
    let y = commas_for_ampersands(x);
    let g = |p: Seq<char>| commas_for_ampersands(p);
    if x.len() == 0 {
        assert(y =~= Seq::<char>::empty());
        assert(commas_for_ampersands(Seq::<char>::empty()) =~= Seq::<char>::empty());
        assert(seq![Seq::<char>::empty()].map_values(g) =~= seq![Seq::<char>::empty()]);
    } else {
        assert(y.drop_last() =~= commas_for_ampersands(x.drop_last()));
        lemma_split_bar_commas(x.drop_last());
        crate::text::lemma_split_on_nonempty(x.drop_last(), seq!['|']);
        let init = split_on(x.drop_last(), seq!['|']);
        let c = x.last();
        assert(seq!['|'].contains(c) == (c == '|')) by {
            if seq!['|'].contains(c) {
                let k = choose|k: int| 0 <= k < 1 && seq!['|'][k] == c;
            }
            if c == '|' {
                assert(seq!['|'][0] == c);
            }
        }
        assert(seq!['|'].contains(y.last()) == (y.last() == '|')) by {
            if seq!['|'].contains(y.last()) {
                let k = choose|k: int| 0 <= k < 1 && seq!['|'][k] == y.last();
            }
            if y.last() == '|' {
                assert(seq!['|'][0] == y.last());
            }
        }
        if c == '|' {
            assert(y.last() == '|');
            assert(init.push(Seq::<char>::empty()).map_values(g) =~= init.map_values(g).push(Seq::<char>::empty())) by {
                assert(commas_for_ampersands(Seq::<char>::empty()) =~= Seq::<char>::empty());
            }
        } else {
            assert(y.last() != '|');
            let last = init.last();
            assert(commas_for_ampersands(last.push(c)) =~= commas_for_ampersands(last).push(y.last()));
            assert(init.update(init.len() - 1, last.push(c)).map_values(g) =~= init.map_values(g).update(
                init.len() - 1,
                init.map_values(g).last().push(y.last()),
            ));
        }
    }
}

proof fn lemma_first_allocation_commas(x: Seq<char>)
    ensures
        first_allocation_char(commas_for_ampersands(x)) is None <==> first_allocation_char(x) is None,
    decreases x.len(),
{
    let y = commas_for_ampersands(x);
    if x.len() > 0 {
        assert(y.drop_first() =~= commas_for_ampersands(x.drop_first()));
        lemma_first_allocation_commas(x.drop_first());
        assert(allocation_only_chars().contains(y[0]) == allocation_only_chars().contains(x[0])) by {
            if x[0] == '&' {
                assert(y[0] == ',');
                if allocation_only_chars().contains(',') {
                    let k = choose|k: int| 0 <= k < 5 && allocation_only_chars()[k] == ',';
                }
                if allocation_only_chars().contains('&') {
                    let k = choose|k: int| 0 <= k < 5 && allocation_only_chars()[k] == '&';
                }
            } else {
                assert(y[0] == x[0]);
            }
        }
    }
}

/// `&` and `,` both mean "and": writing `,` for every `&` in an accepted argument leaves
/// what it selects unchanged.
pub proof fn lemma_ampersand_is_comma(arg: Seq<char>)
    requires
        parse_arg(arg) is Ok,
    ensures
        parse_arg(commas_for_ampersands(arg)) == parse_arg(arg),
{
    let y = commas_for_ampersands(arg);
    lemma_split_bar_commas(arg);
    lemma_first_allocation_commas(arg);
    let pieces = split_on(arg, seq!['|']);
    let g = |p: Seq<char>| commas_for_ampersands(p);
    let f = |p: Seq<char>| alternative_features(p);
    assert(arg_alternatives(y) =~= arg_alternatives(arg)) by {
        assert forall|i: int| 0 <= i < pieces.len() implies #[trigger] alternative_features(
            commas_for_ampersands(pieces[i]),
        ) == alternative_features(pieces[i]) by {
            lemma_split_and_chars(pieces[i]);
        }
        assert(pieces.map_values(g).map_values(f) =~= pieces.map_values(f));
    }
}

} // verus!
