//! Compound feature filters such as `gpu && !(icelake || skylake)`: the words of the
//! expression, the tree a precedence-climbing parser makes of them (NOT binds tightest, then
//! AND, then OR; operators of one precedence group to the left), and what a tree says of a
//! node's features.
use vstd::prelude::*;
use crate::filter::{has_feature, has_feature_exec};
use crate::nodes::Node;
use crate::text::{
    alphanumeric, chars_eq, chars_of, concat, copy_range, is_alphanumeric, is_whitespace, is_ws,
    lowercase_of, string_of, to_lower,
};

verus! {

/// A word of a filter expression.
#[derive(Debug)]
pub enum Token {
    /// A feature name, such as "gpu" or "icelake"
    Term(String),
    /// `&&` or `and`
    And,
    /// `||` or `or`
    Or,
    /// `!` or `not`
    Not,
    LParen,
    RParen,
    /// The end of the expression
    Eof,
}

pub enum TokenView {
    Term(Seq<char>),
    And,
    Or,
    Not,
    LParen,
    RParen,
    Eof,
}

impl View for Token {
    type V = TokenView;

    open spec fn view(&self) -> TokenView {
        match self {
            Token::Term(s) => TokenView::Term(s@),
            Token::And => TokenView::And,
            Token::Or => TokenView::Or,
            Token::Not => TokenView::Not,
            Token::LParen => TokenView::LParen,
            Token::RParen => TokenView::RParen,
            Token::Eof => TokenView::Eof,
        }
    }
}

pub open spec fn tokens_view(ts: Seq<Token>) -> Seq<TokenView> {
    ts.map_values(|t: Token| t@)
}

impl Token {
    /// A copy of the token.
    pub fn duplicate(&self) -> (t: Token)
        ensures
            t@ == self@,
    {
        match self {
            Token::Term(s) => Token::Term(string_of(&chars_of(s.as_str()))),
            Token::And => Token::And,
            Token::Or => Token::Or,
            Token::Not => Token::Not,
            Token::LParen => Token::LParen,
            Token::RParen => Token::RParen,
            Token::Eof => Token::Eof,
        }
    }
}

/// Whether `c` can be part of a feature name: a letter or digit, `_` or `-`.
pub open spec fn term_char(c: char) -> bool {
    alphanumeric(c) || c == '_' || c == '-'
}

/// How many characters at the start of `s` make a feature name.
pub open spec fn term_len(s: Seq<char>) -> nat
    decreases s.len(),
{
    if s.len() > 0 && term_char(s[0]) {
        1 + term_len(s.drop_first())
    } else {
        0
    }
}

pub proof fn lemma_term_len_bound(s: Seq<char>)
    ensures
        term_len(s) <= s.len(),
    decreases s.len(),
{
    if s.len() > 0 && term_char(s[0]) {
        lemma_term_len_bound(s.drop_first());
    }
}

proof fn lemma_term_len_exact(s: Seq<char>, n: nat)
    requires
        n <= s.len(),
        forall|k: int| 0 <= k < n ==> term_char(#[trigger] s[k]),
        n == s.len() || !term_char(s[n as int]),
    ensures
        term_len(s) == n,
    decreases n,
{
    if n > 0 {
        assert forall|k: int| 0 <= k < n - 1 implies term_char(#[trigger] s.drop_first()[k]) by {
            assert(s.drop_first()[k] == s[k + 1]);
        }
        if n - 1 < s.len() - 1 {
            assert(s.drop_first()[n - 1] == s[n as int]);
        }
        lemma_term_len_exact(s.drop_first(), (n - 1) as nat);
    }
}

pub open spec fn prepend(t: TokenView, r: Result<Seq<TokenView>, Seq<char>>) -> Result<Seq<TokenView>, Seq<char>> {
    match r {
        Ok(ts) => Ok(seq![t] + ts),
        Err(m) => Err(m),
    }
}

/// The error for a `&` that is not doubled.
pub open spec fn single_and_error() -> Seq<char> {
    "Expected '&&' for AND operator, found single '&'"@
}

/// The error for a `|` that is not doubled.
pub open spec fn single_or_error() -> Seq<char> {
    "Expected '||' for OR operator, found single '|'"@
}

/// The token a feature name makes: a keyword where its lowercase is one, else the name.
pub open spec fn word_token(term: Seq<char>) -> TokenView {
    let low = lowercase_of(term);
    if low == "and"@ {
        TokenView::And
    } else if low == "or"@ {
        TokenView::Or
    } else if low == "not"@ {
        TokenView::Not
    } else {
        TokenView::Term(term)
    }
}

/// The words of a filter expression: parentheses and `!` stand alone, `&&` and `||` go in
/// pairs, whitespace separates, and a run of name characters is a name or a keyword (see
/// `word_token`); anything else is refused.
pub open spec fn lex(s: Seq<char>) -> Result<Seq<TokenView>, Seq<char>>
    decreases s.len(),
{
    if s.len() == 0 {
        Ok(Seq::empty())
    } else {
        let c = s[0];
        if c == '(' {
            prepend(TokenView::LParen, lex(s.drop_first()))
        } else if c == ')' {
            prepend(TokenView::RParen, lex(s.drop_first()))
        } else if c == '!' {
            prepend(TokenView::Not, lex(s.drop_first()))
        } else if c == '&' {
            if s.len() > 1 && s[1] == '&' {
                prepend(TokenView::And, lex(s.skip(2)))
            } else {
                Err(single_and_error())
            }
        } else if c == '|' {
            if s.len() > 1 && s[1] == '|' {
                prepend(TokenView::Or, lex(s.skip(2)))
            } else {
                Err(single_or_error())
            }
        } else if is_ws(c) {
            lex(s.drop_first())
        } else {
            let n = term_len(s);
            if n == 0 {
                Err("Unexpected character: "@ + seq![c])
            } else {
                proof {
                    lemma_term_len_bound(s);
                }
                prepend(word_token(s.take(n as int)), lex(s.skip(n as int)))
            }
        }
    }
}

/// The words found so far followed by what the rest makes.
pub open spec fn lex_with(done: Seq<TokenView>, r: Result<Seq<TokenView>, Seq<char>>) -> Result<Seq<TokenView>, Seq<char>> {
    match r {
        Ok(rest) => Ok(done + rest),
        Err(m) => Err(m),
    }
}

/// Splits a filter expression into its words (see `lex`).
pub fn tokenize(input: &str) -> (r: Result<Vec<Token>, String>)
    ensures
        match lex(input@) {
            Ok(ts) => r matches Ok(v) && tokens_view(v@) == ts,
            Err(m) => r matches Err(e) && e@ == m,
        },
{
    let s = chars_of(input);
    let ghost sv = s@;
    let mut tokens: Vec<Token> = Vec::new();
    let mut i: usize = 0;
    assert(sv.skip(0) =~= sv);
    assert(tokens_view(tokens@) =~= Seq::<TokenView>::empty());
    proof {
        match lex(sv) {
            Ok(r) => {
                assert(Seq::<TokenView>::empty() + r =~= r);
            },
            Err(_) => {},
        }
    }
    while i < s.len()
        invariant
            i <= sv.len(),
            sv == s@,
            sv == input@,
            lex(sv) == lex_with(tokens_view(tokens@), lex(sv.skip(i as int))),
        decreases sv.len() - i,
    {
        let ghost rest = sv.skip(i as int);
        let ghost before = tokens_view(tokens@);
        assert(rest[0] == sv[i as int]);
        let c = s[i];
        if c == '(' || c == ')' || c == '!' {
            let t = if c == '(' {
                Token::LParen
            } else if c == ')' {
                Token::RParen
            } else {
                Token::Not
            };
            tokens.push(t);
            assert(rest.drop_first() =~= sv.skip(i + 1));
            assert(tokens_view(tokens@) =~= before.push(t@));
            assert(before + (seq![t@] + tokens_view(tokens@).subrange(0, 0)) =~= before.push(t@));
            proof {
                match lex(sv.skip(i + 1)) {
                    Ok(r2) => {
                        assert(before.push(t@) + r2 =~= before + (seq![t@] + r2));
                    },
                    Err(_) => {},
                }
            }
            i = i + 1;
        } else if c == '&' || c == '|' {
            if i + 1 < s.len() && s[i + 1] == c {
                assert(rest[1] == sv[i + 1]);
                let t = if c == '&' {
                    Token::And
                } else {
                    Token::Or
                };
                tokens.push(t);
                assert(rest.skip(2) =~= sv.skip(i + 2));
                assert(tokens_view(tokens@) =~= before.push(t@));
                proof {
                    match lex(sv.skip(i + 2)) {
                        Ok(r2) => {
                            assert(before.push(t@) + r2 =~= before + (seq![t@] + r2));
                        },
                        Err(_) => {},
                    }
                }
                i = i + 2;
            } else {
                if i + 1 < s.len() {
                    assert(rest[1] == sv[i + 1]);
                }
                if c == '&' {
                    return Err(string_of(&chars_of("Expected '&&' for AND operator, found single '&'")));
                } else {
                    return Err(string_of(&chars_of("Expected '||' for OR operator, found single '|'")));
                }
            }
        } else if is_whitespace(c) {
            assert(rest.drop_first() =~= sv.skip(i + 1));
            i = i + 1;
        } else {
            let mut j: usize = i;
            while j < s.len() && (is_alphanumeric(s[j]) || s[j] == '_' || s[j] == '-')
                invariant
                    i <= j <= sv.len(),
                    sv == s@,
                    forall|k: int| i <= k < j ==> term_char(#[trigger] sv[k]),
                decreases sv.len() - j,
            {
                j = j + 1;
            }
            proof {
                assert forall|k: int| 0 <= k < j - i implies term_char(#[trigger] rest[k]) by {
                    assert(rest[k] == sv[i + k]);
                }
                if j < sv.len() {
                    assert(rest[j - i] == sv[j as int]);
                }
                lemma_term_len_exact(rest, (j - i) as nat);
            }
            let term = copy_range(&s, i, j);
            assert(term@ =~= rest.take(j - i));
            proof {
                reveal_strlit("and");
                reveal_strlit("or");
                reveal_strlit("not");
            }
            let low = to_lower(string_of(&term).as_str());
            let lc = chars_of(low.as_str());
            let t = if chars_eq(&lc, &chars_of("and")) {
                Token::And
            } else if chars_eq(&lc, &chars_of("or")) {
                Token::Or
            } else if chars_eq(&lc, &chars_of("not")) {
                Token::Not
            } else {
                if j == i {
                    let mut m = chars_of("Unexpected character: ");
                    m.push(c);
                    return Err(string_of(&m));
                }
                Token::Term(string_of(&term))
            };
            if j == i {
                assert(term@.len() == 0);
                assert(lc@ =~= Seq::<char>::empty());
                assert(false);
            }
            assert(t@ == word_token(rest.take(j - i)));
            tokens.push(t);
            assert(rest.skip(j - i) =~= sv.skip(j as int));
            assert(tokens_view(tokens@) =~= before.push(t@));
            proof {
                match lex(sv.skip(j as int)) {
                    Ok(r2) => {
                        assert(before.push(t@) + r2 =~= before + (seq![t@] + r2));
                    },
                    Err(_) => {},
                }
            }
            i = j;
        }
    }
    assert(sv.skip(i as int) =~= Seq::<char>::empty());
    assert(tokens_view(tokens@) + Seq::<TokenView>::empty() =~= tokens_view(tokens@));
    Ok(tokens)
}

/// The tree of a filter expression.
#[derive(Debug)]
pub enum FeatureExpression {
    /// A single feature name
    Term(String),
    /// The negation of its child
    Not(Box<FeatureExpression>),
    /// Holds where all its children hold
    And(Vec<FeatureExpression>),
    /// Holds where any of its children holds
    Or(Vec<FeatureExpression>),
}

pub enum ExprView {
    Term(Seq<char>),
    Not(Box<ExprView>),
    And(Seq<ExprView>),
    Or(Seq<ExprView>),
}

pub open spec fn expr_view(e: FeatureExpression) -> ExprView
    decreases e,
{
    match e {
        FeatureExpression::Term(s) => ExprView::Term(s@),
        FeatureExpression::Not(b) => ExprView::Not(Box::new(expr_view(*b))),
        FeatureExpression::And(v) => ExprView::And(exprs_view(v@)),
        FeatureExpression::Or(v) => ExprView::Or(exprs_view(v@)),
    }
}

pub open spec fn exprs_view(s: Seq<FeatureExpression>) -> Seq<ExprView>
    decreases s,
{
    if s.len() == 0 {
        Seq::empty()
    } else {
        exprs_view(s.subrange(0, s.len() - 1)).push(expr_view(s[s.len() - 1]))
    }
}

/// The word at `pos`, the end past the last.
pub open spec fn tok_at(ts: Seq<TokenView>, pos: nat) -> TokenView {
    if pos < ts.len() {
        ts[pos as int]
    } else {
        TokenView::Eof
    }
}

/// How tightly an operator binds: OR loosest, then AND; anything else ends an operand.
pub open spec fn prec_of(t: TokenView) -> nat {
    match t {
        TokenView::Or => 1,
        TokenView::And => 2,
        _ => 0,
    }
}

/// The precedence the operand of a NOT is parsed at, tighter than any operator.
pub open spec fn prefix_prec() -> nat {
    3
}

/// How a word is named in an error.
pub open spec fn token_name(t: TokenView) -> Seq<char> {
    match t {
        TokenView::Term(s) => "Term("@ + seq!['"'] + s + seq!['"', ')'],
        TokenView::And => "And"@,
        TokenView::Or => "Or"@,
        TokenView::Not => "Not"@,
        TokenView::LParen => "LParen"@,
        TokenView::RParen => "RParen"@,
        TokenView::Eof => "Eof"@,
    }
}

/// The tree an operator makes of its two operands.
pub open spec fn combine(op: TokenView, left: ExprView, right: ExprView) -> ExprView {
    if op == TokenView::And {
        ExprView::And(seq![left, right])
    } else {
        ExprView::Or(seq![left, right])
    }
}

/// `q`, kept within `lo..=hi`.
pub open spec fn clamp(q: nat, lo: nat, hi: nat) -> nat {
    if q < lo {
        lo
    } else if q > hi {
        hi
    } else {
        q
    }
}

/// One operand from `pos` on: a name; NOT and its operand; or a parenthesised expression.
/// Gives the tree and the position after it.
pub open spec fn parse_prefix_spec(ts: Seq<TokenView>, pos: nat) -> Result<(ExprView, nat), Seq<char>>
    decreases ts.len() - pos, 0int,
{
    let t = tok_at(ts, pos);
    match t {
        TokenView::Term(s) => Ok((ExprView::Term(s), pos + 1)),
        TokenView::Not => if pos < ts.len() {
            match parse_prec_spec(ts, pos + 1, prefix_prec()) {
                Ok((e, q)) => Ok((ExprView::Not(Box::new(e)), q)),
                Err(m) => Err(m),
            }
        } else {
            Err(Seq::empty())
        },
        TokenView::LParen => if pos < ts.len() {
            match parse_prec_spec(ts, pos + 1, 0) {
                Ok((e, q)) => if tok_at(ts, q) == TokenView::RParen {
                    Ok((e, q + 1))
                } else {
                    Err("Expected ')' after expression"@)
                },
                Err(m) => Err(m),
            }
        } else {
            Err(Seq::empty())
        },
        _ => Err("Expected a term, '!' or '(', but found "@ + token_name(t)),
    }
}

/// An expression from `pos` on whose operators bind tighter than `p`.
pub open spec fn parse_prec_spec(ts: Seq<TokenView>, pos: nat, p: nat) -> Result<(ExprView, nat), Seq<char>>
    decreases ts.len() - pos, 2int,
{
    if pos > ts.len() {
        Err(Seq::empty())
    } else {
        match parse_prefix_spec(ts, pos) {
            Ok((left, q)) => climb_spec(ts, clamp(q, pos, ts.len()), p, left),
            Err(m) => Err(m),
        }
    }
}

/// `left` extended by every operator from `pos` on that binds tighter than `p`, each taking
/// as its right operand what binds tighter than itself.
pub open spec fn climb_spec(ts: Seq<TokenView>, pos: nat, p: nat, left: ExprView) -> Result<(ExprView, nat), Seq<char>>
    decreases ts.len() - pos, 1int,
{
    let t = tok_at(ts, pos);
    if pos < ts.len() && p < prec_of(t) {
        match parse_prec_spec(ts, pos + 1, prec_of(t)) {
            Ok((right, q)) => climb_spec(ts, clamp(q, pos + 1, ts.len()), p, combine(t, left, right)),
            Err(m) => Err(m),
        }
    } else {
        Ok((left, pos))
    }
}

/// The tree of a filter expression: its words, ended, parsed as a whole; words left over
/// are refused.
pub open spec fn parse_spec(input: Seq<char>) -> Result<ExprView, Seq<char>> {
    match lex(input) {
        Err(m) => Err(m),
        Ok(toks) => {
            let ts = toks.push(TokenView::Eof);
            match parse_prec_spec(ts, 0, 0) {
                Err(m) => Err(m),
                Ok((e, q)) => if tok_at(ts, q) != TokenView::Eof {
                    Err("Unexpected token at end of expression."@)
                } else {
                    Ok(e)
                },
            }
        },
    }
}

/// `lex` never gives the end word itself.
proof fn lemma_lex_no_eof(s: Seq<char>)
    ensures
        lex(s) matches Ok(ts) ==> forall|i: int| 0 <= i < ts.len() ==> ts[i] != TokenView::Eof,
    decreases s.len(),
{
    if s.len() > 0 {
        let c = s[0];
        if c == '(' || c == ')' || c == '!' || is_ws(c) {
            lemma_lex_no_eof(s.drop_first());
        } else if c == '&' || c == '|' {
            if s.len() > 1 && s[1] == c {
                lemma_lex_no_eof(s.skip(2));
            }
        } else {
            let n = term_len(s);
            if n > 0 {
                lemma_term_len_bound(s);
                lemma_lex_no_eof(s.skip(n as int));
            }
        }
        match lex(s) {
            Ok(ts) => {
                assert forall|i: int| 0 <= i < ts.len() implies ts[i] != TokenView::Eof by {
                    if i > 0 {
                        if c == '(' || c == ')' || c == '!' {
                            assert(ts[i] == lex(s.drop_first())->Ok_0[i - 1]);
                        } else if c == '&' || c == '|' {
                            assert(ts[i] == lex(s.skip(2))->Ok_0[i - 1]);
                        } else if !is_ws(c) {
                            assert(ts[i] == lex(s.skip(term_len(s) as int))->Ok_0[i - 1]);
                        }
                    }
                }
            },
            Err(_) => {},
        }
    }
}

/// The words a parser reads, ending in the end word and holding it nowhere else, and the
/// position it has reached.
pub struct Parser {
    tokens: Vec<Token>,
    pos: usize,
}

impl Parser {
    pub closed spec fn words(&self) -> Seq<TokenView> {
        tokens_view(self.tokens@)
    }

    pub closed spec fn at(&self) -> nat {
        self.pos as nat
    }

    /// The words end in the end word, which stands nowhere else, and the position is within
    /// them.
    pub closed spec fn wf(&self) -> bool {
        let ts = self.words();
        &&& ts.len() > 0
        &&& ts.last() == TokenView::Eof
        &&& forall|i: int| 0 <= i < ts.len() - 1 ==> ts[i] != TokenView::Eof
        &&& self.pos < ts.len()
    }

    /// A parser at the start of `tokens`, the end word added after them.
    pub fn new(tokens: Vec<Token>) -> (p: Parser)
        requires
            forall|i: int| 0 <= i < tokens@.len() ==> (#[trigger] tokens@[i])@ != TokenView::Eof,
        ensures
            p.wf(),
            p.at() == 0,
            p.words() == tokens_view(tokens@).push(TokenView::Eof),
    {
        let ghost before = tokens_view(tokens@);
        let mut tokens = tokens;
        tokens.push(Token::Eof);
        let p = Parser { tokens, pos: 0 };
        assert(p.words() =~= before.push(TokenView::Eof));
        p
    }

    /// The word at the position.
    pub fn peek(&self) -> (t: &Token)
        requires
            self.wf(),
        ensures
            t@ == tok_at(self.words(), self.at()),
    {
        &self.tokens[self.pos]
    }

    /// The word at the position, moving past it unless it is the last.
    pub fn advance(&mut self) -> (t: Token)
        requires
            old(self).wf(),
        ensures
            t@ == tok_at(old(self).words(), old(self).at()),
            final(self).words() == old(self).words(),
            final(self).at() == old(self).at() + 1,
    {
        if self.pos < self.tokens.len() {
            self.pos = self.pos + 1;
        }
        self.tokens[self.pos - 1].duplicate()
    }

    /// How tightly `token` binds as an operator (see `prec_of`).
    pub fn get_precedence(&self, token: &Token) -> (p: u8)
        ensures
            p == prec_of(token@),
    {
        match token {
            Token::Or => 1,
            Token::And => 2,
            _ => 0,
        }
    }

    /// One operand (see `parse_prefix_spec`).
    pub fn parse_prefix(&mut self) -> (r: Result<FeatureExpression, String>)
        requires
            old(self).wf(),
        ensures
            final(self).words() == old(self).words(),
            match parse_prefix_spec(old(self).words(), old(self).at()) {
                Ok((e, q)) => r matches Ok(x) && expr_view(x) == e && final(self).at() == q && old(
                    self,
                ).at() < q && final(self).wf(),
                Err(m) => r matches Err(s) && s@ == m,
            },
        decreases old(self).words().len() - old(self).at(), 0int,
    {
        let ghost ts = self.words();
        let ghost pos = self.at();
        let t = self.advance();
        match t {
            Token::Term(s) => {
                assert(ts[pos as int] != TokenView::Eof);
                Ok(FeatureExpression::Term(s))
            },
            Token::Not => {
                assert(ts[pos as int] != TokenView::Eof);
                match self.parse_precedence(3) {
                    Ok(e) => {
                        let r = FeatureExpression::Not(Box::new(e));
                        Ok(r)
                    },
                    Err(m) => Err(m),
                }
            },
            Token::LParen => {
                assert(ts[pos as int] != TokenView::Eof);
                match self.parse_precedence(0) {
                    Ok(e) => {
                        let ghost q = self.at();
                        let close = self.advance();
                        match close {
                            Token::RParen => {
                                assert(ts[q as int] != TokenView::Eof);
                                Ok(e)
                            },
                            _ => Err(string_of(&chars_of("Expected ')' after expression"))),
                        }
                    },
                    Err(m) => Err(m),
                }
            },
            other => {
                let name = match other {
                    Token::And => chars_of("And"),
                    Token::Or => chars_of("Or"),
                    Token::RParen => chars_of("RParen"),
                    _ => chars_of("Eof"),
                };
                let m = concat(&chars_of("Expected a term, '!' or '(', but found "), &name);
                Err(string_of(&m))
            },
        }
    }

    /// An expression whose operators bind tighter than `precedence` (see
    /// `parse_prec_spec`).
    pub fn parse_precedence(&mut self, precedence: u8) -> (r: Result<FeatureExpression, String>)
        requires
            old(self).wf(),
        ensures
            final(self).words() == old(self).words(),
            match parse_prec_spec(old(self).words(), old(self).at(), precedence as nat) {
                Ok((e, q)) => r matches Ok(x) && expr_view(x) == e && final(self).at() == q && old(
                    self,
                ).at() < q && final(self).wf(),
                Err(m) => r matches Err(s) && s@ == m,
            },
        decreases old(self).words().len() - old(self).at(), 2int,
    {
        let ghost ts = self.words();
        let ghost pos0 = self.at();
        let mut left = match self.parse_prefix() {
            Ok(e) => e,
            Err(m) => return Err(m),
        };
        loop
            invariant
                self.wf(),
                self.words() == ts,
                ts == old(self).words(),
                pos0 == old(self).at(),
                pos0 < self.at(),
                parse_prec_spec(ts, pos0, precedence as nat) == climb_spec(
                    ts,
                    self.at(),
                    precedence as nat,
                    expr_view(left),
                ),
            ensures
                self.wf(),
                self.words() == ts,
                pos0 < self.at(),
                parse_prec_spec(ts, pos0, precedence as nat) == climb_spec(
                    ts,
                    self.at(),
                    precedence as nat,
                    expr_view(left),
                ),
                precedence as nat >= prec_of(tok_at(ts, self.at())),
            decreases ts.len() - self.at(),
        {
            let t = self.peek();
            let tp = self.get_precedence(t);
            if !(precedence < tp) {
                break;
            }
            let op = self.advance();
            let ghost at = self.at();
            let right = match self.parse_precedence(tp) {
                Ok(e) => e,
                Err(m) => return Err(m),
            };
            let is_and = match op {
                Token::And => true,
                _ => false,
            };
            let mut kids: Vec<FeatureExpression> = Vec::new();
            kids.push(left);
            kids.push(right);
            proof {
                let k1 = kids@.subrange(0, 1);
                assert(k1.subrange(0, 0) =~= Seq::<FeatureExpression>::empty());
                assert(exprs_view(k1.subrange(0, 0)) =~= Seq::<ExprView>::empty());
                assert(exprs_view(k1) =~= seq![expr_view(kids@[0])]);
                assert(kids@.subrange(0, kids@.len() - 1) =~= k1);
                assert(exprs_view(kids@) =~= seq![expr_view(kids@[0]), expr_view(kids@[1])]);
            }
            left = if is_and {
                FeatureExpression::And(kids)
            } else {
                FeatureExpression::Or(kids)
            };
        }
        Ok(left)
    }
}

/// Parses a filter expression into its tree (see `parse_spec`).
pub fn parse_expression(input: &str) -> (r: Result<FeatureExpression, String>)
    ensures
        match parse_spec(input@) {
            Ok(e) => r matches Ok(x) && expr_view(x) == e,
            Err(m) => r matches Err(s) && s@ == m,
        },
{
    let tokens = match tokenize(input) {
        Ok(t) => t,
        Err(m) => return Err(m),
    };
    proof {
        lemma_lex_no_eof(input@);
        assert forall|i: int| 0 <= i < tokens@.len() implies (#[trigger] tokens@[i])@ != TokenView::Eof by {
            assert(tokens_view(tokens@)[i] == tokens@[i]@);
        }
    }
    let mut parser = Parser::new(tokens);
    let ast = match parser.parse_precedence(0) {
        Ok(e) => e,
        Err(m) => return Err(m),
    };
    let end = match parser.peek() {
        Token::Eof => true,
        _ => false,
    };
    if !end {
        return Err(string_of(&chars_of("Unexpected token at end of expression.")));
    }
    Ok(ast)
}

/// Whether a node with `features` satisfies the tree `e`: a name as `has_feature` has it
/// (equal, or when not `exact` contained in a feature), negation, all, any.
pub open spec fn eval_spec(e: ExprView, features: Seq<Seq<char>>, exact: bool) -> bool
    decreases e,
{
    match e {
        ExprView::Term(t) => has_feature(features, t, exact),
        ExprView::Not(b) => !eval_spec(*b, features, exact),
        ExprView::And(v) => all_spec(v, features, exact),
        ExprView::Or(v) => any_spec(v, features, exact),
    }
}

pub open spec fn all_spec(v: Seq<ExprView>, features: Seq<Seq<char>>, exact: bool) -> bool
    decreases v,
{
    if v.len() == 0 {
        true
    } else {
        all_spec(v.subrange(0, v.len() - 1), features, exact) && eval_spec(v[v.len() - 1], features, exact)
    }
}

pub open spec fn any_spec(v: Seq<ExprView>, features: Seq<Seq<char>>, exact: bool) -> bool
    decreases v,
{
    if v.len() == 0 {
        false
    } else {
        any_spec(v.subrange(0, v.len() - 1), features, exact) || eval_spec(v[v.len() - 1], features, exact)
    }
}

/// An `And` holds exactly when every one of its operands holds, and an `Or` exactly when
/// at least one does; a `Not` holds exactly when its operand does not.
pub proof fn lemma_connectives(v: Seq<ExprView>, features: Seq<Seq<char>>, exact: bool)
    ensures
        eval_spec(ExprView::And(v), features, exact) <==> (forall|i: int|
            0 <= i < v.len() ==> #[trigger] eval_spec(v[i], features, exact)),
        eval_spec(ExprView::Or(v), features, exact) <==> (exists|i: int|
            0 <= i < v.len() && #[trigger] eval_spec(v[i], features, exact)),
        forall|e: ExprView| #[trigger] eval_spec(ExprView::Not(Box::new(e)), features, exact) <==> !eval_spec(e, features, exact),
    decreases v.len(),
{
    assert(eval_spec(ExprView::And(v), features, exact) == all_spec(v, features, exact));
    assert(eval_spec(ExprView::Or(v), features, exact) == any_spec(v, features, exact));
    if v.len() > 0 {
        let init = v.subrange(0, v.len() - 1);
        lemma_connectives(init, features, exact);
        assert(eval_spec(ExprView::And(init), features, exact) == all_spec(init, features, exact));
        assert(eval_spec(ExprView::Or(init), features, exact) == any_spec(init, features, exact));
        assert(forall|i: int| 0 <= i < init.len() ==> #[trigger] init[i] == v[i]);
        if all_spec(v, features, exact) {
            assert forall|i: int| 0 <= i < v.len() implies #[trigger] eval_spec(v[i], features, exact) by {
                if i < v.len() - 1 {
                    assert(eval_spec(init[i], features, exact));
                }
            }
        }
        if forall|i: int| 0 <= i < v.len() ==> #[trigger] eval_spec(v[i], features, exact) {
            assert forall|i: int| 0 <= i < init.len() implies #[trigger] eval_spec(init[i], features, exact) by {
                assert(eval_spec(v[i], features, exact));
            }
            assert(eval_spec(v[v.len() - 1], features, exact));
        }
        if any_spec(v, features, exact) {
            if any_spec(init, features, exact) {
                let i = choose|i: int| 0 <= i < init.len() && #[trigger] eval_spec(init[i], features, exact);
                assert(eval_spec(v[i], features, exact));
            } else {
                assert(eval_spec(v[v.len() - 1], features, exact));
            }
        }
        if exists|i: int| 0 <= i < v.len() && #[trigger] eval_spec(v[i], features, exact) {
            let i = choose|i: int| 0 <= i < v.len() && #[trigger] eval_spec(v[i], features, exact);
            if i < v.len() - 1 {
                assert(eval_spec(init[i], features, exact));
            }
        }
    }
}

proof fn lemma_exprs_view_prefix(s: Seq<FeatureExpression>, i: int)
    requires
        0 <= i < s.len(),
    ensures
        exprs_view(s.subrange(0, i + 1)) == exprs_view(s.subrange(0, i)).push(expr_view(s[i])),
{
    let t = s.subrange(0, i + 1);
    assert(t.subrange(0, t.len() - 1) =~= s.subrange(0, i));
}

/// Whether `node` satisfies the tree `expr` (see `eval_spec`).
pub fn evaluate(expr: &FeatureExpression, node: &Node, exact_match: bool) -> (b: bool)
    ensures
        b == eval_spec(expr_view(*expr), node.features.deep_view(), exact_match),
    decreases expr,
{
    let ghost fs = node.features.deep_view();
    match expr {
        FeatureExpression::Term(required) => {
            let wanted = chars_of(required.as_str());
            has_feature_exec(&node.features, &wanted, exact_match)
        },
        FeatureExpression::Not(sub) => !evaluate(sub, node, exact_match),
        FeatureExpression::And(subs) => {
            let mut all = true;
            let mut i: usize = 0;
            assert(subs@.subrange(0, 0) =~= Seq::<FeatureExpression>::empty());
            while i < subs.len()
                invariant
                    i <= subs@.len(),
                    fs == node.features.deep_view(),
                    *expr == FeatureExpression::And(*subs),
                    all == all_spec(exprs_view(subs@.subrange(0, i as int)), fs, exact_match),
                decreases subs@.len() - i,
            {
                proof {
                    lemma_exprs_view_prefix(subs@, i as int);
                    let v = exprs_view(subs@.subrange(0, i as int)).push(expr_view(subs@[i as int]));
                    assert(v.subrange(0, v.len() - 1) =~= exprs_view(subs@.subrange(0, i as int)));
                }
                assert(decreases_to!(*expr => subs@[i as int])) by {
                    assert(decreases_to!(*expr => (*expr)->And_0));
                    assert((*expr)->And_0 == *subs);
                    assert(decreases_to!(*subs => subs@));
                    assert(decreases_to!(subs@ => subs@[i as int]));
                }
                let ok = evaluate(&subs[i], node, exact_match);
                all = all && ok;
                i = i + 1;
            }
            assert(subs@.subrange(0, i as int) =~= subs@);
            all
        },
        FeatureExpression::Or(subs) => {
            let mut any = false;
            let mut i: usize = 0;
            assert(subs@.subrange(0, 0) =~= Seq::<FeatureExpression>::empty());
            while i < subs.len()
                invariant
                    i <= subs@.len(),
                    fs == node.features.deep_view(),
                    *expr == FeatureExpression::Or(*subs),
                    any == any_spec(exprs_view(subs@.subrange(0, i as int)), fs, exact_match),
                decreases subs@.len() - i,
            {
                proof {
                    lemma_exprs_view_prefix(subs@, i as int);
                    let v = exprs_view(subs@.subrange(0, i as int)).push(expr_view(subs@[i as int]));
                    assert(v.subrange(0, v.len() - 1) =~= exprs_view(subs@.subrange(0, i as int)));
                }
                assert(decreases_to!(*expr => subs@[i as int])) by {
                    assert(decreases_to!(*expr => (*expr)->Or_0));
                    assert((*expr)->Or_0 == *subs);
                    assert(decreases_to!(*subs => subs@));
                    assert(decreases_to!(subs@ => subs@[i as int]));
                }
                let ok = evaluate(&subs[i], node, exact_match);
                any = any || ok;
                i = i + 1;
            }
            assert(subs@.subrange(0, i as int) =~= subs@);
            any
        },
    }
}

} // verus!
