//! The annotation grammar and its parser.
//!
//! ```text
//! declaration := ["("] ["args" "=" args ","] "side_effects" "=" effects
//!                ["," "returns" "=" ("(" expr ")" | expr)] [","] [")"]
//! args        := "(" [arg ("," arg)*] ")"
//! arg         := ident "as" ident
//! effects     := "(" [effect ("," effect)*] ")"
//! effect      := ident "(" expr ("," expr)* ")" ["as" ident]
//! expr        := atom ["+" expr]
//! atom        := "'" char+ "'" | '"' char+ '"' | ident
//! ```
//!
//! Whitespace may stand around every token. Each parser starts at a
//! character position and yields the value with the position just after
//! it, or the position at which the text stopped matching.

use vstd::prelude::*;

use crate::ast::{
    Arg, ArgModel, Args, DeclModel, DeclareMacro, Expr, ExprModel, LitStr, ParseError,
    SideEffectStmt, SideEffects, StmtModel, Var, Add,
};

verus! {

pub open spec fn is_space(c: char) -> bool {
    c == ' ' || c == '\t' || c == '\n' || c == '\r'
}

pub open spec fn is_ident_start(c: char) -> bool {
    ('a' <= c && c <= 'z') || ('A' <= c && c <= 'Z') || c == '_'
}

pub open spec fn is_ident_char(c: char) -> bool {
    is_ident_start(c) || ('0' <= c && c <= '9')
}

pub open spec fn is_quote(c: char) -> bool {
    c == '\'' || c == '"'
}

/// The first position at or after `i` whose character does not satisfy
/// `p`, or the end of `s`.
pub open spec fn scan(s: Seq<char>, i: int, p: spec_fn(char) -> bool) -> int
    decreases s.len() - i,
{
    if 0 <= i < s.len() && p(s[i]) {
        scan(s, i + 1, p)
    } else {
        i
    }
}

pub proof fn lemma_scan_bounds(s: Seq<char>, i: int, p: spec_fn(char) -> bool)
    requires
        0 <= i <= s.len(),
    ensures
        i <= scan(s, i, p) <= s.len(),
        scan(s, i, p) < s.len() ==> !p(s[scan(s, i, p)]),
    decreases s.len() - i,
{
    if i < s.len() && p(s[i]) {
        lemma_scan_bounds(s, i + 1, p);
    }
}

/// The position after the whitespace that starts at `i`.
pub open spec fn skip_ws(s: Seq<char>, i: int) -> int {
    scan(s, i, |c: char| is_space(c))
}

/// The end of the run of identifier characters that starts at `i`.
pub open spec fn ident_end(s: Seq<char>, i: int) -> int {
    scan(s, i, |c: char| is_ident_char(c))
}

/// The first position at or after `i` that holds `q`, or the end of `s`.
pub open spec fn find_char(s: Seq<char>, i: int, q: char) -> int {
    scan(s, i, |c: char| c != q)
}

pub open spec fn char_at(s: Seq<char>, i: int, c: char) -> bool {
    0 <= i < s.len() && s[i] == c
}

/// The single character `c`, after optional whitespace.
pub open spec fn sp_symbol(s: Seq<char>, i: int, c: char) -> Result<int, int> {
    let j = skip_ws(s, i);
    if char_at(s, j, c) {
        Ok(j + 1)
    } else {
        Err(j)
    }
}

/// `kw` stands at `j` and is not followed by an identifier character.
pub open spec fn keyword_at(s: Seq<char>, j: int, kw: Seq<char>) -> bool {
    &&& 0 <= j
    &&& j + kw.len() <= s.len()
    &&& s.subrange(j, j + kw.len()) == kw
    &&& !(j + kw.len() < s.len() && is_ident_char(s[j + kw.len()]))
}

/// The keyword `kw`, after optional whitespace.
pub open spec fn sp_keyword(s: Seq<char>, i: int, kw: Seq<char>) -> Result<int, int> {
    let j = skip_ws(s, i);
    if keyword_at(s, j, kw) {
        Ok(j + kw.len())
    } else {
        Err(j)
    }
}

/// An identifier: a letter or `_`, then letters, digits and `_`.
pub open spec fn sp_ident(s: Seq<char>, i: int) -> Result<(Seq<char>, int), int> {
    let j = skip_ws(s, i);
    if 0 <= j < s.len() && is_ident_start(s[j]) {
        let e = ident_end(s, j + 1);
        Ok((s.subrange(j, e), e))
    } else {
        Err(j)
    }
}

/// A string literal: one or more characters between two equal quotes.
pub open spec fn sp_lit_str(s: Seq<char>, i: int) -> Result<(Seq<char>, int), int> {
    let j = skip_ws(s, i);
    if 0 <= j < s.len() && is_quote(s[j]) {
        let k = find_char(s, j + 1, s[j]);
        if j + 1 < k < s.len() {
            Ok((s.subrange(j + 1, k), k + 1))
        } else {
            Err(j)
        }
    } else {
        Err(j)
    }
}

/// A literal or a variable.
pub open spec fn sp_atom(s: Seq<char>, i: int) -> Result<(ExprModel, int), int> {
    let j = skip_ws(s, i);
    if 0 <= j < s.len() && is_quote(s[j]) {
        match sp_lit_str(s, i) {
            Ok((v, e)) => Ok((ExprModel::Lit(v), e)),
            Err(p) => Err(p),
        }
    } else {
        match sp_ident(s, i) {
            Ok((v, e)) => Ok((ExprModel::Var(v), e)),
            Err(p) => Err(p),
        }
    }
}

pub proof fn lemma_atom_bounds(s: Seq<char>, i: int)
    requires
        0 <= i <= s.len(),
    ensures
        sp_atom(s, i) matches Ok((_, e)) ==> i < e <= s.len(),
        sp_atom(s, i) matches Err(p) ==> i <= p <= s.len(),
{
    lemma_scan_bounds(s, i, |c: char| is_space(c));
    let j = skip_ws(s, i);
    if 0 <= j < s.len() {
        lemma_scan_bounds(s, j + 1, |c: char| is_ident_char(c));
        lemma_scan_bounds(s, j + 1, |c: char| c != s[j]);
    }
}

/// An expression: an atom, then optionally `+` and another expression.
/// A concatenation thus groups to the right, and its left operand is
/// always a single atom.
pub open spec fn sp_expr(s: Seq<char>, i: int) -> Result<(ExprModel, int), int>
    decreases s.len() - i,
{
    match sp_atom(s, i) {
        Err(p) => Err(p),
        Ok((a, j)) => {
            let k = skip_ws(s, j);
            if char_at(s, k, '+') {
                proof {
                    if 0 <= i <= s.len() {
                        lemma_atom_bounds(s, i);
                        lemma_scan_bounds(s, j, |c: char| is_space(c));
                    }
                }
                match sp_expr(s, k + 1) {
                    Err(p) => Err(p),
                    Ok((b, m)) => Ok((ExprModel::Add(Box::new(a), Box::new(b)), m)),
                }
            } else {
                Ok((a, j))
            }
        },
    }
}

/// A list continued by `item ("," item)* ")"`, seen from its first item:
/// the items already read, followed by the outcome of the rest.
pub open spec fn prepend<M>(acc: Seq<M>, r: Result<(Seq<M>, int), int>) -> Result<(Seq<M>, int), int> {
    match r {
        Ok((v, e)) => Ok((acc + v, e)),
        Err(p) => Err(p),
    }
}

/// `expr ("," expr)* ")"`
pub open spec fn sp_expr_items(s: Seq<char>, i: int) -> Result<(Seq<ExprModel>, int), int>
    decreases s.len() - i,
{
    match sp_expr(s, i) {
        Err(p) => Err(p),
        Ok((x, j)) => match sp_symbol(s, j, ',') {
            Ok(k) => {
                proof {
                    lemma_expr_bounds(s, i);
                    lemma_symbol_bounds(s, j, ',');
                }
                prepend(seq![x], sp_expr_items(s, k))
            },
            Err(_) => match sp_symbol(s, j, ')') {
                Ok(k) => Ok((seq![x], k)),
                Err(p) => Err(p),
            },
        },
    }
}

/// `ident "as" ident`
pub open spec fn sp_arg(s: Seq<char>, i: int) -> Result<(ArgModel, int), int> {
    match sp_ident(s, i) {
        Err(p) => Err(p),
        Ok((name, j)) => match sp_keyword(s, j, kw_as()) {
            Err(p) => Err(p),
            Ok(k) => match sp_ident(s, k) {
                Err(p) => Err(p),
                Ok((binding, e)) => Ok((ArgModel { name, binding }, e)),
            },
        },
    }
}

/// `arg ("," arg)* ")"`
pub open spec fn sp_arg_items(s: Seq<char>, i: int) -> Result<(Seq<ArgModel>, int), int>
    decreases s.len() - i,
{
    match sp_arg(s, i) {
        Err(p) => Err(p),
        Ok((a, j)) => match sp_symbol(s, j, ',') {
            Ok(k) => {
                proof {
                    lemma_arg_bounds(s, i);
                    lemma_symbol_bounds(s, j, ',');
                }
                prepend(seq![a], sp_arg_items(s, k))
            },
            Err(_) => match sp_symbol(s, j, ')') {
                Ok(k) => Ok((seq![a], k)),
                Err(p) => Err(p),
            },
        },
    }
}

/// `"(" [arg ("," arg)*] ")"`
pub open spec fn sp_args(s: Seq<char>, i: int) -> Result<(Seq<ArgModel>, int), int> {
    match sp_symbol(s, i, '(') {
        Err(p) => Err(p),
        Ok(j) => match sp_symbol(s, j, ')') {
            Ok(k) => Ok((Seq::empty(), k)),
            Err(_) => sp_arg_items(s, j),
        },
    }
}

/// `ident "(" expr ("," expr)* ")" ["as" ident]`
pub open spec fn sp_stmt(s: Seq<char>, i: int) -> Result<(StmtModel, int), int> {
    match sp_ident(s, i) {
        Err(p) => Err(p),
        Ok((name, j)) => match sp_symbol(s, j, '(') {
            Err(p) => Err(p),
            Ok(k) => match sp_expr_items(s, k) {
                Err(p) => Err(p),
                Ok((arguments, m)) => match sp_keyword(s, m, kw_as()) {
                    Err(_) => Ok((StmtModel { name, arguments, binding: None }, m)),
                    Ok(q) => match sp_ident(s, q) {
                        Err(p) => Err(p),
                        Ok((b, e)) => Ok((StmtModel { name, arguments, binding: Some(b) }, e)),
                    },
                },
            },
        },
    }
}

/// `effect ("," effect)* ")"`
pub open spec fn sp_stmt_items(s: Seq<char>, i: int) -> Result<(Seq<StmtModel>, int), int>
    decreases s.len() - i,
{
    match sp_stmt(s, i) {
        Err(p) => Err(p),
        Ok((x, j)) => match sp_symbol(s, j, ',') {
            Ok(k) => {
                proof {
                    lemma_stmt_bounds(s, i);
                    lemma_symbol_bounds(s, j, ',');
                }
                prepend(seq![x], sp_stmt_items(s, k))
            },
            Err(_) => match sp_symbol(s, j, ')') {
                Ok(k) => Ok((seq![x], k)),
                Err(p) => Err(p),
            },
        },
    }
}

/// `"(" [effect ("," effect)*] ")"`
pub open spec fn sp_effects(s: Seq<char>, i: int) -> Result<(Seq<StmtModel>, int), int> {
    match sp_symbol(s, i, '(') {
        Err(p) => Err(p),
        Ok(j) => match sp_symbol(s, j, ')') {
            Ok(k) => Ok((Seq::empty(), k)),
            Err(_) => sp_stmt_items(s, j),
        },
    }
}

/// `["args" "=" args ","]`: no arguments when the keyword is absent.
pub open spec fn sp_args_section(s: Seq<char>, i: int) -> Result<(Seq<ArgModel>, int), int> {
    match sp_keyword(s, i, kw_args()) {
        Err(_) => Ok((Seq::empty(), i)),
        Ok(j) => match sp_symbol(s, j, '=') {
            Err(p) => Err(p),
            Ok(k) => match sp_args(s, k) {
                Err(p) => Err(p),
                Ok((args, m)) => match sp_symbol(s, m, ',') {
                    Err(p) => Err(p),
                    Ok(e) => Ok((args, e)),
                },
            },
        },
    }
}

/// `["," "returns" "=" ("(" expr ")" | expr)]`: nothing is consumed when
/// the comma is not followed by the keyword.
pub open spec fn sp_returns_section(s: Seq<char>, i: int) -> Result<(Option<ExprModel>, int), int> {
    match sp_symbol(s, i, ',') {
        Err(_) => Ok((None, i)),
        Ok(j) => match sp_keyword(s, j, kw_returns()) {
            Err(_) => Ok((None, i)),
            Ok(k) => match sp_symbol(s, k, '=') {
                Err(p) => Err(p),
                Ok(m) => match sp_symbol(s, m, '(') {
                    Ok(q) => match sp_expr(s, q) {
                        Err(p) => Err(p),
                        Ok((x, t)) => match sp_symbol(s, t, ')') {
                            Err(p) => Err(p),
                            Ok(e) => Ok((Some(x), e)),
                        },
                    },
                    Err(_) => match sp_expr(s, m) {
                        Err(p) => Err(p),
                        Ok((x, e)) => Ok((Some(x), e)),
                    },
                },
            },
        },
    }
}

/// A whole declaration; the whitespace after it is consumed too.
pub open spec fn sp_decl(s: Seq<char>, i: int) -> Result<(DeclModel, int), int> {
    let (open, a) = match sp_symbol(s, i, '(') {
        Ok(j) => (true, j),
        Err(_) => (false, i),
    };
    match sp_args_section(s, a) {
        Err(p) => Err(p),
        Ok((args, b)) => match sp_keyword(s, b, kw_side_effects()) {
            Err(p) => Err(p),
            Ok(c) => match sp_symbol(s, c, '=') {
                Err(p) => Err(p),
                Ok(d) => match sp_effects(s, d) {
                    Err(p) => Err(p),
                    Ok((effects, e)) => match sp_returns_section(s, e) {
                        Err(p) => Err(p),
                        Ok((ret, f)) => {
                            let g = match sp_symbol(s, f, ',') {
                                Ok(g) => g,
                                Err(_) => f,
                            };
                            let h = if open {
                                sp_symbol(s, g, ')')
                            } else {
                                Ok(g)
                            };
                            match h {
                                Err(p) => Err(p),
                                Ok(h) => Ok((DeclModel { args, effects, returns: ret }, skip_ws(s, h))),
                            }
                        },
                    },
                },
            },
        },
    }
}

/// A declaration that takes up the whole text.
pub open spec fn sp_declaration(s: Seq<char>) -> Result<DeclModel, int> {
    match sp_decl(s, 0) {
        Ok((d, e)) => if e == s.len() {
            Ok(d)
        } else {
            Err(e)
        },
        Err(p) => Err(p),
    }
}

pub proof fn lemma_ws_bounds(s: Seq<char>, i: int)
    requires
        0 <= i <= s.len(),
    ensures
        i <= skip_ws(s, i) <= s.len(),
{
    lemma_scan_bounds(s, i, |c: char| is_space(c));
}

pub proof fn lemma_symbol_bounds(s: Seq<char>, i: int, c: char)
    requires
        0 <= i <= s.len(),
    ensures
        sp_symbol(s, i, c) matches Ok(k) ==> i < k <= s.len(),
{
    lemma_ws_bounds(s, i);
}

pub proof fn lemma_keyword_bounds(s: Seq<char>, i: int, kw: Seq<char>)
    requires
        0 <= i <= s.len(),
        kw.len() > 0,
    ensures
        sp_keyword(s, i, kw) matches Ok(k) ==> i < k <= s.len(),
{
    lemma_ws_bounds(s, i);
}

pub proof fn lemma_ident_bounds(s: Seq<char>, i: int)
    requires
        0 <= i <= s.len(),
    ensures
        sp_ident(s, i) matches Ok((_, k)) ==> i < k <= s.len(),
{
    lemma_ws_bounds(s, i);
    let j = skip_ws(s, i);
    if 0 <= j < s.len() {
        lemma_scan_bounds(s, j + 1, |c: char| is_ident_char(c));
    }
}

pub proof fn lemma_expr_bounds(s: Seq<char>, i: int)
    requires
        0 <= i <= s.len(),
    ensures
        sp_expr(s, i) matches Ok((_, k)) ==> i < k <= s.len(),
    decreases s.len() - i,
{
    lemma_atom_bounds(s, i);
    if let Ok((_, j)) = sp_atom(s, i) {
        lemma_ws_bounds(s, j);
        let k = skip_ws(s, j);
        if char_at(s, k, '+') {
            lemma_expr_bounds(s, k + 1);
        }
    }
}

pub proof fn lemma_arg_bounds(s: Seq<char>, i: int)
    requires
        0 <= i <= s.len(),
    ensures
        sp_arg(s, i) matches Ok((_, k)) ==> i < k <= s.len(),
{
    lemma_ident_bounds(s, i);
    if let Ok((_, j)) = sp_ident(s, i) {
        lemma_keyword_bounds(s, j, kw_as());
        if let Ok(k) = sp_keyword(s, j, kw_as()) {
            lemma_ident_bounds(s, k);
        }
    }
}

pub proof fn lemma_expr_items_bounds(s: Seq<char>, i: int)
    requires
        0 <= i <= s.len(),
    ensures
        sp_expr_items(s, i) matches Ok((_, k)) ==> i < k <= s.len(),
    decreases s.len() - i,
{
    lemma_expr_bounds(s, i);
    if let Ok((_, j)) = sp_expr(s, i) {
        lemma_symbol_bounds(s, j, ',');
        lemma_symbol_bounds(s, j, ')');
        if let Ok(k) = sp_symbol(s, j, ',') {
            lemma_expr_items_bounds(s, k);
        }
    }
}

pub proof fn lemma_stmt_bounds(s: Seq<char>, i: int)
    requires
        0 <= i <= s.len(),
    ensures
        sp_stmt(s, i) matches Ok((_, k)) ==> i < k <= s.len(),
{
    lemma_ident_bounds(s, i);
    if let Ok((_, j)) = sp_ident(s, i) {
        lemma_symbol_bounds(s, j, '(');
        if let Ok(k) = sp_symbol(s, j, '(') {
            lemma_expr_items_bounds(s, k);
            if let Ok((_, m)) = sp_expr_items(s, k) {
                lemma_keyword_bounds(s, m, kw_as());
                if let Ok(q) = sp_keyword(s, m, kw_as()) {
                    lemma_ident_bounds(s, q);
                }
            }
        }
    }
}

/// The view of a parser's outcome: the value's view and the position after
/// it, or the position of the error.
pub open spec fn outcome_view<T: View>(r: Result<(T, usize), ParseError>) -> Result<(T::V, int), int> {
    match r {
        Ok((x, k)) => Ok((x@, k as int)),
        Err(e) => Err(e.offset as int),
    }
}

/// The view of the outcome of a parser that yields only a position.
pub open spec fn position_view(r: Result<usize, ParseError>) -> Result<int, int> {
    match r {
        Ok(k) => Ok(k as int),
        Err(e) => Err(e.offset as int),
    }
}

/// A successful parse from `i` ends after `i`, and every position stays
/// within the text.
pub open spec fn within<T>(r: Result<(T, usize), ParseError>, i: int, n: int) -> bool {
    match r {
        Ok((_, k)) => i < k <= n,
        Err(e) => e.offset <= n,
    }
}

/// What a parser over a whole `&str` returns, given the outcome `m` of the
/// grammar on its characters: the unparsed rest of the text and the value,
/// or the error's position.
pub open spec fn parsed<'a, T: View>(
    input: Seq<char>,
    r: Result<(&'a str, T), ParseError>,
    m: Result<(T::V, int), int>,
) -> bool {
    match m {
        Ok((v, e)) => r matches Ok((rest, x)) && x@ == v && rest@ == input.subrange(
            e,
            input.len() as int,
        ),
        Err(p) => r matches Err(err) && err.offset == p,
    }
}

pub open spec fn kw_as() -> Seq<char> {
    seq!['a', 's']
}

pub open spec fn kw_args() -> Seq<char> {
    seq!['a', 'r', 'g', 's']
}

pub open spec fn kw_side_effects() -> Seq<char> {
    seq!['s', 'i', 'd', 'e', '_', 'e', 'f', 'f', 'e', 'c', 't', 's']
}

pub open spec fn kw_returns() -> Seq<char> {
    seq!['r', 'e', 't', 'u', 'r', 'n', 's']
}

fn char_is_space(c: char) -> (r: bool)
    ensures
        r == is_space(c),
{
    c == ' ' || c == '\t' || c == '\n' || c == '\r'
}

fn char_is_ident_start(c: char) -> (r: bool)
    ensures
        r == is_ident_start(c),
{
    ('a' <= c && c <= 'z') || ('A' <= c && c <= 'Z') || c == '_'
}

fn char_is_ident(c: char) -> (r: bool)
    ensures
        r == is_ident_char(c),
{
    char_is_ident_start(c) || ('0' <= c && c <= '9')
}

/// The text being parsed, with its characters laid out for indexing.
pub struct Source<'a> {
    text: &'a str,
    chars: Vec<char>,
}

impl<'a> Source<'a> {
    pub closed spec fn wf(&self) -> bool {
        self.chars@ == self.text@
    }

    pub closed spec fn view_chars(&self) -> Seq<char> {
        self.chars@
    }

    pub fn new(text: &'a str) -> (r: Self)
        ensures
            r.wf(),
            r.view_chars() == text@,
    {
        let mut chars: Vec<char> = Vec::new();
        for c in it: text.chars()
            invariant
                chars@ == it.seq().take(it.index() as int),
        {
            chars.push(c);
        }
        assert(chars@ =~= text@);
        Source { text, chars }
    }

    pub fn len(&self) -> (r: usize)
        requires
            self.wf(),
        ensures
            r == self.view_chars().len(),
    {
        self.chars.len()
    }

    /// The rest of the text from position `i`.
    pub fn rest(&self, i: usize) -> (r: &'a str)
        requires
            self.wf(),
            i <= self.view_chars().len(),
        ensures
            r@ == self.view_chars().subrange(i as int, self.view_chars().len() as int),
    {
        self.text.substring_char(i, self.chars.len())
    }

    /// The characters from `a` up to `b`, as a new string.
    fn slice(&self, a: usize, b: usize) -> (r: String)
        requires
            self.wf(),
            a <= b <= self.view_chars().len(),
        ensures
            r@ == self.view_chars().subrange(a as int, b as int),
    {
        self.text.substring_char(a, b).to_owned()
    }

    fn skip_ws(&self, i: usize) -> (r: usize)
        requires
            self.wf(),
            i <= self.view_chars().len(),
        ensures
            r == skip_ws(self.view_chars(), i as int),
            i <= r <= self.view_chars().len(),
    {
        let n = self.chars.len();
        let mut j = i;
        while j < n && char_is_space(self.chars[j])
            invariant
                n == self.chars@.len(),
                i <= j <= n,
                skip_ws(self.chars@, j as int) == skip_ws(self.chars@, i as int),
            decreases n - j,
        {
            j += 1;
        }
        j
    }

    fn ident_end(&self, i: usize) -> (r: usize)
        requires
            self.wf(),
            i <= self.view_chars().len(),
        ensures
            r == ident_end(self.view_chars(), i as int),
            i <= r <= self.view_chars().len(),
    {
        let n = self.chars.len();
        let mut j = i;
        while j < n && char_is_ident(self.chars[j])
            invariant
                n == self.chars@.len(),
                i <= j <= n,
                ident_end(self.chars@, j as int) == ident_end(self.chars@, i as int),
            decreases n - j,
        {
            j += 1;
        }
        j
    }

    fn find_char(&self, i: usize, q: char) -> (r: usize)
        requires
            self.wf(),
            i <= self.view_chars().len(),
        ensures
            r == find_char(self.view_chars(), i as int, q),
            i <= r <= self.view_chars().len(),
    {
        let n = self.chars.len();
        let mut j = i;
        while j < n && self.chars[j] != q
            invariant
                n == self.chars@.len(),
                i <= j <= n,
                find_char(self.chars@, j as int, q) == find_char(self.chars@, i as int, q),
            decreases n - j,
        {
            j += 1;
        }
        j
    }

    fn is_at(&self, j: usize, c: char) -> (r: bool)
        requires
            self.wf(),
        ensures
            r == char_at(self.view_chars(), j as int, c),
            r ==> j < self.chars.len(),
    {
        j < self.chars.len() && self.chars[j] == c
    }

    fn symbol(&self, i: usize, c: char) -> (r: Result<usize, ParseError>)
        requires
            self.wf(),
            i <= self.view_chars().len(),
        ensures
            position_view(r) == sp_symbol(self.view_chars(), i as int, c),
            r matches Ok(k) ==> i < k <= self.view_chars().len(),
            r matches Err(e) ==> e.offset <= self.view_chars().len(),
    {
        let j = self.skip_ws(i);
        if self.is_at(j, c) {
            Ok(j + 1)
        } else {
            Err(ParseError { offset: j })
        }
    }

    fn keyword(&self, i: usize, kw: &[char]) -> (r: Result<usize, ParseError>)
        requires
            self.wf(),
            i <= self.view_chars().len(),
            kw@.len() > 0,
        ensures
            position_view(r) == sp_keyword(self.view_chars(), i as int, kw@),
            r matches Ok(k) ==> i < k <= self.view_chars().len(),
            r matches Err(e) ==> e.offset <= self.view_chars().len(),
    {
        let j = self.skip_ws(i);
        let n = self.chars.len();
        let m = kw.len();
        if m > n - j {
            return Err(ParseError { offset: j });
        }
        let mut k: usize = 0;
        while k < m
            invariant
                n == self.chars@.len(),
                m == kw@.len(),
                j == skip_ws(self.chars@, i as int),
                j + m <= n,
                k <= m,
                forall|t: int| 0 <= t < k ==> self.chars@[j + t] == kw@[t],
            decreases m - k,
        {
            if self.chars[j + k] != kw[k] {
                assert(self.chars@.subrange(j as int, j + m)[k as int] != kw@[k as int]);
                assert(self.chars@.subrange(j as int, j + m) != kw@);
                assert(!keyword_at(self.chars@, j as int, kw@));
                return Err(ParseError { offset: j });
            }
            k += 1;
        }
        assert(self.chars@.subrange(j as int, j + m) =~= kw@);
        if j + m < n && char_is_ident(self.chars[j + m]) {
            Err(ParseError { offset: j })
        } else {
            Ok(j + m)
        }
    }

    fn ident(&self, i: usize) -> (r: Result<(String, usize), ParseError>)
        requires
            self.wf(),
            i <= self.view_chars().len(),
        ensures
            outcome_view(r) == sp_ident(self.view_chars(), i as int),
            within(r, i as int, self.view_chars().len() as int),
    {
        let j = self.skip_ws(i);
        if j < self.chars.len() && char_is_ident_start(self.chars[j]) {
            let e = self.ident_end(j + 1);
            Ok((self.slice(j, e), e))
        } else {
            Err(ParseError { offset: j })
        }
    }
}

/// An identifier at the start of `input`, after optional whitespace.
pub fn identifier(input: &str) -> (r: Result<(&str, String), ParseError>)
    ensures
        parsed(input@, r, sp_ident(input@, 0)),
{
    let src = Source::new(input);
    match src.ident(0) {
        Ok((name, e)) => Ok((src.rest(e), name)),
        Err(err) => Err(err),
    }
}

impl LitStr {
    /// A string literal starting at `i`.
    pub fn parse_at(src: &Source, i: usize) -> (r: Result<(LitStr, usize), ParseError>)
        requires
            src.wf(),
            i <= src.view_chars().len(),
        ensures
            outcome_view(r) == sp_lit_str(src.view_chars(), i as int),
            within(r, i as int, src.view_chars().len() as int),
    {
        let j = src.skip_ws(i);
        if j < src.chars.len() && (src.chars[j] == '\'' || src.chars[j] == '"') {
            let k = src.find_char(j + 1, src.chars[j]);
            if j + 1 < k && k < src.chars.len() {
                Ok((LitStr { value: src.slice(j + 1, k) }, k + 1))
            } else {
                Err(ParseError { offset: j })
            }
        } else {
            Err(ParseError { offset: j })
        }
    }
}

impl Var {
    /// A variable reference starting at `i`.
    pub fn parse_at(src: &Source, i: usize) -> (r: Result<(Var, usize), ParseError>)
        requires
            src.wf(),
            i <= src.view_chars().len(),
        ensures
            outcome_view(r) == sp_ident(src.view_chars(), i as int),
            within(r, i as int, src.view_chars().len() as int),
    {
        match src.ident(i) {
            Ok((name, e)) => Ok((Var { name }, e)),
            Err(err) => Err(err),
        }
    }
}

impl Expr {
    /// A literal or a variable starting at `i`.
    fn parse_atom(src: &Source, i: usize) -> (r: Result<(Expr, usize), ParseError>)
        requires
            src.wf(),
            i <= src.view_chars().len(),
        ensures
            outcome_view(r) == sp_atom(src.view_chars(), i as int),
            within(r, i as int, src.view_chars().len() as int),
    {
        let j = src.skip_ws(i);
        if j < src.chars.len() && (src.chars[j] == '\'' || src.chars[j] == '"') {
            match LitStr::parse_at(src, i) {
                Ok((lit, e)) => Ok((Expr::LitStr(lit), e)),
                Err(err) => Err(err),
            }
        } else {
            match Var::parse_at(src, i) {
                Ok((var, e)) => Ok((Expr::Var(var), e)),
                Err(err) => Err(err),
            }
        }
    }

    /// An expression starting at `i`.
    pub fn parse_at(src: &Source, i: usize) -> (r: Result<(Expr, usize), ParseError>)
        requires
            src.wf(),
            i <= src.view_chars().len(),
        ensures
            outcome_view(r) == sp_expr(src.view_chars(), i as int),
            within(r, i as int, src.view_chars().len() as int),
        decreases src.view_chars().len() - i,
    {
        let (lhs, j) = match Expr::parse_atom(src, i) {
            Ok(x) => x,
            Err(err) => return Err(err),
        };
        let k = src.skip_ws(j);
        if src.is_at(k, '+') {
            match Expr::parse_at(src, k + 1) {
                Ok((rhs, m)) => Ok((Expr::Add(Box::new(Add { lhs, rhs })), m)),
                Err(err) => Err(err),
            }
        } else {
            Ok((lhs, j))
        }
    }

    /// An expression at the start of `input`.
    pub fn parse(input: &str) -> (r: Result<(&str, Expr), ParseError>)
        ensures
            parsed(input@, r, sp_expr(input@, 0)),
    {
        let src = Source::new(input);
        match Expr::parse_at(&src, 0) {
            Ok((e, k)) => Ok((src.rest(k), e)),
            Err(err) => Err(err),
        }
    }
}

impl Arg {
    /// An argument binding starting at `i`.
    pub fn parse_at(src: &Source, i: usize) -> (r: Result<(Arg, usize), ParseError>)
        requires
            src.wf(),
            i <= src.view_chars().len(),
        ensures
            outcome_view(r) == sp_arg(src.view_chars(), i as int),
            within(r, i as int, src.view_chars().len() as int),
    {
        let (arg_name, j) = match src.ident(i) {
            Ok(x) => x,
            Err(err) => return Err(err),
        };
        let kw: [char; 2] = ['a', 's'];
        assert(kw@ =~= kw_as());
        let k = match src.keyword(j, &kw) {
            Ok(k) => k,
            Err(err) => return Err(err),
        };
        match src.ident(k) {
            Ok((arg_binding, e)) => Ok((Arg { arg_name, arg_binding }, e)),
            Err(err) => Err(err),
        }
    }

    /// An argument binding at the start of `input`.
    pub fn parse(input: &str) -> (r: Result<(&str, Arg), ParseError>)
        ensures
            parsed(input@, r, sp_arg(input@, 0)),
    {
        let src = Source::new(input);
        match Arg::parse_at(&src, 0) {
            Ok((a, k)) => Ok((src.rest(k), a)),
            Err(err) => Err(err),
        }
    }
}

impl Args {
    /// A parenthesised list of argument bindings starting at `i`.
    pub fn parse_at(src: &Source, i: usize) -> (r: Result<(Args, usize), ParseError>)
        requires
            src.wf(),
            i <= src.view_chars().len(),
        ensures
            outcome_view(r) == sp_args(src.view_chars(), i as int),
            within(r, i as int, src.view_chars().len() as int),
    {
        let ghost s = src.view_chars();
        let j = match src.symbol(i, '(') {
            Ok(j) => j,
            Err(err) => return Err(err),
        };
        if let Ok(k) = src.symbol(j, ')') {
            let r = Args { args: Vec::new() };
            assert(r@ =~= Seq::<ArgModel>::empty());
            return Ok((r, k));
        }
        let mut args: Vec<Arg> = Vec::new();
        let mut pos = j;
        assert(prepend(Seq::<ArgModel>::empty(), sp_arg_items(s, j as int)) =~= sp_arg_items(s, j as int)) by {
            if let Ok((v, e)) = sp_arg_items(s, j as int) {
                assert(Seq::<ArgModel>::empty() + v =~= v);
            }
        }
        loop
            invariant
                src.wf(),
                s == src.view_chars(),
                i < j <= pos <= s.len(),
                sp_args(s, i as int) == sp_arg_items(s, j as int),
                sp_arg_items(s, j as int) == prepend(
                    args@.map_values(|a: Arg| a@),
                    sp_arg_items(s, pos as int),
                ),
            decreases s.len() - pos,
        {
            let ghost acc = args@.map_values(|a: Arg| a@);
            let (a, e) = match Arg::parse_at(src, pos) {
                Ok(x) => x,
                Err(err) => return Err(err),
            };
            match src.symbol(e, ',') {
                Ok(k) => {
                    args.push(a);
                    assert(args@.map_values(|a: Arg| a@) =~= acc.push(a@));
                    assert(prepend(acc, prepend(seq![a@], sp_arg_items(s, k as int))) =~= prepend(
                        acc.push(a@),
                        sp_arg_items(s, k as int),
                    )) by {
                        if let Ok((v, e2)) = sp_arg_items(s, k as int) {
                            assert(acc + (seq![a@] + v) =~= acc.push(a@) + v);
                        }
                    }
                    pos = k;
                },
                Err(_) => {
                    match src.symbol(e, ')') {
                        Ok(k) => {
                            args.push(a);
                            let r = Args { args };
                            assert(r@ =~= acc + seq![a@]);
                            return Ok((r, k));
                        },
                        Err(err) => return Err(err),
                    }
                },
            }
        }
    }

    /// A parenthesised list of argument bindings at the start of `input`.
    pub fn parse(input: &str) -> (r: Result<(&str, Args), ParseError>)
        ensures
            parsed(input@, r, sp_args(input@, 0)),
    {
        let src = Source::new(input);
        match Args::parse_at(&src, 0) {
            Ok((a, k)) => Ok((src.rest(k), a)),
            Err(err) => Err(err),
        }
    }
}

impl SideEffectStmt {
    /// `expr ("," expr)* ")"` starting at `i`.
    fn parse_arguments(src: &Source, i: usize) -> (r: Result<(Vec<Expr>, usize), ParseError>)
        requires
            src.wf(),
            i <= src.view_chars().len(),
        ensures
            (match r {
                Ok((v, k)) => Ok((v@.map_values(|e: Expr| e@), k as int)),
                Err(e) => Err(e.offset as int),
            }) == sp_expr_items(src.view_chars(), i as int),
            within(r, i as int, src.view_chars().len() as int),
    {
        let ghost s = src.view_chars();
        let mut items: Vec<Expr> = Vec::new();
        let mut pos = i;
        assert(prepend(Seq::<ExprModel>::empty(), sp_expr_items(s, i as int)) =~= sp_expr_items(s, i as int)) by {
            if let Ok((v, e)) = sp_expr_items(s, i as int) {
                assert(Seq::<ExprModel>::empty() + v =~= v);
            }
        }
        loop
            invariant
                src.wf(),
                s == src.view_chars(),
                i <= pos <= s.len(),
                sp_expr_items(s, i as int) == prepend(
                    items@.map_values(|e: Expr| e@),
                    sp_expr_items(s, pos as int),
                ),
            decreases s.len() - pos,
        {
            let ghost acc = items@.map_values(|e: Expr| e@);
            let (x, e) = match Expr::parse_at(src, pos) {
                Ok(x) => x,
                Err(err) => return Err(err),
            };
            match src.symbol(e, ',') {
                Ok(k) => {
                    items.push(x);
                    assert(items@.map_values(|e: Expr| e@) =~= acc.push(x@));
                    assert(prepend(acc, prepend(seq![x@], sp_expr_items(s, k as int))) =~= prepend(
                        acc.push(x@),
                        sp_expr_items(s, k as int),
                    )) by {
                        if let Ok((v, e2)) = sp_expr_items(s, k as int) {
                            assert(acc + (seq![x@] + v) =~= acc.push(x@) + v);
                        }
                    }
                    pos = k;
                },
                Err(_) => {
                    match src.symbol(e, ')') {
                        Ok(k) => {
                            items.push(x);
                            assert(items@.map_values(|e: Expr| e@) =~= acc + seq![x@]);
                            return Ok((items, k));
                        },
                        Err(err) => return Err(err),
                    }
                },
            }
        }
    }

    /// An effect statement starting at `i`.
    pub fn parse_at(src: &Source, i: usize) -> (r: Result<(SideEffectStmt, usize), ParseError>)
        requires
            src.wf(),
            i <= src.view_chars().len(),
        ensures
            outcome_view(r) == sp_stmt(src.view_chars(), i as int),
            within(r, i as int, src.view_chars().len() as int),
    {
        let (side_effect_name, j) = match src.ident(i) {
            Ok(x) => x,
            Err(err) => return Err(err),
        };
        let k = match src.symbol(j, '(') {
            Ok(k) => k,
            Err(err) => return Err(err),
        };
        let (side_effect_arguments, m) = match SideEffectStmt::parse_arguments(src, k) {
            Ok(x) => x,
            Err(err) => return Err(err),
        };
        let kw: [char; 2] = ['a', 's'];
        assert(kw@ =~= kw_as());
        match src.keyword(m, &kw) {
            Err(_) => Ok((SideEffectStmt { side_effect_name, side_effect_arguments, binding: None }, m)),
            Ok(q) => match src.ident(q) {
                Ok((b, e)) => Ok((
                    SideEffectStmt { side_effect_name, side_effect_arguments, binding: Some(b) },
                    e,
                )),
                Err(err) => Err(err),
            },
        }
    }

    /// An effect statement at the start of `input`.
    pub fn parse(input: &str) -> (r: Result<(&str, SideEffectStmt), ParseError>)
        ensures
            parsed(input@, r, sp_stmt(input@, 0)),
    {
        let src = Source::new(input);
        match SideEffectStmt::parse_at(&src, 0) {
            Ok((x, k)) => Ok((src.rest(k), x)),
            Err(err) => Err(err),
        }
    }
}

impl SideEffects {
    /// A parenthesised list of effect statements starting at `i`.
    pub fn parse_at(src: &Source, i: usize) -> (r: Result<(SideEffects, usize), ParseError>)
        requires
            src.wf(),
            i <= src.view_chars().len(),
        ensures
            outcome_view(r) == sp_effects(src.view_chars(), i as int),
            within(r, i as int, src.view_chars().len() as int),
    {
        let ghost s = src.view_chars();
        let j = match src.symbol(i, '(') {
            Ok(j) => j,
            Err(err) => return Err(err),
        };
        if let Ok(k) = src.symbol(j, ')') {
            let r = SideEffects { side_effect_stmts: Vec::new() };
            assert(r@ =~= Seq::<StmtModel>::empty());
            return Ok((r, k));
        }
        let mut stmts: Vec<SideEffectStmt> = Vec::new();
        let mut pos = j;
        assert(prepend(Seq::<StmtModel>::empty(), sp_stmt_items(s, j as int)) =~= sp_stmt_items(s, j as int)) by {
            if let Ok((v, e)) = sp_stmt_items(s, j as int) {
                assert(Seq::<StmtModel>::empty() + v =~= v);
            }
        }
        loop
            invariant
                src.wf(),
                s == src.view_chars(),
                i < j <= pos <= s.len(),
                sp_effects(s, i as int) == sp_stmt_items(s, j as int),
                sp_stmt_items(s, j as int) == prepend(
                    stmts@.map_values(|x: SideEffectStmt| x@),
                    sp_stmt_items(s, pos as int),
                ),
            decreases s.len() - pos,
        {
            let ghost acc = stmts@.map_values(|x: SideEffectStmt| x@);
            let (x, e) = match SideEffectStmt::parse_at(src, pos) {
                Ok(x) => x,
                Err(err) => return Err(err),
            };
            match src.symbol(e, ',') {
                Ok(k) => {
                    stmts.push(x);
                    assert(stmts@.map_values(|x: SideEffectStmt| x@) =~= acc.push(x@));
                    assert(prepend(acc, prepend(seq![x@], sp_stmt_items(s, k as int))) =~= prepend(
                        acc.push(x@),
                        sp_stmt_items(s, k as int),
                    )) by {
                        if let Ok((v, e2)) = sp_stmt_items(s, k as int) {
                            assert(acc + (seq![x@] + v) =~= acc.push(x@) + v);
                        }
                    }
                    pos = k;
                },
                Err(_) => {
                    match src.symbol(e, ')') {
                        Ok(k) => {
                            stmts.push(x);
                            let r = SideEffects { side_effect_stmts: stmts };
                            assert(r@ =~= acc + seq![x@]);
                            return Ok((r, k));
                        },
                        Err(err) => return Err(err),
                    }
                },
            }
        }
    }

    /// A parenthesised list of effect statements at the start of `input`.
    pub fn parse(input: &str) -> (r: Result<(&str, SideEffects), ParseError>)
        ensures
            parsed(input@, r, sp_effects(input@, 0)),
    {
        let src = Source::new(input);
        match SideEffects::parse_at(&src, 0) {
            Ok((x, k)) => Ok((src.rest(k), x)),
            Err(err) => Err(err),
        }
    }
}

impl DeclareMacro {
    fn parse_args_section(src: &Source, i: usize) -> (r: Result<(Args, usize), ParseError>)
        requires
            src.wf(),
            i <= src.view_chars().len(),
        ensures
            outcome_view(r) == sp_args_section(src.view_chars(), i as int),
            r matches Ok((_, k)) ==> i <= k <= src.view_chars().len(),
            r matches Err(e) ==> e.offset <= src.view_chars().len(),
    {
        let kw: [char; 4] = ['a', 'r', 'g', 's'];
        assert(kw@ =~= kw_args());
        let j = match src.keyword(i, &kw) {
            Ok(j) => j,
            Err(_) => {
                let r = Args { args: Vec::new() };
                assert(r@ =~= Seq::<ArgModel>::empty());
                return Ok((r, i));
            },
        };
        let k = match src.symbol(j, '=') {
            Ok(k) => k,
            Err(err) => return Err(err),
        };
        let (args, m) = match Args::parse_at(src, k) {
            Ok(x) => x,
            Err(err) => return Err(err),
        };
        match src.symbol(m, ',') {
            Ok(e) => Ok((args, e)),
            Err(err) => Err(err),
        }
    }

    fn parse_returns_section(src: &Source, i: usize) -> (r: Result<(Option<Expr>, usize), ParseError>)
        requires
            src.wf(),
            i <= src.view_chars().len(),
        ensures
            (match r {
                Ok((x, k)) => Ok((crate::ast::returns_view(x), k as int)),
                Err(e) => Err(e.offset as int),
            }) == sp_returns_section(src.view_chars(), i as int),
            r matches Ok((_, k)) ==> i <= k <= src.view_chars().len(),
            r matches Err(e) ==> e.offset <= src.view_chars().len(),
    {
        let j = match src.symbol(i, ',') {
            Ok(j) => j,
            Err(_) => return Ok((None, i)),
        };
        let kw: [char; 7] = ['r', 'e', 't', 'u', 'r', 'n', 's'];
        assert(kw@ =~= kw_returns());
        let k = match src.keyword(j, &kw) {
            Ok(k) => k,
            Err(_) => return Ok((None, i)),
        };
        let m = match src.symbol(k, '=') {
            Ok(m) => m,
            Err(err) => return Err(err),
        };
        match src.symbol(m, '(') {
            Ok(q) => {
                let (x, t) = match Expr::parse_at(src, q) {
                    Ok(x) => x,
                    Err(err) => return Err(err),
                };
                match src.symbol(t, ')') {
                    Ok(e) => Ok((Some(x), e)),
                    Err(err) => Err(err),
                }
            },
            Err(_) => match Expr::parse_at(src, m) {
                Ok((x, e)) => Ok((Some(x), e)),
                Err(err) => Err(err),
            },
        }
    }

    /// A declaration starting at `i`, with the whitespace after it.
    pub fn parse_at(src: &Source, i: usize) -> (r: Result<(DeclareMacro, usize), ParseError>)
        requires
            src.wf(),
            i <= src.view_chars().len(),
        ensures
            outcome_view(r) == sp_decl(src.view_chars(), i as int),
            within(r, i as int, src.view_chars().len() as int),
    {
        let (open, a) = match src.symbol(i, '(') {
            Ok(j) => (true, j),
            Err(_) => (false, i),
        };
        let (args, b) = match DeclareMacro::parse_args_section(src, a) {
            Ok(x) => x,
            Err(err) => return Err(err),
        };
        let kw: [char; 12] = ['s', 'i', 'd', 'e', '_', 'e', 'f', 'f', 'e', 'c', 't', 's'];
        assert(kw@ =~= kw_side_effects());
        let c = match src.keyword(b, &kw) {
            Ok(c) => c,
            Err(err) => return Err(err),
        };
        let d = match src.symbol(c, '=') {
            Ok(d) => d,
            Err(err) => return Err(err),
        };
        let (side_effects, e) = match SideEffects::parse_at(src, d) {
            Ok(x) => x,
            Err(err) => return Err(err),
        };
        let (ret, f) = match DeclareMacro::parse_returns_section(src, e) {
            Ok(x) => x,
            Err(err) => return Err(err),
        };
        let g = match src.symbol(f, ',') {
            Ok(g) => g,
            Err(_) => f,
        };
        let h = if open {
            match src.symbol(g, ')') {
                Ok(h) => h,
                Err(err) => return Err(err),
            }
        } else {
            g
        };
        let end = src.skip_ws(h);
        Ok((DeclareMacro { args, side_effects, returns: ret }, end))
    }

    /// A declaration at the start of `input`.
    pub fn parse(input: &str) -> (r: Result<(&str, DeclareMacro), ParseError>)
        ensures
            parsed(input@, r, sp_decl(input@, 0)),
    {
        let src = Source::new(input);
        match DeclareMacro::parse_at(&src, 0) {
            Ok((x, k)) => Ok((src.rest(k), x)),
            Err(err) => Err(err),
        }
    }

    /// The declaration that makes up the whole of `text`; text left over
    /// after it is an error at the position where it starts.
    pub fn from_attribute(text: &str) -> (r: Result<DeclareMacro, ParseError>)
        ensures
            (match r {
                Ok(d) => Ok(d@),
                Err(e) => Err(e.offset as int),
            }) == sp_declaration(text@),
    {
        let src = Source::new(text);
        match DeclareMacro::parse_at(&src, 0) {
            Ok((x, k)) => if k == src.len() {
                Ok(x)
            } else {
                Err(ParseError { offset: k })
            },
            Err(err) => Err(err),
        }
    }
}

} // verus!
