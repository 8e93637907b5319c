//! A canonical text for each well-formed declaration, and the law that
//! the parser reads every such text back as the declaration it came from:
//! every declaration the grammar can express is accepted.

use vstd::prelude::*;

use crate::ast::{ArgModel, DeclModel, ExprModel, StmtModel};
use crate::parser::{
    find_char, ident_end, is_ident_char, is_ident_start, is_space, kw_args, kw_as, kw_returns,
    kw_side_effects, skip_ws, sp_arg, sp_arg_items, sp_args, sp_args_section, sp_atom,
    sp_declaration, sp_effects, sp_expr, sp_expr_items, sp_ident, sp_keyword,
    sp_returns_section, sp_stmt, sp_stmt_items, sp_symbol, keyword_at,
};

verus! {

pub open spec fn is_ident(n: Seq<char>) -> bool {
    &&& n.len() > 0
    &&& is_ident_start(n[0])
    &&& forall|k: int| 0 <= k < n.len() ==> is_ident_char(#[trigger] n[k])
}

pub open spec fn is_lit_text(v: Seq<char>) -> bool {
    &&& v.len() > 0
    &&& forall|k: int| 0 <= k < v.len() ==> #[trigger] v[k] != '\''
}

/// An expression the grammar can express: identifiers and non-empty
/// literals without a single quote, and a concatenation's left operand a
/// single literal or variable.
pub open spec fn wf_expr(e: ExprModel) -> bool
    decreases e,
{
    match e {
        ExprModel::Lit(v) => is_lit_text(v),
        ExprModel::Var(n) => is_ident(n),
        ExprModel::Add(a, b) => !(*a is Add) && wf_expr(*a) && wf_expr(*b),
    }
}

pub open spec fn print_expr(e: ExprModel) -> Seq<char>
    decreases e,
{
    match e {
        ExprModel::Lit(v) => seq!['\''] + v + seq!['\''],
        ExprModel::Var(n) => n,
        ExprModel::Add(a, b) => print_expr(*a) + seq!['+'] + print_expr(*b),
    }
}

/// `e0,e1,...)`
pub open spec fn print_expr_items(es: Seq<ExprModel>) -> Seq<char>
    decreases es.len(),
{
    if es.len() <= 1 {
        print_expr(es[0]) + seq![')']
    } else {
        print_expr(es[0]) + seq![','] + print_expr_items(es.drop_first())
    }
}

pub open spec fn as_text() -> Seq<char> {
    seq![' ', 'a', 's', ' ']
}

pub open spec fn print_arg(a: ArgModel) -> Seq<char> {
    a.name + as_text() + a.binding
}

/// `a0,a1,...)`
pub open spec fn print_arg_items(args: Seq<ArgModel>) -> Seq<char>
    decreases args.len(),
{
    if args.len() <= 1 {
        print_arg(args[0]) + seq![')']
    } else {
        print_arg(args[0]) + seq![','] + print_arg_items(args.drop_first())
    }
}

pub open spec fn print_args(args: Seq<ArgModel>) -> Seq<char> {
    if args.len() == 0 {
        seq!['(', ')']
    } else {
        seq!['('] + print_arg_items(args)
    }
}

pub open spec fn print_stmt(st: StmtModel) -> Seq<char> {
    st.name + seq!['('] + print_expr_items(st.arguments) + match st.binding {
        Some(b) => as_text() + b,
        None => Seq::empty(),
    }
}

/// `s0,s1,...)`
pub open spec fn print_stmt_items(stmts: Seq<StmtModel>) -> Seq<char>
    decreases stmts.len(),
{
    if stmts.len() <= 1 {
        print_stmt(stmts[0]) + seq![')']
    } else {
        print_stmt(stmts[0]) + seq![','] + print_stmt_items(stmts.drop_first())
    }
}

pub open spec fn print_effects(stmts: Seq<StmtModel>) -> Seq<char> {
    if stmts.len() == 0 {
        seq!['(', ')']
    } else {
        seq!['('] + print_stmt_items(stmts)
    }
}

/// The canonical text of a declaration.
#[verifier::opaque]
pub open spec fn print_decl(d: DeclModel) -> Seq<char> {
    kw_args() + seq!['='] + print_args(d.args) + seq![','] + kw_side_effects() + seq!['=']
        + print_effects(d.effects) + match d.returns {
        Some(e) => seq![','] + kw_returns() + seq!['='] + print_expr(e),
        None => Seq::empty(),
    }
}

pub open spec fn wf_arg(a: ArgModel) -> bool {
    is_ident(a.name) && is_ident(a.binding)
}

pub open spec fn wf_stmt(st: StmtModel) -> bool {
    &&& is_ident(st.name)
    &&& st.arguments.len() > 0
    &&& forall|k: int| 0 <= k < st.arguments.len() ==> wf_expr(#[trigger] st.arguments[k])
    &&& match st.binding {
        Some(b) => is_ident(b),
        None => true,
    }
}

/// A declaration the grammar can express.
pub open spec fn wf_decl(d: DeclModel) -> bool {
    &&& forall|k: int| 0 <= k < d.args.len() ==> wf_arg(#[trigger] d.args[k])
    &&& forall|k: int| 0 <= k < d.effects.len() ==> wf_stmt(#[trigger] d.effects[k])
    &&& match d.returns {
        Some(e) => wf_expr(e),
        None => true,
    }
}

/// `p` stands in `s` at `i`.
pub open spec fn stands_at(s: Seq<char>, i: int, p: Seq<char>) -> bool {
    0 <= i && i + p.len() <= s.len() && s.subrange(i, i + p.len()) == p
}

/// At `j` the text ends or holds `,` or `)`.
pub open spec fn closes_at(s: Seq<char>, j: int) -> bool {
    j == s.len() || (0 <= j < s.len() && (s[j] == ',' || s[j] == ')'))
}

proof fn lemma_stands_split(s: Seq<char>, i: int, p: Seq<char>, q: Seq<char>)
    requires
        stands_at(s, i, p + q),
    ensures
        stands_at(s, i, p),
        stands_at(s, i + p.len(), q),
{
    let whole = s.subrange(i, i + p.len() + q.len());
    assert forall|k: int| 0 <= k < p.len() implies s.subrange(i, i + p.len())[k] == p[k] by {
        assert(whole[k] == (p + q)[k]);
    }
    assert forall|k: int| 0 <= k < q.len() implies s.subrange(
        i + p.len(),
        i + p.len() + q.len(),
    )[k] == q[k] by {
        assert(whole[p.len() + k] == (p + q)[p.len() + k]);
    }
    assert(s.subrange(i, i + p.len()) =~= p);
    assert(s.subrange(i + p.len(), i + p.len() + q.len()) =~= q);
}

proof fn lemma_stands_char(s: Seq<char>, i: int, p: Seq<char>, t: int)
    requires
        stands_at(s, i, p),
        0 <= t < p.len(),
    ensures
        s[i + t] == p[t],
{
    assert(s.subrange(i, i + p.len())[t] == s[i + t]);
}

proof fn lemma_ws_none(s: Seq<char>, i: int)
    requires
        0 <= i <= s.len(),
        i == s.len() || !is_space(s[i]),
    ensures
        skip_ws(s, i) == i,
{
}

proof fn lemma_ident_end_at(s: Seq<char>, i: int, j: int)
    requires
        0 <= i <= j <= s.len(),
        forall|k: int| i <= k < j ==> is_ident_char(s[k]),
        j == s.len() || !is_ident_char(s[j]),
    ensures
        ident_end(s, i) == j,
    decreases j - i,
{
    if i < j {
        lemma_ident_end_at(s, i + 1, j);
    }
}

proof fn lemma_find_char_at(s: Seq<char>, i: int, j: int, q: char)
    requires
        0 <= i <= j < s.len(),
        forall|k: int| i <= k < j ==> s[k] != q,
        s[j] == q,
    ensures
        find_char(s, i, q) == j,
    decreases j - i,
{
    if i < j {
        lemma_find_char_at(s, i + 1, j, q);
    }
}

/// An identifier printed at `i` and followed by a character that cannot
/// continue it reads back.
proof fn lemma_ident_print(s: Seq<char>, i: int, n: Seq<char>)
    requires
        is_ident(n),
        stands_at(s, i, n),
        i + n.len() == s.len() || !is_ident_char(s[i + n.len()]),
    ensures
        sp_ident(s, i) == Ok::<(Seq<char>, int), int>((n, i + n.len())),
{
    lemma_stands_char(s, i, n, 0);
    lemma_ws_none(s, i);
    assert forall|k: int| i + 1 <= k < i + n.len() implies is_ident_char(s[k]) by {
        lemma_stands_char(s, i, n, k - i);
    }
    lemma_ident_end_at(s, i + 1, i + n.len());
}

proof fn lemma_keyword_print(s: Seq<char>, i: int, kw: Seq<char>)
    requires
        stands_at(s, i, kw),
        kw.len() > 0,
        !is_space(kw[0]),
        i + kw.len() == s.len() || !is_ident_char(s[i + kw.len()]),
    ensures
        sp_keyword(s, i, kw) == Ok::<int, int>(i + kw.len()),
{
    lemma_stands_char(s, i, kw, 0);
    lemma_ws_none(s, i);
}

proof fn lemma_symbol_print(s: Seq<char>, i: int, c: char)
    requires
        0 <= i < s.len(),
        s[i] == c,
        !is_space(c),
    ensures
        sp_symbol(s, i, c) == Ok::<int, int>(i + 1),
{
    lemma_ws_none(s, i);
}

/// A single literal or variable printed at `i`, followed by a character
/// that cannot continue it, reads back.
proof fn lemma_atom_print(s: Seq<char>, i: int, a: ExprModel)
    requires
        wf_expr(a),
        !(a is Add),
        stands_at(s, i, print_expr(a)),
        i + print_expr(a).len() == s.len() || !is_ident_char(s[i + print_expr(a).len()]),
    ensures
        sp_atom(s, i) == Ok::<(ExprModel, int), int>((a, i + print_expr(a).len())),
{
    let p = print_expr(a);
    lemma_stands_char(s, i, p, 0);
    lemma_ws_none(s, i);
    match a {
        ExprModel::Lit(v) => {
            let j = i + 1 + v.len();
            assert(p == seq!['\''] + v + seq!['\'']);
            lemma_stands_char(s, i, p, p.len() - 1);
            assert forall|k: int| i + 1 <= k < j implies s[k] != '\'' by {
                lemma_stands_char(s, i, p, k - i);
                assert(p[k - i] == v[k - i - 1]);
            }
            lemma_find_char_at(s, i + 1, j, '\'');
            assert(s.subrange(i + 1, j) =~= v) by {
                assert forall|k: int| 0 <= k < v.len() implies s.subrange(i + 1, j)[k] == v[k] by {
                    lemma_stands_char(s, i, p, k + 1);
                }
            }
        },
        ExprModel::Var(n) => {
            lemma_ident_print(s, i, n);
        },
        ExprModel::Add(_, _) => {},
    }
}

/// An expression printed at `i` and closed by `,`, `)` or the end reads
/// back.
pub proof fn lemma_expr_print(s: Seq<char>, i: int, e: ExprModel)
    requires
        wf_expr(e),
        stands_at(s, i, print_expr(e)),
        closes_at(s, i + print_expr(e).len()),
    ensures
        sp_expr(s, i) == Ok::<(ExprModel, int), int>((e, i + print_expr(e).len())),
    decreases e,
{
    match e {
        ExprModel::Add(a, b) => {
            let pa = print_expr(*a);
            let pb = print_expr(*b);
            lemma_stands_split(s, i, pa + seq!['+'], pb);
            lemma_stands_split(s, i, pa, seq!['+']);
            lemma_stands_char(s, i + pa.len(), seq!['+'], 0);
            lemma_atom_print(s, i, *a);
            lemma_ws_none(s, i + pa.len());
            lemma_expr_print(s, i + pa.len() + 1, *b);
        },
        _ => {
            let j = i + print_expr(e).len();
            lemma_atom_print(s, i, e);
            lemma_ws_none(s, j);
        },
    }
}

proof fn lemma_expr_first_char(e: ExprModel)
    requires
        wf_expr(e),
    ensures
        print_expr(e).len() > 0,
        print_expr(e)[0] == '\'' || is_ident_start(print_expr(e)[0]),
    decreases e,
{
    match e {
        ExprModel::Add(a, b) => {
            lemma_expr_first_char(*a);
            assert(print_expr(e) == print_expr(*a) + seq!['+'] + print_expr(*b));
            assert(print_expr(e)[0] == print_expr(*a)[0]);
        },
        _ => {},
    }
}

proof fn lemma_ws_one(s: Seq<char>, j: int)
    requires
        0 <= j < s.len(),
        is_space(s[j]),
        j + 1 == s.len() || !is_space(s[j + 1]),
    ensures
        skip_ws(s, j) == j + 1,
{
    lemma_ws_none(s, j + 1);
}

/// `" as " b` read at `j`: the keyword and then the identifier `b`, which
/// is followed by a character that cannot continue it.
proof fn lemma_as_binding_print(s: Seq<char>, j: int, b: Seq<char>)
    requires
        is_ident(b),
        stands_at(s, j, as_text() + b),
        j + 4 + b.len() == s.len() || !is_ident_char(s[j + 4 + b.len()]),
    ensures
        sp_keyword(s, j, kw_as()) == Ok::<int, int>(j + 3),
        sp_ident(s, j + 3) == Ok::<(Seq<char>, int), int>((b, j + 4 + b.len())),
{
    lemma_stands_split(s, j, as_text(), b);
    assert(as_text() =~= seq![' '] + kw_as() + seq![' ']);
    lemma_stands_split(s, j, seq![' '] + kw_as(), seq![' ']);
    lemma_stands_split(s, j, seq![' '], kw_as());
    lemma_stands_char(s, j, as_text(), 0);
    lemma_stands_char(s, j, as_text(), 1);
    lemma_stands_char(s, j, as_text(), 3);
    lemma_stands_char(s, j + 4, b, 0);
    lemma_ws_one(s, j);
    lemma_keyword_print(s, j + 1, kw_as());
    lemma_ws_one(s, j + 3);
    lemma_ident_print(s, j + 4, b);
    lemma_ws_none(s, j + 4);
}

pub proof fn lemma_expr_items_print(s: Seq<char>, i: int, es: Seq<ExprModel>)
    requires
        es.len() > 0,
        forall|k: int| 0 <= k < es.len() ==> wf_expr(#[trigger] es[k]),
        stands_at(s, i, print_expr_items(es)),
    ensures
        sp_expr_items(s, i) == Ok::<(Seq<ExprModel>, int), int>(
            (es, i + print_expr_items(es).len()),
        ),
    decreases es.len(),
{
    let pe = print_expr(es[0]);
    let j = i + pe.len();
    if es.len() == 1 {
        lemma_stands_split(s, i, pe, seq![')']);
        lemma_stands_char(s, j, seq![')'], 0);
        lemma_expr_print(s, i, es[0]);
        lemma_ws_none(s, j);
        assert(seq![es[0]] =~= es);
    } else {
        let rest = es.drop_first();
        lemma_stands_split(s, i, pe + seq![','], print_expr_items(rest));
        lemma_stands_split(s, i, pe, seq![',']);
        lemma_stands_char(s, j, seq![','], 0);
        lemma_expr_print(s, i, es[0]);
        lemma_ws_none(s, j);
        assert forall|k: int| 0 <= k < rest.len() implies wf_expr(#[trigger] rest[k]) by {
            assert(rest[k] == es[k + 1]);
        }
        lemma_expr_items_print(s, j + 1, rest);
        assert(seq![es[0]] + rest =~= es);
    }
}

pub proof fn lemma_arg_print(s: Seq<char>, i: int, a: ArgModel)
    requires
        wf_arg(a),
        stands_at(s, i, print_arg(a)),
        closes_at(s, i + print_arg(a).len()),
    ensures
        sp_arg(s, i) == Ok::<(ArgModel, int), int>((a, i + print_arg(a).len())),
{
    let j = i + a.name.len();
    lemma_stands_split(s, i, a.name + as_text(), a.binding);
    lemma_stands_split(s, i, a.name, as_text());
    assert(a.name + as_text() + a.binding =~= a.name + (as_text() + a.binding));
    lemma_stands_split(s, i, a.name, as_text() + a.binding);
    lemma_stands_char(s, j, as_text(), 0);
    lemma_ident_print(s, i, a.name);
    lemma_as_binding_print(s, j, a.binding);
}

pub proof fn lemma_arg_items_print(s: Seq<char>, i: int, args: Seq<ArgModel>)
    requires
        args.len() > 0,
        forall|k: int| 0 <= k < args.len() ==> wf_arg(#[trigger] args[k]),
        stands_at(s, i, print_arg_items(args)),
    ensures
        sp_arg_items(s, i) == Ok::<(Seq<ArgModel>, int), int>(
            (args, i + print_arg_items(args).len()),
        ),
    decreases args.len(),
{
    let pa = print_arg(args[0]);
    let j = i + pa.len();
    if args.len() == 1 {
        lemma_stands_split(s, i, pa, seq![')']);
        lemma_stands_char(s, j, seq![')'], 0);
        lemma_arg_print(s, i, args[0]);
        lemma_ws_none(s, j);
        assert(seq![args[0]] =~= args);
    } else {
        let rest = args.drop_first();
        lemma_stands_split(s, i, pa + seq![','], print_arg_items(rest));
        lemma_stands_split(s, i, pa, seq![',']);
        lemma_stands_char(s, j, seq![','], 0);
        lemma_arg_print(s, i, args[0]);
        lemma_ws_none(s, j);
        assert forall|k: int| 0 <= k < rest.len() implies wf_arg(#[trigger] rest[k]) by {
            assert(rest[k] == args[k + 1]);
        }
        lemma_arg_items_print(s, j + 1, rest);
        assert(seq![args[0]] + rest =~= args);
    }
}

pub proof fn lemma_args_print(s: Seq<char>, i: int, args: Seq<ArgModel>)
    requires
        forall|k: int| 0 <= k < args.len() ==> wf_arg(#[trigger] args[k]),
        stands_at(s, i, print_args(args)),
    ensures
        sp_args(s, i) == Ok::<(Seq<ArgModel>, int), int>((args, i + print_args(args).len())),
{
    lemma_stands_char(s, i, print_args(args), 0);
    lemma_symbol_print(s, i, '(');
    if args.len() == 0 {
        lemma_stands_char(s, i, print_args(args), 1);
        lemma_symbol_print(s, i + 1, ')');
        assert(args =~= Seq::<ArgModel>::empty());
    } else {
        lemma_stands_split(s, i, seq!['('], print_arg_items(args));
        let a = args[0];
        assert(print_arg_items(args) == print_arg(a) + seq![')'] || print_arg_items(args)
            == print_arg(a) + seq![','] + print_arg_items(args.drop_first()));
        assert(print_arg_items(args)[0] == a.name[0]);
        lemma_stands_char(s, i + 1, print_arg_items(args), 0);
        lemma_ws_none(s, i + 1);
        lemma_arg_items_print(s, i + 1, args);
    }
}

pub proof fn lemma_stmt_print(s: Seq<char>, i: int, st: StmtModel)
    requires
        wf_stmt(st),
        stands_at(s, i, print_stmt(st)),
        closes_at(s, i + print_stmt(st).len()),
    ensures
        sp_stmt(s, i) == Ok::<(StmtModel, int), int>((st, i + print_stmt(st).len())),
{
    let head = st.name + seq!['('];
    let items = print_expr_items(st.arguments);
    let tail = match st.binding {
        Some(b) => as_text() + b,
        None => Seq::empty(),
    };
    let j = i + st.name.len();
    let m = j + 1 + items.len();
    lemma_stands_split(s, i, head + items, tail);
    lemma_stands_split(s, i, head, items);
    lemma_stands_split(s, i, st.name, seq!['(']);
    lemma_stands_char(s, j, seq!['('], 0);
    lemma_ident_print(s, i, st.name);
    lemma_symbol_print(s, j, '(');
    lemma_expr_items_print(s, j + 1, st.arguments);
    match st.binding {
        Some(b) => {
            lemma_as_binding_print(s, m, b);
        },
        None => {
            assert(tail.len() == 0);
            lemma_ws_none(s, m);
            assert(!keyword_at(s, m, kw_as()));
        },
    }
}

pub proof fn lemma_stmt_items_print(s: Seq<char>, i: int, stmts: Seq<StmtModel>)
    requires
        stmts.len() > 0,
        forall|k: int| 0 <= k < stmts.len() ==> wf_stmt(#[trigger] stmts[k]),
        stands_at(s, i, print_stmt_items(stmts)),
    ensures
        sp_stmt_items(s, i) == Ok::<(Seq<StmtModel>, int), int>(
            (stmts, i + print_stmt_items(stmts).len()),
        ),
    decreases stmts.len(),
{
    let ps = print_stmt(stmts[0]);
    let j = i + ps.len();
    if stmts.len() == 1 {
        lemma_stands_split(s, i, ps, seq![')']);
        lemma_stands_char(s, j, seq![')'], 0);
        lemma_stmt_print(s, i, stmts[0]);
        lemma_ws_none(s, j);
        assert(seq![stmts[0]] =~= stmts);
    } else {
        let rest = stmts.drop_first();
        lemma_stands_split(s, i, ps + seq![','], print_stmt_items(rest));
        lemma_stands_split(s, i, ps, seq![',']);
        lemma_stands_char(s, j, seq![','], 0);
        lemma_stmt_print(s, i, stmts[0]);
        lemma_ws_none(s, j);
        assert forall|k: int| 0 <= k < rest.len() implies wf_stmt(#[trigger] rest[k]) by {
            assert(rest[k] == stmts[k + 1]);
        }
        lemma_stmt_items_print(s, j + 1, rest);
        assert(seq![stmts[0]] + rest =~= stmts);
    }
}

pub proof fn lemma_effects_print(s: Seq<char>, i: int, stmts: Seq<StmtModel>)
    requires
        forall|k: int| 0 <= k < stmts.len() ==> wf_stmt(#[trigger] stmts[k]),
        stands_at(s, i, print_effects(stmts)),
    ensures
        sp_effects(s, i) == Ok::<(Seq<StmtModel>, int), int>(
            (stmts, i + print_effects(stmts).len()),
        ),
{
    lemma_stands_char(s, i, print_effects(stmts), 0);
    lemma_symbol_print(s, i, '(');
    if stmts.len() == 0 {
        lemma_stands_char(s, i, print_effects(stmts), 1);
        lemma_symbol_print(s, i + 1, ')');
        assert(stmts =~= Seq::<StmtModel>::empty());
    } else {
        lemma_stands_split(s, i, seq!['('], print_stmt_items(stmts));
        let st = stmts[0];
        assert(print_stmt_items(stmts) == print_stmt(st) + seq![')'] || print_stmt_items(stmts)
            == print_stmt(st) + seq![','] + print_stmt_items(stmts.drop_first()));
        assert(print_stmt_items(stmts)[0] == st.name[0]);
        lemma_stands_char(s, i + 1, print_stmt_items(stmts), 0);
        lemma_ws_none(s, i + 1);
        lemma_stmt_items_print(s, i + 1, stmts);
    }
}

/// Where the parts of a declaration's canonical text end: after the
/// arguments and their comma, and after the effects.
pub open spec fn args_part_end(d: DeclModel) -> int {
    (5 + print_args(d.args).len() + 1) as int
}

pub open spec fn effects_part_end(d: DeclModel) -> int {
    args_part_end(d) + 13 + print_effects(d.effects).len() as int
}

/// The text after the effects: the return clause, if any.
pub open spec fn returns_part(d: DeclModel) -> Seq<char> {
    match d.returns {
        Some(e) => seq![','] + kw_returns() + seq!['='] + print_expr(e),
        None => Seq::empty(),
    }
}

proof fn lemma_decl_layout(d: DeclModel)
    ensures
        ({
            let s = print_decl(d);
            &&& stands_at(s, 0, kw_args())
            &&& stands_at(s, 4, seq!['='])
            &&& stands_at(s, 5, print_args(d.args))
            &&& stands_at(s, args_part_end(d) - 1, seq![','])
            &&& stands_at(s, args_part_end(d), kw_side_effects())
            &&& stands_at(s, args_part_end(d) + 12, seq!['='])
            &&& stands_at(s, args_part_end(d) + 13, print_effects(d.effects))
            &&& stands_at(s, effects_part_end(d), returns_part(d))
            &&& s.len() == effects_part_end(d) + returns_part(d).len()
        }),
{
    reveal(print_decl);
    let s = print_decl(d);
    let pa = print_args(d.args);
    let pe = print_effects(d.effects);
    let ret = returns_part(d);
    let before_args = kw_args() + seq!['='];
    let after_args = before_args + pa + seq![','];
    let before_effects = after_args + kw_side_effects() + seq!['='];
    let after_effects = before_effects + pe;
    assert(s == after_effects + ret);
    assert(stands_at(s, 0, s)) by {
        assert(s.subrange(0, s.len() as int) =~= s);
    }
    lemma_stands_split(s, 0, after_effects, ret);
    lemma_stands_split(s, 0, before_effects, pe);
    lemma_stands_split(s, 0, after_args + kw_side_effects(), seq!['=']);
    lemma_stands_split(s, 0, after_args, kw_side_effects());
    lemma_stands_split(s, 0, before_args + pa, seq![',']);
    lemma_stands_split(s, 0, before_args, pa);
    lemma_stands_split(s, 0, kw_args(), seq!['=']);
}

#[verifier::rlimit(100)]
proof fn lemma_decl_front(d: DeclModel)
    requires
        wf_decl(d),
    ensures
        ({
            let s = print_decl(d);
            &&& sp_symbol(s, 0, '(') is Err
            &&& sp_args_section(s, 0) == Ok::<(Seq<ArgModel>, int), int>((d.args, args_part_end(d)))
            &&& sp_keyword(s, args_part_end(d), kw_side_effects()) == Ok::<int, int>(args_part_end(d) + 12)
            &&& sp_symbol(s, args_part_end(d) + 12, '=') == Ok::<int, int>(args_part_end(d) + 13)
            &&& sp_effects(s, args_part_end(d) + 13) == Ok::<(Seq<StmtModel>, int), int>(
                (d.effects, effects_part_end(d)),
            )
        }),
{
    let s = print_decl(d);
    let se = args_part_end(d);
    lemma_decl_layout(d);
    lemma_stands_char(s, 0, kw_args(), 0);
    lemma_stands_char(s, 4, seq!['='], 0);
    lemma_stands_char(s, se - 1, seq![','], 0);
    lemma_stands_char(s, se + 12, seq!['='], 0);
    lemma_ws_none(s, 0);
    lemma_keyword_print(s, 0, kw_args());
    lemma_symbol_print(s, 4, '=');
    lemma_args_print(s, 5, d.args);
    lemma_symbol_print(s, se - 1, ',');
    lemma_keyword_print(s, se, kw_side_effects());
    lemma_symbol_print(s, se + 12, '=');
    lemma_effects_print(s, se + 13, d.effects);
}

#[verifier::rlimit(100)]
proof fn lemma_decl_returns(d: DeclModel)
    requires
        wf_decl(d),
    ensures
        sp_returns_section(print_decl(d), effects_part_end(d)) == Ok::<(Option<ExprModel>, int), int>(
            (d.returns, print_decl(d).len() as int),
        ),
{
    let s = print_decl(d);
    let e_end = effects_part_end(d);
    lemma_decl_layout(d);
    match d.returns {
        Some(e) => {
            let r1 = seq![','] + kw_returns() + seq!['='];
            let x = print_expr(e);
            lemma_stands_split(s, e_end, r1, x);
            lemma_stands_split(s, e_end, seq![','] + kw_returns(), seq!['=']);
            lemma_stands_split(s, e_end, seq![','], kw_returns());
            lemma_stands_char(s, e_end, seq![','], 0);
            lemma_stands_char(s, e_end + 8, seq!['='], 0);
            lemma_symbol_print(s, e_end, ',');
            lemma_keyword_print(s, e_end + 1, kw_returns());
            lemma_symbol_print(s, e_end + 8, '=');
            lemma_expr_first_char(e);
            lemma_stands_char(s, e_end + 9, x, 0);
            lemma_ws_none(s, e_end + 9);
            lemma_expr_print(s, e_end + 9, e);
        },
        None => {
            lemma_ws_none(s, e_end);
        },
    }
}

/// Every declaration that the grammar can express is accepted: its
/// canonical text parses back to exactly that declaration.
#[verifier::rlimit(100)]
pub proof fn lemma_declaration_round_trip(d: DeclModel)
    requires
        wf_decl(d),
    ensures
        sp_declaration(print_decl(d)) == Ok::<DeclModel, int>(d),
{
    let s = print_decl(d);
    lemma_decl_front(d);
    lemma_decl_returns(d);
    lemma_ws_none(s, s.len() as int);
}

} // verus!
