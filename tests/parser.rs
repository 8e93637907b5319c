use autobox::ast::{Arg, Args, DeclareMacro, Expr, SideEffectStmt, SideEffects};
use autobox::parser::identifier;

#[test]
fn test_arg_parse() {
    let (rest, arg) = Arg::parse("foo as bar").unwrap();
    assert_eq!(arg.arg_name, "foo");
    assert_eq!(arg.arg_binding, "bar");
    assert_eq!(rest, "");
}

#[test]
fn test_args_parse() {
    let (rest, args) = Args::parse("(foo as bar, baz as qux)").unwrap();
    assert_eq!(args.args.len(), 2);
    assert_eq!(args.args[0].arg_name, "foo");
    assert_eq!(args.args[0].arg_binding, "bar");
    assert_eq!(args.args[1].arg_name, "baz");
    assert_eq!(args.args[1].arg_binding, "qux");
    assert_eq!(rest, "");
}

#[test]
fn test_side_effect_stmt() {
    let (rest, side_effect_stmt) = SideEffectStmt::parse("read_file(bar, baz) as qux").unwrap();
    assert_eq!(side_effect_stmt.side_effect_name, "read_file");
    assert_eq!(side_effect_stmt.side_effect_arguments.len(), 2);
    assert_eq!(side_effect_stmt.side_effect_arguments[0].unwrap_var().name, "bar");
    assert_eq!(side_effect_stmt.side_effect_arguments[1].unwrap_var().name, "baz");
    assert_eq!(side_effect_stmt.binding.as_deref(), Some("qux"));
    assert_eq!(rest, "");
}

#[test]
fn test_side_effects_parse() {
    let (rest, side_effects) = SideEffects::parse(
        "\
        (\
        eval(T + '/') as U,\
        eval(T),\
        read_file(bar, baz) as qux\
        )\
    ",
    )
    .unwrap();
    assert_eq!(rest, "");
    assert_eq!(side_effects.side_effect_stmts.len(), 3);
    let side_effect_stmt = &side_effects.side_effect_stmts[0];
    assert_eq!(side_effect_stmt.side_effect_name, "eval");
    assert_eq!(side_effect_stmt.side_effect_arguments.len(), 1);
    assert_eq!(
        side_effect_stmt.side_effect_arguments[0].unwrap_add().lhs.unwrap_var().name,
        "T"
    );
    assert_eq!(
        side_effect_stmt.side_effect_arguments[0].unwrap_add().rhs.unwrap_lit_str().value,
        "/"
    );
    assert_eq!(side_effect_stmt.binding.as_deref(), Some("U"));

    let side_effect_stmt = &side_effects.side_effect_stmts[1];
    assert_eq!(side_effect_stmt.side_effect_name, "eval");
    assert_eq!(side_effect_stmt.side_effect_arguments.len(), 1);
    assert_eq!(side_effect_stmt.side_effect_arguments[0].unwrap_var().name, "T");
    assert_eq!(side_effect_stmt.binding, None);

    let side_effect_stmt = &side_effects.side_effect_stmts[2];
    assert_eq!(side_effect_stmt.side_effect_name, "read_file");
    assert_eq!(side_effect_stmt.side_effect_arguments.len(), 2);
    assert_eq!(side_effect_stmt.side_effect_arguments[0].unwrap_var().name, "bar");
    assert_eq!(side_effect_stmt.side_effect_arguments[1].unwrap_var().name, "baz");
    assert_eq!(side_effect_stmt.binding.as_deref(), Some("qux"));
}

#[test]
#[should_panic]
fn test_expr_nested_parens() {
    let (rest, expr) = Expr::parse("((T + '/') + U)").unwrap();
    assert_eq!(rest, "");
    assert_eq!(expr.unwrap_add().lhs.unwrap_add().lhs.unwrap_var().name, "T");
    assert_eq!(expr.unwrap_add().lhs.unwrap_add().rhs.unwrap_lit_str().value, "/");
    assert_eq!(expr.unwrap_add().rhs.unwrap_lit_str().value, "U");
}

#[test]
#[should_panic]
fn test_expr_chain() {
    let (rest, expr) = Expr::parse("(T + '/' + U").unwrap();
    assert_eq!(rest, "");
    assert_eq!(expr.unwrap_add().lhs.unwrap_add().lhs.unwrap_var().name, "T");
    assert_eq!(expr.unwrap_add().lhs.unwrap_add().rhs.unwrap_lit_str().value, "/");
    assert_eq!(expr.unwrap_add().rhs.unwrap_lit_str().value, "U");
}

#[test]
fn test_declare_macro_parse() {
    let declare_macro = r"
            args=(foo as F, baz as F),
            side_effects=(
                eval(F + '/') as FS,
                eval(FS + B) as result,
                read_file(result)
            )
        ";
    let (rest, declare_macro) = DeclareMacro::parse(declare_macro).unwrap();
    assert_eq!(rest, "");
    assert_eq!(declare_macro.args.args.len(), 2);
    assert_eq!(declare_macro.args.args[0].arg_name, "foo");
    assert_eq!(declare_macro.args.args[0].arg_binding, "F");
    assert_eq!(declare_macro.args.args[1].arg_name, "baz");
    assert_eq!(declare_macro.args.args[1].arg_binding, "F");
    let stmts = &declare_macro.side_effects.side_effect_stmts;
    assert_eq!(stmts.len(), 3);
    assert_eq!(stmts[0].side_effect_name, "eval");
    assert_eq!(stmts[0].side_effect_arguments.len(), 1);
    assert_eq!(stmts[0].side_effect_arguments[0].unwrap_add().lhs.unwrap_var().name, "F");
    assert_eq!(stmts[0].side_effect_arguments[0].unwrap_add().rhs.unwrap_lit_str().value, "/");
    assert_eq!(stmts[0].binding.as_deref(), Some("FS"));
    assert_eq!(stmts[1].side_effect_name, "eval");
    assert_eq!(stmts[1].side_effect_arguments.len(), 1);
    assert_eq!(stmts[1].side_effect_arguments[0].unwrap_add().lhs.unwrap_var().name, "FS");
    assert_eq!(stmts[1].side_effect_arguments[0].unwrap_add().rhs.unwrap_var().name, "B");
    assert_eq!(stmts[1].binding.as_deref(), Some("result"));
    assert_eq!(stmts[2].side_effect_name, "read_file");
    assert_eq!(stmts[2].side_effect_arguments.len(), 1);
    assert_eq!(stmts[2].side_effect_arguments[0].unwrap_var().name, "result");
    assert_eq!(stmts[2].binding, None);
}

#[test]
fn test_expr_lit_str_parse() {
    let (_rest, expr) = Expr::parse(r#""foo""#).unwrap();
    let lit_str = expr.unwrap_lit_str();
    assert_eq!(lit_str.value, "foo");
}

#[test]
fn test_expr_var_parse() {
    let (_rest, expr) = Expr::parse("foo").unwrap();
    let var = expr.unwrap_var();
    assert_eq!(var.name, "foo");
}

#[test]
fn test_expr_add_vars_parse() {
    let (_rest, expr) = Expr::parse("foo + bar").unwrap();
    let add_op = expr.unwrap_add();
    assert_eq!(add_op.lhs.unwrap_var().name, "foo");
    assert_eq!(add_op.rhs.unwrap_var().name, "bar");
}

#[test]
fn test_expr_add_lit_var_parse() {
    let (_rest, expr) = Expr::parse("'foo' + bar").unwrap();
    println!("{:?}", expr);
    let add_op = expr.unwrap_add();
    assert_eq!(add_op.lhs.unwrap_lit_str().value, "foo");
    assert_eq!(add_op.rhs.unwrap_var().name, "bar");
}

#[test]
fn test_expr_add_nested_parse() {
    let (_rest, expr) = Expr::parse("'foo' + bar + baz").unwrap();
    println!("{:?}", expr);
    let add_op = expr.unwrap_add();
    assert_eq!(add_op.lhs.unwrap_lit_str().value, "foo");
    let rhs = add_op.rhs.unwrap_add();
    assert_eq!(rhs.lhs.unwrap_var().name, "bar");
    assert_eq!(rhs.rhs.unwrap_var().name, "baz");
}

#[test]
fn identifier_stops_at_non_identifier_character() {
    let (rest, name) = identifier("  read_file2(x)").unwrap();
    assert_eq!(name, "read_file2");
    assert_eq!(rest, "(x)");
}

#[test]
fn identifier_rejects_leading_digit() {
    let err = identifier("9abc").unwrap_err();
    assert_eq!(err.offset, 0);
}

#[test]
fn expression_rest_follows_whole_concatenation() {
    let (rest, expr) = Expr::parse("a + \"b\" + c, d").unwrap();
    assert_eq!(rest, ", d");
    assert_eq!(expr.unwrap_add().lhs.unwrap_var().name, "a");
    let inner = expr.unwrap_add().rhs.unwrap_add();
    assert_eq!(inner.lhs.unwrap_lit_str().value, "b");
    assert_eq!(inner.rhs.unwrap_var().name, "c");
}

#[test]
fn empty_literal_is_an_error() {
    let err = Expr::parse("''").unwrap_err();
    assert_eq!(err.offset, 0);
}

#[test]
fn unterminated_literal_is_an_error() {
    let err = Expr::parse("  'abc").unwrap_err();
    assert_eq!(err.offset, 2);
}

#[test]
fn arg_without_as_is_an_error() {
    let err = Arg::parse("foo bar").unwrap_err();
    assert_eq!(err.offset, 4);
}

#[test]
fn as_must_be_a_whole_word() {
    assert!(Arg::parse("foo asbar").is_err());
}

#[test]
fn empty_lists_parse() {
    let (rest, args) = Args::parse("( )").unwrap();
    assert_eq!(args.args.len(), 0);
    assert_eq!(rest, "");
    let (rest, effects) = SideEffects::parse("()").unwrap();
    assert_eq!(effects.side_effect_stmts.len(), 0);
    assert_eq!(rest, "");
}

#[test]
fn unterminated_effect_list_is_an_error() {
    let err = SideEffects::parse("(read_file(a)").unwrap_err();
    assert_eq!(err.offset, 13);
}

#[test]
fn effect_needs_an_argument() {
    assert!(SideEffectStmt::parse("eval()").is_err());
}

#[test]
fn literal_may_hold_separators() {
    let (rest, stmt) = SideEffectStmt::parse("exec('a, b)' + x, y)").unwrap();
    assert_eq!(rest, "");
    assert_eq!(stmt.side_effect_arguments.len(), 2);
    assert_eq!(stmt.side_effect_arguments[0].unwrap_add().lhs.unwrap_lit_str().value, "a, b)");
    assert_eq!(stmt.side_effect_arguments[1].unwrap_var().name, "y");
}

#[test]
fn declaration_in_attribute_token_form() {
    let text = "(args = (a as A , b as B) , side_effects = (reads_file (A + '/' + B)) , returns = (A + '/' + B) ,)";
    let decl = DeclareMacro::from_attribute(text).unwrap();
    assert_eq!(decl.args.args.len(), 2);
    assert_eq!(decl.side_effects.side_effect_stmts.len(), 1);
    assert_eq!(decl.side_effects.side_effect_stmts[0].side_effect_name, "reads_file");
    let ret = decl.returns.as_ref().unwrap();
    assert_eq!(ret.unwrap_add().lhs.unwrap_var().name, "A");
}

#[test]
fn declaration_returns_without_parentheses() {
    let decl = DeclareMacro::from_attribute("side_effects=(), returns=x").unwrap();
    assert_eq!(decl.args.args.len(), 0);
    assert_eq!(decl.returns.as_ref().unwrap().unwrap_var().name, "x");
}

#[test]
fn declaration_with_trailing_text_is_an_error() {
    let err = DeclareMacro::from_attribute("side_effects=(eval(x)) junk").unwrap_err();
    assert_eq!(err.offset, 23);
}

#[test]
fn declaration_with_unclosed_outer_group_is_an_error() {
    let err = DeclareMacro::from_attribute("(side_effects=(eval(x))").unwrap_err();
    assert_eq!(err.offset, 23);
}

#[test]
fn declaration_without_side_effects_is_an_error() {
    let err = DeclareMacro::from_attribute("args=(a as A), returns=A").unwrap_err();
    assert_eq!(err.offset, 15);
}

#[test]
fn parsing_twice_gives_the_same_declaration() {
    let text = "args=(a as A), side_effects=(read_file(A + 'x') as r), returns=r";
    let first = DeclareMacro::from_attribute(text).unwrap();
    let second = DeclareMacro::from_attribute(text).unwrap();
    assert_eq!(format!("{:?}", first), format!("{:?}", second));
}
