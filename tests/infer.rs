use autobox::index::{
    analyze, check_if_declare, check_if_entrypoint, find_entrypoint, get_all_declared_fns,
};
use autobox::infer::{
    evaluate_declared_fn, find_variable_metadata, infer_fn, Diagnostic, InferError, SideEffect,
    VariableMetadata,
};
use autobox::ast::DeclareMacro;
use autobox::state::{globhole, VariableState};
use autobox::syntax::{Attribute, BodyExpr, ItemFn, Pat, Stmt};

const JOIN: &str = "(args = (a as A , b as B) , side_effects = (read_file (A + '/' + B)) , returns = (A + '/' + B) ,)";

fn text(x: &str) -> String {
    x.to_string()
}

fn lit(x: &str) -> BodyExpr {
    BodyExpr::LitStr(text(x))
}

fn var(x: &str) -> BodyExpr {
    BodyExpr::Path(text(x))
}

fn call(name: &str, args: Vec<BodyExpr>) -> BodyExpr {
    BodyExpr::Call(Some(text(name)), args)
}

fn borrow(e: BodyExpr) -> BodyExpr {
    BodyExpr::Ref(Box::new(e))
}

fn bind(name: &str, e: BodyExpr) -> Stmt {
    Stmt::Local(Pat::Ident(text(name)), Some(e))
}

fn attr(name: &str, tokens: &str) -> Attribute {
    Attribute { name: text(name), tokens: text(tokens) }
}

fn func(name: &str, params: &[&str], attrs: Vec<Attribute>, stmts: Vec<Stmt>) -> ItemFn {
    ItemFn {
        name: text(name),
        params: params.iter().map(|p| Pat::Ident(text(p))).collect(),
        attrs,
        stmts,
    }
}

fn declared_fn() -> ItemFn {
    func(
        "declared_fn",
        &["a", "b"],
        vec![attr("declare", JOIN)],
        vec![Stmt::Expr(BodyExpr::Other)],
    )
}

fn entry(stmts: Vec<Stmt>) -> ItemFn {
    func("main", &[], vec![attr("entrypoint", "")], stmts)
}

fn run(fns: &Vec<ItemFn>) -> (Result<VariableState, InferError>, Vec<SideEffect>, Vec<Diagnostic>) {
    let index = get_all_declared_fns(fns);
    let mut effects = Vec::new();
    let mut notes = Vec::new();
    let r = analyze(fns, &index, &mut effects, &mut notes);
    (r, effects, notes)
}

fn rendered(effect: &SideEffect) -> Vec<String> {
    effect.arguments.iter().map(globhole).collect()
}

fn state(x: &str) -> VariableState {
    VariableState::value(text(x))
}

#[test]
fn declared_function_resolves_its_effect_and_return() {
    let decl = DeclareMacro::from_attribute(JOIN).unwrap();
    let mut effects = Vec::new();
    let r = evaluate_declared_fn(
        &mut effects,
        &text("declared_fn"),
        &decl,
        &vec![state("~"), state("cfg.json")],
    )
    .unwrap();
    assert_eq!(effects.len(), 1);
    assert_eq!(effects[0].name, "read_file");
    assert_eq!(rendered(&effects[0]), vec!["~/cfg.json"]);
    assert_eq!(globhole(&r), "~/cfg.json");
}

#[test]
fn inferred_function_collects_effects_in_call_order() {
    let unknown = func(
        "unknown",
        &["a", "b"],
        vec![],
        vec![
            bind("c", call("declared_fn", vec![var("a"), var("b")])),
            Stmt::Expr(call("declared_fn", vec![borrow(var("c")), lit("x.json")])),
        ],
    );
    let fns = vec![declared_fn(), unknown];
    let index = get_all_declared_fns(&fns);
    let mut effects = Vec::new();
    let mut notes = Vec::new();
    let mut active = vec![false, false];
    let r = infer_fn(
        &mut effects,
        &mut notes,
        1,
        &vec![state("~"), state("dir")],
        &index,
        &fns,
        &mut active,
    )
    .unwrap();
    assert_eq!(effects.len(), 2);
    assert_eq!(effects[0].name, "read_file");
    assert_eq!(rendered(&effects[0]), vec!["~/dir"]);
    assert_eq!(rendered(&effects[1]), vec!["~/dir/x.json"]);
    assert_eq!(globhole(&r), "~/dir/x.json");
    assert_eq!(active, vec![false, false]);
    assert!(notes.is_empty());
}

#[test]
fn unknown_argument_stays_a_hole_in_place() {
    let decl = DeclareMacro::from_attribute(JOIN).unwrap();
    let mut effects = Vec::new();
    let r = evaluate_declared_fn(
        &mut effects,
        &text("declared_fn"),
        &decl,
        &vec![VariableState::hole(), state("cfg.json")],
    )
    .unwrap();
    assert_eq!(globhole(&r), "*/cfg.json");
    assert_eq!(rendered(&effects[0]), vec!["*/cfg.json"]);
    let r = evaluate_declared_fn(
        &mut effects,
        &text("declared_fn"),
        &decl,
        &vec![state("~"), VariableState::hole()],
    )
    .unwrap();
    assert_eq!(globhole(&r), "~/*");
    assert_eq!(effects.len(), 2);
}

#[test]
fn entrypoint_parameters_are_unknown() {
    let main = func(
        "main",
        &["path"],
        vec![attr("entrypoint", "")],
        vec![Stmt::Semi(call("declared_fn", vec![var("path"), lit("f")]))],
    );
    let fns = vec![declared_fn(), main];
    let (r, effects, _) = run(&fns);
    assert_eq!(globhole(&r.unwrap()), "*");
    assert_eq!(rendered(&effects[0]), vec!["*/f"]);
}

#[test]
fn later_binding_shadows_earlier_one() {
    let scope = vec![
        VariableMetadata { variable_name: text("x"), variable_instance_id: 1, variable_state: state("a") },
        VariableMetadata { variable_name: text("x"), variable_instance_id: 2, variable_state: state("b") },
    ];
    let after = find_variable_metadata(&text("x"), 2, &scope).unwrap();
    assert_eq!(globhole(&after.variable_state), "b");
    let between = find_variable_metadata(&text("x"), 1, &scope).unwrap();
    assert_eq!(globhole(&between.variable_state), "a");
    assert!(find_variable_metadata(&text("x"), 0, &scope).is_none());
    assert!(find_variable_metadata(&text("y"), 5, &scope).is_none());
}

#[test]
fn shadowing_in_a_body() {
    let main = entry(vec![
        bind("x", lit("a")),
        bind("x", lit("b")),
        Stmt::Semi(call("declared_fn", vec![var("x"), lit("z")])),
    ]);
    let fns = vec![declared_fn(), main];
    let (r, effects, _) = run(&fns);
    assert!(r.is_ok());
    assert_eq!(rendered(&effects[0]), vec!["b/z"]);
}

#[test]
fn discarded_call_still_runs() {
    let main = entry(vec![Stmt::Semi(call("declared_fn", vec![lit("a"), lit("b")]))]);
    let fns = vec![declared_fn(), main];
    let (r, effects, _) = run(&fns);
    assert_eq!(globhole(&r.unwrap()), "*");
    assert_eq!(effects.len(), 1);
    assert_eq!(rendered(&effects[0]), vec!["a/b"]);
}

#[test]
fn whole_example_program() {
    let unknown = func(
        "unknown",
        &["a", "b"],
        vec![],
        vec![
            bind("c", call("fn_with_effects", vec![var("a"), var("b")])),
            Stmt::Expr(call("fn_with_effects", vec![borrow(var("c")), lit("config_file.json")])),
        ],
    );
    let with_effects = func(
        "fn_with_effects",
        &["a", "b"],
        vec![attr("declare", "(args = (a as A , b as B) , side_effects = (reads_file (A + '/' + B)) , returns = (A + '/' + B) ,)")],
        vec![Stmt::Semi(BodyExpr::Other), Stmt::Expr(BodyExpr::Other)],
    );
    let main = entry(vec![bind("_uk", call("unknown", vec![lit("~"), lit("config_dir")]))]);
    let fns = vec![with_effects, unknown, main];
    let (r, effects, notes) = run(&fns);
    assert_eq!(globhole(&r.unwrap()), "*");
    assert_eq!(effects.len(), 2);
    assert_eq!(effects[0].name, "reads_file");
    assert_eq!(rendered(&effects[0]), vec!["~/config_dir"]);
    assert_eq!(rendered(&effects[1]), vec!["~/config_dir/config_file.json"]);
    assert!(notes.is_empty());
}

#[test]
fn unresolved_callee_is_unknown_with_a_diagnostic() {
    let main = entry(vec![
        bind("p", call("home_dir", vec![])),
        Stmt::Semi(call("declared_fn", vec![var("p"), lit(".rc")])),
    ]);
    let fns = vec![declared_fn(), main];
    let (r, effects, notes) = run(&fns);
    assert!(r.is_ok());
    assert_eq!(rendered(&effects[0]), vec!["*/.rc"]);
    assert_eq!(notes.len(), 1);
    match &notes[0] {
        Diagnostic::UnresolvedCallee { function, statement, callee } => {
            assert_eq!(function, "main");
            assert_eq!(*statement, 1);
            assert_eq!(callee, "home_dir");
        },
        other => panic!("unexpected diagnostic {:?}", other),
    }
}

#[test]
fn unsupported_expression_is_unknown_with_a_diagnostic() {
    let main = entry(vec![
        bind("p", BodyExpr::Other),
        bind("q", BodyExpr::Call(None, vec![])),
        Stmt::Expr(var("p")),
    ]);
    let fns = vec![main];
    let (r, effects, notes) = run(&fns);
    assert_eq!(globhole(&r.unwrap()), "*");
    assert!(effects.is_empty());
    assert_eq!(notes.len(), 2);
    assert!(matches!(notes[0], Diagnostic::UnsupportedExpression { statement: 1, .. }));
    assert!(matches!(notes[1], Diagnostic::UnsupportedExpression { statement: 2, .. }));
}

#[test]
fn trailing_expression_is_the_value() {
    let f = func("f", &["a"], vec![], vec![bind("b", var("a")), Stmt::Expr(borrow(var("b")))]);
    let g = func("g", &["a"], vec![], vec![bind("b", var("a"))]);
    let fns = vec![f, g];
    let index = get_all_declared_fns(&fns);
    let mut effects = Vec::new();
    let mut notes = Vec::new();
    let mut active = vec![false, false];
    let r = infer_fn(&mut effects, &mut notes, 0, &vec![state("v")], &index, &fns, &mut active);
    assert_eq!(globhole(&r.unwrap()), "v");
    let r = infer_fn(&mut effects, &mut notes, 1, &vec![state("v")], &index, &fns, &mut active);
    assert_eq!(globhole(&r.unwrap()), "*");
}

#[test]
fn empty_body_is_unknown() {
    let fns = vec![entry(vec![])];
    let (r, _, _) = run(&fns);
    assert_eq!(globhole(&r.unwrap()), "*");
}

#[test]
fn unresolved_variable_is_fatal() {
    let fns = vec![entry(vec![bind("a", var("nowhere"))])];
    let (r, _, _) = run(&fns);
    match r {
        Err(InferError::UnresolvedVariable { function, statement, name }) => {
            assert_eq!(function, "main");
            assert_eq!(statement, 1);
            assert_eq!(name, "nowhere");
        },
        other => panic!("unexpected result {:?}", other),
    }
}

#[test]
fn recursion_is_reported_as_a_cycle() {
    let f = func("f", &[], vec![], vec![Stmt::Expr(call("g", vec![]))]);
    let g = func("g", &[], vec![], vec![Stmt::Expr(call("f", vec![]))]);
    let main = entry(vec![Stmt::Semi(call("f", vec![]))]);
    let fns = vec![f, g, main];
    let (r, _, _) = run(&fns);
    match r {
        Err(InferError::Cycle { function }) => assert_eq!(function, "f"),
        other => panic!("unexpected result {:?}", other),
    }
}

#[test]
fn repeated_calls_are_no_cycle() {
    let f = func("f", &["x"], vec![], vec![Stmt::Expr(call("declared_fn", vec![var("x"), lit("1")]))]);
    let main = entry(vec![
        bind("a", call("f", vec![lit("p")])),
        Stmt::Expr(call("f", vec![var("a")])),
    ]);
    let fns = vec![declared_fn(), f, main];
    let (r, effects, _) = run(&fns);
    assert_eq!(globhole(&r.unwrap()), "p/1/1");
    assert_eq!(effects.len(), 2);
}

#[test]
fn too_few_arguments_for_a_declaration_is_fatal() {
    let main = entry(vec![Stmt::Semi(call("declared_fn", vec![lit("a")]))]);
    let fns = vec![declared_fn(), main];
    let (r, effects, _) = run(&fns);
    assert!(effects.is_empty());
    match r {
        Err(InferError::MissingArgument { function, expected, given }) => {
            assert_eq!(function, "declared_fn");
            assert_eq!(expected, 2);
            assert_eq!(given, 1);
        },
        other => panic!("unexpected result {:?}", other),
    }
}

#[test]
fn too_few_arguments_for_a_body_is_fatal() {
    let f = func("f", &["x", "y"], vec![], vec![]);
    let main = entry(vec![Stmt::Semi(call("f", vec![lit("a")]))]);
    let fns = vec![f, main];
    let (r, _, _) = run(&fns);
    assert!(matches!(r, Err(InferError::MissingArgument { expected: 2, given: 1, .. })));
}

#[test]
fn uninitialized_binding_is_fatal() {
    let fns = vec![entry(vec![Stmt::Local(Pat::Ident(text("x")), None)])];
    let (r, _, _) = run(&fns);
    assert!(matches!(r, Err(InferError::UninitializedBinding { statement: 1, .. })));
}

#[test]
fn unsupported_pattern_is_fatal() {
    let fns = vec![entry(vec![Stmt::Local(Pat::Other, Some(lit("v")))])];
    let (r, _, _) = run(&fns);
    assert!(matches!(r, Err(InferError::UnsupportedPattern { statement: 1, .. })));
}

#[test]
fn tuple_pattern_binds_unknown_parts() {
    let pat = Pat::Tuple(vec![Pat::Ident(text("a")), Pat::Wild, Pat::Tuple(vec![Pat::Ident(text("b"))])]);
    let main = entry(vec![
        Stmt::Local(pat, Some(lit("v"))),
        Stmt::Local(Pat::Wild, Some(lit("w"))),
        Stmt::Semi(call("declared_fn", vec![var("a"), var("b")])),
    ]);
    let fns = vec![declared_fn(), main];
    let (r, effects, _) = run(&fns);
    assert!(r.is_ok());
    assert_eq!(rendered(&effects[0]), vec!["*/*"]);
}

#[test]
fn malformed_declaration_fails_only_where_it_is_called() {
    let broken = func("broken", &["a"], vec![attr("declare", "(side_effects = (read (a)")], vec![]);
    let main = entry(vec![Stmt::Semi(call("declared_fn", vec![lit("a"), lit("b")]))]);
    let fns = vec![declared_fn(), broken, main];
    let (r, effects, _) = run(&fns);
    assert!(r.is_ok());
    assert_eq!(effects.len(), 1);

    let main = entry(vec![Stmt::Semi(call("broken", vec![lit("a")]))]);
    let broken = func("broken", &["a"], vec![attr("declare", "(side_effects = (read (a)")], vec![]);
    let fns = vec![broken, main];
    let (r, _, _) = run(&fns);
    match r {
        Err(InferError::Declaration { function, error }) => {
            assert_eq!(function, "broken");
            assert_eq!(error.offset, 25);
        },
        other => panic!("unexpected result {:?}", other),
    }
}

#[test]
fn no_entrypoint_is_an_error() {
    let fns = vec![declared_fn()];
    let (r, effects, _) = run(&fns);
    assert!(matches!(r, Err(InferError::NoEntrypoint)));
    assert!(effects.is_empty());
}

#[test]
fn declaration_without_returns_still_has_effects() {
    let d = func("d", &["p"], vec![attr("declare", "args=(p as P), side_effects=(open(P + '!'))")], vec![]);
    let main = entry(vec![Stmt::Expr(call("d", vec![lit("f")]))]);
    let fns = vec![d, main];
    let (r, effects, _) = run(&fns);
    assert_eq!(globhole(&r.unwrap()), "*");
    assert_eq!(effects[0].name, "open");
    assert_eq!(rendered(&effects[0]), vec!["f!"]);
}

#[test]
fn effect_result_binding_is_unknown() {
    let d = func(
        "d",
        &["p"],
        vec![attr("declare", "args=(p as P), side_effects=(eval(P) as R, read_file(R + '/x', p)), returns=R")],
        vec![],
    );
    let main = entry(vec![Stmt::Expr(call("d", vec![lit("q")]))]);
    let fns = vec![d, main];
    let (r, effects, _) = run(&fns);
    assert_eq!(globhole(&r.unwrap()), "*");
    assert_eq!(effects.len(), 2);
    assert_eq!(rendered(&effects[0]), vec!["q"]);
    assert_eq!(rendered(&effects[1]), vec!["*/x", "q"]);
}

#[test]
fn later_alias_wins() {
    let decl = DeclareMacro::from_attribute("args=(foo as F, baz as F), side_effects=(eval(F + foo))").unwrap();
    let mut effects = Vec::new();
    let r = evaluate_declared_fn(&mut effects, &text("d"), &decl, &vec![state("1"), state("2")]).unwrap();
    assert_eq!(rendered(&effects[0]), vec!["21"]);
    assert_eq!(globhole(&r), "*");
}

#[test]
fn unbound_name_in_a_declaration_is_fatal() {
    let decl = DeclareMacro::from_attribute("side_effects=(eval(zzz))").unwrap();
    let mut effects = Vec::new();
    let r = evaluate_declared_fn(&mut effects, &text("d"), &decl, &vec![]);
    match r {
        Err(InferError::UnresolvedName { function, name }) => {
            assert_eq!(function, "d");
            assert_eq!(name, "zzz");
        },
        other => panic!("unexpected result {:?}", other),
    }
    assert!(effects.is_empty());
}

#[test]
fn markers_are_found_by_name() {
    let f = func("f", &[], vec![attr("inline", ""), attr("declare", "side_effects=()")], vec![]);
    assert!(check_if_declare(&f));
    assert!(!check_if_entrypoint(&f));
    let fns = vec![f, entry(vec![]), entry(vec![])];
    assert_eq!(find_entrypoint(&fns), Some(1));
    let index = get_all_declared_fns(&fns);
    assert_eq!(index.entries.len(), 1);
    assert_eq!(index.entries[0].name, "f");
    assert!(index.entries[0].declaration.is_ok());
}

#[test]
fn effect_arguments_render_as_globs() {
    let effect = SideEffect {
        name: text("read_file"),
        arguments: vec![state("/etc/").concat(&VariableState::hole()), state("x")],
    };
    assert_eq!(effect.rendered_arguments(), vec!["/etc/*".to_string(), "x".to_string()]);
}
