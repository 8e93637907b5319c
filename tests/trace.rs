use syn::visit::{self, Visit};

use autobox::index::{analyze, find_entrypoint, get_all_declared_fns};
use autobox::syntax::{Attribute, BodyExpr, ItemFn, Pat, Stmt};

struct FnCollector<'ast> {
    fns: Vec<&'ast syn::ItemFn>,
}

impl<'ast> Visit<'ast> for FnCollector<'ast> {
    fn visit_item_fn(&mut self, node: &'ast syn::ItemFn) {
        self.fns.push(node);
        visit::visit_item_fn(self, node);
    }
}

fn convert_pat(p: &syn::Pat) -> Pat {
    match p {
        syn::Pat::Ident(i) => Pat::Ident(i.ident.to_string()),
        syn::Pat::Tuple(t) => Pat::Tuple(t.elems.iter().map(convert_pat).collect()),
        syn::Pat::Wild(_) => Pat::Wild,
        syn::Pat::Type(t) => convert_pat(&t.pat),
        _ => Pat::Other,
    }
}

fn convert_expr(e: &syn::Expr) -> BodyExpr {
    match e {
        syn::Expr::Lit(l) => match &l.lit {
            syn::Lit::Str(s) => BodyExpr::LitStr(s.value()),
            _ => BodyExpr::Other,
        },
        syn::Expr::Path(p) => match p.path.segments.first() {
            Some(seg) => BodyExpr::Path(seg.ident.to_string()),
            None => BodyExpr::Other,
        },
        syn::Expr::Call(c) => {
            let callee = match c.func.as_ref() {
                syn::Expr::Path(p) => p.path.segments.first().map(|s| s.ident.to_string()),
                _ => None,
            };
            BodyExpr::Call(callee, c.args.iter().map(convert_expr).collect())
        }
        syn::Expr::Reference(r) => BodyExpr::Ref(Box::new(convert_expr(&r.expr))),
        _ => BodyExpr::Other,
    }
}

fn convert_stmt(s: &syn::Stmt) -> Stmt {
    match s {
        syn::Stmt::Local(l) => Stmt::Local(
            convert_pat(&l.pat),
            l.init.as_ref().map(|(_, e)| convert_expr(e)),
        ),
        syn::Stmt::Semi(e, _) => Stmt::Semi(convert_expr(e)),
        syn::Stmt::Expr(e) => Stmt::Expr(convert_expr(e)),
        syn::Stmt::Item(_) => Stmt::Other,
    }
}

fn convert_fn(f: &syn::ItemFn) -> ItemFn {
    ItemFn {
        name: f.sig.ident.to_string(),
        params: f
            .sig
            .inputs
            .iter()
            .map(|a| match a {
                syn::FnArg::Typed(t) => convert_pat(&t.pat),
                syn::FnArg::Receiver(_) => Pat::Other,
            })
            .collect(),
        attrs: f
            .attrs
            .iter()
            .map(|a| Attribute {
                name: a.path.segments.last().map(|s| s.ident.to_string()).unwrap_or_default(),
                tokens: a.tokens.to_string(),
            })
            .collect(),
        stmts: f.block.stmts.iter().map(convert_stmt).collect(),
    }
}

#[test]
fn trace_var() {
    let rust_code = r#"

        // declare_ext!(std::path::Path::join, args(a, b), returns(a + b))

        #[effect::declare(
            args=(a as A, b as B),
            side_effects=(reads_file(A + '/' + B)),
            returns=(a + '/' + b),
        )]
        fn fn_with_effects(a: &str, b: &str) -> String {
            // pretend there are effects here
            std::fs::read_file(format!("{a}/{b}"));
            format!("{a}/{b}")
        }

        fn unknown(a: &str, b: &str) -> String {
            fn_with_effects(a, b)
        }

        #[effect::entrypoint]
        fn main() {
            let x = "foo";
            let y = x;
            let uk = unknown(x, "bar");
        }
        "#;

    let ast = syn::parse_file(rust_code).unwrap();
    let mut collector = FnCollector { fns: Vec::new() };
    collector.visit_file(&ast);
    let fns: Vec<ItemFn> = collector.fns.iter().map(|f| convert_fn(f)).collect();
    assert_eq!(find_entrypoint(&fns), Some(2));
    let all_declared_fns = get_all_declared_fns(&fns);
    assert_eq!(all_declared_fns.entries.len(), 1);
    assert!(all_declared_fns.entries[0].declaration.is_ok());

    let mut side_effects = Vec::new();
    let mut diagnostics = Vec::new();
    let result = analyze(&fns, &all_declared_fns, &mut side_effects, &mut diagnostics);
    assert!(result.is_ok());
    assert_eq!(side_effects.len(), 1);
    assert_eq!(side_effects[0].name, "reads_file");
    assert_eq!(side_effects[0].rendered_arguments(), vec!["foo/bar".to_string()]);
}
