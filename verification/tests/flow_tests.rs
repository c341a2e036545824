use auto_obfuscate::ast::{
    contains_ident, is_well_formed, Block, Delim, Expr, FnItem, Item, LocalStmt, MacroCall, Pat,
    Program, Stmt, Token,
};
use auto_obfuscate::flow::{FlowConfig, FlowObfuscator};

fn local(name: &str, init: Expr) -> Stmt {
    Stmt::Local(LocalStmt { pat: Pat::Ident(name.to_string()), init: Some(init), tag: 0 })
}

fn path(name: &str) -> Expr {
    Expr::Path(vec![name.to_string()])
}

fn plus(a: Expr, b: Expr) -> Expr {
    Expr::Other(1, vec![a, b])
}

fn println_stmt(text: &str, arg: &str) -> Stmt {
    Stmt::Expr(
        Expr::Macro(MacroCall {
            path: vec!["println".to_string()],
            delim: Delim::Paren,
            tokens: vec![
                Token::StrLit(text.to_string()),
                Token::Punct(','),
                Token::Ident(arg.to_string()),
            ],
        }),
        true,
    )
}

fn fn_item(name: &str, public: bool, stmts: Vec<Stmt>) -> Item {
    Item::Fn(FnItem { name: name.to_string(), public, sig: 0, body: Block { stmts } })
}

fn count_markers_expr(e: &Expr) -> usize {
    match e {
        Expr::Assign(a, b) => count_markers_expr(a) + count_markers_expr(b),
        Expr::Call(f, args) => {
            count_markers_expr(f) + args.iter().map(count_markers_expr).sum::<usize>()
        }
        Expr::Block(b) => b.stmts.iter().map(count_markers_stmt).sum(),
        Expr::Other(_, ch) => ch.iter().map(count_markers_expr).sum(),
        _ => 0,
    }
}

fn count_markers_stmt(s: &Stmt) -> usize {
    match s {
        Stmt::Local(l) => {
            let own = match &l.pat {
                Pat::Ident(n) if n == "_is_dummy_145" => 1,
                _ => 0,
            };
            own + l.init.as_ref().map(count_markers_expr).unwrap_or(0)
        }
        Stmt::Expr(e, _) => count_markers_expr(e),
        Stmt::Item(it) => count_markers_item(it),
    }
}

fn count_markers_item(it: &Item) -> usize {
    match it {
        Item::Fn(f) => f.body.stmts.iter().map(count_markers_stmt).sum(),
        _ => 0,
    }
}

fn count_markers(p: &Program) -> usize {
    p.items.iter().map(count_markers_item).sum()
}

fn count_flow_macros_expr(e: &Expr) -> usize {
    match e {
        Expr::Assign(a, b) => count_flow_macros_expr(a) + count_flow_macros_expr(b),
        Expr::Call(f, args) => {
            count_flow_macros_expr(f) + args.iter().map(count_flow_macros_expr).sum::<usize>()
        }
        Expr::Block(b) => b.stmts.iter().map(count_flow_macros_stmt).sum(),
        Expr::Other(_, ch) => ch.iter().map(count_flow_macros_expr).sum(),
        Expr::Macro(m) => {
            if m.path.last().map(|s| s == "flow_stmt").unwrap_or(false) {
                1
            } else {
                0
            }
        }
        _ => 0,
    }
}

fn count_flow_macros_stmt(s: &Stmt) -> usize {
    match s {
        Stmt::Local(l) => l.init.as_ref().map(count_flow_macros_expr).unwrap_or(0),
        Stmt::Expr(e, _) => count_flow_macros_expr(e),
        Stmt::Item(it) => match it.as_ref() {
            Item::Fn(f) => f.body.stmts.iter().map(count_flow_macros_stmt).sum(),
            _ => 0,
        },
    }
}

fn count_flow_macros(p: &Program) -> usize {
    p.items
        .iter()
        .map(|it| match it {
            Item::Fn(f) => f.body.stmts.iter().map(count_flow_macros_stmt).sum(),
            _ => 0,
        })
        .sum()
}

fn main_program() -> Program {
    Program {
        items: vec![fn_item(
            "main",
            false,
            vec![
                local("num1", Expr::NumLit(10)),
                local("num2", Expr::NumLit(20)),
                Stmt::Expr(Expr::Assign(Box::new(path("num1")), Box::new(Expr::NumLit(30))), true),
                local("sum", plus(path("num1"), path("num2"))),
                println_stmt("The sum is: {}", "sum"),
            ],
        )],
    }
}

#[test]
fn test_loop_insertion() {
    let code = main_program();
    let flow_config = FlowConfig { enable_flow_obfuscation: true, use_macro: false };
    let mut obfuscator = FlowObfuscator::new(flow_config);
    let modified = obfuscator.flow_obfuscate(code);

    assert!(count_markers(&modified) > 0);
    assert!(
        contains_ident(&modified, &"_is_dummy_145".to_string()),
        "Dummy loop not found in modified code"
    );
    assert!(is_well_formed(&modified), "Modified code is not valid Rust code");
    // the construct is the first statement of the instrumented block and
    // declares the dummy loop's variables
    match &modified.items[0] {
        Item::Fn(f) => match &f.body.stmts[0] {
            Stmt::Expr(Expr::Block(inner), _) => {
                for var in ["_dummy_counter", "_dummy_increment", "_dummy_upper_bound"] {
                    assert!(
                        inner.stmts.iter().any(|s| matches!(
                            s,
                            Stmt::Local(l) if matches!(&l.pat, Pat::Ident(n) if n == var)
                        )),
                        "missing declaration of {}",
                        var
                    );
                }
            }
            other => panic!("expected an inline dummy construct, found {:?}", count_markers_stmt(other)),
        },
        _ => panic!("expected a function item"),
    }
}

#[test]
fn test_loop_skip() {
    let mut main_items = main_program().items;
    let code = Program {
        items: vec![
            fn_item(
                "calculate_sum",
                false,
                vec![Stmt::Expr(plus(path("num1"), path("num2")), false)],
            ),
            fn_item("ok", false, vec![]),
            main_items.remove(0),
        ],
    };
    let flow_config = FlowConfig { enable_flow_obfuscation: true, use_macro: false };
    let mut obfuscator = FlowObfuscator::new(flow_config);
    let modified = obfuscator.flow_obfuscate(code);

    assert!(
        contains_ident(&modified, &"_is_dummy_145".to_string()),
        "Dummy loop not found in modified code"
    );
    assert!(is_well_formed(&modified), "Modified code is not valid Rust code");
    let num_loops = count_markers(&modified);
    assert!(num_loops == 2, "exactly two dummy loops not found in modified code");
}

#[test]
fn marker_detection_is_idempotent_inline() {
    let code = main_program();
    let cfg = FlowConfig { enable_flow_obfuscation: true, use_macro: false };
    let mut first = FlowObfuscator::new(cfg.clone());
    let once = first.flow_obfuscate(code);
    let n1 = count_markers(&once);
    assert_eq!(n1, 1);
    let mut second = FlowObfuscator::new(cfg);
    let twice = second.flow_obfuscate(once);
    assert_eq!(count_markers(&twice), n1, "a marked block was instrumented again");
}

#[test]
fn marker_detection_is_idempotent_macro_mode() {
    let code = main_program();
    let cfg = FlowConfig { enable_flow_obfuscation: true, use_macro: true };
    let mut first = FlowObfuscator::new(cfg.clone());
    let once = first.flow_obfuscate(code);
    let n1 = count_flow_macros(&once);
    assert_eq!(n1, 1);
    let mut second = FlowObfuscator::new(cfg);
    let twice = second.flow_obfuscate(once);
    assert_eq!(count_flow_macros(&twice), n1, "a marked block was instrumented again");
}
