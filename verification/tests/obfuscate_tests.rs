use auto_obfuscate::ast::{
    contains_ident, count_string_literals, is_well_formed, Block, Expr, FnItem, Item, LocalStmt,
    Pat, Program, Stmt,
};
use auto_obfuscate::obfuscate::{Config, Obfuscator};

fn hello_world() -> Program {
    Program {
        items: vec![Item::Fn(FnItem {
            name: "main".to_string(),
            public: false,
            sig: 0,
            body: Block {
                stmts: vec![Stmt::Local(LocalStmt {
                    pat: Pat::Ident("b".to_string()),
                    init: Some(Expr::StrLit("Hello, world!".to_string())),
                    tag: 0,
                })],
            },
        })],
    }
}

#[test]
fn pipeline_all_passes_disabled_is_identity() {
    let mut config = Config::default();
    config.string_config.enable_string_obfuscation = false;
    config.flow_config.enable_flow_obfuscation = false;
    let mut obfuscator = Obfuscator::from_config(config);
    let out = obfuscator.obfuscate(hello_world());
    assert_eq!(out.items.len(), 1);
    assert_eq!(count_string_literals(&out), 1);
    assert!(contains_ident(&out, &"b".to_string()));
    match &out.items[0] {
        Item::Fn(f) => {
            assert_eq!(f.name, "main");
            assert_eq!(f.body.stmts.len(), 1);
            match &f.body.stmts[0] {
                Stmt::Local(l) => {
                    assert!(matches!(&l.init, Some(Expr::StrLit(s)) if s == "Hello, world!"))
                }
                _ => panic!("the binding changed shape"),
            }
        }
        _ => panic!("the item changed kind"),
    }
}

#[test]
fn pipeline_default_config_end_to_end() {
    let mut obfuscator = Obfuscator::new();
    let out = obfuscator.obfuscate(hello_world());
    // the literal is gone from expression position, its text kept inside
    // the emitted encrypt call; the flow pass left its marker; renaming is
    // off by default, so the binding keeps its name
    assert!(is_well_formed(&out));
    assert_eq!(out.items.len(), 1);
    assert!(contains_ident(&out, &"b".to_string()));
    assert_eq!(count_string_literals(&out), 1);
    match &out.items[0] {
        Item::Fn(f) => {
            assert_eq!(f.name, "main");
            assert_eq!(f.body.stmts.len(), 2);
            match &f.body.stmts[0] {
                Stmt::Expr(Expr::Macro(m), _) => {
                    assert_eq!(m.path.last().unwrap(), "flow_stmt");
                }
                _ => panic!("the opaque-loop call is not the first statement"),
            }
        }
        _ => panic!("the item changed kind"),
    }
}

#[test]
fn pipeline_with_renaming_hides_locals() {
    let mut config = Config::default();
    config.rename_config.enable_rename_obfuscation = true;
    let mut obfuscator = Obfuscator::from_config(config);
    let out = obfuscator.obfuscate(hello_world());
    assert!(is_well_formed(&out));
    assert!(!contains_ident(&out, &"b".to_string()));
    assert!(contains_ident(&out, &"main".to_string()));
}

#[test]
fn pipeline_flow_with_renaming_keeps_the_schedule() {
    // four one-statement functions: the per-block counter starts at zero
    // and advances once per visited body, so the first and fourth bodies
    // gain the opaque loop and the middle two are left alone, and the
    // renaming pass changes no statement count
    let plain_fn = |name: &str| {
        Item::Fn(FnItem {
            name: name.to_string(),
            public: false,
            sig: 0,
            body: Block {
                stmts: vec![Stmt::Local(LocalStmt {
                    pat: Pat::Ident("v".to_string()),
                    init: Some(Expr::NumLit(7)),
                    tag: 0,
                })],
            },
        })
    };
    let program = Program {
        items: vec![plain_fn("first"), plain_fn("second"), plain_fn("third"), plain_fn("fourth")],
    };
    let mut config = Config::default();
    config.rename_config.enable_rename_obfuscation = true;
    let mut obfuscator = Obfuscator::from_config(config);
    let out = obfuscator.obfuscate(program);
    assert!(is_well_formed(&out));
    let lens: Vec<usize> = out
        .items
        .iter()
        .map(|it| match it {
            Item::Fn(f) => f.body.stmts.len(),
            _ => panic!("an item changed kind"),
        })
        .collect();
    assert_eq!(lens, vec![2, 1, 1, 2]);
    assert!(!contains_ident(&out, &"v".to_string()));
}
