use auto_obfuscate::ast::{
    contains_ident, is_well_formed, Block, Delim, Expr, FnItem, Item, LocalStmt, MacroCall, Pat,
    Program, Stmt, Token, UseTree,
};
use auto_obfuscate::rename::{RenameConfig, VariableRenamer};
use regex::Regex;

fn is_valid_rust_var_name(name: &str) -> bool {
    let re = Regex::new(r"^[a-zA-Z_][a-zA-Z0-9_]*$").unwrap();
    re.is_match(name)
}

fn local(name: &str, init: Expr) -> Stmt {
    Stmt::Local(LocalStmt { pat: Pat::Ident(name.to_string()), init: Some(init), tag: 0 })
}

fn path(name: &str) -> Expr {
    Expr::Path(vec![name.to_string()])
}

fn plus(a: Expr, b: Expr) -> Expr {
    Expr::Other(1, vec![a, b])
}

fn call(name: &str, args: Vec<Expr>) -> Expr {
    Expr::Call(Box::new(path(name)), args)
}

fn fn_item(name: &str, public: bool, stmts: Vec<Stmt>) -> Item {
    Item::Fn(FnItem { name: name.to_string(), public, sig: 0, body: Block { stmts } })
}

fn println_tokens(tokens: Vec<Token>) -> Stmt {
    Stmt::Expr(
        Expr::Macro(MacroCall {
            path: vec!["println".to_string()],
            delim: Delim::Paren,
            tokens,
        }),
        true,
    )
}

fn assert_gone(renamer: &VariableRenamer, modified: &Program, names: &[&str]) {
    for (_, generated) in renamer.renamed_vars.iter() {
        assert!(is_valid_rust_var_name(generated), "Invalid variable name: {}", generated);
    }
    for name in names {
        assert!(
            !contains_ident(modified, &name.to_string()),
            "Original name '{}' still found in modified code",
            name
        );
    }
    assert!(is_well_formed(modified), "Modified code is not valid Rust code");
}

#[test]
fn test_variable_renamer() {
    let code = Program {
        items: vec![
            fn_item(
                "calculate_sum",
                false,
                vec![
                    local("result", plus(path("a"), path("b"))),
                    Stmt::Expr(path("result"), false),
                ],
            ),
            fn_item(
                "main",
                false,
                vec![
                    local("num1", Expr::NumLit(10)),
                    local("num2", Expr::NumLit(20)),
                    Stmt::Expr(
                        Expr::Assign(Box::new(path("num1")), Box::new(Expr::NumLit(30))),
                        true,
                    ),
                    local("sum", call("calculate_sum", vec![path("num1"), path("num2")])),
                    println_tokens(vec![
                        Token::StrLit("The sum is: {}".to_string()),
                        Token::Punct(','),
                        Token::Ident("sum".to_string()),
                    ]),
                ],
            ),
        ],
    };
    let rename_config = RenameConfig { enable_rename_obfuscation: true };
    let mut renamer = VariableRenamer::new(rename_config);
    let modified = renamer.rename(code);
    assert_gone(&renamer, &modified, &["calculate_sum", "result", "num1", "num2"]);
}

#[test]
fn test_nested_function_calls() {
    let code = Program {
        items: vec![
            fn_item("add_one", false, vec![Stmt::Expr(plus(path("x"), Expr::NumLit(1)), false)]),
            fn_item(
                "calculate_sum",
                false,
                vec![
                    local("result", plus(path("a"), path("b"))),
                    Stmt::Expr(path("result"), false),
                ],
            ),
            fn_item(
                "main",
                false,
                vec![
                    local("num1", Expr::NumLit(10)),
                    local("num2", Expr::NumLit(20)),
                    Stmt::Expr(
                        Expr::Assign(Box::new(path("num1")), Box::new(Expr::NumLit(30))),
                        true,
                    ),
                    local(
                        "sum",
                        call(
                            "calculate_sum",
                            vec![call("add_one", vec![path("num1")]), path("num2")],
                        ),
                    ),
                    println_tokens(vec![
                        Token::StrLit("The sum is: {}".to_string()),
                        Token::Punct(','),
                        Token::Ident("sum".to_string()),
                    ]),
                ],
            ),
        ],
    };
    let rename_config = RenameConfig { enable_rename_obfuscation: true };
    let mut renamer = VariableRenamer::new(rename_config);
    let modified = renamer.rename(code);
    assert_gone(&renamer, &modified, &["calculate_sum", "add_one", "num1", "num2", "result"]);
}

#[test]
fn test_nested_macros() {
    let code = Program {
        items: vec![fn_item(
            "main",
            false,
            vec![
                local("num1", Expr::NumLit(10)),
                local("num2", Expr::NumLit(20)),
                println_tokens(vec![
                    Token::StrLit("Formatted: {}".to_string()),
                    Token::Punct(','),
                    Token::Ident("format".to_string()),
                    Token::Punct('!'),
                    Token::Group(
                        Delim::Paren,
                        vec![
                            Token::StrLit("Num1: {}, Num2: {}".to_string()),
                            Token::Punct(','),
                            Token::Ident("num1".to_string()),
                            Token::Punct(','),
                            Token::Ident("num2".to_string()),
                        ],
                    ),
                ]),
            ],
        )],
    };
    let rename_config = RenameConfig { enable_rename_obfuscation: true };
    let mut renamer = VariableRenamer::new(rename_config);
    let modified = renamer.rename(code);
    assert_gone(&renamer, &modified, &["calculate_sum", "add_one", "num1", "num2", "result"]);
}

#[test]
fn test_user_defined_nested_macro() {
    let code = Program {
        items: vec![
            Item::Other(9),
            fn_item(
                "main",
                false,
                vec![
                    local("num1", Expr::NumLit(10)),
                    local("num2", Expr::NumLit(20)),
                    println_tokens(vec![
                        Token::StrLit("Num1: {}".to_string()),
                        Token::Punct(','),
                        Token::Ident("identity".to_string()),
                        Token::Punct('!'),
                        Token::Group(Delim::Paren, vec![Token::Ident("num1".to_string())]),
                    ]),
                    println_tokens(vec![
                        Token::StrLit("Num2: {}".to_string()),
                        Token::Punct(','),
                        Token::Ident("identity".to_string()),
                        Token::Punct('!'),
                        Token::Group(Delim::Paren, vec![Token::Ident("num2".to_string())]),
                    ]),
                ],
            ),
        ],
    };
    let rename_config = RenameConfig { enable_rename_obfuscation: true };
    let mut renamer = VariableRenamer::new(rename_config);
    let modified = renamer.rename(code);
    assert_gone(&renamer, &modified, &["calculate_sum", "add_one", "num1", "num2", "result"]);
}

#[test]
fn test_function_in_macro() {
    let code = Program {
        items: vec![
            fn_item("add_one", false, vec![Stmt::Expr(plus(path("x"), Expr::NumLit(1)), false)]),
            fn_item(
                "main",
                false,
                vec![
                    local("num", Expr::NumLit(10)),
                    println_tokens(vec![
                        Token::StrLit("Num + 1: {}".to_string()),
                        Token::Punct(','),
                        Token::Ident("add_one".to_string()),
                        Token::Group(Delim::Paren, vec![Token::Ident("num".to_string())]),
                    ]),
                ],
            ),
        ],
    };
    let rename_config = RenameConfig { enable_rename_obfuscation: true };
    let mut renamer = VariableRenamer::new(rename_config);
    let modified = renamer.rename(code);
    assert_gone(&renamer, &modified, &["calculate_sum", "add_one", "num1", "num2", "result"]);
}

#[test]
fn private_function_renamed_main_kept() {
    // two top-level functions, one private and the entry point calling it
    let code = Program {
        items: vec![
            fn_item(
                "calculate_sum",
                false,
                vec![Stmt::Expr(plus(path("a"), path("b")), false)],
            ),
            fn_item(
                "main",
                false,
                vec![Stmt::Expr(call("calculate_sum", vec![]), true)],
            ),
        ],
    };
    let rename_config = RenameConfig { enable_rename_obfuscation: true };
    let mut renamer = VariableRenamer::new(rename_config);
    let modified = renamer.rename(code);
    assert!(!contains_ident(&modified, &"calculate_sum".to_string()));
    match &modified.items[1] {
        Item::Fn(g) => {
            assert_eq!(g.name, "main");
            assert!(!g.public);
            assert_eq!(g.body.stmts.len(), 1);
            match &g.body.stmts[0] {
                Stmt::Expr(Expr::Call(_, args), true) => assert!(args.is_empty()),
                _ => panic!("the call statement changed shape"),
            }
        }
        _ => panic!("the entry point is no longer a function item"),
    }
    match &modified.items[0] {
        Item::Fn(f) => {
            assert_ne!(f.name, "calculate_sum");
            assert_eq!(f.body.stmts.len(), 1);
        }
        _ => panic!("the private function is no longer a function item"),
    }
    assert!(is_well_formed(&modified));
}

#[test]
fn imported_names_are_never_renamed() {
    let code = Program {
        items: vec![
            Item::Use(UseTree::Path(
                "helpers".to_string(),
                Box::new(UseTree::Name("calculate_sum".to_string())),
            )),
            fn_item(
                "main",
                false,
                vec![Stmt::Expr(call("calculate_sum", vec![]), true)],
            ),
        ],
    };
    let rename_config = RenameConfig { enable_rename_obfuscation: true };
    let mut renamer = VariableRenamer::new(rename_config);
    let modified = renamer.rename(code);
    // the name resolves to an import, so the pass must leave it alone
    assert!(contains_ident(&modified, &"calculate_sum".to_string()));
    assert!(is_well_formed(&modified));
}
