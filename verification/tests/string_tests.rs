use auto_obfuscate::ast::{
    is_well_formed, Block, Delim, Expr, FnItem, Item, LocalStmt, MacroCall, Pat, Program, Stmt,
    Token,
};
use auto_obfuscate::stringobf::{StringConfig, StringObfuscator};

fn local(name: &str, init: Expr) -> Stmt {
    Stmt::Local(LocalStmt { pat: Pat::Ident(name.to_string()), init: Some(init), tag: 0 })
}

fn lit(text: &str) -> Expr {
    Expr::StrLit(text.to_string())
}

fn fn_item(name: &str, public: bool, stmts: Vec<Stmt>) -> Item {
    Item::Fn(FnItem { name: name.to_string(), public, sig: 0, body: Block { stmts } })
}

fn println_lit(text: &str) -> Stmt {
    Stmt::Expr(
        Expr::Macro(MacroCall {
            path: vec!["println".to_string()],
            delim: Delim::Paren,
            tokens: vec![Token::StrLit(text.to_string())],
        }),
        true,
    )
}

fn is_enc_call(e: &Expr) -> bool {
    matches!(e, Expr::Macro(m) if m.path.last().map(|s| s == "encrypt_string").unwrap_or(false))
}

fn enc_call_text(e: &Expr) -> Option<String> {
    if let Expr::Macro(m) = e {
        if let Some(Token::StrLit(s)) = m.tokens.first() {
            return Some(s.clone());
        }
    }
    None
}

fn remaining_lit_texts_expr(e: &Expr, out: &mut Vec<String>) {
    match e {
        Expr::StrLit(s) => out.push(s.clone()),
        Expr::Assign(a, b) => {
            remaining_lit_texts_expr(a, out);
            remaining_lit_texts_expr(b, out);
        }
        Expr::Call(f, args) => {
            remaining_lit_texts_expr(f, out);
            for a in args {
                remaining_lit_texts_expr(a, out);
            }
        }
        Expr::Block(b) => {
            for s in &b.stmts {
                remaining_lit_texts_stmt(s, out);
            }
        }
        Expr::Other(_, ch) => {
            for a in ch {
                remaining_lit_texts_expr(a, out);
            }
        }
        _ => {}
    }
}

fn remaining_lit_texts_stmt(s: &Stmt, out: &mut Vec<String>) {
    match s {
        Stmt::Local(l) => {
            if let Some(e) = &l.init {
                remaining_lit_texts_expr(e, out);
            }
        }
        Stmt::Expr(e, _) => remaining_lit_texts_expr(e, out),
        Stmt::Item(it) => {
            if let Item::Fn(f) = it.as_ref() {
                for s2 in &f.body.stmts {
                    remaining_lit_texts_stmt(s2, out);
                }
            }
        }
    }
}

fn remaining_lit_texts(p: &Program) -> Vec<String> {
    let mut out = Vec::new();
    for it in &p.items {
        if let Item::Fn(f) = it {
            for s in &f.body.stmts {
                remaining_lit_texts_stmt(s, &mut out);
            }
        }
    }
    out
}

fn enc_calls_in_order(p: &Program) -> Vec<String> {
    fn walk_expr(e: &Expr, out: &mut Vec<String>) {
        if is_enc_call(e) {
            if let Some(t) = enc_call_text(e) {
                out.push(t);
            }
            return;
        }
        match e {
            Expr::Assign(a, b) => {
                walk_expr(a, out);
                walk_expr(b, out);
            }
            Expr::Call(f, args) => {
                walk_expr(f, out);
                for a in args {
                    walk_expr(a, out);
                }
            }
            Expr::Block(b) => {
                for s in &b.stmts {
                    walk_stmt(s, out);
                }
            }
            Expr::Other(_, ch) => {
                for a in ch {
                    walk_expr(a, out);
                }
            }
            _ => {}
        }
    }
    fn walk_stmt(s: &Stmt, out: &mut Vec<String>) {
        match s {
            Stmt::Local(l) => {
                if let Some(e) = &l.init {
                    walk_expr(e, out);
                }
            }
            Stmt::Expr(e, _) => walk_expr(e, out),
            Stmt::Item(_) => {}
        }
    }
    let mut out = Vec::new();
    for it in &p.items {
        if let Item::Fn(f) = it {
            for s in &f.body.stmts {
                walk_stmt(s, &mut out);
            }
        }
    }
    out
}

fn count_wrapped_token_lits(ts: &[Token]) -> usize {
    let mut n = 0;
    for (i, t) in ts.iter().enumerate() {
        match t {
            Token::Group(_, g) => {
                if g.len() == 1
                    && matches!(g[0], Token::StrLit(_))
                    && i >= 2
                    && matches!(&ts[i - 2], Token::Ident(id) if id == "encrypt_string")
                {
                    n += 1;
                } else {
                    n += count_wrapped_token_lits(g);
                }
            }
            _ => {}
        }
    }
    n
}

#[test]
fn test_replacement_in_expr() {
    let code = Program {
        items: vec![fn_item("main", false, vec![local("b", lit("Hello, world!"))])],
    };
    let string_config = StringConfig::default();
    let mut string_obfuscator = StringObfuscator::new(string_config);
    let obfuscated = string_obfuscator.obfuscate_strings(code);
    let calls = enc_calls_in_order(&obfuscated);
    assert_eq!(calls.len(), 1);
    assert_eq!(calls[0], "Hello, world!");
    // the literal no longer stands as a string-literal expression
    assert!(remaining_lit_texts(&obfuscated).is_empty());
    assert!(is_well_formed(&obfuscated), "Modified code is not valid Rust code");
}

#[test]
fn test_no_macro() {
    // a literal inside a macro stream and one inside a call argument: the
    // full scan captures both
    let code = Program {
        items: vec![fn_item(
            "main",
            false,
            vec![
                println_lit("Hello, world!"),
                local(
                    "word_re",
                    Expr::Other(
                        5,
                        vec![Expr::Call(
                            Box::new(Expr::Path(vec!["Regex".to_string(), "new".to_string()])),
                            vec![lit(r"\b\w+\b")],
                        )],
                    ),
                ),
            ],
        )],
    };
    let string_config = StringConfig::default();
    let mut string_obfuscator = StringObfuscator::new(string_config);
    let obfuscated = string_obfuscator.obfuscate_strings(code);
    assert!(remaining_lit_texts(&obfuscated).is_empty());
    assert_eq!(enc_calls_in_order(&obfuscated), vec![r"\b\w+\b".to_string()]);
    match &obfuscated.items[0] {
        Item::Fn(f) => match &f.body.stmts[0] {
            Stmt::Expr(Expr::Macro(m), _) => {
                assert_eq!(count_wrapped_token_lits(&m.tokens), 1);
            }
            _ => panic!("expected the macro statement"),
        },
        _ => panic!("expected a function item"),
    }
    assert!(is_well_formed(&obfuscated), "Modified code is not valid Rust code");
}

#[test]
fn test_percentage() {
    let mut stmts: Vec<Stmt> = Vec::new();
    for name in ["a", "b", "c", "d", "e", "f", "g", "h", "i", "j"] {
        stmts.push(local(name, lit(name)));
    }
    for _ in 0..6 {
        stmts.push(println_lit("Hello"));
    }
    let code = Program { items: vec![fn_item("main", false, stmts)] };
    let mut string_config = StringConfig::default();
    string_config.percentage = 80;
    let mut string_obfuscator = StringObfuscator::new(string_config);
    let obfuscated = string_obfuscator.obfuscate_strings(code);
    // sixteen literals in all, so the quota is ceil(0.8 * 16) = 13: every
    // one of the ten literal expressions falls under it, and every macro
    // literal is captured by the token path
    assert_eq!(string_obfuscator.strings_to_encrypt, 13);
    assert_eq!(string_obfuscator.encrypted_count, 10);
    assert!(enc_calls_in_order(&obfuscated).iter().any(|t| t == "h"));
    assert!(remaining_lit_texts(&obfuscated).is_empty());
    assert!(is_well_formed(&obfuscated), "Modified code is not valid Rust code");
}

#[test]
fn string_quota_spares_last_three() {
    // sixteen string-literal expressions at eighty per cent: exactly
    // thirteen are replaced and the lexically last three remain
    let names = [
        "s0", "s1", "s2", "s3", "s4", "s5", "s6", "s7", "s8", "s9", "s10", "s11", "s12", "s13",
        "s14", "s15",
    ];
    let mut stmts: Vec<Stmt> = Vec::new();
    for name in names {
        stmts.push(local(name, lit(name)));
    }
    let code = Program { items: vec![fn_item("main", false, stmts)] };
    let mut cfg = StringConfig::default();
    cfg.percentage = 80;
    let mut obf = StringObfuscator::new(cfg);
    let obfuscated = obf.obfuscate_strings(code);
    assert_eq!(obf.strings_to_encrypt, 13);
    assert_eq!(obf.encrypted_count, 13);
    let replaced = enc_calls_in_order(&obfuscated);
    assert_eq!(replaced, names[..13].iter().map(|s| s.to_string()).collect::<Vec<_>>());
    let remaining = remaining_lit_texts(&obfuscated);
    assert_eq!(remaining, vec!["s13".to_string(), "s14".to_string(), "s15".to_string()]);
    assert!(is_well_formed(&obfuscated));
}
