//! The string obfuscation pass: replaces a quota of string-literal
//! expression nodes with calls of the external encrypt macro carrying the
//! literal's text, and rewrites every string-literal token inside macro
//! invocations into the same call form. The quota is the ceiling of
//! `percentage` per cent of the total literal count; at one hundred per
//! cent the cutoff is disabled. No text is invented, lost or reordered, and
//! the literals the quota spares are exactly the last ones in scan order.

use vstd::prelude::*;
use vstd::math::min;
use crate::ast::{
    Block, Delim, Expr, FnItem, Item, LocalStmt, MacroCall, Program, Stmt, Token,
};
use crate::ast::{
    count_string_literals, expr_texts, exprs_texts, item_texts, items_texts, lemma_exprs_texts_push,
    lemma_items_texts_push, lemma_skip_concat, lemma_skip_concat_right, lemma_stmts_texts_push,
    lemma_token_texts_add, one_token_texts, program_texts, stmt_texts, stmts_texts, token_texts,
    valid_path, wf_block, wf_expr, wf_item, wf_program, wf_stmt, wf_token, wf_tokens,
};

verus! {

/// Per-run configuration of the string pass.
#[derive(Clone)]
pub struct StringConfig {
    pub enable_string_obfuscation: bool,
    pub percentage: u8,
}

impl StringConfig {
    /// The default configuration: the pass is on and every literal is
    /// replaced.
    pub fn default() -> (c: Self)
        ensures
            c.enable_string_obfuscation,
            c.percentage == 100,
    {
        Self { enable_string_obfuscation: true, percentage: 100 }
    }
}

/// The string pass state: the per-run flags, the count of literals
/// replaced so far, and the quota computed at pass start.
pub struct StringObfuscator {
    pub enabled: bool,
    pub percentage: u8,
    pub encrypted_count: usize,
    pub strings_to_encrypt: usize,
}

/// The final path segment of the external encrypt macro.
pub open spec fn enc_macro_name() -> Seq<char> {
    "encrypt_string"@
}

/// Whether a macro invocation is itself a call of the encrypt macro, whose
/// argument stream the pass must not rewrite again.
pub open spec fn is_enc_macro(m: MacroCall) -> bool {
    m.path@.len() > 0 && m.path@.last()@ == enc_macro_name()
}

/// The quota of literals to replace: the ceiling of `pct` per cent of
/// `total`, with the cutoff disabled (the whole total) from one hundred
/// per cent on.
pub open spec fn quota_of(pct: u8, total: nat) -> nat {
    if pct >= 100 {
        total
    } else {
        (((pct as nat) * total + 99) / 100) as nat
    }
}

/// A token group that is the wrapped argument of an emitted encrypt call.
pub open spec fn wrapped_group(g: Seq<Token>) -> bool {
    g.len() == 1 && g[0] is StrLit
}

/// No string-literal token stands bare: each sits wrapped as the argument
/// of an emitted encrypt call.
pub open spec fn token_no_bare(t: Token) -> bool
    decreases t,
{
    match t {
        Token::StrLit(_) => false,
        Token::Group(_, g) => wrapped_group(g@) || forall|i: int|
            0 <= i < g@.len() ==> token_no_bare(#[trigger] g@[i]),
        _ => true,
    }
}

/// `token_no_bare` over a whole stream.
pub open spec fn no_bare_str(ts: Seq<Token>) -> bool {
    forall|i: int| 0 <= i < ts.len() ==> token_no_bare(#[trigger] ts[i])
}

/// Every macro invocation of the expression, other than an emitted encrypt
/// call itself, carries no bare string-literal token: the token path of the
/// pass has captured them all.
pub open spec fn macro_lits_wrapped_expr(e: Expr) -> bool
    decreases e,
{
    match e {
        Expr::Assign(l, r) => macro_lits_wrapped_expr(*l) && macro_lits_wrapped_expr(*r),
        Expr::Call(f, args) => macro_lits_wrapped_expr(*f) && forall|i: int|
            0 <= i < args@.len() ==> macro_lits_wrapped_expr(#[trigger] args@[i]),
        Expr::Block(b) => macro_lits_wrapped_stmts(b.stmts@),
        Expr::Macro(m) => is_enc_macro(m) || no_bare_str(m.tokens@),
        Expr::Other(_, children) => forall|i: int|
            0 <= i < children@.len() ==> macro_lits_wrapped_expr(#[trigger] children@[i]),
        _ => true,
    }
}

/// `macro_lits_wrapped_expr` over one statement.
pub open spec fn macro_lits_wrapped_stmt(s: Stmt) -> bool
    decreases s,
{
    match s {
        Stmt::Local(l) => match l.init {
            Option::Some(e) => macro_lits_wrapped_expr(e),
            Option::None => true,
        },
        Stmt::Expr(e, _) => macro_lits_wrapped_expr(e),
        Stmt::Item(it) => macro_lits_wrapped_item(*it),
    }
}

/// `macro_lits_wrapped_expr` over a statement list.
pub open spec fn macro_lits_wrapped_stmts(ss: Seq<Stmt>) -> bool
    decreases ss,
{
    forall|i: int| 0 <= i < ss.len() ==> macro_lits_wrapped_stmt(#[trigger] ss[i])
}

/// `macro_lits_wrapped_expr` over a top-level item.
pub open spec fn macro_lits_wrapped_item(it: Item) -> bool
    decreases it,
{
    match it {
        Item::Fn(f) => macro_lits_wrapped_stmts(f.body.stmts@),
        _ => true,
    }
}

/// `macro_lits_wrapped_expr` over a whole program.
pub open spec fn macro_lits_wrapped_program(p: Program) -> bool {
    forall|i: int| 0 <= i < p.items@.len() ==> macro_lits_wrapped_item(#[trigger] p.items@[i])
}

/// The exact shape of an emitted encrypt call: the two-segment path of the
/// external encrypt macro, parenthesized, whose sole token is the original
/// literal text.
pub open spec fn enc_call_of(e: Expr, text: Seq<char>) -> bool {
    match e {
        Expr::Macro(m) => m.path@.len() == 2 && m.path@[0]@ == "cryptify"@ && m.path@[1]@
            == enc_macro_name() && m.delim == Delim::Paren && m.tokens@.len() == 1 && (
        match m.tokens@[0] {
            Token::StrLit(t) => t@ == text,
            _ => false,
        }),
        _ => false,
    }
}

/// The exact token-stream substitution of the pass: every string-literal
/// token becomes the six-token encrypt-call sequence around its text,
/// groups keep their delimiter and are rewritten recursively, and every
/// other token is unchanged, in place and in order.
pub open spec fn enc_sub_tokens(src: Seq<Token>, dst: Seq<Token>) -> bool
    decreases src,
{
    if src.len() == 0 {
        dst.len() == 0
    } else {
        match src[0] {
            Token::StrLit(t) => {
                &&& dst.len() >= 6
                &&& (match dst[0] {
                    Token::Ident(a) => a@ == "cryptify"@,
                    _ => false,
                })
                &&& dst[1] == Token::Punct(':')
                &&& dst[2] == Token::Punct(':')
                &&& (match dst[3] {
                    Token::Ident(a) => a@ == enc_macro_name(),
                    _ => false,
                })
                &&& dst[4] == Token::Punct('!')
                &&& (match dst[5] {
                    Token::Group(d, g) => d == Delim::Paren && g@.len() == 1 && (match g@[0] {
                        Token::StrLit(t2) => t2@ == t@,
                        _ => false,
                    }),
                    _ => false,
                })
                &&& enc_sub_tokens(src.drop_first(), dst.skip(6))
            },
            Token::Group(d1, g1) => {
                &&& dst.len() >= 1
                &&& (match dst[0] {
                    Token::Group(d2, g2) => d1 == d2 && enc_sub_tokens(g1@, g2@),
                    _ => false,
                })
                &&& enc_sub_tokens(src.drop_first(), dst.drop_first())
            },
            _ => {
                &&& dst.len() >= 1
                &&& dst[0] == src[0]
                &&& enc_sub_tokens(src.drop_first(), dst.drop_first())
            },
        }
    }
}

/// The structural relation between the pass's input and output: string
/// literal expressions are kept or become the emitted encrypt call around
/// their own text, macro invocations keep their callee and delimiter (an
/// encrypt call's own argument stream untouched, any other rewritten by the
/// token substitution), and every other node keeps its kind, its opaque
/// key, and its children pointwise.
pub open spec fn str_rel_expr(e: Expr, r: Expr) -> bool
    decreases e,
{
    match e {
        Expr::StrLit(s0) => r == e || enc_call_of(r, s0@),
        Expr::Assign(l0, r0) => match r {
            Expr::Assign(l2, r2) => str_rel_expr(*l0, *l2) && str_rel_expr(*r0, *r2),
            _ => false,
        },
        Expr::Call(f0, a0) => match r {
            Expr::Call(f2, a2) => str_rel_expr(*f0, *f2) && a2@.len() == a0@.len() && forall|i: int|
                0 <= i < a0@.len() ==> str_rel_expr(#[trigger] a0@[i], a2@[i]),
            _ => false,
        },
        Expr::Block(b0) => match r {
            Expr::Block(b2) => b2.stmts@.len() == b0.stmts@.len() && forall|i: int|
                0 <= i < b0.stmts@.len() ==> str_rel_stmt(#[trigger] b0.stmts@[i], b2.stmts@[i]),
            _ => false,
        },
        Expr::Macro(m0) => match r {
            Expr::Macro(m2) => m2.path == m0.path && m2.delim == m0.delim && (is_enc_macro(m0)
                ==> m2.tokens == m0.tokens) && (!is_enc_macro(m0) ==> enc_sub_tokens(
                m0.tokens@,
                m2.tokens@,
            )),
            _ => false,
        },
        Expr::Other(id0, ch0) => match r {
            Expr::Other(id2, ch2) => id2 == id0 && ch2@.len() == ch0@.len() && forall|i: int|
                0 <= i < ch0@.len() ==> str_rel_expr(#[trigger] ch0@[i], ch2@[i]),
            _ => false,
        },
        _ => r == e,
    }
}

/// `str_rel_expr` over one statement: the pattern and the adapter tag are
/// unchanged, the initializer and nested items are related.
pub open spec fn str_rel_stmt(s: Stmt, r: Stmt) -> bool
    decreases s,
{
    match s {
        Stmt::Local(l0) => match r {
            Stmt::Local(l2) => l2.pat == l0.pat && l2.tag == l0.tag && (match (l0.init, l2.init) {
                (Option::Some(e0), Option::Some(e2)) => str_rel_expr(e0, e2),
                (Option::None, Option::None) => true,
                _ => false,
            }),
            _ => false,
        },
        Stmt::Expr(e0, semi0) => match r {
            Stmt::Expr(e2, semi2) => semi2 == semi0 && str_rel_expr(e0, e2),
            _ => false,
        },
        Stmt::Item(it0) => match r {
            Stmt::Item(it2) => str_rel_item(*it0, *it2),
            _ => false,
        },
    }
}

/// `str_rel_expr` over a top-level item: a function keeps its name,
/// visibility and signature tag, its body related pointwise; every other
/// item is unchanged.
pub open spec fn str_rel_item(it: Item, r: Item) -> bool
    decreases it,
{
    match it {
        Item::Fn(f0) => match r {
            Item::Fn(g) => g.name == f0.name && g.public == f0.public && g.sig == f0.sig
                && g.body.stmts@.len() == f0.body.stmts@.len() && forall|i: int|
                0 <= i < f0.body.stmts@.len() ==> str_rel_stmt(
                    #[trigger] f0.body.stmts@[i],
                    g.body.stmts@[i],
                ),
            _ => false,
        },
        _ => r == it,
    }
}

/// `str_rel_expr` over a whole program.
pub open spec fn str_rel_program(p: Program, r: Program) -> bool {
    r.items@.len() == p.items@.len() && forall|i: int|
        0 <= i < p.items@.len() ==> str_rel_item(#[trigger] p.items@[i], r.items@[i])
}

/// Extending related streams by one substitution step keeps them related.
proof fn lemma_enc_sub_append(src: Seq<Token>, dst: Seq<Token>, s1: Token, d1: Seq<Token>)
    requires
        enc_sub_tokens(src, dst),
        enc_sub_tokens(seq![s1], d1),
    ensures
        enc_sub_tokens(src.push(s1), dst + d1),
    decreases src,
{
    if src.len() == 0 {
        assert(src.push(s1) =~= seq![s1]);
        assert(dst + d1 =~= d1);
    } else {
        assert(src.push(s1).drop_first() =~= src.drop_first().push(s1));
        assert(src.push(s1)[0] == src[0]);
        match src[0] {
            Token::StrLit(_) => {
                lemma_enc_sub_append(src.drop_first(), dst.skip(6), s1, d1);
                assert((dst + d1).skip(6) =~= dst.skip(6) + d1);
                assert(forall|q: int| 0 <= q < 6 ==> (dst + d1)[q] == dst[q]);
            },
            _ => {
                lemma_enc_sub_append(src.drop_first(), dst.drop_first(), s1, d1);
                assert((dst + d1).drop_first() =~= dst.drop_first() + d1);
                assert((dst + d1)[0] == dst[0]);
            },
        }
    }
}

/// How one step of replacement composes: processing two parts in sequence
/// under one counter leaves exactly the scan-order suffix of the
/// concatenation, and the counter adds up.
proof fn lemma_quota_split(
    a: Seq<Seq<char>>,
    b: Seq<Seq<char>>,
    ra: Seq<Seq<char>>,
    rb: Seq<Seq<char>>,
    c0: int,
    c1: int,
    c2: int,
    quota: int,
    unlimited: bool,
)
    requires
        ra == a.skip(c1 - c0),
        rb == b.skip(c2 - c1),
        c0 <= c1 <= c2,
        unlimited ==> c1 == c0 + a.len() && c2 == c1 + b.len(),
        !unlimited ==> c0 <= quota && c1 == min(c0 + a.len(), quota) && c2 == min(
            c1 + b.len(),
            quota,
        ),
    ensures
        ra + rb == (a + b).skip(c2 - c0),
        unlimited ==> c2 == c0 + (a + b).len(),
        !unlimited ==> c2 == min(c0 + (a + b).len(), quota),
{
    if unlimited || c1 - c0 == a.len() {
        lemma_skip_concat_right(a, b, c2 - c1);
        assert(ra =~= Seq::<Seq<char>>::empty());
        assert(ra + rb =~= rb);
    } else {
        assert(c1 == quota);
        assert(c2 == quota);
        assert(rb == b);
        lemma_skip_concat(a, b, c1 - c0);
    }
}

/// Builds the token form of an emitted encrypt call around one literal.
fn enc_call_tokens(text: String) -> (r: Vec<Token>)
    ensures
        token_texts(r@) == seq![text@],
        no_bare_str(r@),
        wf_tokens(r@),
        r@.len() == 6,
        (match r@[0] {
            Token::Ident(a) => a@ == "cryptify"@,
            _ => false,
        }),
        r@[1] == Token::Punct(':'),
        r@[2] == Token::Punct(':'),
        (match r@[3] {
            Token::Ident(a) => a@ == enc_macro_name(),
            _ => false,
        }),
        r@[4] == Token::Punct('!'),
        (match r@[5] {
            Token::Group(d, g) => d == Delim::Paren && g@.len() == 1 && (match g@[0] {
                Token::StrLit(t2) => t2@ == text@,
                _ => false,
            }),
            _ => false,
        }),
{
    proof {
        reveal_strlit("cryptify");
        reveal_strlit("encrypt_string");
    }
    let mut v: Vec<Token> = Vec::new();
    let ghost e: Seq<Seq<char>> = Seq::empty();
    v.push(Token::Ident("cryptify".to_owned()));
    proof {
        crate::ast::lemma_token_texts_push(Seq::empty(), v@[0]);
        assert(token_texts(v@) =~= e);
    }
    let ghost v1 = v@;
    v.push(Token::Punct(':'));
    proof {
        crate::ast::lemma_token_texts_push(v1, v@[1]);
        assert(token_texts(v@) =~= e);
    }
    let ghost v2 = v@;
    v.push(Token::Punct(':'));
    proof {
        crate::ast::lemma_token_texts_push(v2, v@[2]);
        assert(token_texts(v@) =~= e);
    }
    let ghost v3 = v@;
    v.push(Token::Ident("encrypt_string".to_owned()));
    proof {
        crate::ast::lemma_token_texts_push(v3, v@[3]);
        assert(token_texts(v@) =~= e);
    }
    let ghost v4 = v@;
    v.push(Token::Punct('!'));
    proof {
        crate::ast::lemma_token_texts_push(v4, v@[4]);
        assert(token_texts(v@) =~= e);
    }
    let mut g: Vec<Token> = Vec::new();
    g.push(Token::StrLit(text));
    proof {
        assert(token_texts(Seq::<Token>::empty()) == Seq::<Seq<char>>::empty());
        assert(g@.drop_first() =~= Seq::<Token>::empty());
        assert(g@[0] == Token::StrLit(text));
        assert(one_token_texts(g@[0]) == seq![text@]);
        assert(token_texts(g@) =~= seq![text@]);
    }
    let ghost v5 = v@;
    let ghost gv = g@;
    v.push(Token::Group(Delim::Paren, g));
    proof {
        assert(one_token_texts(v@[5]) == token_texts(gv));
        crate::ast::lemma_token_texts_push(v5, v@[5]);
        assert(token_texts(v@) =~= seq![text@]);
        assert(wf_token(v@[0]));
        assert(wf_token(v@[1]));
        assert(wf_token(v@[2]));
        assert(wf_token(v@[3]));
        assert(wf_token(v@[4]));
        assert(wf_token(gv[0]));
        assert(wf_token(v@[5]));
        assert(token_no_bare(v@[0]));
        assert(token_no_bare(v@[5]));
    }
    v
}

impl StringObfuscator {
    /// A fresh pass instance for one run.
    pub fn new(config: StringConfig) -> (s: Self)
        ensures
            s.enabled == config.enable_string_obfuscation,
            s.percentage == config.percentage,
            s.encrypted_count == 0,
            s.strings_to_encrypt == 0,
    {
        Self {
            enabled: config.enable_string_obfuscation,
            percentage: config.percentage,
            encrypted_count: 0,
            strings_to_encrypt: 0,
        }
    }

    /// Rewrites a macro invocation's token stream: every string-literal
    /// token becomes the encrypt-call substitution, applied as raw tokens
    /// and recursing into nested delimited groups. This path does not
    /// consult the expression quota; every literal token is captured.
    #[verifier::loop_isolation(false)]
    fn process_macro_tokens(tokens: Vec<Token>) -> (r: Vec<Token>)
        ensures
            token_texts(r@) == token_texts(tokens@),
            no_bare_str(r@),
            wf_tokens(tokens@) ==> wf_tokens(r@),
            enc_sub_tokens(tokens@, r@),
        decreases tokens@,
    {
        let ghost orig = tokens@;
        let mut rest = tokens;
        let mut out: Vec<Token> = Vec::new();
        let n = rest.len();
        let mut i: usize = 0;
        proof {
            assert(orig.skip(0) =~= orig);
            assert(orig.take(0) =~= Seq::<Token>::empty());
            assert(token_texts(out@) =~= token_texts(orig.take(0)));
            assert(enc_sub_tokens(orig.take(0), out@));
        }
        while i < n
            invariant
                i <= n == orig.len(),
                rest@ == orig.skip(i as int),
                token_texts(out@) == token_texts(orig.take(i as int)),
                no_bare_str(out@),
                wf_tokens(orig) ==> wf_tokens(out@),
                enc_sub_tokens(orig.take(i as int), out@),
            decreases n - i,
        {
            let t = rest.remove(0);
            proof {
                assert(t == orig[i as int]);
                assert(rest@ =~= orig.skip(i + 1));
                assert(orig.take(i + 1) =~= orig.take(i as int).push(orig[i as int]));
                crate::ast::lemma_token_texts_push(orig.take(i as int), orig[i as int]);
                assert(wf_tokens(orig) ==> wf_token(orig[i as int]));
            }
            let ghost out_before = out@;
            match t {
                Token::StrLit(s) => {
                    let mut call = enc_call_tokens(s);
                    proof {
                        lemma_token_texts_add(out_before, call@);
                        assert(enc_sub_tokens(seq![orig[i as int]], call@)) by {
                            assert(seq![orig[i as int]].drop_first() =~= Seq::<Token>::empty());
                            assert(call@.skip(6) =~= Seq::<Token>::empty());
                            assert(enc_sub_tokens(Seq::<Token>::empty(), Seq::<Token>::empty()));
                        }
                        lemma_enc_sub_append(
                            orig.take(i as int),
                            out_before,
                            orig[i as int],
                            call@,
                        );
                        assert(orig.take(i + 1) =~= orig.take(i as int).push(orig[i as int]));
                    }
                    out.append(&mut call);
                },
                Token::Group(d, g) => {
                    proof {
                        assert(decreases_to!(tokens@ => orig[i as int]));
                    }
                    let g2 = Self::process_macro_tokens(g);
                    let t2 = Token::Group(d, g2);
                    proof {
                        assert(one_token_texts(t2) == token_texts(g2@));
                        crate::ast::lemma_token_texts_push(out_before, t2);
                        assert(enc_sub_tokens(seq![orig[i as int]], seq![t2])) by {
                            assert(seq![orig[i as int]].drop_first() =~= Seq::<Token>::empty());
                            assert(seq![t2].drop_first() =~= Seq::<Token>::empty());
                            assert(enc_sub_tokens(Seq::<Token>::empty(), Seq::<Token>::empty()));
                        }
                        lemma_enc_sub_append(
                            orig.take(i as int),
                            out_before,
                            orig[i as int],
                            seq![t2],
                        );
                        assert(out_before.push(t2) =~= out_before + seq![t2]);
                        assert(orig.take(i + 1) =~= orig.take(i as int).push(orig[i as int]));
                    }
                    out.push(t2);
                },
                other => {
                    proof {
                        crate::ast::lemma_token_texts_push(out_before, orig[i as int]);
                        assert(enc_sub_tokens(seq![orig[i as int]], seq![orig[i as int]])) by {
                            assert(seq![orig[i as int]].drop_first() =~= Seq::<Token>::empty());
                            assert(enc_sub_tokens(Seq::<Token>::empty(), Seq::<Token>::empty()));
                        }
                        lemma_enc_sub_append(
                            orig.take(i as int),
                            out_before,
                            orig[i as int],
                            seq![orig[i as int]],
                        );
                        assert(out_before.push(orig[i as int]) =~= out_before + seq![
                            orig[i as int],
                        ]);
                        assert(orig.take(i + 1) =~= orig.take(i as int).push(orig[i as int]));
                    }
                    out.push(other);
                },
            }
            i = i + 1;
        }
        proof {
            assert(orig.take(n as int) =~= orig);
        }
        out
    }

    /// Rewrites one expression, replacing string-literal expression nodes
    /// while the quota allows (always, at one hundred per cent), and
    /// rewriting the token streams of macro invocations other than the
    /// encrypt macro itself. The literals that remain are exactly the last
    /// ones in scan order.
    fn str_expr(&mut self, e: Expr) -> (r: Expr)
        requires
            old(self).percentage < 100 ==> old(self).encrypted_count
                <= old(self).strings_to_encrypt,
            old(self).percentage >= 100 ==> old(self).encrypted_count + expr_texts(
                e,
                false,
            ).len() <= usize::MAX,
        ensures
            final(self).percentage == old(self).percentage,
            final(self).strings_to_encrypt == old(self).strings_to_encrypt,
            final(self).enabled == old(self).enabled,
            old(self).encrypted_count <= final(self).encrypted_count,
            old(self).percentage >= 100 ==> final(self).encrypted_count
                == old(self).encrypted_count + expr_texts(e, false).len(),
            old(self).percentage < 100 ==> final(self).encrypted_count == min(
                old(self).encrypted_count + expr_texts(e, false).len(),
                old(self).strings_to_encrypt as int,
            ),
            expr_texts(r, false) == expr_texts(e, false).skip(
                final(self).encrypted_count - old(self).encrypted_count,
            ),
            expr_texts(r, true) == expr_texts(e, true),
            wf_expr(e) ==> wf_expr(r),
            macro_lits_wrapped_expr(r),
            str_rel_expr(e, r),
        decreases e,
    {
        let ghost c0 = self.encrypted_count as int;
        let ghost quota = self.strings_to_encrypt as int;
        let ghost unlimited = self.percentage >= 100;
        match e {
            Expr::StrLit(s) => {
                let replace = self.percentage >= 100 || self.encrypted_count
                    < self.strings_to_encrypt;
                if replace {
                    self.encrypted_count = self.encrypted_count + 1;
                    proof {
                        reveal_strlit("cryptify");
                        reveal_strlit("encrypt_string");
                    }
                    let mut toks: Vec<Token> = Vec::new();
                    toks.push(Token::StrLit(s));
                    let mut path: Vec<String> = Vec::new();
                    path.push("cryptify".to_owned());
                    path.push("encrypt_string".to_owned());
                    let r = Expr::Macro(MacroCall { path, delim: Delim::Paren, tokens: toks });
                    proof {
                        match &r {
                            Expr::Macro(m) => {
                                assert(token_texts(Seq::<Token>::empty())
                                    == Seq::<Seq<char>>::empty());
                                assert(m.tokens@.drop_first() =~= Seq::<Token>::empty());
                                assert(m.tokens@[0] == Token::StrLit(s));
                                assert(one_token_texts(m.tokens@[0]) == seq![s@]);
                                assert(token_texts(m.tokens@) =~= seq![s@]);
                                assert(expr_texts(r, true) =~= expr_texts(e, true));
                                assert(expr_texts(r, false) =~= expr_texts(e, false).skip(1));
                                assert(crate::ast::valid_ident(m.path@[0]@));
                                assert(crate::ast::valid_ident(m.path@[1]@));
                                assert(valid_path(m.path@));
                                assert(wf_token(m.tokens@[0]));
                                assert(wf_tokens(m.tokens@));
                                assert(wf_expr(r));
                                assert(m.path@.last()@ == enc_macro_name());
                                assert(is_enc_macro(*m));
                                assert(m.path@[0]@ == "cryptify"@);
                                assert(m.path@[1]@ == enc_macro_name());
                                assert(enc_call_of(r, s@));
                            },
                            _ => {},
                        }
                    }
                    r
                } else {
                    let out = Expr::StrLit(s);
                    proof {
                        assert(expr_texts(e, false).skip(0) =~= expr_texts(e, false));
                        assert(out == e);
                    }
                    out
                }
            },
            Expr::Macro(m) => {
                let ghost m0 = m;
                let enc = if m.path.len() == 0 {
                    false
                } else {
                    let en = "encrypt_string".to_owned();
                    m.path[m.path.len() - 1].eq(&en)
                };
                proof {
                    assert(enc == is_enc_macro(m0));
                }
                let r = if enc {
                    Expr::Macro(m)
                } else {
                    let toks = Self::process_macro_tokens(m.tokens);
                    Expr::Macro(MacroCall { path: m.path, delim: m.delim, tokens: toks })
                };
                proof {
                    assert(expr_texts(r, false) =~= expr_texts(e, false).skip(0));
                    match &r {
                        Expr::Macro(m2) => {
                            if enc {
                                assert(is_enc_macro(*m2));
                                assert(m2.tokens == m0.tokens);
                            } else {
                                assert(no_bare_str(m2.tokens@));
                                assert(enc_sub_tokens(m0.tokens@, m2.tokens@));
                            }
                        },
                        _ => {},
                    }
                    assert(macro_lits_wrapped_expr(r));
                    assert(str_rel_expr(e, r));
                }
                r
            },
            Expr::Assign(l, r0) => {
                let ghost a = expr_texts(*l, false);
                let ghost b = expr_texts(*r0, false);
                let l2 = self.str_expr(*l);
                let ghost c1 = self.encrypted_count as int;
                let r2 = self.str_expr(*r0);
                let ghost c2 = self.encrypted_count as int;
                let out = Expr::Assign(Box::new(l2), Box::new(r2));
                proof {
                    lemma_quota_split(
                        a,
                        b,
                        expr_texts(l2, false),
                        expr_texts(r2, false),
                        c0,
                        c1,
                        c2,
                        quota,
                        unlimited,
                    );
                    assert(str_rel_expr(e, out));
                }
                out
            },
            Expr::Call(f, args) => {
                let ghost a = expr_texts(*f, false);
                let ghost b = exprs_texts(args@, false);
                let ghost args0 = args@;
                let f2 = self.str_expr(*f);
                let ghost c1 = self.encrypted_count as int;
                proof {
                    assert(decreases_to!(e => args@));
                }
                let args2 = self.str_exprs(args);
                let ghost c2 = self.encrypted_count as int;
                let out = Expr::Call(Box::new(f2), args2);
                proof {
                    lemma_quota_split(
                        a,
                        b,
                        expr_texts(f2, false),
                        exprs_texts(args2@, false),
                        c0,
                        c1,
                        c2,
                        quota,
                        unlimited,
                    );
                    if wf_expr(e) {
                        assert forall|m: int| 0 <= m < args2@.len() implies wf_expr(
                            #[trigger] args2@[m],
                        ) by {
                            assert(wf_expr(args0[m]));
                        }
                        assert(wf_expr(out));
                    }
                    match &out {
                        Expr::Call(fb, argsb) => {
                            assert(macro_lits_wrapped_expr(**fb));
                            assert forall|m: int| 0 <= m < argsb@.len() implies
                                macro_lits_wrapped_expr(#[trigger] argsb@[m]) by {
                                assert(argsb@[m] == args2@[m]);
                                assert(macro_lits_wrapped_expr(args2@[m]));
                            }
                        },
                        _ => {},
                    }
                    assert(macro_lits_wrapped_expr(out));
                    assert forall|m: int| 0 <= m < args0.len() implies str_rel_expr(
                        #[trigger] args0[m],
                        args2@[m],
                    ) by {}
                    assert(str_rel_expr(e, out));
                }
                out
            },
            Expr::Block(b) => {
                let ghost bb = b;
                proof {
                    assert(decreases_to!(e => b.stmts@));
                }
                let stmts2 = self.str_stmts(b.stmts);
                let out = Expr::Block(Block { stmts: stmts2 });
                proof {
                    if wf_expr(e) {
                        assert(wf_block(bb));
                        match &out {
                            Expr::Block(nb) => {
                                assert forall|m: int| 0 <= m < nb.stmts@.len() implies wf_stmt(
                                    #[trigger] nb.stmts@[m],
                                ) by {
                                    assert(wf_stmt(bb.stmts@[m]));
                                    assert(wf_stmt(bb.stmts@[m]) ==> wf_stmt(stmts2@[m]));
                                    assert(nb.stmts@[m] == stmts2@[m]);
                                }
                                assert(wf_block(*nb));
                            },
                            _ => {},
                        }
                        assert(wf_expr(out));
                    }
                    assert forall|m: int| 0 <= m < stmts2@.len() implies macro_lits_wrapped_stmt(
                        #[trigger] stmts2@[m],
                    ) by {}
                    assert(macro_lits_wrapped_stmts(stmts2@));
                    assert(macro_lits_wrapped_expr(out));
                    assert forall|m: int| 0 <= m < bb.stmts@.len() implies str_rel_stmt(
                        #[trigger] bb.stmts@[m],
                        stmts2@[m],
                    ) by {}
                    assert(str_rel_expr(e, out));
                }
                out
            },
            Expr::Other(id, children) => {
                let ghost children0 = children@;
                proof {
                    assert(decreases_to!(e => children@));
                }
                let children2 = self.str_exprs(children);
                let out = Expr::Other(id, children2);
                proof {
                    if wf_expr(e) {
                        assert forall|m: int| 0 <= m < children2@.len() implies wf_expr(
                            #[trigger] children2@[m],
                        ) by {
                            assert(wf_expr(children0[m]));
                        }
                        assert(wf_expr(out));
                    }
                    match &out {
                        Expr::Other(_, chb) => {
                            assert forall|m: int| 0 <= m < chb@.len() implies
                                macro_lits_wrapped_expr(#[trigger] chb@[m]) by {
                                assert(chb@[m] == children2@[m]);
                                assert(macro_lits_wrapped_expr(children2@[m]));
                            }
                        },
                        _ => {},
                    }
                    assert(macro_lits_wrapped_expr(out));
                    assert forall|m: int| 0 <= m < children0.len() implies str_rel_expr(
                        #[trigger] children0[m],
                        children2@[m],
                    ) by {}
                    assert(str_rel_expr(e, out));
                }
                out
            },
            other => {
                proof {
                    assert(expr_texts(other, false).skip(0) =~= expr_texts(other, false));
                    assert(other == e);
                }
                other
            },
        }
    }

    /// Rewrites an expression list in scan order under the shared counter.
    #[verifier::loop_isolation(false)]
    fn str_exprs(&mut self, es: Vec<Expr>) -> (r: Vec<Expr>)
        requires
            old(self).percentage < 100 ==> old(self).encrypted_count
                <= old(self).strings_to_encrypt,
            old(self).percentage >= 100 ==> old(self).encrypted_count + exprs_texts(
                es@,
                false,
            ).len() <= usize::MAX,
        ensures
            final(self).percentage == old(self).percentage,
            final(self).strings_to_encrypt == old(self).strings_to_encrypt,
            final(self).enabled == old(self).enabled,
            old(self).encrypted_count <= final(self).encrypted_count,
            old(self).percentage >= 100 ==> final(self).encrypted_count
                == old(self).encrypted_count + exprs_texts(es@, false).len(),
            old(self).percentage < 100 ==> final(self).encrypted_count == min(
                old(self).encrypted_count + exprs_texts(es@, false).len(),
                old(self).strings_to_encrypt as int,
            ),
            exprs_texts(r@, false) == exprs_texts(es@, false).skip(
                final(self).encrypted_count - old(self).encrypted_count,
            ),
            exprs_texts(r@, true) == exprs_texts(es@, true),
            forall|j: int| 0 <= j < es@.len() ==> (wf_expr(#[trigger] es@[j]) ==> wf_expr(r@[j])),
            forall|j: int| 0 <= j < r@.len() ==> macro_lits_wrapped_expr(#[trigger] r@[j]),
            forall|j: int| 0 <= j < es@.len() ==> str_rel_expr(#[trigger] es@[j], r@[j]),
            r@.len() == es@.len(),
        decreases es@,
    {
        let ghost c0 = self.encrypted_count as int;
        let ghost quota = self.strings_to_encrypt as int;
        let ghost unlimited = self.percentage >= 100;
        let ghost orig = es@;
        let mut rest = es;
        let mut out: Vec<Expr> = Vec::new();
        let n = rest.len();
        let mut i: usize = 0;
        proof {
            assert(orig.skip(0) =~= orig);
            assert(orig.take(0) =~= Seq::<Expr>::empty());
            assert(exprs_texts(out@, false) =~= exprs_texts(orig.take(0), false).skip(0));
            assert(exprs_texts(out@, true) =~= exprs_texts(orig.take(0), true));
        }
        while i < n
            invariant
                self.percentage == old(self).percentage,
                self.strings_to_encrypt == old(self).strings_to_encrypt,
                self.enabled == old(self).enabled,
                i <= n == orig.len(),
                rest@ == orig.skip(i as int),
                out@.len() == i,
                c0 <= self.encrypted_count,
                unlimited ==> self.encrypted_count == c0 + exprs_texts(
                    orig.take(i as int),
                    false,
                ).len(),
                !unlimited ==> self.encrypted_count == min(
                    c0 + exprs_texts(orig.take(i as int), false).len(),
                    quota,
                ),
                exprs_texts(out@, false) == exprs_texts(orig.take(i as int), false).skip(
                    self.encrypted_count - c0,
                ),
                exprs_texts(out@, true) == exprs_texts(orig.take(i as int), true),
                forall|j: int| 0 <= j < i ==> (wf_expr(#[trigger] orig[j]) ==> wf_expr(out@[j])),
                forall|j: int| 0 <= j < i ==> macro_lits_wrapped_expr(#[trigger] out@[j]),
                forall|j: int| 0 <= j < i ==> str_rel_expr(#[trigger] orig[j], out@[j]),
            decreases n - i,
        {
            let s = rest.remove(0);
            proof {
                assert(s == orig[i as int]);
                assert(rest@ =~= orig.skip(i + 1));
                assert(decreases_to!(es@ => s));
                assert(orig.take(i + 1) =~= orig.take(i as int).push(orig[i as int]));
                lemma_exprs_texts_push(orig.take(i as int), orig[i as int], false);
                lemma_exprs_texts_push(orig.take(i as int), orig[i as int], true);
                if unlimited {
                    assert(orig =~= orig.take(i as int) + orig.skip(i as int));
                    crate::ast::lemma_exprs_texts_add(orig.take(i as int), orig.skip(i as int), false);
                    assert(orig.skip(i as int) =~= seq![orig[i as int]] + orig.skip(i + 1));
                    crate::ast::lemma_exprs_texts_add(seq![orig[i as int]], orig.skip(i + 1), false);
                    assert(seq![orig[i as int]].drop_first() =~= Seq::<Expr>::empty());
                }
            }
            let ghost a = exprs_texts(orig.take(i as int), false);
            let ghost b = expr_texts(orig[i as int], false);
            let ghost ra = exprs_texts(out@, false);
            let ghost c1 = self.encrypted_count as int;
            let s2 = self.str_expr(s);
            let ghost c2 = self.encrypted_count as int;
            let ghost out_before = out@;
            out.push(s2);
            proof {
                lemma_exprs_texts_push(out_before, s2, false);
                lemma_exprs_texts_push(out_before, s2, true);
                lemma_quota_split(a, b, ra, expr_texts(s2, false), c0, c1, c2, quota, unlimited);
            }
            i = i + 1;
        }
        proof {
            assert(orig.take(n as int) =~= orig);
        }
        out
    }

    /// Rewrites one statement under the shared counter.
    fn str_stmt(&mut self, s: Stmt) -> (r: Stmt)
        requires
            old(self).percentage < 100 ==> old(self).encrypted_count
                <= old(self).strings_to_encrypt,
            old(self).percentage >= 100 ==> old(self).encrypted_count + stmt_texts(
                s,
                false,
            ).len() <= usize::MAX,
        ensures
            final(self).percentage == old(self).percentage,
            final(self).strings_to_encrypt == old(self).strings_to_encrypt,
            final(self).enabled == old(self).enabled,
            old(self).encrypted_count <= final(self).encrypted_count,
            old(self).percentage >= 100 ==> final(self).encrypted_count
                == old(self).encrypted_count + stmt_texts(s, false).len(),
            old(self).percentage < 100 ==> final(self).encrypted_count == min(
                old(self).encrypted_count + stmt_texts(s, false).len(),
                old(self).strings_to_encrypt as int,
            ),
            stmt_texts(r, false) == stmt_texts(s, false).skip(
                final(self).encrypted_count - old(self).encrypted_count,
            ),
            stmt_texts(r, true) == stmt_texts(s, true),
            wf_stmt(s) ==> wf_stmt(r),
            macro_lits_wrapped_stmt(r),
            str_rel_stmt(s, r),
        decreases s,
    {
        match s {
            Stmt::Local(l) => {
                let init2 = match l.init {
                    Option::Some(e) => Option::Some(self.str_expr(e)),
                    Option::None => {
                        proof {
                            assert(Seq::<Seq<char>>::empty().skip(0)
                                =~= Seq::<Seq<char>>::empty());
                        }
                        Option::None
                    },
                };
                Stmt::Local(LocalStmt { pat: l.pat, init: init2, tag: l.tag })
            },
            Stmt::Expr(e, semi) => {
                let e2 = self.str_expr(e);
                Stmt::Expr(e2, semi)
            },
            Stmt::Item(it) => {
                let it2 = self.str_item(*it);
                Stmt::Item(Box::new(it2))
            },
        }
    }

    /// Rewrites a statement list in scan order under the shared counter.
    #[verifier::loop_isolation(false)]
    fn str_stmts(&mut self, ss: Vec<Stmt>) -> (r: Vec<Stmt>)
        requires
            old(self).percentage < 100 ==> old(self).encrypted_count
                <= old(self).strings_to_encrypt,
            old(self).percentage >= 100 ==> old(self).encrypted_count + stmts_texts(
                ss@,
                false,
            ).len() <= usize::MAX,
        ensures
            final(self).percentage == old(self).percentage,
            final(self).strings_to_encrypt == old(self).strings_to_encrypt,
            final(self).enabled == old(self).enabled,
            old(self).encrypted_count <= final(self).encrypted_count,
            old(self).percentage >= 100 ==> final(self).encrypted_count
                == old(self).encrypted_count + stmts_texts(ss@, false).len(),
            old(self).percentage < 100 ==> final(self).encrypted_count == min(
                old(self).encrypted_count + stmts_texts(ss@, false).len(),
                old(self).strings_to_encrypt as int,
            ),
            stmts_texts(r@, false) == stmts_texts(ss@, false).skip(
                final(self).encrypted_count - old(self).encrypted_count,
            ),
            stmts_texts(r@, true) == stmts_texts(ss@, true),
            forall|j: int| 0 <= j < ss@.len() ==> (wf_stmt(#[trigger] ss@[j]) ==> wf_stmt(r@[j])),
            forall|j: int| 0 <= j < r@.len() ==> macro_lits_wrapped_stmt(#[trigger] r@[j]),
            forall|j: int| 0 <= j < ss@.len() ==> str_rel_stmt(#[trigger] ss@[j], r@[j]),
            r@.len() == ss@.len(),
        decreases ss@,
    {
        let ghost c0 = self.encrypted_count as int;
        let ghost quota = self.strings_to_encrypt as int;
        let ghost unlimited = self.percentage >= 100;
        let ghost orig = ss@;
        let mut rest = ss;
        let mut out: Vec<Stmt> = Vec::new();
        let n = rest.len();
        let mut i: usize = 0;
        proof {
            assert(orig.skip(0) =~= orig);
            assert(orig.take(0) =~= Seq::<Stmt>::empty());
            assert(stmts_texts(out@, false) =~= stmts_texts(orig.take(0), false).skip(0));
            assert(stmts_texts(out@, true) =~= stmts_texts(orig.take(0), true));
        }
        while i < n
            invariant
                self.percentage == old(self).percentage,
                self.strings_to_encrypt == old(self).strings_to_encrypt,
                self.enabled == old(self).enabled,
                i <= n == orig.len(),
                rest@ == orig.skip(i as int),
                out@.len() == i,
                c0 <= self.encrypted_count,
                unlimited ==> self.encrypted_count == c0 + stmts_texts(
                    orig.take(i as int),
                    false,
                ).len(),
                !unlimited ==> self.encrypted_count == min(
                    c0 + stmts_texts(orig.take(i as int), false).len(),
                    quota,
                ),
                stmts_texts(out@, false) == stmts_texts(orig.take(i as int), false).skip(
                    self.encrypted_count - c0,
                ),
                stmts_texts(out@, true) == stmts_texts(orig.take(i as int), true),
                forall|j: int| 0 <= j < i ==> (wf_stmt(#[trigger] orig[j]) ==> wf_stmt(out@[j])),
                forall|j: int| 0 <= j < i ==> macro_lits_wrapped_stmt(#[trigger] out@[j]),
                forall|j: int| 0 <= j < i ==> str_rel_stmt(#[trigger] orig[j], out@[j]),
            decreases n - i,
        {
            let s = rest.remove(0);
            proof {
                assert(s == orig[i as int]);
                assert(rest@ =~= orig.skip(i + 1));
                assert(decreases_to!(ss@ => s));
                assert(orig.take(i + 1) =~= orig.take(i as int).push(orig[i as int]));
                lemma_stmts_texts_push(orig.take(i as int), orig[i as int], false);
                lemma_stmts_texts_push(orig.take(i as int), orig[i as int], true);
                if unlimited {
                    assert(orig =~= orig.take(i as int) + orig.skip(i as int));
                    crate::ast::lemma_stmts_texts_add(orig.take(i as int), orig.skip(i as int), false);
                    assert(orig.skip(i as int) =~= seq![orig[i as int]] + orig.skip(i + 1));
                    crate::ast::lemma_stmts_texts_add(seq![orig[i as int]], orig.skip(i + 1), false);
                    assert(seq![orig[i as int]].drop_first() =~= Seq::<Stmt>::empty());
                }
            }
            let ghost a = stmts_texts(orig.take(i as int), false);
            let ghost b = stmt_texts(orig[i as int], false);
            let ghost ra = stmts_texts(out@, false);
            let ghost c1 = self.encrypted_count as int;
            let s2 = self.str_stmt(s);
            let ghost c2 = self.encrypted_count as int;
            let ghost out_before = out@;
            out.push(s2);
            proof {
                lemma_stmts_texts_push(out_before, s2, false);
                lemma_stmts_texts_push(out_before, s2, true);
                lemma_quota_split(a, b, ra, stmt_texts(s2, false), c0, c1, c2, quota, unlimited);
            }
            i = i + 1;
        }
        proof {
            assert(orig.take(n as int) =~= orig);
        }
        out
    }

    /// Rewrites one top-level item under the shared counter.
    fn str_item(&mut self, it: Item) -> (r: Item)
        requires
            old(self).percentage < 100 ==> old(self).encrypted_count
                <= old(self).strings_to_encrypt,
            old(self).percentage >= 100 ==> old(self).encrypted_count + item_texts(
                it,
                false,
            ).len() <= usize::MAX,
        ensures
            final(self).percentage == old(self).percentage,
            final(self).strings_to_encrypt == old(self).strings_to_encrypt,
            final(self).enabled == old(self).enabled,
            old(self).encrypted_count <= final(self).encrypted_count,
            old(self).percentage >= 100 ==> final(self).encrypted_count
                == old(self).encrypted_count + item_texts(it, false).len(),
            old(self).percentage < 100 ==> final(self).encrypted_count == min(
                old(self).encrypted_count + item_texts(it, false).len(),
                old(self).strings_to_encrypt as int,
            ),
            item_texts(r, false) == item_texts(it, false).skip(
                final(self).encrypted_count - old(self).encrypted_count,
            ),
            item_texts(r, true) == item_texts(it, true),
            wf_item(it) ==> wf_item(r),
            macro_lits_wrapped_item(r),
            str_rel_item(it, r),
            (match it {
                Item::Fn(f0) => match r {
                    Item::Fn(g) => g.name == f0.name && g.public == f0.public && g.sig == f0.sig,
                    _ => false,
                },
                _ => r == it,
            }),
        decreases it,
    {
        match it {
            Item::Fn(f) => {
                let ghost body0 = f.body;
                proof {
                    assert(decreases_to!(it => f.body.stmts@));
                }
                let stmts2 = self.str_stmts(f.body.stmts);
                let r2 = Item::Fn(
                    FnItem { name: f.name, public: f.public, sig: f.sig, body: Block { stmts: stmts2 } },
                );
                proof {
                    if wf_item(it) {
                        assert(wf_block(body0));
                        assert forall|m: int| 0 <= m < stmts2@.len() implies wf_stmt(
                            #[trigger] stmts2@[m],
                        ) by {
                            assert(wf_stmt(body0.stmts@[m]));
                        }
                        assert(wf_item(r2));
                    }
                }
                r2
            },
            other => {
                proof {
                    assert(item_texts(other, false).skip(0) =~= item_texts(other, false));
                }
                other
            },
        }
    }

    /// The whole pass over one program. Counts every string literal
    /// reachable by a full scan (literal tokens inside macro invocations
    /// included), fixes the quota as the ceiling of `percentage` per cent
    /// of that total (no cutoff at one hundred per cent), and replaces
    /// string-literal expressions in scan order up to the quota while
    /// capturing every literal token inside macro invocations. No text is
    /// invented or lost, and the literal expressions that remain are
    /// exactly the last ones in scan order.
    #[verifier::loop_isolation(false)]
    pub fn obfuscate_strings(&mut self, program: Program) -> (r: Program)
        requires
            program_texts(program, true).len() <= usize::MAX,
            program_texts(program, false).len() <= usize::MAX,
        ensures
            final(self).enabled == old(self).enabled,
            final(self).percentage == old(self).percentage,
            final(self).strings_to_encrypt == quota_of(
                old(self).percentage,
                program_texts(program, true).len(),
            ),
            wf_program(program) ==> wf_program(r),
            program_texts(r, true) == program_texts(program, true),
            program_texts(r, false) == program_texts(program, false).skip(
                final(self).encrypted_count as int,
            ),
            old(self).percentage >= 100 ==> final(self).encrypted_count == program_texts(
                program,
                false,
            ).len(),
            old(self).percentage < 100 ==> final(self).encrypted_count == min(
                program_texts(program, false).len() as int,
                final(self).strings_to_encrypt as int,
            ),
            r.items@.len() == program.items@.len(),
            macro_lits_wrapped_program(r),
            str_rel_program(program, r),
            forall|i: int|
                0 <= i < program.items@.len() ==> (match program.items@[i] {
                    Item::Fn(f0) => match #[trigger] r.items@[i] {
                        Item::Fn(g) => g.name == f0.name && g.public == f0.public,
                        _ => false,
                    },
                    _ => r.items@[i] == program.items@[i],
                }),
    {
        let total = count_string_literals(&program);
        let quota: usize = if self.percentage >= 100 {
            total
        } else {
            proof {
                let p = self.percentage as int;
                let t = total as int;
                assert(p * t <= 99 * t) by (nonlinear_arith)
                    requires
                        p <= 99,
                        0 <= t,
                ;
            }
            let q128 = ((self.percentage as u128) * (total as u128) + 99) / 100;
            proof {
                let p = self.percentage as int;
                let t = total as int;
                vstd::arithmetic::div_mod::lemma_div_is_ordered(
                    p * t + 99,
                    100 * t + 99,
                    100,
                );
                assert(p * t <= 99 * t) by (nonlinear_arith)
                    requires
                        p <= 99,
                        t >= 0,
                ;
                vstd::arithmetic::div_mod::lemma_fundamental_div_mod_converse(
                    100 * t + 99,
                    100,
                    t,
                    99,
                );
                assert((100 * t + 99) / 100 == t);
            }
            q128 as usize
        };
        self.strings_to_encrypt = quota;
        self.encrypted_count = 0;
        let ghost c0 = 0int;
        let ghost unlimited = self.percentage >= 100;
        let ghost orig = program.items@;
        let mut rest = program.items;
        let mut out: Vec<Item> = Vec::new();
        let n = rest.len();
        let mut i: usize = 0;
        proof {
            assert(orig.skip(0) =~= orig);
            assert(orig.take(0) =~= Seq::<Item>::empty());
            assert(items_texts(out@, false) =~= items_texts(orig.take(0), false).skip(0));
            assert(items_texts(out@, true) =~= items_texts(orig.take(0), true));
            if unlimited {
                assert(program_texts(program, false).len() <= usize::MAX);
            }
        }
        while i < n
            invariant
                self.percentage == old(self).percentage,
                self.strings_to_encrypt == quota,
                self.enabled == old(self).enabled,
                i <= n == orig.len(),
                rest@ == orig.skip(i as int),
                out@.len() == i,
                c0 <= self.encrypted_count,
                items_texts(orig, false).len() <= usize::MAX,
                unlimited ==> self.encrypted_count == c0 + items_texts(
                    orig.take(i as int),
                    false,
                ).len(),
                !unlimited ==> self.encrypted_count == min(
                    c0 + items_texts(orig.take(i as int), false).len(),
                    quota as int,
                ),
                items_texts(out@, false) == items_texts(orig.take(i as int), false).skip(
                    self.encrypted_count - c0,
                ),
                items_texts(out@, true) == items_texts(orig.take(i as int), true),
                forall|j: int| 0 <= j < i ==> (wf_item(#[trigger] orig[j]) ==> wf_item(out@[j])),
                forall|j: int| 0 <= j < i ==> macro_lits_wrapped_item(#[trigger] out@[j]),
                forall|j: int| 0 <= j < i ==> str_rel_item(#[trigger] orig[j], out@[j]),
                forall|j: int|
                    0 <= j < i ==> (match orig[j] {
                        Item::Fn(f0) => match #[trigger] out@[j] {
                            Item::Fn(g) => g.name == f0.name && g.public == f0.public,
                            _ => false,
                        },
                        _ => out@[j] == orig[j],
                    }),
            decreases n - i,
        {
            let it = rest.remove(0);
            proof {
                assert(it == orig[i as int]);
                assert(rest@ =~= orig.skip(i + 1));
                assert(orig.take(i + 1) =~= orig.take(i as int).push(orig[i as int]));
                lemma_items_texts_push(orig.take(i as int), orig[i as int], false);
                lemma_items_texts_push(orig.take(i as int), orig[i as int], true);
                if unlimited {
                    assert(orig =~= orig.take(i as int) + orig.skip(i as int));
                    crate::ast::lemma_items_texts_add(orig.take(i as int), orig.skip(i as int), false);
                    assert(orig.skip(i as int) =~= seq![orig[i as int]] + orig.skip(i + 1));
                    crate::ast::lemma_items_texts_add(seq![orig[i as int]], orig.skip(i + 1), false);
                    assert(seq![orig[i as int]].drop_first() =~= Seq::<Item>::empty());
                }
            }
            let ghost a = items_texts(orig.take(i as int), false);
            let ghost b = item_texts(orig[i as int], false);
            let ghost ra = items_texts(out@, false);
            let ghost c1 = self.encrypted_count as int;
            let it2 = self.str_item(it);
            let ghost c2 = self.encrypted_count as int;
            let ghost out_before = out@;
            out.push(it2);
            proof {
                lemma_items_texts_push(out_before, it2, false);
                lemma_items_texts_push(out_before, it2, true);
                lemma_quota_split(
                    a,
                    b,
                    ra,
                    item_texts(it2, false),
                    c0,
                    c1,
                    c2,
                    quota as int,
                    unlimited,
                );
            }
            i = i + 1;
        }
        proof {
            assert(orig.take(n as int) =~= orig);
        }
        let r = Program { items: out };
        proof {
            if wf_program(program) {
                assert forall|m: int| 0 <= m < r.items@.len() implies wf_item(
                    #[trigger] r.items@[m],
                ) by {
                    assert(wf_item(program.items@[m]));
                    assert(wf_item(orig[m]) ==> wf_item(out@[m]));
                }
            }
        }
        r
    }
}

} // verus!
