//! The identifier renaming pass: replaces eligible function and
//! local-variable identifiers with freshly generated pseudo-random names,
//! consistently across every syntactic occurrence the pass can find,
//! including identifier tokens inside opaque macro argument streams.
//!
//! The rename table maps original to generated text; a key is recorded at
//! most once per run (the first binding wins) and every later occurrence is
//! rewritten to the same generated name. Names found in import declarations
//! are blacklisted before the main traversal, since the pass cannot tell an
//! imported symbol from a local one; the entry-point name and public
//! functions keep their declared names. There is no true scope table: two
//! bindings that share a textual name collapse to one table entry, a
//! documented limitation of the textual approach.

use vstd::prelude::*;
use crate::ast::{
    Block, Expr, FnItem, Item, LocalStmt, MacroCall, OpaqueLoop, Pat, Program, Stmt, Token,
    UseTree,
};
use crate::ast::{
    expr_mentions, expr_texts, exprs_texts, item_mentions, item_texts, items_texts, pinned_expr,
    pinned_item, pinned_program, pinned_stmt, pinned_stmts, program_mentions, program_texts,
    stmt_mentions, stmt_texts, stmts_mention, stmts_texts, token_mentions, token_texts,
    tokens_mention, valid_ident, wf_block, wf_expr, wf_item, wf_program,
    wf_stmt, wf_token, wf_tokens,
};
use crate::ast::{
    lemma_exprs_texts_push, lemma_items_texts_push, lemma_stmts_texts_push, lemma_token_texts_push,
};
use crate::namegen::{lemma_obf_ident_valid, random_name, valid_obf_ident};
use crate::rng::fresh_rng;

verus! {

/// Per-run configuration of the renaming pass.
#[derive(Clone)]
pub struct RenameConfig {
    pub enable_rename_obfuscation: bool,
}

impl RenameConfig {
    /// The default configuration: renaming is off.
    pub fn default() -> (c: Self)
        ensures
            !c.enable_rename_obfuscation,
    {
        Self { enable_rename_obfuscation: false }
    }
}

/// The renaming pass state: the run-scoped rename table (an association
/// list from original to generated text, keys unique, first binding wins),
/// the import blacklist, and the per-run flag.
pub struct VariableRenamer {
    pub renamed_vars: Vec<(String, String)>,
    pub imported_functions: Vec<String>,
    pub enabled: bool,
}

/// The reserved entry-point name, which is never eligible for renaming.
pub open spec fn entry_point_name() -> Seq<char> {
    "main"@
}

/// Whether the table maps a name.
pub open spec fn tbl_maps(t: Seq<(String, String)>, k: Seq<char>) -> bool {
    exists|i: int| 0 <= i < t.len() && #[trigger] t[i].0@ == k
}

/// The generated name a mapped key resolves to: its first binding.
pub open spec fn tbl_at(t: Seq<(String, String)>, k: Seq<char>) -> Seq<char>
    decreases t,
{
    if t.len() == 0 {
        k
    } else if t[0].0@ == k {
        t[0].1@
    } else {
        tbl_at(t.drop_first(), k)
    }
}

/// Whether some entry of the table carries this generated name.
pub open spec fn tbl_has_value(t: Seq<(String, String)>, v: Seq<char>) -> bool {
    exists|i: int| 0 <= i < t.len() && #[trigger] t[i].1@ == v
}

/// The table invariant: keys are recorded at most once, and every
/// generated name has the generator's shape.
pub open spec fn tbl_inv(t: Seq<(String, String)>) -> bool {
    &&& forall|i: int, j: int| 0 <= i < j < t.len() ==> #[trigger] t[i].0@ != #[trigger] t[j].0@
    &&& forall|i: int| 0 <= i < t.len() ==> valid_obf_ident(#[trigger] t[i].1@)
}

/// Whether a name stands in the import blacklist.
pub open spec fn listed(v: Seq<String>, k: Seq<char>) -> bool {
    exists|i: int| 0 <= i < v.len() && #[trigger] v[i]@ == k
}

/// Whether an import declaration brings a name into scope: its plain
/// terminal name, or the alias of a renamed import.
pub open spec fn use_declares(u: UseTree, k: Seq<char>) -> bool
    decreases u,
{
    match u {
        UseTree::Path(_, rest) => use_declares(*rest, k),
        UseTree::Name(n) => n@ == k,
        UseTree::Rename(_, a) => a@ == k,
        UseTree::Other(_) => false,
    }
}

/// Whether any top-level import declaration of the program brings the name
/// into scope.
pub open spec fn program_imports(p: Program, k: Seq<char>) -> bool {
    exists|i: int|
        0 <= i < p.items@.len() && (match #[trigger] p.items@[i] {
            Item::Use(u) => use_declares(u, k),
            _ => false,
        })
}

/// Whether statement `j` of the list binds the name as a simple-identifier
/// local whose initializer does not mention it, with no occurrence of the
/// name in any earlier statement of the list.
pub open spec fn binding_at(ss: Seq<Stmt>, j: int, k: Seq<char>) -> bool {
    &&& 0 <= j < ss.len()
    &&& (match ss[j] {
        Stmt::Local(l0) => (match l0.pat {
            Pat::Ident(nm) => nm@ == k,
            _ => false,
        }) && (match l0.init {
            Option::Some(e0) => !expr_mentions(e0, k),
            Option::None => true,
        }),
        _ => false,
    })
    &&& (forall|m: int| 0 <= m < j ==> !stmt_mentions(#[trigger] ss[m], k))
}

/// Whether some statement of the list binds the name before any mention of
/// it: the shape under which the textual renaming eliminates the name from
/// the whole list. Kept opaque so that contracts over it match as a unit;
/// reveal it to supply or use a witness.
#[verifier::opaque]
pub open spec fn first_binding_in(ss: Seq<Stmt>, k: Seq<char>) -> bool {
    exists|j: int| #[trigger] binding_at(ss, j, k)
}

/// How the pass rewrites one identifier occurrence: kept as it was, or —
/// once the name is recorded — replaced by its first binding's generated
/// name, which later recordings never change.
pub open spec fn rn_name(t: Seq<(String, String)>, s0: Seq<char>, s2: Seq<char>) -> bool {
    s2 == s0 || (tbl_maps(t, s0) && s2 == tbl_at(t, s0))
}

/// The structural relation between a token stream and its rewriting:
/// identifier tokens are kept or mapped, groups keep their delimiter and
/// relate recursively, and every other token is unchanged, in place and in
/// order.
pub open spec fn rn_rel_tokens(t: Seq<(String, String)>, src: Seq<Token>, dst: Seq<Token>) -> bool
    decreases src,
{
    if src.len() == 0 {
        dst.len() == 0
    } else {
        &&& dst.len() >= 1
        &&& (match (src[0], dst[0]) {
            (Token::Ident(a), Token::Ident(b)) => rn_name(t, a@, b@),
            (Token::Group(d1, g1), Token::Group(d2, g2)) => d1 == d2 && rn_rel_tokens(
                t,
                g1@,
                g2@,
            ),
            _ => dst[0] == src[0] && !(src[0] is Ident) && !(src[0] is Group),
        })
        &&& rn_rel_tokens(t, src.drop_first(), dst.drop_first())
    }
}

/// The structural relation between an expression and its rewriting: every
/// node keeps its kind and its opaque key; a path keeps its length and all
/// but its final segment, which is kept or mapped; an assignment relates
/// place and value in place; a call relates callee and arguments pointwise;
/// blocks, macro streams, loop variables and opaque children relate
/// recursively; literals are untouched.
pub open spec fn rn_rel_expr(t: Seq<(String, String)>, e: Expr, r: Expr) -> bool
    decreases e,
{
    match e {
        Expr::Path(segs0) => match r {
            Expr::Path(s2) => s2@.len() == segs0@.len() && (forall|m: int|
                0 <= m < segs0@.len() - 1 ==> s2@[m] == segs0@[m]) && (segs0@.len() > 0
                ==> rn_name(t, segs0@.last()@, s2@.last()@)),
            _ => false,
        },
        Expr::Assign(l0, r0) => match r {
            Expr::Assign(l2, r2) => rn_rel_expr(t, *l0, *l2) && rn_rel_expr(t, *r0, *r2),
            _ => false,
        },
        Expr::Call(f0, a0) => match r {
            Expr::Call(f2, a2) => rn_rel_expr(t, *f0, *f2) && a2@.len() == a0@.len() && forall|
                i: int,
            |
                0 <= i < a0@.len() ==> rn_rel_expr(t, #[trigger] a0@[i], a2@[i]),
            _ => false,
        },
        Expr::Block(b0) => match r {
            Expr::Block(b2) => b2.stmts@.len() == b0.stmts@.len() && forall|i: int|
                0 <= i < b0.stmts@.len() ==> rn_rel_stmt(t, #[trigger] b0.stmts@[i], b2.stmts@[i]),
            _ => false,
        },
        Expr::Macro(m0) => match r {
            Expr::Macro(m2) => m2.path == m0.path && m2.delim == m0.delim && rn_rel_tokens(
                t,
                m0.tokens@,
                m2.tokens@,
            ),
            _ => false,
        },
        Expr::Loop(lp0) => match r {
            Expr::Loop(lq) => rn_name(t, lp0.counter@, lq.counter@) && rn_name(
                t,
                lp0.increment@,
                lq.increment@,
            ) && rn_name(t, lp0.bound@, lq.bound@),
            _ => false,
        },
        Expr::Other(id0, ch0) => match r {
            Expr::Other(id2, ch2) => id2 == id0 && ch2@.len() == ch0@.len() && forall|i: int|
                0 <= i < ch0@.len() ==> rn_rel_expr(t, #[trigger] ch0@[i], ch2@[i]),
            _ => false,
        },
        _ => r == e,
    }
}

/// `rn_rel_expr` over one statement: the adapter tag is unchanged, a
/// simple-identifier pattern is kept or mapped, any other pattern is
/// untouched, and initializer and nested items relate recursively.
pub open spec fn rn_rel_stmt(t: Seq<(String, String)>, s: Stmt, r: Stmt) -> bool
    decreases s,
{
    match s {
        Stmt::Local(l0) => match r {
            Stmt::Local(l2) => l2.tag == l0.tag && (match (l0.pat, l2.pat) {
                (Pat::Ident(n0), Pat::Ident(n2)) => rn_name(t, n0@, n2@),
                (Pat::Other(x0), p2) => p2 == Pat::Other(x0),
                _ => false,
            }) && (match (l0.init, l2.init) {
                (Option::Some(e0), Option::Some(e2)) => rn_rel_expr(t, e0, e2),
                (Option::None, Option::None) => true,
                _ => false,
            }),
            _ => false,
        },
        Stmt::Expr(e0, semi0) => match r {
            Stmt::Expr(e2, semi2) => semi2 == semi0 && rn_rel_expr(t, e0, e2),
            _ => false,
        },
        Stmt::Item(it0) => match r {
            Stmt::Item(it2) => rn_rel_item(t, *it0, *it2),
            _ => false,
        },
    }
}

/// `rn_rel_expr` over a top-level item: a function keeps its visibility and
/// signature tag, its name is kept or mapped, its body relates pointwise;
/// every other item is unchanged.
pub open spec fn rn_rel_item(t: Seq<(String, String)>, it: Item, r: Item) -> bool
    decreases it,
{
    match it {
        Item::Fn(f0) => match r {
            Item::Fn(g) => g.public == f0.public && g.sig == f0.sig && rn_name(
                t,
                f0.name@,
                g.name@,
            ) && g.body.stmts@.len() == f0.body.stmts@.len() && forall|i: int|
                0 <= i < f0.body.stmts@.len() ==> rn_rel_stmt(
                    t,
                    #[trigger] f0.body.stmts@[i],
                    g.body.stmts@[i],
                ),
            _ => false,
        },
        _ => r == it,
    }
}

/// `rn_rel_expr` over a whole program.
pub open spec fn rn_rel_program(t: Seq<(String, String)>, p: Program, r: Program) -> bool {
    r.items@.len() == p.items@.len() && forall|i: int|
        0 <= i < p.items@.len() ==> rn_rel_item(t, #[trigger] p.items@[i], r.items@[i])
}

/// The exact token-stream substitution the pass performs: identifier
/// tokens are looked up in the table (first binding) and replaced by their
/// recorded generated name, groups keep their delimiter and are rewritten
/// recursively, and every other token is unchanged, in place and in order.
pub open spec fn rn_sub_tokens(t: Seq<(String, String)>, src: Seq<Token>, dst: Seq<Token>) -> bool
    decreases src,
{
    if src.len() == 0 {
        dst.len() == 0
    } else {
        &&& dst.len() >= 1
        &&& (match (src[0], dst[0]) {
            (Token::Ident(a), Token::Ident(b)) => b@ == if tbl_maps(t, a@) {
                tbl_at(t, a@)
            } else {
                a@
            },
            (Token::Group(d1, g1), Token::Group(d2, g2)) => d1 == d2 && rn_sub_tokens(
                t,
                g1@,
                g2@,
            ),
            _ => dst[0] == src[0] && !(src[0] is Ident) && !(src[0] is Group),
        })
        &&& rn_sub_tokens(t, src.drop_first(), dst.drop_first())
    }
}

/// Extending related streams by one related token keeps them related.
proof fn lemma_rn_sub_push(
    t: Seq<(String, String)>,
    src: Seq<Token>,
    dst: Seq<Token>,
    s1: Token,
    d1: Token,
)
    requires
        rn_sub_tokens(t, src, dst),
        (match (s1, d1) {
            (Token::Ident(a), Token::Ident(b)) => b@ == if tbl_maps(t, a@) {
                tbl_at(t, a@)
            } else {
                a@
            },
            (Token::Group(g_d1, g1), Token::Group(g_d2, g2)) => g_d1 == g_d2 && rn_sub_tokens(
                t,
                g1@,
                g2@,
            ),
            _ => d1 == s1 && !(s1 is Ident) && !(s1 is Group),
        }),
    ensures
        rn_sub_tokens(t, src.push(s1), dst.push(d1)),
    decreases src,
{
    if src.len() == 0 {
        assert(src.push(s1)[0] == s1);
        assert(dst.push(d1)[0] == d1);
        assert(src.push(s1).drop_first() =~= Seq::<Token>::empty());
        assert(dst.push(d1).drop_first() =~= Seq::<Token>::empty());
        assert(rn_sub_tokens(t, Seq::<Token>::empty(), Seq::<Token>::empty()));
    } else {
        assert(src.push(s1).drop_first() =~= src.drop_first().push(s1));
        assert(dst.push(d1).drop_first() =~= dst.drop_first().push(d1));
        lemma_rn_sub_push(t, src.drop_first(), dst.drop_first(), s1, d1);
        assert(src.push(s1)[0] == src[0]);
        assert(dst.push(d1)[0] == dst[0]);
    }
}

/// What a mapped key resolves to is a recorded generated name.
proof fn lemma_tbl_at_is_value(t: Seq<(String, String)>, k: Seq<char>)
    requires
        tbl_maps(t, k),
    ensures
        tbl_has_value(t, tbl_at(t, k)),
    decreases t,
{
    if t[0].0@ == k {
        assert(t[0].1@ == tbl_at(t, k));
    } else {
        let i = choose|i: int| 0 <= i < t.len() && #[trigger] t[i].0@ == k;
        assert(t.drop_first()[i - 1].0@ == k);
        lemma_tbl_at_is_value(t.drop_first(), k);
        let j = choose|j: int|
            0 <= j < t.drop_first().len() && #[trigger] t.drop_first()[j].1@ == tbl_at(
                t.drop_first(),
                k,
            );
        assert(t[j + 1].1@ == tbl_at(t, k));
    }
}

/// A prefix's mappings and recorded names carry over to the whole table.
proof fn lemma_prefix_carries(t1: Seq<(String, String)>, t2: Seq<(String, String)>)
    requires
        t1.is_prefix_of(t2),
    ensures
        forall|k: Seq<char>| tbl_maps(t1, k) ==> tbl_maps(t2, k),
        forall|v: Seq<char>| tbl_has_value(t1, v) ==> tbl_has_value(t2, v),
{
    assert forall|k: Seq<char>| tbl_maps(t1, k) implies tbl_maps(t2, k) by {
        let i = choose|i: int| 0 <= i < t1.len() && #[trigger] t1[i].0@ == k;
        assert(t2[i] == t2.take(t1.len() as int)[i]);
        assert(t2[i].0@ == k);
    }
    assert forall|v: Seq<char>| tbl_has_value(t1, v) implies tbl_has_value(t2, v) by {
        let i = choose|i: int| 0 <= i < t1.len() && #[trigger] t1[i].1@ == v;
        assert(t2[i] == t2.take(t1.len() as int)[i]);
        assert(t2[i].1@ == v);
    }
}

/// A key mapped in a prefix resolves to the same generated name in the
/// whole table: later entries never shadow the first binding.
proof fn lemma_prefix_tbl_at(t1: Seq<(String, String)>, t2: Seq<(String, String)>, k: Seq<char>)
    requires
        t1.is_prefix_of(t2),
        tbl_maps(t1, k),
    ensures
        tbl_maps(t2, k),
        tbl_at(t2, k) == tbl_at(t1, k),
    decreases t1,
{
    lemma_prefix_carries(t1, t2);
    assert(t2[0] == t2.take(t1.len() as int)[0]);
    if t1[0].0@ == k {
    } else {
        let i = choose|i: int| 0 <= i < t1.len() && #[trigger] t1[i].0@ == k;
        assert(t1.drop_first()[i - 1].0@ == k);
        assert(t1.drop_first().is_prefix_of(t2.drop_first())) by {
            assert(t2.drop_first().take(t1.drop_first().len() as int) =~= t1.drop_first());
        }
        lemma_prefix_tbl_at(t1.drop_first(), t2.drop_first(), k);
    }
}

/// The first matching entry is what `tbl_at` resolves to.
proof fn lemma_tbl_at_first(t: Seq<(String, String)>, k: Seq<char>, i: int)
    requires
        0 <= i < t.len(),
        t[i].0@ == k,
        forall|j: int| 0 <= j < i ==> #[trigger] t[j].0@ != k,
    ensures
        tbl_at(t, k) == t[i].1@,
    decreases i,
{
    if i == 0 {
    } else {
        assert(t.drop_first()[i - 1] == t[i]);
        assert forall|j: int| 0 <= j < i - 1 implies #[trigger] t.drop_first()[j].0@ != k by {
            assert(t.drop_first()[j] == t[j + 1]);
        }
        lemma_tbl_at_first(t.drop_first(), k, i - 1);
    }
}

/// Appending a fresh key with a well-shaped generated name keeps the table
/// invariant.
proof fn lemma_tbl_push_inv(
    before: Seq<(String, String)>,
    after: Seq<(String, String)>,
    key: Seq<char>,
    value: Seq<char>,
)
    requires
        tbl_inv(before),
        !tbl_maps(before, key),
        valid_obf_ident(value),
        after.len() == before.len() + 1,
        after.take(before.len() as int) == before,
        after[before.len() as int].0@ == key,
        after[before.len() as int].1@ == value,
    ensures
        tbl_inv(after),
{
    assert forall|a: int, b: int| 0 <= a < b < after.len() implies #[trigger] after[a].0@
        != #[trigger] after[b].0@ by {
        if b < before.len() {
            assert(after[a] == before[a]);
            assert(after[b] == before[b]);
        } else {
            assert(after[a] == before[a]);
            assert(!tbl_maps(before, key));
        }
    }
    assert forall|a: int| 0 <= a < after.len() implies valid_obf_ident(
        #[trigger] after[a].1@,
    ) by {
        if a < before.len() {
            assert(after[a] == before[a]);
        }
    }
}

/// A rewritten identifier stays related when the table grows: the first
/// binding's resolution never changes.
proof fn lemma_rn_name_mono(
    t1: Seq<(String, String)>,
    t2: Seq<(String, String)>,
    s0: Seq<char>,
    s2: Seq<char>,
)
    requires
        t1.is_prefix_of(t2),
        rn_name(t1, s0, s2),
    ensures
        rn_name(t2, s0, s2),
{
    if s2 != s0 {
        lemma_prefix_tbl_at(t1, t2, s0);
    }
}

/// `rn_rel_tokens` is kept when the table grows.
proof fn lemma_rn_rel_tokens_mono(
    t1: Seq<(String, String)>,
    t2: Seq<(String, String)>,
    src: Seq<Token>,
    dst: Seq<Token>,
)
    requires
        t1.is_prefix_of(t2),
        rn_rel_tokens(t1, src, dst),
    ensures
        rn_rel_tokens(t2, src, dst),
    decreases src,
{
    if src.len() > 0 {
        match (src[0], dst[0]) {
            (Token::Ident(a), Token::Ident(b)) => {
                lemma_rn_name_mono(t1, t2, a@, b@);
            },
            (Token::Group(_, g1), Token::Group(_, g2)) => {
                lemma_rn_rel_tokens_mono(t1, t2, g1@, g2@);
            },
            _ => {},
        }
        lemma_rn_rel_tokens_mono(t1, t2, src.drop_first(), dst.drop_first());
    }
}

/// `rn_rel_expr` is kept when the table grows.
proof fn lemma_rn_rel_expr_mono(
    t1: Seq<(String, String)>,
    t2: Seq<(String, String)>,
    e: Expr,
    r: Expr,
)
    requires
        t1.is_prefix_of(t2),
        rn_rel_expr(t1, e, r),
    ensures
        rn_rel_expr(t2, e, r),
    decreases e,
{
    match e {
        Expr::Path(segs0) => {
            match r {
                Expr::Path(s2) => {
                    if segs0@.len() > 0 {
                        lemma_rn_name_mono(t1, t2, segs0@.last()@, s2@.last()@);
                    }
                },
                _ => {},
            }
        },
        Expr::Assign(l0, r0) => {
            match r {
                Expr::Assign(l2, r2) => {
                    lemma_rn_rel_expr_mono(t1, t2, *l0, *l2);
                    lemma_rn_rel_expr_mono(t1, t2, *r0, *r2);
                },
                _ => {},
            }
        },
        Expr::Call(f0, a0) => {
            match r {
                Expr::Call(f2, a2) => {
                    lemma_rn_rel_expr_mono(t1, t2, *f0, *f2);
                    assert forall|i: int| 0 <= i < a0@.len() implies rn_rel_expr(
                        t2,
                        #[trigger] a0@[i],
                        a2@[i],
                    ) by {
                        lemma_rn_rel_expr_mono(t1, t2, a0@[i], a2@[i]);
                    }
                },
                _ => {},
            }
        },
        Expr::Block(b0) => {
            match r {
                Expr::Block(b2) => {
                    assert forall|i: int| 0 <= i < b0.stmts@.len() implies rn_rel_stmt(
                        t2,
                        #[trigger] b0.stmts@[i],
                        b2.stmts@[i],
                    ) by {
                        lemma_rn_rel_stmt_mono(t1, t2, b0.stmts@[i], b2.stmts@[i]);
                    }
                },
                _ => {},
            }
        },
        Expr::Macro(m0) => {
            match r {
                Expr::Macro(m2) => {
                    lemma_rn_rel_tokens_mono(t1, t2, m0.tokens@, m2.tokens@);
                },
                _ => {},
            }
        },
        Expr::Loop(lp0) => {
            match r {
                Expr::Loop(lq) => {
                    lemma_rn_name_mono(t1, t2, lp0.counter@, lq.counter@);
                    lemma_rn_name_mono(t1, t2, lp0.increment@, lq.increment@);
                    lemma_rn_name_mono(t1, t2, lp0.bound@, lq.bound@);
                },
                _ => {},
            }
        },
        Expr::Other(_, ch0) => {
            match r {
                Expr::Other(_, ch2) => {
                    assert forall|i: int| 0 <= i < ch0@.len() implies rn_rel_expr(
                        t2,
                        #[trigger] ch0@[i],
                        ch2@[i],
                    ) by {
                        lemma_rn_rel_expr_mono(t1, t2, ch0@[i], ch2@[i]);
                    }
                },
                _ => {},
            }
        },
        _ => {},
    }
}

/// `rn_rel_stmt` is kept when the table grows.
proof fn lemma_rn_rel_stmt_mono(
    t1: Seq<(String, String)>,
    t2: Seq<(String, String)>,
    s: Stmt,
    r: Stmt,
)
    requires
        t1.is_prefix_of(t2),
        rn_rel_stmt(t1, s, r),
    ensures
        rn_rel_stmt(t2, s, r),
    decreases s,
{
    match s {
        Stmt::Local(l0) => {
            match r {
                Stmt::Local(l2) => {
                    match (l0.pat, l2.pat) {
                        (Pat::Ident(n0), Pat::Ident(n2)) => {
                            lemma_rn_name_mono(t1, t2, n0@, n2@);
                        },
                        _ => {},
                    }
                    match (l0.init, l2.init) {
                        (Option::Some(e0), Option::Some(e2)) => {
                            lemma_rn_rel_expr_mono(t1, t2, e0, e2);
                        },
                        _ => {},
                    }
                },
                _ => {},
            }
        },
        Stmt::Expr(e0, _) => {
            match r {
                Stmt::Expr(e2, _) => {
                    lemma_rn_rel_expr_mono(t1, t2, e0, e2);
                },
                _ => {},
            }
        },
        Stmt::Item(it0) => {
            match r {
                Stmt::Item(it2) => {
                    lemma_rn_rel_item_mono(t1, t2, *it0, *it2);
                },
                _ => {},
            }
        },
    }
}

/// `rn_rel_item` is kept when the table grows.
proof fn lemma_rn_rel_item_mono(
    t1: Seq<(String, String)>,
    t2: Seq<(String, String)>,
    it: Item,
    r: Item,
)
    requires
        t1.is_prefix_of(t2),
        rn_rel_item(t1, it, r),
    ensures
        rn_rel_item(t2, it, r),
    decreases it,
{
    match it {
        Item::Fn(f0) => {
            match r {
                Item::Fn(g) => {
                    lemma_rn_name_mono(t1, t2, f0.name@, g.name@);
                    assert forall|i: int| 0 <= i < f0.body.stmts@.len() implies rn_rel_stmt(
                        t2,
                        #[trigger] f0.body.stmts@[i],
                        g.body.stmts@[i],
                    ) by {
                        lemma_rn_rel_stmt_mono(t1, t2, f0.body.stmts@[i], g.body.stmts@[i]);
                    }
                },
                _ => {},
            }
        },
        _ => {},
    }
}

/// The exact token substitution of one fixed table implies the kept-or-
/// mapped relation under that table.
proof fn lemma_rn_sub_to_rel(t: Seq<(String, String)>, src: Seq<Token>, dst: Seq<Token>)
    requires
        rn_sub_tokens(t, src, dst),
    ensures
        rn_rel_tokens(t, src, dst),
    decreases src,
{
    if src.len() > 0 {
        match (src[0], dst[0]) {
            (Token::Group(_, g1), Token::Group(_, g2)) => {
                lemma_rn_sub_to_rel(t, g1@, g2@);
            },
            _ => {},
        }
        lemma_rn_sub_to_rel(t, src.drop_first(), dst.drop_first());
    }
}

/// A name without the generator's shape — longer than ten characters, or
/// holding a digit, an uppercase letter or a doubled underscore — is never
/// a generated value, so the coverage clauses' no-collision condition holds
/// for it outright.
pub proof fn lemma_no_generated_collision(t: Seq<(String, String)>, k: Seq<char>)
    requires
        tbl_inv(t),
        !valid_obf_ident(k),
    ensures
        !tbl_has_value(t, k),
{
    if tbl_has_value(t, k) {
        let i = choose|i: int| 0 <= i < t.len() && #[trigger] t[i].1@ == k;
        assert(valid_obf_ident(t[i].1@));
    }
}

/// Looks a name up in the rename table, returning the generated name of
/// its first binding.
#[verifier::loop_isolation(false)]
fn lookup(t: &Vec<(String, String)>, name: &String) -> (r: Option<String>)
    ensures
        match r {
            Option::Some(v) => tbl_maps(t@, name@) && v@ == tbl_at(t@, name@),
            Option::None => !tbl_maps(t@, name@),
        },
{
    let mut i: usize = 0;
    while i < t.len()
        invariant
            i <= t@.len(),
            forall|j: int| 0 <= j < i ==> #[trigger] t@[j].0@ != name@,
        decreases t@.len() - i,
    {
        if t[i].0.eq(name) {
            let v = t[i].1.clone();
            proof {
                lemma_tbl_at_first(t@, name@, i as int);
            }
            return Option::Some(v);
        }
        i = i + 1;
    }
    Option::None
}

/// Checks whether a name stands in the blacklist.
#[verifier::loop_isolation(false)]
fn is_listed(v: &Vec<String>, name: &String) -> (r: bool)
    ensures
        r == listed(v@, name@),
{
    let mut i: usize = 0;
    while i < v.len()
        invariant
            i <= v@.len(),
            forall|j: int| 0 <= j < i ==> #[trigger] v@[j]@ != name@,
        decreases v@.len() - i,
    {
        if v[i].eq(name) {
            return true;
        }
        i = i + 1;
    }
    false
}

impl VariableRenamer {
    /// A fresh pass instance for one run, with an empty table and
    /// blacklist.
    pub fn new(config: RenameConfig) -> (s: Self)
        ensures
            s.enabled == config.enable_rename_obfuscation,
            s.renamed_vars@ == Seq::<(String, String)>::empty(),
            s.imported_functions@ == Seq::<String>::empty(),
            tbl_inv(s.renamed_vars@),
    {
        VariableRenamer {
            renamed_vars: Vec::new(),
            imported_functions: Vec::new(),
            enabled: config.enable_rename_obfuscation,
        }
    }

    /// Records every name an import declaration brings into scope (the
    /// plain terminal name, or the alias of a renamed import) into the
    /// blacklist.
    fn identify_imported_functions(&mut self, tree: &UseTree)
        ensures
            final(self).renamed_vars == old(self).renamed_vars,
            final(self).enabled == old(self).enabled,
            forall|k: Seq<char>|
                listed(final(self).imported_functions@, k) ==> (listed(
                    old(self).imported_functions@,
                    k,
                ) || use_declares(*tree, k)),
            forall|k: Seq<char>|
                listed(old(self).imported_functions@, k) ==> listed(
                    final(self).imported_functions@,
                    k,
                ),
            forall|k: Seq<char>|
                use_declares(*tree, k) ==> listed(final(self).imported_functions@, k),
        decreases *tree,
    {
        match tree {
            UseTree::Path(_prefix, rest) => {
                self.identify_imported_functions(&**rest);
                proof {
                    reveal_with_fuel(use_declares, 2);
                    assert(*tree matches UseTree::Path(_, r2) && *r2 == **rest);
                    assert forall|k: Seq<char>| #![trigger use_declares(*tree, k)]
                        listed(self.imported_functions@, k) <==> (listed(
                            old(self).imported_functions@,
                            k,
                        ) || use_declares(*tree, k)) by {
                        assert(use_declares(*tree, k) == use_declares(**rest, k));
                        assert(listed(self.imported_functions@, k) <==> (listed(
                            old(self).imported_functions@,
                            k,
                        ) || use_declares(**rest, k)));
                    }
                }
                return;
            },
            UseTree::Name(n) => {
                let ghost nv = n@;
                let ghost before = self.imported_functions@;
                self.imported_functions.push(n.clone());
                proof {
                    assert forall|k: Seq<char>| listed(self.imported_functions@, k) <==> (listed(
                        before,
                        k,
                    ) || use_declares(*tree, k)) by {
                        assert(use_declares(*tree, k) == (nv == k));
                        if listed(before, k) {
                            let i = choose|i: int|
                                0 <= i < before.len() && #[trigger] before[i]@ == k;
                            assert(self.imported_functions@[i]@ == k);
                        }
                        if nv == k {
                            assert(self.imported_functions@[before.len() as int]@ == k);
                        }
                        if listed(self.imported_functions@, k) {
                            let i = choose|i: int|
                                0 <= i < self.imported_functions@.len()
                                    && #[trigger] self.imported_functions@[i]@ == k;
                            if i < before.len() {
                                assert(before[i]@ == k);
                            }
                        }
                    }
                }
            },
            UseTree::Rename(_, alias) => {
                let ghost nv = alias@;
                let ghost before = self.imported_functions@;
                self.imported_functions.push(alias.clone());
                proof {
                    assert forall|k: Seq<char>| listed(self.imported_functions@, k) <==> (listed(
                        before,
                        k,
                    ) || use_declares(*tree, k)) by {
                        assert(use_declares(*tree, k) == (nv == k));
                        if listed(before, k) {
                            let i = choose|i: int|
                                0 <= i < before.len() && #[trigger] before[i]@ == k;
                            assert(self.imported_functions@[i]@ == k);
                        }
                        if nv == k {
                            assert(self.imported_functions@[before.len() as int]@ == k);
                        }
                        if listed(self.imported_functions@, k) {
                            let i = choose|i: int|
                                0 <= i < self.imported_functions@.len()
                                    && #[trigger] self.imported_functions@[i]@ == k;
                            if i < before.len() {
                                assert(before[i]@ == k);
                            }
                        }
                    }
                }
            },
            UseTree::Other(_) => {},
        }
    }

    /// Rewrites a macro invocation's token stream token by token: every
    /// identifier token matching a table entry is replaced by its generated
    /// name, recursing into nested delimited groups; no other token kind is
    /// touched.
    #[verifier::loop_isolation(false)]
    fn process_tokens(&self, tokens: Vec<Token>) -> (r: Vec<Token>)
        requires
            tbl_inv(self.renamed_vars@),
        ensures
            token_texts(r@) == token_texts(tokens@),
            wf_tokens(tokens@) ==> wf_tokens(r@),
            rn_sub_tokens(self.renamed_vars@, tokens@, r@),
            forall|k: Seq<char>|
                tbl_maps(self.renamed_vars@, k) && !tbl_has_value(self.renamed_vars@, k)
                    ==> !tokens_mention(r@, k),
            forall|k: Seq<char>|
                !tokens_mention(tokens@, k) && !tbl_has_value(self.renamed_vars@, k)
                    ==> !tokens_mention(r@, k),
        decreases tokens@,
    {
        let ghost tv = self.renamed_vars@;
        let ghost orig = tokens@;
        let mut rest = tokens;
        let mut out: Vec<Token> = Vec::new();
        let n = rest.len();
        let mut i: usize = 0;
        proof {
            assert(orig.skip(0) =~= orig);
            assert(orig.take(0) =~= Seq::<Token>::empty());
            assert(token_texts(out@) =~= token_texts(orig.take(0)));
            assert(rn_sub_tokens(tv, orig.take(0), out@));
        }
        while i < n
            invariant
                i <= n == orig.len(),
                rest@ == orig.skip(i as int),
                token_texts(out@) == token_texts(orig.take(i as int)),
                wf_tokens(orig) ==> wf_tokens(out@),
                rn_sub_tokens(tv, orig.take(i as int), out@),
                forall|k: Seq<char>|
                    tbl_maps(tv, k) && !tbl_has_value(tv, k) ==> !tokens_mention(out@, k),
                forall|k: Seq<char>|
                    !tokens_mention(orig, k) && !tbl_has_value(tv, k) ==> !tokens_mention(
                        out@,
                        k,
                    ),
            decreases n - i,
        {
            let t = rest.remove(0);
            proof {
                assert(t == orig[i as int]);
                assert(rest@ =~= orig.skip(i + 1));
                assert(orig.take(i + 1) =~= orig.take(i as int).push(orig[i as int]));
                lemma_token_texts_push(orig.take(i as int), orig[i as int]);
                assert(wf_tokens(orig) ==> wf_token(orig[i as int]));
            }
            let ghost out_before = out@;
            let t2: Token = match t {
                Token::Ident(s) => {
                    match lookup(&self.renamed_vars, &s) {
                        Option::Some(v) => {
                            proof {
                                lemma_tbl_at_is_value(tv, s@);
                                lemma_obf_ident_valid(v@);
                            }
                            Token::Ident(v)
                        },
                        Option::None => Token::Ident(s),
                    }
                },
                Token::Group(d, g) => {
                    proof {
                        assert(decreases_to!(tokens@ => orig[i as int]));
                    }
                    let g2 = self.process_tokens(g);
                    Token::Group(d, g2)
                },
                other => other,
            };
            proof {
                lemma_token_texts_push(out_before, t2);
                lemma_rn_sub_push(tv, orig.take(i as int), out_before, orig[i as int], t2);
                assert forall|k: Seq<char>|
                    tbl_maps(tv, k) && !tbl_has_value(tv, k) implies !token_mentions(t2, k) by {
                    match &t2 {
                        Token::Ident(v2) => {
                            if v2@ == k {
                                assert(tbl_has_value(tv, k) || !tbl_maps(tv, k));
                            }
                        },
                        Token::Group(_, gg) => {
                            assert(!tokens_mention(gg@, k));
                            if token_mentions(t2, k) {
                                let w = choose|w: int|
                                    0 <= w < gg@.len() && token_mentions(#[trigger] gg@[w], k);
                                assert(tokens_mention(gg@, k));
                            }
                        },
                        _ => {},
                    }
                }
                assert forall|k: Seq<char>|
                    !tokens_mention(orig, k) && !tbl_has_value(tv, k) implies !token_mentions(
                    t2,
                    k,
                ) by {
                    assert(!token_mentions(orig[i as int], k));
                    match &t2 {
                        Token::Ident(v2) => {
                            if v2@ == k {
                                assert(tbl_has_value(tv, k) || !tbl_maps(tv, k));
                            }
                        },
                        Token::Group(_, gg) => {
                            match &orig[i as int] {
                                Token::Group(_, g0) => {
                                    assert(!tokens_mention(g0@, k));
                                    assert(!tokens_mention(gg@, k));
                                },
                                _ => {},
                            }
                            if token_mentions(t2, k) {
                                let w = choose|w: int|
                                    0 <= w < gg@.len() && token_mentions(#[trigger] gg@[w], k);
                                assert(tokens_mention(gg@, k));
                            }
                        },
                        _ => {},
                    }
                }
            }
            out.push(t2);
            i = i + 1;
        }
        proof {
            assert(orig.take(n as int) =~= orig);
        }
        out
    }

    /// Rewrites one expression: a path's final segment by table lookup, an
    /// assignment's place and value, a call's callee and arguments, the
    /// variables of an emitted dummy loop, macro token streams, and every
    /// nested block.
    fn rename_expr(&mut self, rng: &mut rand::rngs::ThreadRng, e: Expr) -> (r: Expr)
        requires
            tbl_inv(old(self).renamed_vars@),
        ensures
            tbl_inv(final(self).renamed_vars@),
            old(self).renamed_vars@.is_prefix_of(final(self).renamed_vars@),
            final(self).enabled == old(self).enabled,
            final(self).imported_functions == old(self).imported_functions,
            expr_texts(r, true) == expr_texts(e, true),
            expr_texts(r, false) == expr_texts(e, false),
            wf_expr(e) ==> wf_expr(r),
            forall|k: Seq<char>|
                tbl_maps(old(self).renamed_vars@, k) && !tbl_has_value(
                    final(self).renamed_vars@,
                    k,
                ) && k != entry_point_name() && !listed(old(self).imported_functions@, k)
                    && !pinned_expr(e, k) ==> !expr_mentions(r, k),
            forall|k: Seq<char>|
                !expr_mentions(e, k) && !tbl_has_value(final(self).renamed_vars@, k)
                    ==> !expr_mentions(r, k),
            rn_rel_expr(final(self).renamed_vars@, e, r),
            (match e {
                Expr::Path(segs0) => (match r {
                    Expr::Path(s2) => s2@.len() == segs0@.len() && (forall|m: int|
                        0 <= m < segs0@.len() - 1 ==> s2@[m] == segs0@[m]) && (segs0@.len() > 0
                        ==> s2@.last()@ == (if tbl_maps(old(self).renamed_vars@, segs0@.last()@) {
                        tbl_at(old(self).renamed_vars@, segs0@.last()@)
                    } else {
                        segs0@.last()@
                    })),
                    _ => false,
                }),
                Expr::Loop(lp0) => (match r {
                    Expr::Loop(lq) => lq.counter@ == (if tbl_maps(
                        old(self).renamed_vars@,
                        lp0.counter@,
                    ) {
                        tbl_at(old(self).renamed_vars@, lp0.counter@)
                    } else {
                        lp0.counter@
                    }) && lq.increment@ == (if tbl_maps(old(self).renamed_vars@, lp0.increment@) {
                        tbl_at(old(self).renamed_vars@, lp0.increment@)
                    } else {
                        lp0.increment@
                    }) && lq.bound@ == (if tbl_maps(old(self).renamed_vars@, lp0.bound@) {
                        tbl_at(old(self).renamed_vars@, lp0.bound@)
                    } else {
                        lp0.bound@
                    }),
                    _ => false,
                }),
                Expr::Macro(m0) => (match r {
                    Expr::Macro(m2) => m2.path == m0.path && m2.delim == m0.delim
                        && rn_sub_tokens(old(self).renamed_vars@, m0.tokens@, m2.tokens@),
                    _ => false,
                }),
                _ => true,
            }),
        decreases e,
    {
        let ghost t0 = self.renamed_vars@;
        match e {
            Expr::Path(segs) => {
                if segs.len() == 0 {
                    let out = Expr::Path(segs);
                    proof {
                        assert(out == e);
                        assert(rn_rel_expr(self.renamed_vars@, e, out));
                    }
                    out
                } else {
                    let li = segs.len() - 1;
                    match lookup(&self.renamed_vars, &segs[li]) {
                        Option::Some(v) => {
                            proof {
                                lemma_tbl_at_is_value(t0, segs@[li as int]@);
                                lemma_obf_ident_valid(v@);
                            }
                            let ghost vv = v@;
                            let ghost segs0 = segs@;
                            let mut s2 = segs;
                            s2.set(li, v);
                            let out = Expr::Path(s2);
                            proof {
                                assert(s2@.last()@ == vv);
                                assert(tbl_has_value(t0, vv));
                                assert(s2@ =~= segs0.update(li as int, v));
                                assert(vv == tbl_at(t0, segs0.last()@));
                                assert forall|k: Seq<char>|
                                    !tbl_has_value(t0, k) implies !expr_mentions(out, k) by {
                                    if s2@.last()@ == k {
                                        assert(tbl_has_value(t0, k));
                                    }
                                }
                                assert(rn_name(t0, segs0.last()@, s2@.last()@));
                                assert(rn_rel_expr(self.renamed_vars@, e, out));
                            }
                            out
                        },
                        Option::None => {
                            let out = Expr::Path(segs);
                            proof {
                                assert(out == e);
                                assert(rn_rel_expr(self.renamed_vars@, e, out));
                            }
                            out
                        },
                    }
                }
            },
            Expr::Assign(l, r0) => {
                let l2 = self.rename_expr(rng, *l);
                let ghost t1 = self.renamed_vars@;
                let r2 = self.rename_expr(rng, *r0);
                let ghost tf = self.renamed_vars@;
                let out = Expr::Assign(Box::new(l2), Box::new(r2));
                proof {
                    lemma_prefix_carries(t0, t1);
                    lemma_prefix_carries(t1, tf);
                    assert(t0.is_prefix_of(tf)) by {
                        assert(tf.take(t0.len() as int) =~= t1.take(t0.len() as int));
                    }
                    assert forall|k: Seq<char>|
                        tbl_maps(t0, k) && !tbl_has_value(tf, k) && k != entry_point_name()
                            && !listed(old(self).imported_functions@, k) && !pinned_expr(e, k)
                        implies !expr_mentions(out, k) by {
                        assert(!tbl_has_value(t1, k));
                        assert(!expr_mentions(l2, k));
                        assert(tbl_maps(t1, k));
                        assert(!expr_mentions(r2, k));
                    }
                    assert forall|k: Seq<char>|
                        !expr_mentions(e, k) && !tbl_has_value(tf, k) implies !expr_mentions(
                        out,
                        k,
                    ) by {
                        assert(!tbl_has_value(t1, k));
                        assert(!expr_mentions(l2, k));
                        assert(!expr_mentions(r2, k));
                    }
                    lemma_rn_rel_expr_mono(t1, tf, *l, l2);
                    assert(rn_rel_expr(tf, e, out));
                }
                out
            },
            Expr::Call(f, args) => {
                let ghost args0 = args@;
                let f2 = self.rename_expr(rng, *f);
                let ghost t1 = self.renamed_vars@;
                proof {
                    assert(decreases_to!(e => args@));
                }
                let args2 = self.rename_exprs(rng, args);
                let ghost tf = self.renamed_vars@;
                let out = Expr::Call(Box::new(f2), args2);
                proof {
                    lemma_prefix_carries(t0, t1);
                    lemma_prefix_carries(t1, tf);
                    assert(t0.is_prefix_of(tf)) by {
                        assert(tf.take(t0.len() as int) =~= t1.take(t0.len() as int));
                    }
                    assert forall|k: Seq<char>|
                        tbl_maps(t0, k) && !tbl_has_value(tf, k) && k != entry_point_name()
                            && !listed(old(self).imported_functions@, k) && !pinned_expr(e, k)
                        implies !expr_mentions(out, k) by {
                        assert(!tbl_has_value(t1, k));
                        assert(!expr_mentions(f2, k));
                        assert(tbl_maps(t1, k));
                        assert(forall|m: int|
                            0 <= m < args0.len() ==> !pinned_expr(#[trigger] args0[m], k));
                        assert(forall|m: int|
                            0 <= m < args2@.len() ==> !expr_mentions(#[trigger] args2@[m], k));
                        if expr_mentions(out, k) {
                            let w = choose|w: int|
                                0 <= w < args2@.len() && expr_mentions(#[trigger] args2@[w], k);
                        }
                    }
                    assert forall|k: Seq<char>|
                        !expr_mentions(e, k) && !tbl_has_value(tf, k) implies !expr_mentions(
                        out,
                        k,
                    ) by {
                        assert(!tbl_has_value(t1, k));
                        assert(!expr_mentions(f2, k));
                        assert(forall|m: int|
                            0 <= m < args0.len() ==> !expr_mentions(#[trigger] args0[m], k));
                        assert(forall|m: int|
                            0 <= m < args2@.len() ==> !expr_mentions(#[trigger] args2@[m], k));
                        if expr_mentions(out, k) {
                            let w = choose|w: int|
                                0 <= w < args2@.len() && expr_mentions(#[trigger] args2@[w], k);
                        }
                    }
                    if wf_expr(e) {
                        assert forall|m: int| 0 <= m < args2@.len() implies wf_expr(
                            #[trigger] args2@[m],
                        ) by {
                            assert(wf_expr(args0[m]));
                        }
                        assert(wf_expr(out));
                    }
                    lemma_rn_rel_expr_mono(t1, tf, *f, f2);
                    assert forall|m: int| 0 <= m < args0.len() implies rn_rel_expr(
                        tf,
                        #[trigger] args0[m],
                        args2@[m],
                    ) by {}
                    assert(rn_rel_expr(tf, e, out));
                }
                out
            },
            Expr::Block(b) => {
                let ghost bb = b;
                proof {
                    assert(decreases_to!(e => b.stmts@));
                }
                let stmts2 = self.rename_stmts(rng, b.stmts);
                let ghost tf = self.renamed_vars@;
                let out = Expr::Block(Block { stmts: stmts2 });
                proof {
                    assert forall|k: Seq<char>|
                        tbl_maps(t0, k) && !tbl_has_value(tf, k) && k != entry_point_name()
                            && !listed(old(self).imported_functions@, k) && !pinned_expr(e, k)
                        implies !expr_mentions(out, k) by {
                        assert(!pinned_stmts(bb.stmts@, k));
                        assert(!stmts_mention(stmts2@, k));
                    }
                    assert forall|k: Seq<char>|
                        !expr_mentions(e, k) && !tbl_has_value(tf, k) implies !expr_mentions(
                        out,
                        k,
                    ) by {
                        assert(!stmts_mention(bb.stmts@, k));
                        assert(!stmts_mention(stmts2@, k));
                    }
                    if wf_expr(e) {
                        assert(wf_block(bb));
                        match &out {
                            Expr::Block(nb) => {
                                assert forall|m: int| 0 <= m < nb.stmts@.len() implies wf_stmt(
                                    #[trigger] nb.stmts@[m],
                                ) by {
                                    assert(wf_stmt(bb.stmts@[m]));
                                    assert(wf_stmt(bb.stmts@[m]) ==> wf_stmt(stmts2@[m]));
                                    assert(nb.stmts@[m] == stmts2@[m]);
                                }
                                assert(wf_block(*nb));
                            },
                            _ => {},
                        }
                        assert(wf_expr(out));
                    }
                    assert forall|m: int| 0 <= m < bb.stmts@.len() implies rn_rel_stmt(
                        tf,
                        #[trigger] bb.stmts@[m],
                        stmts2@[m],
                    ) by {}
                    assert(rn_rel_expr(tf, e, out));
                }
                out
            },
            Expr::Macro(m) => {
                let ghost toks0 = m.tokens@;
                let toks2 = self.process_tokens(m.tokens);
                let out = Expr::Macro(MacroCall { path: m.path, delim: m.delim, tokens: toks2 });
                proof {
                    assert forall|k: Seq<char>|
                        !expr_mentions(e, k) && !tbl_has_value(t0, k) implies !expr_mentions(
                        out,
                        k,
                    ) by {
                        assert(!tokens_mention(toks0, k));
                        assert(!tokens_mention(toks2@, k));
                    }
                    lemma_rn_sub_to_rel(t0, toks0, toks2@);
                    assert(rn_rel_expr(t0, e, out));
                }
                out
            },
            Expr::Loop(lp) => {
                let c2 = match lookup(&self.renamed_vars, &lp.counter) {
                    Option::Some(v) => {
                        proof {
                            lemma_tbl_at_is_value(t0, lp.counter@);
                            lemma_obf_ident_valid(v@);
                        }
                        v
                    },
                    Option::None => lp.counter,
                };
                let i2 = match lookup(&self.renamed_vars, &lp.increment) {
                    Option::Some(v) => {
                        proof {
                            lemma_tbl_at_is_value(t0, lp.increment@);
                            lemma_obf_ident_valid(v@);
                        }
                        v
                    },
                    Option::None => lp.increment,
                };
                let b2 = match lookup(&self.renamed_vars, &lp.bound) {
                    Option::Some(v) => {
                        proof {
                            lemma_tbl_at_is_value(t0, lp.bound@);
                            lemma_obf_ident_valid(v@);
                        }
                        v
                    },
                    Option::None => lp.bound,
                };
                let out = Expr::Loop(OpaqueLoop { counter: c2, increment: i2, bound: b2 });
                proof {
                    assert forall|k: Seq<char>|
                        tbl_maps(t0, k) && !tbl_has_value(t0, k) implies !expr_mentions(out, k) by {
                        if c2@ == k || i2@ == k || b2@ == k {
                            assert(tbl_has_value(t0, k) || !tbl_maps(t0, k));
                        }
                    }
                    assert forall|k: Seq<char>|
                        !expr_mentions(e, k) && !tbl_has_value(t0, k) implies !expr_mentions(
                        out,
                        k,
                    ) by {
                        if c2@ == k || i2@ == k || b2@ == k {
                            assert(tbl_has_value(t0, k) || !tbl_maps(t0, k));
                        }
                    }
                    assert(rn_rel_expr(t0, e, out));
                }
                out
            },
            Expr::Other(id, children) => {
                let ghost children0 = children@;
                proof {
                    assert(decreases_to!(e => children@));
                }
                let children2 = self.rename_exprs(rng, children);
                let ghost tf = self.renamed_vars@;
                let out = Expr::Other(id, children2);
                proof {
                    assert forall|k: Seq<char>|
                        !expr_mentions(e, k) && !tbl_has_value(tf, k) implies !expr_mentions(
                        out,
                        k,
                    ) by {
                        assert(forall|m: int|
                            0 <= m < children0.len() ==> !expr_mentions(#[trigger] children0[m], k));
                        assert(forall|m: int|
                            0 <= m < children2@.len() ==> !expr_mentions(
                                #[trigger] children2@[m],
                                k,
                            ));
                        if expr_mentions(out, k) {
                            let w = choose|w: int|
                                0 <= w < children2@.len() && expr_mentions(
                                    #[trigger] children2@[w],
                                    k,
                                );
                        }
                    }
                    assert forall|k: Seq<char>|
                        tbl_maps(t0, k) && !tbl_has_value(tf, k) && k != entry_point_name()
                            && !listed(old(self).imported_functions@, k) && !pinned_expr(e, k)
                        implies !expr_mentions(out, k) by {
                        assert(forall|m: int|
                            0 <= m < children0.len() ==> !pinned_expr(#[trigger] children0[m], k));
                        assert(forall|m: int|
                            0 <= m < children2@.len() ==> !expr_mentions(
                                #[trigger] children2@[m],
                                k,
                            ));
                        if expr_mentions(out, k) {
                            let w = choose|w: int|
                                0 <= w < children2@.len() && expr_mentions(
                                    #[trigger] children2@[w],
                                    k,
                                );
                        }
                    }
                    assert forall|m: int| 0 <= m < children0.len() implies rn_rel_expr(
                        tf,
                        #[trigger] children0[m],
                        children2@[m],
                    ) by {}
                    assert(rn_rel_expr(tf, e, out));
                    if wf_expr(e) {
                        assert forall|m: int| 0 <= m < children2@.len() implies wf_expr(
                            #[trigger] children2@[m],
                        ) by {
                            assert(wf_expr(children0[m]));
                        }
                        assert(wf_expr(out));
                    }
                }
                out
            },
            other => {
                proof {
                    assert(other == e);
                    assert(rn_rel_expr(self.renamed_vars@, e, other));
                }
                other
            },
        }
    }

    /// Rewrites an expression list in order under the shared table.
    #[verifier::loop_isolation(false)]
    fn rename_exprs(&mut self, rng: &mut rand::rngs::ThreadRng, es: Vec<Expr>) -> (r: Vec<Expr>)
        requires
            tbl_inv(old(self).renamed_vars@),
        ensures
            tbl_inv(final(self).renamed_vars@),
            old(self).renamed_vars@.is_prefix_of(final(self).renamed_vars@),
            final(self).enabled == old(self).enabled,
            final(self).imported_functions == old(self).imported_functions,
            exprs_texts(r@, true) == exprs_texts(es@, true),
            exprs_texts(r@, false) == exprs_texts(es@, false),
            forall|j: int| 0 <= j < es@.len() ==> (wf_expr(#[trigger] es@[j]) ==> wf_expr(r@[j])),
            r@.len() == es@.len(),
            forall|k: Seq<char>|
                tbl_maps(old(self).renamed_vars@, k) && !tbl_has_value(
                    final(self).renamed_vars@,
                    k,
                ) && k != entry_point_name() && !listed(old(self).imported_functions@, k) && (forall|
                    j: int,
                |
                    0 <= j < es@.len() ==> !pinned_expr(#[trigger] es@[j], k)) ==> (forall|j: int|
                    0 <= j < r@.len() ==> !expr_mentions(#[trigger] r@[j], k)),
            forall|k: Seq<char>|
                (forall|j: int| 0 <= j < es@.len() ==> !expr_mentions(#[trigger] es@[j], k))
                    && !tbl_has_value(final(self).renamed_vars@, k) ==> (forall|j: int|
                    0 <= j < r@.len() ==> !expr_mentions(#[trigger] r@[j], k)),
            forall|j: int|
                0 <= j < es@.len() ==> rn_rel_expr(
                    final(self).renamed_vars@,
                    #[trigger] es@[j],
                    r@[j],
                ),
        decreases es@,
    {
        let ghost t0 = self.renamed_vars@;
        let ghost orig = es@;
        let mut rest = es;
        let mut out: Vec<Expr> = Vec::new();
        let n = rest.len();
        let mut i: usize = 0;
        proof {
            assert(orig.skip(0) =~= orig);
            assert(orig.take(0) =~= Seq::<Expr>::empty());
            assert(exprs_texts(out@, true) =~= exprs_texts(orig.take(0), true));
            assert(exprs_texts(out@, false) =~= exprs_texts(orig.take(0), false));
            assert(t0.is_prefix_of(t0)) by {
                assert(t0.take(t0.len() as int) =~= t0);
            }
        }
        while i < n
            invariant
                i <= n == orig.len(),
                rest@ == orig.skip(i as int),
                out@.len() == i,
                tbl_inv(self.renamed_vars@),
                t0.is_prefix_of(self.renamed_vars@),
                self.enabled == old(self).enabled,
                self.imported_functions == old(self).imported_functions,
                exprs_texts(out@, true) == exprs_texts(orig.take(i as int), true),
                exprs_texts(out@, false) == exprs_texts(orig.take(i as int), false),
                forall|j: int| 0 <= j < i ==> (wf_expr(#[trigger] orig[j]) ==> wf_expr(out@[j])),
                forall|k: Seq<char>|
                    tbl_maps(t0, k) && !tbl_has_value(self.renamed_vars@, k) && k
                        != entry_point_name() && !listed(old(self).imported_functions@, k) && (
                    forall|j: int| 0 <= j < orig.len() ==> !pinned_expr(#[trigger] orig[j], k))
                        ==> (forall|j: int|
                        0 <= j < out@.len() ==> !expr_mentions(#[trigger] out@[j], k)),
                forall|k: Seq<char>|
                    (forall|j: int| 0 <= j < orig.len() ==> !expr_mentions(#[trigger] orig[j], k))
                        && !tbl_has_value(self.renamed_vars@, k) ==> (forall|j: int|
                        0 <= j < out@.len() ==> !expr_mentions(#[trigger] out@[j], k)),
                forall|j: int|
                    0 <= j < i ==> rn_rel_expr(self.renamed_vars@, #[trigger] orig[j], out@[j]),
            decreases n - i,
        {
            let s = rest.remove(0);
            proof {
                assert(s == orig[i as int]);
                assert(rest@ =~= orig.skip(i + 1));
                assert(decreases_to!(es@ => s));
                assert(orig.take(i + 1) =~= orig.take(i as int).push(orig[i as int]));
                lemma_exprs_texts_push(orig.take(i as int), orig[i as int], true);
                lemma_exprs_texts_push(orig.take(i as int), orig[i as int], false);
            }
            let ghost tj = self.renamed_vars@;
            let s2 = self.rename_expr(rng, s);
            let ghost out_before = out@;
            out.push(s2);
            proof {
                lemma_exprs_texts_push(out_before, s2, true);
                lemma_exprs_texts_push(out_before, s2, false);
                lemma_prefix_carries(t0, tj);
                lemma_prefix_carries(tj, self.renamed_vars@);
                assert(t0.is_prefix_of(self.renamed_vars@)) by {
                    assert(self.renamed_vars@.take(t0.len() as int) =~= tj.take(t0.len() as int));
                }
                assert forall|j: int| 0 <= j < i + 1 implies rn_rel_expr(
                    self.renamed_vars@,
                    #[trigger] orig[j],
                    out@[j],
                ) by {
                    if j < i {
                        assert(out@[j] == out_before[j]);
                        lemma_rn_rel_expr_mono(tj, self.renamed_vars@, orig[j], out@[j]);
                    } else {
                        assert(out@[j] == s2);
                    }
                }
            }
            i = i + 1;
        }
        proof {
            assert(orig.take(n as int) =~= orig);
        }
        out
    }

    /// Rewrites one statement. A local binding's initializer is rewritten
    /// first; then, if its pattern is a simple identifier, the name is
    /// recorded (first binding wins) and the pattern rewritten to the
    /// mapped generated name.
    fn rename_stmt(&mut self, rng: &mut rand::rngs::ThreadRng, s: Stmt) -> (r: Stmt)
        requires
            tbl_inv(old(self).renamed_vars@),
        ensures
            tbl_inv(final(self).renamed_vars@),
            old(self).renamed_vars@.is_prefix_of(final(self).renamed_vars@),
            final(self).enabled == old(self).enabled,
            final(self).imported_functions == old(self).imported_functions,
            stmt_texts(r, true) == stmt_texts(s, true),
            stmt_texts(r, false) == stmt_texts(s, false),
            wf_stmt(s) ==> wf_stmt(r),
            forall|k: Seq<char>|
                tbl_maps(old(self).renamed_vars@, k) && !tbl_has_value(
                    final(self).renamed_vars@,
                    k,
                ) && k != entry_point_name() && !listed(old(self).imported_functions@, k)
                    && !pinned_stmt(s, k) ==> !stmt_mentions(r, k),
            forall|k: Seq<char>|
                !stmt_mentions(s, k) && !tbl_has_value(final(self).renamed_vars@, k)
                    ==> !stmt_mentions(r, k),
            (match s {
                Stmt::Local(l0) => match l0.pat {
                    Pat::Ident(nm) => tbl_maps(final(self).renamed_vars@, nm@) && (match r {
                        Stmt::Local(l2) => l2.tag == l0.tag && (match l2.pat {
                            Pat::Ident(nm2) => nm2@ == tbl_at(final(self).renamed_vars@, nm@),
                            _ => false,
                        }),
                        _ => false,
                    }),
                    Pat::Other(_) => (match r {
                        Stmt::Local(l2) => l2.tag == l0.tag && l2.pat == l0.pat,
                        _ => false,
                    }),
                },
                _ => true,
            }),
            (match s {
                Stmt::Local(l0) => match l0.pat {
                    Pat::Ident(nm) => ((match l0.init {
                        Option::Some(e0) => !expr_mentions(e0, nm@),
                        Option::None => true,
                    }) && !tbl_has_value(final(self).renamed_vars@, nm@)) ==> !stmt_mentions(
                        r,
                        nm@,
                    ),
                    _ => true,
                },
                _ => true,
            }),
            rn_rel_stmt(final(self).renamed_vars@, s, r),
        decreases s,
    {
        let ghost t0 = self.renamed_vars@;
        match s {
            Stmt::Local(l) => {
                let ghost init0 = l.init;
                let init2 = match l.init {
                    Option::Some(e) => Option::Some(self.rename_expr(rng, e)),
                    Option::None => Option::None,
                };
                let ghost init2g = init2;
                let ghost t1 = self.renamed_vars@;
                let pat2 = match l.pat {
                    Pat::Ident(name) => {
                        match lookup(&self.renamed_vars, &name) {
                            Option::Some(v) => {
                                proof {
                                    lemma_tbl_at_is_value(t1, name@);
                                    lemma_obf_ident_valid(v@);
                                }
                                Pat::Ident(v)
                            },
                            Option::None => {
                                let fresh = random_name(rng);
                                let ghost nmv = name@;
                                let ghost before = self.renamed_vars@;
                                self.renamed_vars.push((name, fresh.clone()));
                                proof {
                                    assert(self.renamed_vars@.drop_last() =~= before);
                                    assert(before.is_prefix_of(self.renamed_vars@)) by {
                                        assert(self.renamed_vars@.take(before.len() as int)
                                            =~= before);
                                    }
                                    lemma_obf_ident_valid(fresh@);
                                    assert(tbl_has_value(
                                        self.renamed_vars@,
                                        fresh@,
                                    )) by {
                                        assert(self.renamed_vars@[before.len() as int].1@
                                            == fresh@);
                                    }
                                    assert(self.renamed_vars@[before.len() as int].0@ == nmv);
                                    assert(tbl_maps(self.renamed_vars@, nmv));
                                    lemma_tbl_push_inv(before, self.renamed_vars@, nmv, fresh@);
                                    assert forall|j: int| 0 <= j < before.len() implies
                                        #[trigger] self.renamed_vars@[j].0@ != nmv by {
                                        assert(self.renamed_vars@[j] == before[j]);
                                    }
                                    lemma_tbl_at_first(
                                        self.renamed_vars@,
                                        nmv,
                                        before.len() as int,
                                    );
                                    assert(tbl_at(self.renamed_vars@, nmv) == fresh@);
                                }
                                Pat::Ident(fresh)
                            },
                        }
                    },
                    other_pat => other_pat,
                };
                let ghost tf = self.renamed_vars@;
                let out = Stmt::Local(LocalStmt { pat: pat2, init: init2, tag: l.tag });
                proof {
                    assert(t1.is_prefix_of(tf)) by {
                        assert(tf.take(t1.len() as int) =~= t1);
                    }
                    lemma_prefix_carries(t0, t1);
                    lemma_prefix_carries(t1, tf);
                    assert(t0.is_prefix_of(tf)) by {
                        assert(tf.take(t0.len() as int) =~= t1.take(t0.len() as int));
                    }
                    assert forall|k: Seq<char>|
                        tbl_maps(t0, k) && !tbl_has_value(tf, k) && k != entry_point_name()
                            && !listed(old(self).imported_functions@, k) && !pinned_stmt(s, k)
                        implies !stmt_mentions(out, k) by {
                        assert(!tbl_has_value(t1, k));
                        match &out {
                            Stmt::Local(l2) => {
                                match &l2.pat {
                                    Pat::Ident(nn) => {
                                        if nn@ == k {
                                            assert(tbl_has_value(tf, k));
                                        }
                                    },
                                    _ => {},
                                }
                                match &l2.init {
                                    Option::Some(e2) => {
                                        assert(!expr_mentions(*e2, k));
                                    },
                                    _ => {},
                                }
                            },
                            _ => {},
                        }
                    }
                    assert forall|k: Seq<char>|
                        !stmt_mentions(s, k) && !tbl_has_value(tf, k) implies !stmt_mentions(
                        out,
                        k,
                    ) by {
                        assert(!tbl_has_value(t1, k));
                        match &out {
                            Stmt::Local(l2) => {
                                match &l2.pat {
                                    Pat::Ident(nn) => {
                                        if nn@ == k {
                                            assert(tbl_has_value(tf, k));
                                        }
                                    },
                                    _ => {},
                                }
                                match &l2.init {
                                    Option::Some(e2) => {
                                        assert(!expr_mentions(*e2, k));
                                    },
                                    _ => {},
                                }
                            },
                            _ => {},
                        }
                    }
                    match (init0, init2g) {
                        (Option::Some(e0), Option::Some(e2)) => {
                            lemma_rn_rel_expr_mono(t1, tf, e0, e2);
                        },
                        _ => {},
                    }
                    assert(rn_rel_stmt(tf, s, out));
                }
                out
            },
            Stmt::Expr(e, semi) => {
                let ghost e0 = e;
                let e2 = self.rename_expr(rng, e);
                let ghost tf = self.renamed_vars@;
                let out = Stmt::Expr(e2, semi);
                proof {
                    assert forall|k: Seq<char>|
                        tbl_maps(t0, k) && !tbl_has_value(tf, k) && k != entry_point_name()
                            && !listed(old(self).imported_functions@, k) && !pinned_stmt(s, k)
                        implies !stmt_mentions(out, k) by {
                        assert(!pinned_expr(e0, k));
                        assert(!expr_mentions(e2, k));
                    }
                    assert forall|k: Seq<char>|
                        !stmt_mentions(s, k) && !tbl_has_value(tf, k) implies !stmt_mentions(
                        out,
                        k,
                    ) by {
                        assert(!expr_mentions(e0, k));
                        assert(!expr_mentions(e2, k));
                    }
                    assert(rn_rel_stmt(tf, s, out));
                }
                out
            },
            Stmt::Item(it) => {
                let ghost it0 = *it;
                let it2 = self.rename_item(rng, *it);
                let ghost tf = self.renamed_vars@;
                let out = Stmt::Item(Box::new(it2));
                proof {
                    assert forall|k: Seq<char>|
                        tbl_maps(t0, k) && !tbl_has_value(tf, k) && k != entry_point_name()
                            && !listed(old(self).imported_functions@, k) && !pinned_stmt(s, k)
                        implies !stmt_mentions(out, k) by {
                        assert(!pinned_item(it0, k));
                        assert(!item_mentions(it2, k));
                    }
                    assert forall|k: Seq<char>|
                        !stmt_mentions(s, k) && !tbl_has_value(tf, k) implies !stmt_mentions(
                        out,
                        k,
                    ) by {
                        assert(!item_mentions(it0, k));
                        assert(!item_mentions(it2, k));
                    }
                    assert(rn_rel_stmt(tf, s, out));
                }
                out
            },
        }
    }

    /// Rewrites a statement list in order under the shared table.
    #[verifier::loop_isolation(false)]
    fn rename_stmts(&mut self, rng: &mut rand::rngs::ThreadRng, ss: Vec<Stmt>) -> (r: Vec<Stmt>)
        requires
            tbl_inv(old(self).renamed_vars@),
        ensures
            tbl_inv(final(self).renamed_vars@),
            old(self).renamed_vars@.is_prefix_of(final(self).renamed_vars@),
            final(self).enabled == old(self).enabled,
            final(self).imported_functions == old(self).imported_functions,
            stmts_texts(r@, true) == stmts_texts(ss@, true),
            stmts_texts(r@, false) == stmts_texts(ss@, false),
            forall|j: int| 0 <= j < ss@.len() ==> (wf_stmt(#[trigger] ss@[j]) ==> wf_stmt(r@[j])),
            r@.len() == ss@.len(),
            forall|k: Seq<char>|
                tbl_maps(old(self).renamed_vars@, k) && !tbl_has_value(
                    final(self).renamed_vars@,
                    k,
                ) && k != entry_point_name() && !listed(old(self).imported_functions@, k)
                    && !pinned_stmts(ss@, k) ==> !stmts_mention(r@, k),
            forall|k: Seq<char>|
                !stmts_mention(ss@, k) && !tbl_has_value(final(self).renamed_vars@, k)
                    ==> !stmts_mention(r@, k),
            forall|k: Seq<char>|
                first_binding_in(ss@, k) && k != entry_point_name() && !listed(
                    old(self).imported_functions@,
                    k,
                ) && !tbl_has_value(final(self).renamed_vars@, k) && !pinned_stmts(ss@, k) ==> (
                tbl_maps(final(self).renamed_vars@, k) && !stmts_mention(r@, k)),
            forall|j: int|
                0 <= j < ss@.len() ==> rn_rel_stmt(
                    final(self).renamed_vars@,
                    #[trigger] ss@[j],
                    r@[j],
                ),
        decreases ss@,
    {
        let ghost t0 = self.renamed_vars@;
        let ghost orig = ss@;
        let mut rest = ss;
        let mut out: Vec<Stmt> = Vec::new();
        let n = rest.len();
        let mut i: usize = 0;
        proof {
            assert(orig.skip(0) =~= orig);
            assert(orig.take(0) =~= Seq::<Stmt>::empty());
            assert(stmts_texts(out@, true) =~= stmts_texts(orig.take(0), true));
            assert(stmts_texts(out@, false) =~= stmts_texts(orig.take(0), false));
            assert(t0.is_prefix_of(t0)) by {
                assert(t0.take(t0.len() as int) =~= t0);
            }
        }
        while i < n
            invariant
                i <= n == orig.len(),
                rest@ == orig.skip(i as int),
                out@.len() == i,
                tbl_inv(self.renamed_vars@),
                t0.is_prefix_of(self.renamed_vars@),
                self.enabled == old(self).enabled,
                self.imported_functions == old(self).imported_functions,
                stmts_texts(out@, true) == stmts_texts(orig.take(i as int), true),
                stmts_texts(out@, false) == stmts_texts(orig.take(i as int), false),
                forall|j: int| 0 <= j < i ==> (wf_stmt(#[trigger] orig[j]) ==> wf_stmt(out@[j])),
                forall|k: Seq<char>|
                    tbl_maps(t0, k) && !tbl_has_value(self.renamed_vars@, k) && k
                        != entry_point_name() && !listed(old(self).imported_functions@, k)
                        && !pinned_stmts(orig, k) ==> (forall|j: int|
                        0 <= j < out@.len() ==> !stmt_mentions(#[trigger] out@[j], k)),
                forall|k: Seq<char>|
                    !stmts_mention(orig, k) && !tbl_has_value(self.renamed_vars@, k) ==> (forall|
                        j: int,
                    |
                        0 <= j < out@.len() ==> !stmt_mentions(#[trigger] out@[j], k)),
                forall|j: int|
                    0 <= j < i ==> rn_rel_stmt(self.renamed_vars@, #[trigger] orig[j], out@[j]),
                forall|k: Seq<char>, j: int|
                    #![trigger orig[j], tbl_has_value(self.renamed_vars@, k)]
                    0 <= j < orig.len() && (match orig[j] {
                        Stmt::Local(l0) => (match l0.pat {
                            Pat::Ident(nm) => nm@ == k,
                            _ => false,
                        }) && (match l0.init {
                            Option::Some(e0) => !expr_mentions(e0, k),
                            Option::None => true,
                        }),
                        _ => false,
                    }) && (forall|m: int| 0 <= m < j ==> !stmt_mentions(#[trigger] orig[m], k))
                        && k != entry_point_name() && !listed(old(self).imported_functions@, k)
                        && !tbl_has_value(self.renamed_vars@, k) && !pinned_stmts(orig, k) ==> ((j
                        < i ==> tbl_maps(self.renamed_vars@, k)) && (forall|m: int|
                        0 <= m < out@.len() ==> !stmt_mentions(#[trigger] out@[m], k))),
            decreases n - i,
        {
            let s = rest.remove(0);
            proof {
                assert(s == orig[i as int]);
                assert(rest@ =~= orig.skip(i + 1));
                assert(decreases_to!(ss@ => s));
                assert(orig.take(i + 1) =~= orig.take(i as int).push(orig[i as int]));
                lemma_stmts_texts_push(orig.take(i as int), orig[i as int], true);
                lemma_stmts_texts_push(orig.take(i as int), orig[i as int], false);
            }
            let ghost tj = self.renamed_vars@;
            let s2 = self.rename_stmt(rng, s);
            let ghost out_before = out@;
            out.push(s2);
            proof {
                lemma_stmts_texts_push(out_before, s2, true);
                lemma_stmts_texts_push(out_before, s2, false);
                assert forall|j: int| 0 <= j < i + 1 implies rn_rel_stmt(
                    self.renamed_vars@,
                    #[trigger] orig[j],
                    out@[j],
                ) by {
                    if j < i {
                        assert(out@[j] == out_before[j]);
                        lemma_rn_rel_stmt_mono(tj, self.renamed_vars@, orig[j], out@[j]);
                    } else {
                        assert(out@[j] == s2);
                    }
                }
                lemma_prefix_carries(t0, tj);
                lemma_prefix_carries(tj, self.renamed_vars@);
                assert(t0.is_prefix_of(self.renamed_vars@)) by {
                    assert(self.renamed_vars@.take(t0.len() as int) =~= tj.take(t0.len() as int));
                }
                assert forall|k: Seq<char>|
                    tbl_maps(t0, k) && !tbl_has_value(self.renamed_vars@, k) && k
                        != entry_point_name() && !listed(old(self).imported_functions@, k)
                        && !pinned_stmts(orig, k) implies (forall|j: int|
                    0 <= j < out@.len() ==> !stmt_mentions(#[trigger] out@[j], k)) by {
                    assert(!pinned_stmt(orig[i as int], k));
                    assert(tbl_maps(tj, k));
                    assert(!stmt_mentions(s2, k));
                }
                assert forall|k: Seq<char>|
                    !stmts_mention(orig, k) && !tbl_has_value(self.renamed_vars@, k) implies (forall|
                    j: int,
                |
                    0 <= j < out@.len() ==> !stmt_mentions(#[trigger] out@[j], k)) by {
                    assert(!stmt_mentions(orig[i as int], k));
                    assert(!stmt_mentions(s2, k));
                }
                assert forall|k: Seq<char>, j: int|
                    #![trigger orig[j], tbl_has_value(self.renamed_vars@, k)]
                    0 <= j < orig.len() && (match orig[j] {
                        Stmt::Local(l0) => (match l0.pat {
                            Pat::Ident(nm) => nm@ == k,
                            _ => false,
                        }) && (match l0.init {
                            Option::Some(e0) => !expr_mentions(e0, k),
                            Option::None => true,
                        }),
                        _ => false,
                    }) && (forall|m: int| 0 <= m < j ==> !stmt_mentions(#[trigger] orig[m], k))
                        && k != entry_point_name() && !listed(old(self).imported_functions@, k)
                        && !tbl_has_value(self.renamed_vars@, k) && !pinned_stmts(orig, k) implies
                ((j < i + 1 ==> tbl_maps(self.renamed_vars@, k)) && (forall|m: int|
                    0 <= m < out@.len() ==> !stmt_mentions(#[trigger] out@[m], k))) by {
                    assert(!tbl_has_value(tj, k));
                    if i < j {
                        assert(!stmt_mentions(orig[i as int], k));
                        assert(!stmt_mentions(s2, k));
                    } else if i == j {
                        assert(!stmt_mentions(s2, k));
                        assert(tbl_maps(self.renamed_vars@, k));
                    } else {
                        assert(tbl_maps(tj, k));
                        assert(!pinned_stmt(orig[i as int], k));
                        assert(!stmt_mentions(s2, k));
                    }
                }
            }
            i = i + 1;
        }
        proof {
            assert(orig.take(n as int) =~= orig);
            assert forall|k: Seq<char>|
                tbl_maps(t0, k) && !tbl_has_value(self.renamed_vars@, k) && k
                    != entry_point_name() && !listed(old(self).imported_functions@, k)
                    && !pinned_stmts(orig, k) implies !stmts_mention(out@, k) by {
                assert(forall|j: int| 0 <= j < out@.len() ==> !stmt_mentions(#[trigger] out@[j], k));
            }
            assert forall|k: Seq<char>|
                first_binding_in(orig, k) && k != entry_point_name() && !listed(
                    old(self).imported_functions@,
                    k,
                ) && !tbl_has_value(self.renamed_vars@, k) && !pinned_stmts(orig, k) implies (
            tbl_maps(self.renamed_vars@, k) && !stmts_mention(out@, k)) by {
                reveal(first_binding_in);
                let j = choose|j: int| #[trigger] binding_at(orig, j, k);
                assert(0 <= j < orig.len());
                assert(j < i);
                assert(tbl_maps(self.renamed_vars@, k));
                assert(forall|m: int| 0 <= m < out@.len() ==> !stmt_mentions(#[trigger] out@[m], k));
            }
        }
        out
    }

    /// Rewrites one top-level item. A function whose declared name is not
    /// the entry point, not public and not blacklisted is renamed: to its
    /// recorded generated name if the name is already mapped (the first
    /// binding wins), else to a fresh one that is recorded; then the body
    /// is walked. Import and other items pass through unmodified.
    fn rename_item(&mut self, rng: &mut rand::rngs::ThreadRng, it: Item) -> (r: Item)
        requires
            tbl_inv(old(self).renamed_vars@),
        ensures
            tbl_inv(final(self).renamed_vars@),
            old(self).renamed_vars@.is_prefix_of(final(self).renamed_vars@),
            final(self).enabled == old(self).enabled,
            final(self).imported_functions == old(self).imported_functions,
            item_texts(r, true) == item_texts(it, true),
            item_texts(r, false) == item_texts(it, false),
            wf_item(it) ==> wf_item(r),
            (match it {
                Item::Fn(f0) => match r {
                    Item::Fn(g) => g.public == f0.public && g.sig == f0.sig && g.body.stmts@.len()
                        == f0.body.stmts@.len() && (f0.name@ == entry_point_name() ==> g.name@
                        == entry_point_name()) && (f0.name@ != entry_point_name() && !f0.public
                        && !listed(old(self).imported_functions@, f0.name@) ==> tbl_maps(
                        final(self).renamed_vars@,
                        f0.name@,
                    ) && g.name@ == tbl_at(final(self).renamed_vars@, f0.name@)) && ((f0.name@
                        == entry_point_name() || f0.public || listed(
                        old(self).imported_functions@,
                        f0.name@,
                    )) ==> g.name == f0.name),
                    _ => false,
                },
                _ => r == it,
            }),
            (match it {
                Item::Fn(f0) => (f0.name@ != entry_point_name() && !f0.public && !listed(
                    old(self).imported_functions@,
                    f0.name@,
                ) && !tbl_has_value(final(self).renamed_vars@, f0.name@) && !pinned_item(
                    it,
                    f0.name@,
                )) ==> !item_mentions(r, f0.name@),
                _ => true,
            }),
            (match it {
                Item::Fn(f0) => forall|k: Seq<char>|
                    first_binding_in(f0.body.stmts@, k) && k != entry_point_name() && !listed(
                        old(self).imported_functions@,
                        k,
                    ) && !tbl_has_value(final(self).renamed_vars@, k) && !pinned_item(it, k)
                        && f0.name@ != k ==> (tbl_maps(final(self).renamed_vars@, k)
                        && !item_mentions(r, k)),
                _ => true,
            }),
            forall|k: Seq<char>|
                tbl_maps(old(self).renamed_vars@, k) && !tbl_has_value(
                    final(self).renamed_vars@,
                    k,
                ) && k != entry_point_name() && !listed(old(self).imported_functions@, k)
                    && !pinned_item(it, k) ==> !item_mentions(r, k),
            forall|k: Seq<char>|
                !item_mentions(it, k) && !tbl_has_value(final(self).renamed_vars@, k)
                    ==> !item_mentions(r, k),
            rn_rel_item(final(self).renamed_vars@, it, r),
        decreases it,
    {
        let ghost t0 = self.renamed_vars@;
        match it {
            Item::Fn(f) => {
                let ghost f0 = f;
                let main_s = "main".to_owned();
                let is_main = f.name.eq(&main_s);
                let blacklisted = is_listed(&self.imported_functions, &f.name);
                let eligible = !is_main && !f.public && !blacklisted;
                let new_name: String = if eligible {
                    match lookup(&self.renamed_vars, &f.name) {
                        Option::Some(v) => {
                            proof {
                                lemma_tbl_at_is_value(t0, f.name@);
                                lemma_obf_ident_valid(v@);
                            }
                            v
                        },
                        Option::None => {
                            let fresh = random_name(rng);
                            let ghost before = self.renamed_vars@;
                            self.renamed_vars.push((f.name.clone(), fresh.clone()));
                            proof {
                                assert(before.is_prefix_of(self.renamed_vars@)) by {
                                    assert(self.renamed_vars@.take(before.len() as int)
                                        =~= before);
                                }
                                lemma_obf_ident_valid(fresh@);
                                assert(tbl_has_value(self.renamed_vars@, fresh@)) by {
                                    assert(self.renamed_vars@[before.len() as int].1@ == fresh@);
                                }
                                assert(self.renamed_vars@[before.len() as int].0@ == f0.name@);
                                assert(tbl_maps(self.renamed_vars@, f0.name@));
                                lemma_tbl_push_inv(before, self.renamed_vars@, f0.name@, fresh@);
                                assert forall|j: int| 0 <= j < before.len() implies
                                    #[trigger] self.renamed_vars@[j].0@ != f0.name@ by {
                                    assert(self.renamed_vars@[j] == before[j]);
                                }
                                lemma_tbl_at_first(
                                    self.renamed_vars@,
                                    f0.name@,
                                    before.len() as int,
                                );
                                assert(tbl_at(self.renamed_vars@, f0.name@) == fresh@);
                            }
                            fresh
                        },
                    }
                } else {
                    f.name.clone()
                };
                let ghost t1 = self.renamed_vars@;
                let ghost nn = new_name@;
                let stmts2 = self.rename_stmts(rng, f.body.stmts);
                let ghost tf = self.renamed_vars@;
                let out = Item::Fn(
                    FnItem { name: new_name, public: f.public, sig: f.sig, body: Block { stmts: stmts2 } },
                );
                proof {
                    assert(t0.is_prefix_of(t1)) by {
                        assert(t1.take(t0.len() as int) =~= t0);
                    }
                    lemma_prefix_carries(t0, t1);
                    lemma_prefix_carries(t1, tf);
                    assert(t0.is_prefix_of(tf)) by {
                        assert(tf.take(t0.len() as int) =~= t1.take(t0.len() as int));
                    }
                    if eligible {
                        assert(t1.is_prefix_of(tf)) by {
                            assert(tf.take(t1.len() as int) =~= t1);
                        }
                        lemma_prefix_tbl_at(t1, tf, f0.name@);
                        assert(nn == tbl_at(tf, f0.name@));
                    }
                    assert forall|k: Seq<char>|
                        tbl_maps(t0, k) && !tbl_has_value(tf, k) && k != entry_point_name()
                            && !listed(old(self).imported_functions@, k) && !pinned_item(it, k)
                        implies !item_mentions(out, k) by {
                        assert(!tbl_has_value(t1, k));
                        if nn == k {
                            if eligible {
                                assert(tbl_has_value(t1, nn));
                            } else {
                                assert(f0.name@ == k);
                                assert(!is_main);
                                assert(!blacklisted);
                                assert(f0.public);
                                assert(pinned_item(it, k));
                            }
                        }
                        assert(!pinned_stmts(f0.body.stmts@, k));
                        assert(tbl_maps(t1, k));
                        assert(!stmts_mention(stmts2@, k));
                    }
                    if f0.name@ != entry_point_name() && !f0.public && !listed(
                        old(self).imported_functions@,
                        f0.name@,
                    ) && !tbl_has_value(tf, f0.name@) && !pinned_item(it, f0.name@) {
                        // the declaration's own name: it is mapped before the
                        // body is walked, so every occurrence inside goes too
                        assert(eligible);
                        assert(tbl_maps(t1, f0.name@));
                        assert(tbl_has_value(t1, nn));
                        assert(nn != f0.name@);
                        assert(!pinned_stmts(f0.body.stmts@, f0.name@));
                        assert(!stmts_mention(stmts2@, f0.name@));
                        assert(!item_mentions(out, f0.name@));
                    }
                    assert forall|k: Seq<char>|
                        !item_mentions(it, k) && !tbl_has_value(tf, k) implies !item_mentions(
                        out,
                        k,
                    ) by {
                        assert(f0.name@ != k);
                        if nn == k {
                            if eligible {
                                assert(tbl_has_value(t1, nn));
                            }
                        }
                        assert(!stmts_mention(f0.body.stmts@, k));
                        assert(!stmts_mention(stmts2@, k));
                    }
                    assert(rn_name(tf, f0.name@, nn)) by {
                        if eligible {
                            assert(tbl_maps(tf, f0.name@) && nn == tbl_at(tf, f0.name@));
                        }
                    }
                    assert forall|m: int| 0 <= m < f0.body.stmts@.len() implies rn_rel_stmt(
                        tf,
                        #[trigger] f0.body.stmts@[m],
                        stmts2@[m],
                    ) by {}
                    assert(rn_rel_item(tf, it, out));
                    if wf_item(it) {
                        assert(wf_block(f0.body));
                        match &out {
                            Item::Fn(g) => {
                                assert forall|m: int| 0 <= m < g.body.stmts@.len() implies wf_stmt(
                                    #[trigger] g.body.stmts@[m],
                                ) by {
                                    assert(wf_stmt(f0.body.stmts@[m]));
                                    assert(wf_stmt(f0.body.stmts@[m]) ==> wf_stmt(stmts2@[m]));
                                    assert(g.body.stmts@[m] == stmts2@[m]);
                                }
                                assert(valid_ident(g.name@));
                                assert(wf_item(out));
                            },
                            _ => {},
                        }
                    }
                }
                out
            },
            other => {
                proof {
                    assert(other == it);
                    assert(rn_rel_item(self.renamed_vars@, it, other));
                }
                other
            },
        }
    }

    /// Rewrites a top-level item list in order under the shared table and
    /// the blacklist frozen by the pre-pass.
    #[verifier::loop_isolation(false)]
    #[verifier::rlimit(100)]
    fn rename_items(&mut self, rng: &mut rand::rngs::ThreadRng, items: Vec<Item>) -> (r: Vec<Item>)
        requires
            tbl_inv(old(self).renamed_vars@),
        ensures
            tbl_inv(final(self).renamed_vars@),
            old(self).renamed_vars@.is_prefix_of(final(self).renamed_vars@),
            final(self).enabled == old(self).enabled,
            final(self).imported_functions == old(self).imported_functions,
            items_texts(r@, true) == items_texts(items@, true),
            items_texts(r@, false) == items_texts(items@, false),
            r@.len() == items@.len(),
            forall|m: int|
                0 <= m < items@.len() ==> (wf_item(#[trigger] items@[m]) ==> wf_item(r@[m])),
            forall|m: int|
                0 <= m < items@.len() ==> (match items@[m] {
                    Item::Fn(f0) => match #[trigger] r@[m] {
                        Item::Fn(g) => g.public == f0.public && g.body.stmts@.len()
                            == f0.body.stmts@.len() && (f0.name@ == entry_point_name() ==> g.name@
                            == entry_point_name()) && (f0.name@ != entry_point_name() && !f0.public
                            && !listed(old(self).imported_functions@, f0.name@) ==> tbl_maps(
                            final(self).renamed_vars@,
                            f0.name@,
                        ) && g.name@ == tbl_at(final(self).renamed_vars@, f0.name@)) && ((f0.name@
                            == entry_point_name() || f0.public || listed(
                            old(self).imported_functions@,
                            f0.name@,
                        )) ==> g.name == f0.name),
                        _ => false,
                    },
                    _ => r@[m] == items@[m],
                }),
            forall|k: Seq<char>|
                tbl_maps(old(self).renamed_vars@, k) && !tbl_has_value(
                    final(self).renamed_vars@,
                    k,
                ) && k != entry_point_name() && !listed(old(self).imported_functions@, k) && (forall|
                    m: int,
                |
                    0 <= m < items@.len() ==> !pinned_item(#[trigger] items@[m], k)) ==> (forall|
                    m: int,
                |
                    0 <= m < r@.len() ==> !item_mentions(#[trigger] r@[m], k)),
            forall|k: Seq<char>|
                (forall|m: int| 0 <= m < items@.len() ==> !item_mentions(#[trigger] items@[m], k))
                    && !tbl_has_value(final(self).renamed_vars@, k) ==> (forall|m: int|
                    0 <= m < r@.len() ==> !item_mentions(#[trigger] r@[m], k)),
            forall|k: Seq<char>, d: int|
                #![trigger pinned_item(items@[d], k)]
                0 <= d < items@.len() && (match items@[d] {
                    Item::Fn(f0) => f0.name@ == k && !f0.public,
                    _ => false,
                }) && (forall|i2: int|
                    0 <= i2 < d ==> !item_mentions(#[trigger] items@[i2], k)) && k
                    != entry_point_name() && !listed(old(self).imported_functions@, k)
                    && !tbl_has_value(final(self).renamed_vars@, k) && (forall|m: int|
                    0 <= m < items@.len() ==> !pinned_item(#[trigger] items@[m], k)) ==> (forall|
                    m: int,
                |
                    0 <= m < r@.len() ==> !item_mentions(#[trigger] r@[m], k)),
            forall|k: Seq<char>, d: int|
                #![trigger pinned_item(items@[d], k)]
                0 <= d < items@.len() && (match items@[d] {
                    Item::Fn(f0) => f0.name@ != k && first_binding_in(f0.body.stmts@, k),
                    _ => false,
                }) && (forall|i2: int|
                    0 <= i2 < d ==> !item_mentions(#[trigger] items@[i2], k)) && k
                    != entry_point_name() && !listed(old(self).imported_functions@, k)
                    && !tbl_has_value(final(self).renamed_vars@, k) && (forall|m: int|
                    0 <= m < items@.len() ==> !pinned_item(#[trigger] items@[m], k)) ==> (forall|
                    m: int,
                |
                    0 <= m < r@.len() ==> !item_mentions(#[trigger] r@[m], k)),
            forall|m: int|
                0 <= m < items@.len() ==> rn_rel_item(
                    final(self).renamed_vars@,
                    #[trigger] items@[m],
                    r@[m],
                ),
    {
        let ghost t0 = self.renamed_vars@;
        let ghost frozen_imports = self.imported_functions@;
        let ghost orig = items@;
        let mut rest = items;
        let mut out: Vec<Item> = Vec::new();
        let n = rest.len();
        let mut j: usize = 0;
        proof {
            assert(orig.skip(0) =~= orig);
            assert(orig.take(0) =~= Seq::<Item>::empty());
            assert(items_texts(out@, true) =~= items_texts(orig.take(0), true));
            assert(items_texts(out@, false) =~= items_texts(orig.take(0), false));
            assert(t0.is_prefix_of(t0)) by {
                assert(t0.take(t0.len() as int) =~= t0);
            }
        }
        while j < n
            invariant
                j <= n == orig.len(),
                rest@ == orig.skip(j as int),
                out@.len() == j,
                tbl_inv(self.renamed_vars@),
                t0.is_prefix_of(self.renamed_vars@),
                self.enabled == old(self).enabled,
                self.imported_functions == old(self).imported_functions,
                items_texts(out@, true) == items_texts(orig.take(j as int), true),
                items_texts(out@, false) == items_texts(orig.take(j as int), false),
                forall|m: int| 0 <= m < j ==> (wf_item(#[trigger] orig[m]) ==> wf_item(out@[m])),
                forall|m: int|
                    0 <= m < j ==> (match orig[m] {
                        Item::Fn(f0) => match #[trigger] out@[m] {
                            Item::Fn(g) => g.public == f0.public && g.body.stmts@.len()
                                == f0.body.stmts@.len() && (f0.name@ == entry_point_name()
                                ==> g.name@ == entry_point_name()) && (f0.name@
                                != entry_point_name() && !f0.public && !listed(
                                frozen_imports,
                                f0.name@,
                            ) ==> tbl_maps(self.renamed_vars@, f0.name@) && g.name@ == tbl_at(
                                self.renamed_vars@,
                                f0.name@,
                            )) && ((f0.name@ == entry_point_name() || f0.public || listed(
                                frozen_imports,
                                f0.name@,
                            )) ==> g.name == f0.name),
                            _ => false,
                        },
                        _ => out@[m] == orig[m],
                    }),
                forall|k: Seq<char>|
                    (forall|m: int| 0 <= m < orig.len() ==> !item_mentions(#[trigger] orig[m], k))
                        && !tbl_has_value(self.renamed_vars@, k) ==> (forall|m: int|
                        0 <= m < out@.len() ==> !item_mentions(#[trigger] out@[m], k)),
                forall|k: Seq<char>, d: int|
                    #![trigger orig[d], tbl_has_value(self.renamed_vars@, k)]
                    0 <= d < orig.len() && (match orig[d] {
                        Item::Fn(f0) => f0.name@ == k && !f0.public,
                        _ => false,
                    }) && (forall|i2: int|
                        0 <= i2 < d ==> !item_mentions(#[trigger] orig[i2], k)) && k
                        != entry_point_name() && !listed(frozen_imports, k) && !tbl_has_value(
                        self.renamed_vars@,
                        k,
                    ) && (forall|m: int| 0 <= m < orig.len() ==> !pinned_item(#[trigger] orig[m], k))
                        ==> ((d < j ==> tbl_maps(self.renamed_vars@, k)) && (forall|m: int|
                        0 <= m < out@.len() ==> !item_mentions(#[trigger] out@[m], k))),
                forall|k: Seq<char>|
                    tbl_maps(t0, k) && !tbl_has_value(self.renamed_vars@, k) && k
                        != entry_point_name() && !listed(frozen_imports, k) && (forall|m: int|
                        0 <= m < orig.len() ==> !pinned_item(#[trigger] orig[m], k)) ==> (forall|
                        m: int,
                    |
                        0 <= m < out@.len() ==> !item_mentions(#[trigger] out@[m], k)),
                forall|k: Seq<char>, d: int|
                    #![trigger orig[d], tbl_has_value(self.renamed_vars@, k)]
                    0 <= d < j && (match orig[d] {
                        Item::Fn(f0) => f0.name@ != k && first_binding_in(f0.body.stmts@, k),
                        _ => false,
                    }) && k != entry_point_name() && !listed(frozen_imports, k) && !tbl_has_value(
                        self.renamed_vars@,
                        k,
                    ) && !pinned_item(orig[d], k) ==> tbl_maps(self.renamed_vars@, k),
                forall|k: Seq<char>, d: int|
                    #![trigger orig[d], listed(frozen_imports, k)]
                    0 <= d < orig.len() && (match orig[d] {
                        Item::Fn(f0) => f0.name@ != k && first_binding_in(f0.body.stmts@, k),
                        _ => false,
                    }) && (forall|i2: int|
                        0 <= i2 < d ==> !item_mentions(#[trigger] orig[i2], k)) && k
                        != entry_point_name() && !listed(frozen_imports, k) && !tbl_has_value(
                        self.renamed_vars@,
                        k,
                    ) && (forall|m: int| 0 <= m < orig.len() ==> !pinned_item(#[trigger] orig[m], k))
                        ==> (forall|m: int|
                        0 <= m < out@.len() ==> !item_mentions(#[trigger] out@[m], k)),
                forall|m: int|
                    0 <= m < j ==> rn_rel_item(self.renamed_vars@, #[trigger] orig[m], out@[m]),
            decreases n - j,
        {
            let it = rest.remove(0);
            proof {
                assert(it == orig[j as int]);
                assert(rest@ =~= orig.skip(j + 1));
                assert(orig.take(j + 1) =~= orig.take(j as int).push(orig[j as int]));
                lemma_items_texts_push(orig.take(j as int), orig[j as int], true);
                lemma_items_texts_push(orig.take(j as int), orig[j as int], false);
            }
            let ghost tj = self.renamed_vars@;
            let it2 = self.rename_item(rng, it);
            let ghost out_before = out@;
            out.push(it2);
            proof {
                lemma_items_texts_push(out_before, it2, true);
                lemma_items_texts_push(out_before, it2, false);
                assert forall|m: int| 0 <= m < j + 1 implies rn_rel_item(
                    self.renamed_vars@,
                    #[trigger] orig[m],
                    out@[m],
                ) by {
                    if m < j {
                        assert(out@[m] == out_before[m]);
                        lemma_rn_rel_item_mono(tj, self.renamed_vars@, orig[m], out@[m]);
                    } else {
                        assert(out@[m] == it2);
                    }
                }
                lemma_prefix_carries(t0, tj);
                lemma_prefix_carries(tj, self.renamed_vars@);
                assert(t0.is_prefix_of(self.renamed_vars@)) by {
                    assert(self.renamed_vars@.take(t0.len() as int) =~= tj.take(t0.len() as int));
                }
                assert forall|k: Seq<char>|
                    tbl_maps(t0, k) && !tbl_has_value(self.renamed_vars@, k) && k
                        != entry_point_name() && !listed(frozen_imports, k) && (forall|m: int|
                        0 <= m < orig.len() ==> !pinned_item(#[trigger] orig[m], k)) implies (forall|
                    m: int,
                |
                    0 <= m < out@.len() ==> !item_mentions(#[trigger] out@[m], k)) by {
                    assert(!pinned_item(orig[j as int], k));
                    assert(tbl_maps(tj, k));
                    assert(!item_mentions(it2, k));
                }
                assert(tj.is_prefix_of(self.renamed_vars@));
                assert forall|m: int| 0 <= m < out@.len() implies (match orig[m] {
                    Item::Fn(f0) => match #[trigger] out@[m] {
                        Item::Fn(g) => g.public == f0.public && g.body.stmts@.len()
                            == f0.body.stmts@.len() && (f0.name@ == entry_point_name() ==> g.name@
                            == entry_point_name()) && (f0.name@ != entry_point_name() && !f0.public
                            && !listed(frozen_imports, f0.name@) ==> tbl_maps(
                            self.renamed_vars@,
                            f0.name@,
                        ) && g.name@ == tbl_at(self.renamed_vars@, f0.name@)) && ((f0.name@
                            == entry_point_name() || f0.public || listed(
                            frozen_imports,
                            f0.name@,
                        )) ==> g.name == f0.name),
                        _ => false,
                    },
                    _ => out@[m] == orig[m],
                }) by {
                    if m < j {
                        match orig[m] {
                            Item::Fn(f0) => {
                                if f0.name@ != entry_point_name() && !f0.public && !listed(
                                    frozen_imports,
                                    f0.name@,
                                ) {
                                    lemma_prefix_tbl_at(tj, self.renamed_vars@, f0.name@);
                                }
                            },
                            _ => {},
                        }
                    }
                }
                assert forall|k: Seq<char>|
                    (forall|m: int| 0 <= m < orig.len() ==> !item_mentions(#[trigger] orig[m], k))
                        && !tbl_has_value(self.renamed_vars@, k) implies (forall|m: int|
                    0 <= m < out@.len() ==> !item_mentions(#[trigger] out@[m], k)) by {
                    assert(!item_mentions(orig[j as int], k));
                    assert(!item_mentions(it2, k));
                }
                assert forall|k: Seq<char>, d: int|
                    #![trigger orig[d], tbl_has_value(self.renamed_vars@, k)]
                    0 <= d < orig.len() && (match orig[d] {
                        Item::Fn(f0) => f0.name@ == k && !f0.public,
                        _ => false,
                    }) && (forall|i2: int|
                        0 <= i2 < d ==> !item_mentions(#[trigger] orig[i2], k)) && k
                        != entry_point_name() && !listed(frozen_imports, k) && !tbl_has_value(
                        self.renamed_vars@,
                        k,
                    ) && (forall|m: int| 0 <= m < orig.len() ==> !pinned_item(#[trigger] orig[m], k))
                        implies ((d < j + 1 ==> tbl_maps(self.renamed_vars@, k)) && (forall|m: int|
                    0 <= m < out@.len() ==> !item_mentions(#[trigger] out@[m], k))) by {
                    assert(!tbl_has_value(tj, k));
                    if j < d {
                        assert(!item_mentions(orig[j as int], k));
                        assert(!item_mentions(it2, k));
                    } else if j == d {
                        assert(!pinned_item(orig[d], k));
                        assert(!item_mentions(it2, k));
                        assert(tbl_maps(self.renamed_vars@, k));
                    } else {
                        assert(tbl_maps(tj, k));
                        assert(!pinned_item(orig[j as int], k));
                        assert(!item_mentions(it2, k));
                    }
                }
                assert forall|k: Seq<char>, d: int|
                    #![trigger orig[d], tbl_has_value(self.renamed_vars@, k)]
                    0 <= d < j + 1 && (match orig[d] {
                        Item::Fn(f0) => f0.name@ != k && first_binding_in(f0.body.stmts@, k),
                        _ => false,
                    }) && k != entry_point_name() && !listed(frozen_imports, k) && !tbl_has_value(
                        self.renamed_vars@,
                        k,
                    ) && !pinned_item(orig[d], k) implies tbl_maps(self.renamed_vars@, k) by {
                    assert(!tbl_has_value(tj, k));
                    assert(!pinned_item(orig[d], k));
                    assert(match orig[d] {
                        Item::Fn(f0) => f0.name@ != k && first_binding_in(f0.body.stmts@, k),
                        _ => false,
                    });
                    if d < j {
                        assert(tbl_maps(tj, k));
                        lemma_prefix_carries(tj, self.renamed_vars@);
                    } else {
                        assert(d == j);
                        assert(tbl_maps(self.renamed_vars@, k));
                    }
                }
                assert forall|k: Seq<char>, d: int|
                    #![trigger orig[d], tbl_has_value(self.renamed_vars@, k)]
                    0 <= d < orig.len() && (match orig[d] {
                        Item::Fn(f0) => f0.name@ != k && first_binding_in(f0.body.stmts@, k),
                        _ => false,
                    }) && (forall|i2: int|
                        0 <= i2 < d ==> !item_mentions(#[trigger] orig[i2], k)) && k
                        != entry_point_name() && !listed(frozen_imports, k) && !tbl_has_value(
                        self.renamed_vars@,
                        k,
                    ) && (forall|m: int| 0 <= m < orig.len() ==> !pinned_item(#[trigger] orig[m], k))
                        implies (forall|m: int|
                    0 <= m < out@.len() ==> !item_mentions(#[trigger] out@[m], k)) by {
                    assert(!tbl_has_value(tj, k));
                    assert(!pinned_item(orig[d], k));
                    assert(0 <= d < orig.len() && (match orig[d] {
                        Item::Fn(f0) => f0.name@ != k && first_binding_in(f0.body.stmts@, k),
                        _ => false,
                    }));
                    assert(forall|m2: int|
                        0 <= m2 < out_before.len() ==> !item_mentions(
                            #[trigger] out_before[m2],
                            k,
                        ));
                    if j < d {
                        assert(!item_mentions(orig[j as int], k));
                        assert(!item_mentions(it2, k));
                    } else if j == d {
                        assert(!pinned_item(orig[d], k));
                        assert(!item_mentions(it2, k));
                    } else {
                        assert(!pinned_item(orig[d], k));
                        assert(tbl_maps(tj, k));
                        assert(!pinned_item(orig[j as int], k));
                        assert(!item_mentions(it2, k));
                    }
                    assert forall|m: int| 0 <= m < out@.len() implies !item_mentions(
                        #[trigger] out@[m],
                        k,
                    ) by {
                        if m < j {
                            assert(out@[m] == out_before[m]);
                        } else {
                            assert(out@[m] == it2);
                        }
                    }
                }
            }
            j = j + 1;
        }
        proof {
            assert(orig.take(n as int) =~= orig);
        }
        out
    }

    /// The whole pass over one program. Import declarations are scanned
    /// first into the blacklist; then every item is rewritten under one
    /// run-scoped table. The entry point keeps its declared name, every
    /// string text is preserved, and a well-formed program stays well
    /// formed. Any name the table mapped before the pass whose generated
    /// replacement is fresh, that is not the entry point, not blacklisted
    /// and not a public function's declared name, is gone from the result.
    #[verifier::loop_isolation(false)]
    #[verifier::rlimit(100)]
    pub fn rename(&mut self, program: Program) -> (r: Program)
        requires
            tbl_inv(old(self).renamed_vars@),
        ensures
            tbl_inv(final(self).renamed_vars@),
            old(self).renamed_vars@.is_prefix_of(final(self).renamed_vars@),
            final(self).enabled == old(self).enabled,
            program_texts(r, true) == program_texts(program, true),
            program_texts(r, false) == program_texts(program, false),
            wf_program(program) ==> wf_program(r),
            r.items@.len() == program.items@.len(),
            forall|i: int|
                0 <= i < program.items@.len() ==> (match program.items@[i] {
                    Item::Fn(f0) => match #[trigger] r.items@[i] {
                        Item::Fn(g) => g.public == f0.public && g.body.stmts@.len()
                            == f0.body.stmts@.len() && (f0.name@ == entry_point_name() ==> g.name@
                            == entry_point_name()) && (f0.name@ != entry_point_name() && !f0.public
                            && !listed(final(self).imported_functions@, f0.name@) ==> tbl_maps(
                            final(self).renamed_vars@,
                            f0.name@,
                        ) && g.name@ == tbl_at(final(self).renamed_vars@, f0.name@)) && ((f0.name@
                            == entry_point_name() || f0.public || listed(
                            final(self).imported_functions@,
                            f0.name@,
                        )) ==> g.name == f0.name),
                        _ => false,
                    },
                    _ => r.items@[i] == program.items@[i],
                }),
            forall|k: Seq<char>|
                listed(final(self).imported_functions@, k) ==> (listed(
                    old(self).imported_functions@,
                    k,
                ) || program_imports(program, k)),
            forall|k: Seq<char>|
                listed(old(self).imported_functions@, k) ==> listed(
                    final(self).imported_functions@,
                    k,
                ),
            forall|k: Seq<char>|
                program_imports(program, k) ==> listed(final(self).imported_functions@, k),
            forall|k: Seq<char>|
                tbl_maps(old(self).renamed_vars@, k) && !tbl_has_value(
                    final(self).renamed_vars@,
                    k,
                ) && k != entry_point_name() && !listed(final(self).imported_functions@, k)
                    && !pinned_program(program, k) ==> !program_mentions(r, k),
            forall|k: Seq<char>|
                !program_mentions(program, k) && !tbl_has_value(final(self).renamed_vars@, k)
                    ==> !program_mentions(r, k),
            forall|k: Seq<char>, d: int|
                #![trigger program.items@[d], tbl_has_value(final(self).renamed_vars@, k)]
                0 <= d < program.items@.len() && (match program.items@[d] {
                    Item::Fn(f0) => f0.name@ == k && !f0.public,
                    _ => false,
                }) && (forall|i: int|
                    0 <= i < d ==> !item_mentions(#[trigger] program.items@[i], k)) && k
                    != entry_point_name() && !listed(final(self).imported_functions@, k)
                    && !tbl_has_value(final(self).renamed_vars@, k) && !pinned_program(program, k)
                    ==> !program_mentions(r, k),
            forall|k: Seq<char>, d: int|
                #![trigger program.items@[d], tbl_has_value(final(self).renamed_vars@, k)]
                0 <= d < program.items@.len() && (match program.items@[d] {
                    Item::Fn(f0) => f0.name@ != k && first_binding_in(f0.body.stmts@, k),
                    _ => false,
                }) && (forall|i: int|
                    0 <= i < d ==> !item_mentions(#[trigger] program.items@[i], k)) && k
                    != entry_point_name() && !listed(final(self).imported_functions@, k)
                    && !tbl_has_value(final(self).renamed_vars@, k) && !pinned_program(program, k)
                    ==> !program_mentions(r, k),
            rn_rel_program(final(self).renamed_vars@, program, r),
    {
        let mut rng = fresh_rng();
        let ghost t0 = self.renamed_vars@;
        // pre-pass: build the import blacklist before any renaming
        let mut i: usize = 0;
        while i < program.items.len()
            invariant
                i <= program.items@.len(),
                self.renamed_vars@ == t0,
                self.enabled == old(self).enabled,
                tbl_inv(self.renamed_vars@),
                forall|k: Seq<char>|
                    listed(self.imported_functions@, k) ==> (listed(
                        old(self).imported_functions@,
                        k,
                    ) || exists|m: int|
                        0 <= m < i && (match #[trigger] program.items@[m] {
                            Item::Use(u) => use_declares(u, k),
                            _ => false,
                        })),
                forall|k: Seq<char>|
                    listed(old(self).imported_functions@, k) ==> listed(
                        self.imported_functions@,
                        k,
                    ),
                forall|k: Seq<char>, m: int|
                    #![trigger program.items@[m], listed(self.imported_functions@, k)]
                    0 <= m < i && (match program.items@[m] {
                        Item::Use(u) => use_declares(u, k),
                        _ => false,
                    }) ==> listed(self.imported_functions@, k),
            decreases program.items@.len() - i,
        {
            let ghost imp_before = self.imported_functions@;
            match &program.items[i] {
                Item::Use(u) => {
                    self.identify_imported_functions(u);
                },
                _ => {},
            }
            proof {
                assert forall|k: Seq<char>| listed(self.imported_functions@, k) implies (listed(
                    old(self).imported_functions@,
                    k,
                ) || exists|m: int|
                    0 <= m < i + 1 && (match #[trigger] program.items@[m] {
                        Item::Use(u) => use_declares(u, k),
                        _ => false,
                    })) by {
                    if !listed(old(self).imported_functions@, k) {
                        if listed(imp_before, k) {
                            let m = choose|m: int|
                                0 <= m < i && (match #[trigger] program.items@[m] {
                                    Item::Use(u) => use_declares(u, k),
                                    _ => false,
                                });
                            assert(0 <= m < i + 1 && (match program.items@[m] {
                                Item::Use(u) => use_declares(u, k),
                                _ => false,
                            }));
                        } else {
                            assert(match program.items@[i as int] {
                                Item::Use(u) => use_declares(u, k),
                                _ => false,
                            });
                        }
                    }
                }
            }
            i = i + 1;
        }
        let ghost frozen_imports = self.imported_functions@;
        let ghost orig = program.items@;
        let out = self.rename_items(&mut rng, program.items);
        let r = Program { items: out };
        proof {
            assert forall|m: int| 0 <= m < program.items@.len() implies rn_rel_item(
                self.renamed_vars@,
                #[trigger] program.items@[m],
                r.items@[m],
            ) by {
                assert(orig[m] == program.items@[m]);
                assert(rn_rel_item(self.renamed_vars@, orig[m], out@[m]));
            }
            if wf_program(program) {
                assert forall|m: int| 0 <= m < r.items@.len() implies wf_item(
                    #[trigger] r.items@[m],
                ) by {
                    assert(wf_item(program.items@[m]));
                    assert(wf_item(orig[m]) ==> wf_item(out@[m]));
                }
            }
            assert forall|k: Seq<char>|
                tbl_maps(t0, k) && !tbl_has_value(self.renamed_vars@, k) && k
                    != entry_point_name() && !listed(self.imported_functions@, k)
                    && !pinned_program(program, k) implies !program_mentions(r, k) by {
                assert(forall|m: int|
                    0 <= m < orig.len() ==> !pinned_item(#[trigger] orig[m], k)) by {
                    assert forall|m: int|
                        0 <= m < orig.len() implies !pinned_item(#[trigger] orig[m], k) by {
                        assert(orig[m] == program.items@[m]);
                    }
                }
                assert(forall|m: int|
                    0 <= m < out@.len() ==> !item_mentions(#[trigger] out@[m], k));
            }
            assert forall|k: Seq<char>|
                !program_mentions(program, k) && !tbl_has_value(self.renamed_vars@, k) implies
            !program_mentions(r, k) by {
                assert forall|m: int| 0 <= m < orig.len() implies !item_mentions(
                    #[trigger] orig[m],
                    k,
                ) by {
                    assert(orig[m] == program.items@[m]);
                }
                assert(forall|m: int|
                    0 <= m < out@.len() ==> !item_mentions(#[trigger] out@[m], k));
            }
            assert forall|k: Seq<char>, d: int|
                #![trigger program.items@[d], tbl_has_value(self.renamed_vars@, k)]
                0 <= d < program.items@.len() && (match program.items@[d] {
                    Item::Fn(f0) => f0.name@ == k && !f0.public,
                    _ => false,
                }) && (forall|i2: int|
                    0 <= i2 < d ==> !item_mentions(#[trigger] program.items@[i2], k)) && k
                    != entry_point_name() && !listed(self.imported_functions@, k)
                    && !tbl_has_value(self.renamed_vars@, k) && !pinned_program(program, k) implies
            !program_mentions(r, k) by {
                assert(orig[d] == program.items@[d]);
                assert forall|i2: int| 0 <= i2 < d implies !item_mentions(
                    #[trigger] orig[i2],
                    k,
                ) by {
                    assert(orig[i2] == program.items@[i2]);
                }
                assert(forall|m: int|
                    0 <= m < orig.len() ==> !pinned_item(#[trigger] orig[m], k)) by {
                    assert forall|m: int|
                        0 <= m < orig.len() implies !pinned_item(#[trigger] orig[m], k) by {
                        assert(orig[m] == program.items@[m]);
                    }
                }
                assert(forall|m: int|
                    0 <= m < out@.len() ==> !item_mentions(#[trigger] out@[m], k));
            }
            assert forall|k: Seq<char>, d: int|
                #![trigger program.items@[d], tbl_has_value(self.renamed_vars@, k)]
                0 <= d < program.items@.len() && (match program.items@[d] {
                    Item::Fn(f0) => f0.name@ != k && first_binding_in(f0.body.stmts@, k),
                    _ => false,
                }) && (forall|i2: int|
                    0 <= i2 < d ==> !item_mentions(#[trigger] program.items@[i2], k)) && k
                    != entry_point_name() && !listed(self.imported_functions@, k)
                    && !tbl_has_value(self.renamed_vars@, k) && !pinned_program(program, k) implies
            !program_mentions(r, k) by {
                assert(orig[d] == program.items@[d]);
                assert(!listed(frozen_imports, k));
                assert(!pinned_item(orig[d], k));
                assert forall|i2: int| 0 <= i2 < d implies !item_mentions(
                    #[trigger] orig[i2],
                    k,
                ) by {
                    assert(orig[i2] == program.items@[i2]);
                }
                assert(forall|m: int|
                    0 <= m < orig.len() ==> !pinned_item(#[trigger] orig[m], k)) by {
                    assert forall|m: int|
                        0 <= m < orig.len() implies !pinned_item(#[trigger] orig[m], k) by {
                        assert(orig[m] == program.items@[m]);
                    }
                }
                assert(forall|m: int|
                    0 <= m < out@.len() ==> !item_mentions(#[trigger] out@[m], k));
            }
        }
        r
    }
}

} // verus!
