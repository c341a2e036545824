//! The control-flow obfuscation pass: inserts semantically inert,
//! terminating opaque dummy loops into a sampled subset of blocks. A block
//! that already carries the sentinel marker is never instrumented again, so
//! the pass is idempotent per block; of the remaining blocks one in three is
//! instrumented, counted by a block-visit counter. The construct is emitted
//! either inline or as a call of an external opaque-loop macro, and both
//! forms satisfy the marker detection of a later run.

use vstd::prelude::*;
use vstd::arithmetic::div_mod::lemma_fundamental_div_mod_converse;
use crate::ast::{
    Block, Delim, Expr, FnItem, Item, LocalStmt, MacroCall, OpaqueLoop, Pat, Program, Stmt, Token,
};
use crate::ast::{
    expr_texts, has_marker, has_marker_local, is_dummy_loop, is_marker_local, item_texts,
    items_texts, program_texts, stmt_texts, stmts_texts, valid_ident, valid_path,
    wf_block, wf_expr, wf_item, wf_program, wf_stmt,
};
use crate::ast::{
    flow_macro_name, lemma_items_texts_push, lemma_stmts_texts_push, lemma_exprs_texts_push,
};
use crate::rng::{fresh_rng, rand_range_u32, rand_ratio, shuffle_stmts};

verus! {

/// Per-run configuration of the flow pass.
#[derive(Clone)]
pub struct FlowConfig {
    pub enable_flow_obfuscation: bool,
    pub use_macro: bool,
}

impl FlowConfig {
    /// The default configuration: the pass is on and emits macro calls.
    pub fn default() -> (c: Self)
        ensures
            c.enable_flow_obfuscation,
            c.use_macro,
    {
        Self { enable_flow_obfuscation: true, use_macro: true }
    }
}

/// The flow pass state: the block-visit counter (kept as its residue
/// modulo the sampling period) and the per-run flags.
pub struct FlowObfuscator {
    pub loop_counter: u32,
    pub use_macro: bool,
    pub enabled: bool,
}

/// The name of the dummy counter variable.
pub open spec fn dummy_counter_name() -> Seq<char> {
    "_dummy_counter"@
}

/// The name of the dummy increment variable.
pub open spec fn dummy_increment_name() -> Seq<char> {
    "_dummy_increment"@
}

/// The name of the dummy upper-bound variable.
pub open spec fn dummy_bound_name() -> Seq<char> {
    "_dummy_upper_bound"@
}

/// The name of the optional noise variable.
pub open spec fn extra_dummy_name() -> Seq<char> {
    "_extra_dummy_var"@
}

/// Whether a statement is the call of the external opaque-loop macro, the
/// form the pass emits in macro mode.
pub open spec fn is_flow_macro_call(s: Stmt) -> bool {
    match s {
        Stmt::Expr(Expr::Macro(m), _) => m.path@.len() == 2 && m.path@[0]@ == "cryptify"@
            && m.path@[1]@ == flow_macro_name() && m.delim == Delim::Paren && m.tokens@.len()
            == 0,
        _ => false,
    }
}

/// Whether a statement is a local binding of the given name to a numeric
/// literal in the given inclusive range.
pub open spec fn is_num_local(s: Stmt, name: Seq<char>, lo: u64, hi: u64) -> bool {
    match s {
        Stmt::Local(l) => (match l.pat {
            Pat::Ident(n) => n@ == name,
            _ => false,
        }) && (match l.init {
            Option::Some(Expr::NumLit(v)) => lo <= v <= hi,
            _ => false,
        }),
        _ => false,
    }
}

/// Whether a statement is one of the variable declarations of the dummy
/// construct, with its value in the documented range.
pub open spec fn is_dummy_decl(s: Stmt) -> bool {
    ||| is_num_local(s, dummy_counter_name(), 1, 10)
    ||| is_num_local(s, dummy_increment_name(), 1, 5)
    ||| is_num_local(s, dummy_bound_name(), 100, 100)
    ||| is_num_local(s, extra_dummy_name(), 1, 10)
}

/// The shape of the inline dummy construct: a block statement whose first
/// statement is the sentinel binding, whose last statement is the opaque
/// loop over the fixed dummy variables, and whose middle statements are the
/// shuffled declarations, among them a counter in [1, 10], an increment in
/// [1, 5] and the bound 100.
pub open spec fn valid_dummy_construct(s: Stmt) -> bool {
    match s {
        Stmt::Expr(Expr::Block(b), _) => {
            let ss = b.stmts@;
            &&& 5 <= ss.len() <= 6
            &&& is_marker_local(ss[0])
            &&& match ss.last() {
                Stmt::Expr(Expr::Loop(lp), _) => lp.counter@ == dummy_counter_name()
                    && lp.increment@ == dummy_increment_name() && lp.bound@ == dummy_bound_name(),
                _ => false,
            }
            &&& forall|i: int| 1 <= i < ss.len() - 1 ==> is_dummy_decl(#[trigger] ss[i])
            &&& exists|i: int|
                1 <= i < ss.len() - 1 && is_num_local(#[trigger] ss[i], dummy_counter_name(), 1, 10)
            &&& exists|i: int|
                1 <= i < ss.len() - 1 && is_num_local(
                    #[trigger] ss[i],
                    dummy_increment_name(),
                    1,
                    5,
                )
            &&& exists|i: int|
                1 <= i < ss.len() - 1 && is_num_local(#[trigger] ss[i], dummy_bound_name(), 100, 100)
        },
        _ => false,
    }
}

/// Whether the pass inserts a construct into a block it visits at this
/// counter residue: the block is unmarked and the residue is zero.
pub open spec fn block_inserts(c: u32, b: Block) -> bool {
    !has_marker(b.stmts@) && c == 0
}

/// The block-visit counter's residue after the pass walks an expression,
/// starting from the given residue. Every visited block advances the
/// counter once; in inline mode an inserted construct's own marked block
/// is visited too and advances it once more.
pub open spec fn counter_after_expr(c: u32, m: bool, e: Expr) -> u32
    decreases e,
{
    match e {
        Expr::Assign(l, r) => counter_after_expr(counter_after_expr(c, m, *l), m, *r),
        Expr::Call(f, args) => counter_after_exprs(counter_after_expr(c, m, *f), m, args@),
        Expr::Block(b) => counter_after_block(c, m, b),
        Expr::Other(_, children) => counter_after_exprs(c, m, children@),
        _ => c,
    }
}

/// `counter_after_expr` folded over an expression list.
pub open spec fn counter_after_exprs(c: u32, m: bool, es: Seq<Expr>) -> u32
    decreases es,
{
    if es.len() == 0 {
        c
    } else {
        counter_after_exprs(counter_after_expr(c, m, es[0]), m, es.drop_first())
    }
}

/// The counter's residue after the pass walks a statement.
pub open spec fn counter_after_stmt(c: u32, m: bool, s: Stmt) -> u32
    decreases s,
{
    match s {
        Stmt::Local(l) => match l.init {
            Option::Some(e) => counter_after_expr(c, m, e),
            Option::None => c,
        },
        Stmt::Expr(e, _) => counter_after_expr(c, m, e),
        Stmt::Item(it) => counter_after_item(c, m, *it),
    }
}

/// `counter_after_stmt` folded over a statement list.
pub open spec fn counter_after_stmts(c: u32, m: bool, ss: Seq<Stmt>) -> u32
    decreases ss,
{
    if ss.len() == 0 {
        c
    } else {
        counter_after_stmts(counter_after_stmt(c, m, ss[0]), m, ss.drop_first())
    }
}

/// The counter's residue after the pass visits a block: the block's own
/// visit, one more for an inline construct's marked block, then the walk of
/// the original statements.
pub open spec fn counter_after_block(c: u32, m: bool, b: Block) -> u32
    decreases b,
{
    let c1 = ((c + 1) as u32 % 3) as u32;
    let c2 = if block_inserts(c, b) && !m {
        ((c1 + 1) as u32 % 3) as u32
    } else {
        c1
    };
    counter_after_stmts(c2, m, b.stmts@)
}

/// The counter's residue after the pass walks a top-level item.
pub open spec fn counter_after_item(c: u32, m: bool, it: Item) -> u32
    decreases it,
{
    match it {
        Item::Fn(f) => counter_after_block(c, m, f.body),
        _ => c,
    }
}

/// `counter_after_item` folded over an item list.
pub open spec fn counter_after_items(c: u32, m: bool, its: Seq<Item>) -> u32
    decreases its,
{
    if its.len() == 0 {
        c
    } else {
        counter_after_items(counter_after_item(c, m, its[0]), m, its.drop_first())
    }
}

/// Extending the fold by one statement.
proof fn lemma_counter_stmts_push(c: u32, m: bool, a: Seq<Stmt>, x: Stmt)
    ensures
        counter_after_stmts(c, m, a.push(x)) == counter_after_stmt(
            counter_after_stmts(c, m, a),
            m,
            x,
        ),
    decreases a,
{
    if a.len() == 0 {
        assert(a.push(x)[0] == x);
        assert(a.push(x).drop_first() =~= Seq::<Stmt>::empty());
        assert(counter_after_stmts(counter_after_stmt(c, m, x), m, Seq::<Stmt>::empty())
            == counter_after_stmt(c, m, x));
    } else {
        assert(a.push(x)[0] == a[0]);
        assert(a.push(x).drop_first() =~= a.drop_first().push(x));
        lemma_counter_stmts_push(counter_after_stmt(c, m, a[0]), m, a.drop_first(), x);
    }
}

/// Extending the fold by one expression.
proof fn lemma_counter_exprs_push(c: u32, m: bool, a: Seq<Expr>, x: Expr)
    ensures
        counter_after_exprs(c, m, a.push(x)) == counter_after_expr(
            counter_after_exprs(c, m, a),
            m,
            x,
        ),
    decreases a,
{
    if a.len() == 0 {
        assert(a.push(x)[0] == x);
        assert(a.push(x).drop_first() =~= Seq::<Expr>::empty());
        assert(counter_after_exprs(counter_after_expr(c, m, x), m, Seq::<Expr>::empty())
            == counter_after_expr(c, m, x));
    } else {
        assert(a.push(x)[0] == a[0]);
        assert(a.push(x).drop_first() =~= a.drop_first().push(x));
        lemma_counter_exprs_push(counter_after_expr(c, m, a[0]), m, a.drop_first(), x);
    }
}

/// Extending the fold by one item.
proof fn lemma_counter_items_push(c: u32, m: bool, a: Seq<Item>, x: Item)
    ensures
        counter_after_items(c, m, a.push(x)) == counter_after_item(
            counter_after_items(c, m, a),
            m,
            x,
        ),
    decreases a,
{
    if a.len() == 0 {
        assert(a.push(x)[0] == x);
        assert(a.push(x).drop_first() =~= Seq::<Item>::empty());
        assert(counter_after_items(counter_after_item(c, m, x), m, Seq::<Item>::empty())
            == counter_after_item(c, m, x));
    } else {
        assert(a.push(x)[0] == a[0]);
        assert(a.push(x).drop_first() =~= a.drop_first().push(x));
        lemma_counter_items_push(counter_after_item(c, m, a[0]), m, a.drop_first(), x);
    }
}

/// Builds the sentinel marker binding.
fn marker_local() -> (s: Stmt)
    ensures
        is_marker_local(s),
        !is_dummy_loop(s),
        wf_stmt(s),
        stmt_texts(s, true) == Seq::<Seq<char>>::empty(),
        stmt_texts(s, false) == Seq::<Seq<char>>::empty(),
{
    let name = "_is_dummy_145".to_owned();
    proof {
        reveal_strlit("_is_dummy_145");
        assert(valid_ident(name@));
    }
    Stmt::Local(LocalStmt { pat: Pat::Ident(name), init: Option::Some(Expr::BoolLit(true)), tag: 0 })
}

/// Builds a local binding of a numeric literal.
fn num_local(name: &str, v: u64) -> (s: Stmt)
    requires
        valid_ident(name@),
    ensures
        is_num_local(s, name@, v, v),
        wf_stmt(s),
        stmt_texts(s, true) == Seq::<Seq<char>>::empty(),
        stmt_texts(s, false) == Seq::<Seq<char>>::empty(),
{
    Stmt::Local(LocalStmt { pat: Pat::Ident(name.to_owned()), init: Option::Some(Expr::NumLit(v)), tag: 0 })
}

/// Builds the opaque loop statement over the fixed dummy variables.
fn loop_stmt() -> (s: Stmt)
    ensures
        wf_stmt(s),
        stmt_texts(s, true) == Seq::<Seq<char>>::empty(),
        stmt_texts(s, false) == Seq::<Seq<char>>::empty(),
        !is_marker_local(s),
        !is_dummy_loop(s),
        (match s {
            Stmt::Expr(Expr::Loop(lp), _) => lp.counter@ == dummy_counter_name() && lp.increment@
                == dummy_increment_name() && lp.bound@ == dummy_bound_name(),
            _ => false,
        }),
{
    proof {
        reveal_strlit("_dummy_counter");
        reveal_strlit("_dummy_increment");
        reveal_strlit("_dummy_upper_bound");
    }
    Stmt::Expr(
        Expr::Loop(
            OpaqueLoop {
                counter: "_dummy_counter".to_owned(),
                increment: "_dummy_increment".to_owned(),
                bound: "_dummy_upper_bound".to_owned(),
            },
        ),
        false,
    )
}

/// Generates the randomized inline dummy-loop construct: the sentinel
/// binding first, the variable declarations in a randomly shuffled order
/// (counter in [1, 10], increment in [1, 5], bound 100, and with roughly
/// even chance an extra unused noise variable), and the opaque loop last.
fn generate_dummy_loop() -> (s: Stmt)
    ensures
        is_dummy_loop(s),
        !is_marker_local(s),
        valid_dummy_construct(s),
        wf_stmt(s),
        stmt_texts(s, true) == Seq::<Seq<char>>::empty(),
        stmt_texts(s, false) == Seq::<Seq<char>>::empty(),
{
    let mut rng = fresh_rng();
    let initial = rand_range_u32(&mut rng, 1, 10);
    let increment = rand_range_u32(&mut rng, 1, 5);
    proof {
        reveal_strlit("_dummy_counter");
        reveal_strlit("_dummy_increment");
        reveal_strlit("_dummy_upper_bound");
        reveal_strlit("_extra_dummy_var");
    }
    let mut decls: Vec<Stmt> = Vec::new();
    decls.push(num_local("_dummy_counter", initial as u64));
    decls.push(num_local("_dummy_increment", increment as u64));
    decls.push(num_local("_dummy_upper_bound", 100));
    if rand_ratio(&mut rng, 1, 2) {
        let extra = rand_range_u32(&mut rng, 1, 10);
        decls.push(num_local("_extra_dummy_var", extra as u64));
    }
    let ghost before = decls@;
    assert(3 <= before.len() <= 4);
    assert(is_num_local(before[0], dummy_counter_name(), 1, 10));
    assert(is_num_local(before[1], dummy_increment_name(), 1, 5));
    assert(is_num_local(before[2], dummy_bound_name(), 100, 100));
    assert(forall|i: int|
        0 <= i < before.len() ==> is_dummy_decl(#[trigger] before[i]) && wf_stmt(before[i])
            && stmt_texts(before[i], true) == Seq::<Seq<char>>::empty() && stmt_texts(
            before[i],
            false,
        ) == Seq::<Seq<char>>::empty());
    shuffle_stmts(&mut rng, &mut decls);
    proof {
        let after = decls@;
        before.to_multiset_ensures();
        after.to_multiset_ensures();
        assert(after.len() == before.len());
        assert forall|j: int| 0 <= j < after.len() implies is_dummy_decl(#[trigger] after[j])
            && wf_stmt(after[j]) && stmt_texts(after[j], true) == Seq::<Seq<char>>::empty()
            && stmt_texts(after[j], false) == Seq::<Seq<char>>::empty() by {
            assert(after.contains(after[j]));
            assert(before.to_multiset().count(after[j]) > 0);
            assert(before.contains(after[j]));
            let i = choose|i: int| 0 <= i < before.len() && before[i] == after[j];
        }
        assert(before.contains(before[0]));
        assert(after.to_multiset().count(before[0]) > 0);
        assert(after.contains(before[0]));
        assert(before.contains(before[1]));
        assert(after.to_multiset().count(before[1]) > 0);
        assert(after.contains(before[1]));
        assert(before.contains(before[2]));
        assert(after.to_multiset().count(before[2]) > 0);
        assert(after.contains(before[2]));
    }
    let ghost after = decls@;
    let mut stmts: Vec<Stmt> = Vec::new();
    stmts.push(marker_local());
    stmts.append(&mut decls);
    stmts.push(loop_stmt());
    let ghost ss = stmts@;
    proof {
        assert(ss.len() == after.len() + 2);
        assert(is_marker_local(ss[0]));
        assert(forall|i: int| 1 <= i < ss.len() - 1 ==> ss[i] == after[i - 1]);
        let ci = choose|i: int| 0 <= i < after.len() && after[i] == before[0];
        assert(is_num_local(ss[ci + 1], dummy_counter_name(), 1, 10));
        let ii = choose|i: int| 0 <= i < after.len() && after[i] == before[1];
        assert(is_num_local(ss[ii + 1], dummy_increment_name(), 1, 5));
        let bi = choose|i: int| 0 <= i < after.len() && after[i] == before[2];
        assert(is_num_local(ss[bi + 1], dummy_bound_name(), 100, 100));
        assert(forall|i: int|
            0 <= i < ss.len() ==> stmt_texts(#[trigger] ss[i], true) == Seq::<Seq<char>>::empty()
                && stmt_texts(ss[i], false) == Seq::<Seq<char>>::empty());
        crate::ast::lemma_stmts_texts_all_empty(ss, true);
        crate::ast::lemma_stmts_texts_all_empty(ss, false);
    }
    let s = Stmt::Expr(Expr::Block(Block { stmts }), false);
    proof {
        match &s {
            Stmt::Expr(Expr::Block(b), _) => {
                assert(b.stmts@ == ss);
                assert(is_marker_local(b.stmts@[0]));
                assert(stmt_texts(s, true) =~= Seq::<Seq<char>>::empty());
                assert(stmt_texts(s, false) =~= Seq::<Seq<char>>::empty());
            },
            _ => {},
        }
    }
    s
}

/// Builds the statement that calls the external opaque-loop macro.
fn flow_macro_stmt() -> (s: Stmt)
    ensures
        is_dummy_loop(s),
        is_flow_macro_call(s),
        !is_marker_local(s),
        wf_stmt(s),
        stmt_texts(s, true) == Seq::<Seq<char>>::empty(),
        stmt_texts(s, false) == Seq::<Seq<char>>::empty(),
{
    proof {
        reveal_strlit("cryptify");
        reveal_strlit("flow_stmt");
    }
    let mut path: Vec<String> = Vec::new();
    path.push("cryptify".to_owned());
    path.push("flow_stmt".to_owned());
    let tokens: Vec<Token> = Vec::new();
    let s = Stmt::Expr(Expr::Macro(MacroCall { path, delim: Delim::Paren, tokens }), true);
    proof {
        match &s {
            Stmt::Expr(Expr::Macro(m), _) => {
                assert(m.path@.last()@ == flow_macro_name());
                assert(valid_path(m.path@));
                assert(crate::ast::token_texts(m.tokens@) =~= Seq::<Seq<char>>::empty());
                assert(stmt_texts(s, false) =~= Seq::<Seq<char>>::empty());
            },
            _ => {},
        }
    }
    s
}

/// Checks whether a statement is the sentinel binding.
fn is_marker_stmt(s: &Stmt) -> (r: bool)
    ensures
        r == is_marker_local(*s),
{
    let m = "_is_dummy_145".to_owned();
    match s {
        Stmt::Local(l) => match &l.pat {
            Pat::Ident(n) => n.eq(&m),
            _ => false,
        },
        _ => false,
    }
}

impl FlowObfuscator {
    /// A fresh pass instance for one run, with the counter at zero.
    pub fn new(config: FlowConfig) -> (s: Self)
        ensures
            s.loop_counter == 0,
            s.use_macro == config.use_macro,
            s.enabled == config.enable_flow_obfuscation,
    {
        Self {
            loop_counter: 0,
            use_macro: config.use_macro,
            enabled: config.enable_flow_obfuscation,
        }
    }

    /// Checks whether a statement carries an inserted dummy loop: the
    /// inline construct or a call of the external opaque-loop macro.
    #[verifier::loop_isolation(false)]
    fn is_dummy_loop(stmt: &Stmt) -> (r: bool)
        ensures
            r == is_dummy_loop(*stmt),
    {
        match stmt {
            Stmt::Expr(Expr::Block(b), _) => {
                let mut i: usize = 0;
                while i < b.stmts.len()
                    invariant
                        i <= b.stmts@.len(),
                        forall|j: int| 0 <= j < i ==> !is_marker_local(#[trigger] b.stmts@[j]),
                    decreases b.stmts@.len() - i,
                {
                    if is_marker_stmt(&b.stmts[i]) {
                        return true;
                    }
                    i = i + 1;
                }
                false
            },
            Stmt::Expr(Expr::Macro(m), _) => {
                if m.path.len() == 0 {
                    return false;
                }
                let f = "flow_stmt".to_owned();
                m.path[m.path.len() - 1].eq(&f)
            },
            _ => false,
        }
    }

    /// Checks whether a statement list already carries an inserted dummy
    /// loop or the sentinel binding itself.
    #[verifier::loop_isolation(false)]
    fn block_marked(ss: &Vec<Stmt>) -> (r: bool)
        ensures
            r == has_marker(ss@),
    {
        let mut i: usize = 0;
        while i < ss.len()
            invariant
                i <= ss@.len(),
                forall|j: int|
                    0 <= j < i ==> !is_marker_local(#[trigger] ss@[j]) && !is_dummy_loop(ss@[j]),
            decreases ss@.len() - i,
        {
            if is_marker_stmt(&ss[i]) || Self::is_dummy_loop(&ss[i]) {
                return true;
            }
            i = i + 1;
        }
        false
    }

    /// Rewrites one block: skips blocks already carrying the marker, and of
    /// the remaining blocks instruments one in three, inserting the dummy
    /// construct as the first statement; then descends into the nested
    /// blocks. A marked block never grows, which makes a second run of the
    /// pass insert nothing into any block the first run instrumented.
    #[verifier::loop_isolation(false)]
    #[verifier::rlimit(50)]
    pub fn visit_block_mut(&mut self, b: Block) -> (r: Block)
        requires
            old(self).loop_counter < 3,
        ensures
            final(self).loop_counter < 3,
            final(self).loop_counter == counter_after_block(
                old(self).loop_counter,
                old(self).use_macro,
                b,
            ),
            final(self).use_macro == old(self).use_macro,
            final(self).enabled == old(self).enabled,
            wf_block(b) ==> wf_block(r),
            stmts_texts(r.stmts@, true) == stmts_texts(b.stmts@, true),
            stmts_texts(r.stmts@, false) == stmts_texts(b.stmts@, false),
            has_marker_local(r.stmts@) == has_marker_local(b.stmts@),
            has_marker(b.stmts@) ==> r.stmts@.len() == b.stmts@.len(),
            has_marker(b.stmts@) ==> has_marker(r.stmts@),
            !has_marker(b.stmts@) && old(self).loop_counter == 0 ==> r.stmts@.len() == b.stmts@.len()
                + 1 && is_dummy_loop(r.stmts@[0]) && (old(self).use_macro ==> is_flow_macro_call(
                r.stmts@[0],
            )) && (!old(self).use_macro ==> valid_dummy_construct(r.stmts@[0])),
            !has_marker(b.stmts@) && old(self).loop_counter != 0 ==> r.stmts@.len()
                == b.stmts@.len(),
        decreases b,
    {
        let marked = Self::block_marked(&b.stmts);
        let insert = !marked && self.loop_counter == 0;
        proof {
            assert(insert == block_inserts(old(self).loop_counter, b));
        }
        self.loop_counter = (self.loop_counter + 1) % 3;
        let ghost orig = b.stmts@;
        let mut rest = b.stmts;
        let mut out: Vec<Stmt> = Vec::new();
        if insert {
            let construct = if self.use_macro {
                flow_macro_stmt()
            } else {
                // the construct's own block is visited next by the pass;
                // it carries the marker, so that visit only advances the
                // counter, applied here directly
                let c = generate_dummy_loop();
                self.loop_counter = (self.loop_counter + 1) % 3;
                c
            };
            out.push(construct);
            proof {
                crate::ast::lemma_stmts_texts_push(Seq::empty(), out@[0], true);
                crate::ast::lemma_stmts_texts_push(Seq::empty(), out@[0], false);
                assert(Seq::<Seq<char>>::empty() + stmt_texts(out@[0], true) =~= stmt_texts(
                    out@[0],
                    true,
                ));
                assert(Seq::<Seq<char>>::empty() + stmt_texts(out@[0], false) =~= stmt_texts(
                    out@[0],
                    false,
                ));
                assert(stmts_texts(out@, true) =~= Seq::<Seq<char>>::empty());
                assert(stmts_texts(out@, false) =~= Seq::<Seq<char>>::empty());
            }
        }
        let ghost off: int = out@.len() as int;
        let ghost c2: u32 = self.loop_counter;
        let n = rest.len();
        let mut i: usize = 0;
        proof {
            assert(orig.skip(0) =~= orig);
            assert(orig.take(0) =~= Seq::<Stmt>::empty());
            assert(counter_after_stmts(c2, old(self).use_macro, orig.take(0)) == c2);
        }
        while i < n
            invariant
                self.loop_counter < 3,
                self.loop_counter == counter_after_stmts(
                    c2,
                    old(self).use_macro,
                    orig.take(i as int),
                ),
                self.use_macro == old(self).use_macro,
                self.enabled == old(self).enabled,
                i <= n == orig.len(),
                rest@ == orig.skip(i as int),
                out@.len() == off + i,
                insert ==> off == 1 && is_dummy_loop(out@[0]) && !is_marker_local(out@[0])
                    && wf_stmt(out@[0]) && (old(self).use_macro ==> is_flow_macro_call(out@[0]))
                    && (!old(self).use_macro ==> valid_dummy_construct(out@[0])),
                !insert ==> off == 0,
                stmts_texts(out@, true) == stmts_texts(orig.take(i as int), true),
                stmts_texts(out@, false) == stmts_texts(orig.take(i as int), false),
                forall|j: int|
                    0 <= j < i ==> (wf_stmt(#[trigger] orig[j]) ==> wf_stmt(out@[off + j])),
                forall|j: int|
                    0 <= j < i ==> stmt_texts(#[trigger] out@[off + j], true) == stmt_texts(
                        orig[j],
                        true,
                    ),
                forall|j: int|
                    0 <= j < i ==> is_marker_local(#[trigger] out@[off + j]) == is_marker_local(
                        orig[j],
                    ),
                forall|j: int|
                    0 <= j < i ==> (is_dummy_loop(#[trigger] orig[j]) ==> is_dummy_loop(
                        out@[off + j],
                    )),
            decreases n - i,
        {
            let s = rest.remove(0);
            proof {
                assert(s == orig[i as int]);
                assert(rest@ =~= orig.skip(i + 1));
                assert(decreases_to!(b => s));
            }
            let s2 = self.flow_stmt(s);
            let ghost out_before = out@;
            out.push(s2);
            proof {
                crate::ast::lemma_stmts_texts_push(out_before, s2, true);
                crate::ast::lemma_stmts_texts_push(out_before, s2, false);
                assert(orig.take(i + 1) =~= orig.take(i as int).push(orig[i as int]));
                crate::ast::lemma_stmts_texts_push(orig.take(i as int), orig[i as int], true);
                crate::ast::lemma_stmts_texts_push(orig.take(i as int), orig[i as int], false);
                lemma_counter_stmts_push(
                    c2,
                    old(self).use_macro,
                    orig.take(i as int),
                    orig[i as int],
                );
            }
            i = i + 1;
        }
        proof {
            assert(orig.take(n as int) =~= orig);
        }
        let r = Block { stmts: out };
        proof {
            // the sentinel binding survives in place, and only there
            assert forall|k: int|
                0 <= k < r.stmts@.len() && is_marker_local(#[trigger] r.stmts@[k]) implies
            has_marker_local(orig) by {
                if k >= off {
                    let j = k - off;
                    assert(is_marker_local(out@[off + j]) == is_marker_local(orig[j]));
                }
            }
            if has_marker_local(orig) {
                let j = choose|j: int| 0 <= j < orig.len() && is_marker_local(orig[j]);
                assert(is_marker_local(out@[off + j]) == is_marker_local(orig[j]));
                assert(is_marker_local(r.stmts@[off + j]));
            }
            if has_marker(orig) && !has_marker_local(orig) {
                let j = choose|j: int| 0 <= j < orig.len() && is_dummy_loop(orig[j]);
                assert(is_dummy_loop(orig[j]) ==> is_dummy_loop(out@[off + j]));
                assert(is_dummy_loop(r.stmts@[off + j]));
            }
            if wf_block(b) {
                assert forall|m: int| 0 <= m < r.stmts@.len() implies wf_stmt(
                    #[trigger] r.stmts@[m],
                ) by {
                    if m >= off {
                        let j = m - off;
                        assert(wf_stmt(b.stmts@[j]));
                        assert(wf_stmt(orig[j]) ==> wf_stmt(out@[off + j]));
                    }
                }
            }
        }
        r
    }

    /// Rewrites one statement, descending into its expressions and nested
    /// items. Local bindings keep their pattern, so the sentinel marker is
    /// never destroyed; a statement carrying a dummy loop still carries
    /// one.
    fn flow_stmt(&mut self, s: Stmt) -> (r: Stmt)
        requires
            old(self).loop_counter < 3,
        ensures
            final(self).loop_counter < 3,
            final(self).loop_counter == counter_after_stmt(
                old(self).loop_counter,
                old(self).use_macro,
                s,
            ),
            final(self).use_macro == old(self).use_macro,
            final(self).enabled == old(self).enabled,
            wf_stmt(s) ==> wf_stmt(r),
            stmt_texts(r, true) == stmt_texts(s, true),
            stmt_texts(r, false) == stmt_texts(s, false),
            is_marker_local(r) == is_marker_local(s),
            is_dummy_loop(s) ==> is_dummy_loop(r),
        decreases s,
    {
        match s {
            Stmt::Local(l) => {
                let init2 = match l.init {
                    Option::Some(e) => Option::Some(self.flow_expr(e)),
                    Option::None => Option::None,
                };
                Stmt::Local(LocalStmt { pat: l.pat, init: init2, tag: l.tag })
            },
            Stmt::Expr(e, semi) => {
                let e2 = self.flow_expr(e);
                Stmt::Expr(e2, semi)
            },
            Stmt::Item(it) => Stmt::Item(Box::new(self.flow_item(*it))),
        }
    }

    /// Rewrites one expression, visiting every nested block.
    #[verifier::loop_isolation(false)]
    fn flow_expr(&mut self, e: Expr) -> (r: Expr)
        requires
            old(self).loop_counter < 3,
        ensures
            final(self).loop_counter < 3,
            final(self).loop_counter == counter_after_expr(
                old(self).loop_counter,
                old(self).use_macro,
                e,
            ),
            final(self).use_macro == old(self).use_macro,
            final(self).enabled == old(self).enabled,
            wf_expr(e) ==> wf_expr(r),
            expr_texts(r, true) == expr_texts(e, true),
            expr_texts(r, false) == expr_texts(e, false),
            (e matches Expr::Block(b0) ==> (r matches Expr::Block(b1) && has_marker_local(
                b1.stmts@,
            ) == has_marker_local(b0.stmts@))),
            (e matches Expr::Macro(_) ==> r == e),
        decreases e,
    {
        match e {
            Expr::Block(b) => {
                let ghost b0 = b;
                let b2 = self.visit_block_mut(b);
                proof {
                    assert(e == Expr::Block(b0));
                    assert(wf_expr(e) == wf_block(b0));
                    assert(wf_block(b0) ==> wf_block(b2));
                    assert(wf_block(b2) ==> wf_expr(Expr::Block(b2)));
                    assert(wf_expr(e) ==> wf_expr(Expr::Block(b2)));
                }
                Expr::Block(b2)
            },
            Expr::Assign(l, r0) => {
                let l2 = self.flow_expr(*l);
                let r2 = self.flow_expr(*r0);
                Expr::Assign(Box::new(l2), Box::new(r2))
            },
            Expr::Call(f, args) => {
                let f2 = self.flow_expr(*f);
                let ghost cf: u32 = self.loop_counter;
                let ghost orig = args@;
                let mut rest = args;
                let mut out: Vec<Expr> = Vec::new();
                let n = rest.len();
                let mut i: usize = 0;
                proof {
                    assert(orig.skip(0) =~= orig);
                    assert(orig.take(0) =~= Seq::<Expr>::empty());
                    assert(counter_after_exprs(cf, old(self).use_macro, orig.take(0)) == cf);
                }
                while i < n
                    invariant
                        self.loop_counter < 3,
                        self.loop_counter == counter_after_exprs(
                            cf,
                            old(self).use_macro,
                            orig.take(i as int),
                        ),
                        self.use_macro == old(self).use_macro,
                        self.enabled == old(self).enabled,
                        i <= n == orig.len(),
                        rest@ == orig.skip(i as int),
                        out@.len() == i,
                        crate::ast::exprs_texts(out@, true) == crate::ast::exprs_texts(
                            orig.take(i as int),
                            true,
                        ),
                        crate::ast::exprs_texts(out@, false) == crate::ast::exprs_texts(
                            orig.take(i as int),
                            false,
                        ),
                        forall|j: int|
                            0 <= j < i ==> (wf_expr(#[trigger] orig[j]) ==> wf_expr(out@[j])),
                    decreases n - i,
                {
                    let a = rest.remove(0);
                    proof {
                        assert(a == orig[i as int]);
                        assert(rest@ =~= orig.skip(i + 1));
                        assert(decreases_to!(e => a));
                    }
                    let a2 = self.flow_expr(a);
                    let ghost out_before = out@;
                    out.push(a2);
                    proof {
                        lemma_exprs_texts_push(out_before, a2, true);
                        lemma_exprs_texts_push(out_before, a2, false);
                        assert(orig.take(i + 1) =~= orig.take(i as int).push(orig[i as int]));
                        lemma_exprs_texts_push(orig.take(i as int), orig[i as int], true);
                        lemma_exprs_texts_push(orig.take(i as int), orig[i as int], false);
                        lemma_counter_exprs_push(
                            cf,
                            old(self).use_macro,
                            orig.take(i as int),
                            orig[i as int],
                        );
                    }
                    i = i + 1;
                }
                proof {
                    assert(orig.take(n as int) =~= orig);
                }
                let r2 = Expr::Call(Box::new(f2), out);
                proof {
                    if wf_expr(e) {
                        assert forall|m: int| 0 <= m < out@.len() implies wf_expr(
                            #[trigger] out@[m],
                        ) by {
                            assert(wf_expr(orig[m]));
                            assert(wf_expr(orig[m]) ==> wf_expr(out@[m]));
                        }
                        assert(wf_expr(r2));
                    }
                }
                r2
            },
            Expr::Other(id, children) => {
                let ghost cf: u32 = self.loop_counter;
                let ghost orig = children@;
                let mut rest = children;
                let mut out: Vec<Expr> = Vec::new();
                let n = rest.len();
                let mut i: usize = 0;
                proof {
                    assert(orig.skip(0) =~= orig);
                    assert(orig.take(0) =~= Seq::<Expr>::empty());
                    assert(counter_after_exprs(cf, old(self).use_macro, orig.take(0)) == cf);
                }
                while i < n
                    invariant
                        self.loop_counter < 3,
                        self.loop_counter == counter_after_exprs(
                            cf,
                            old(self).use_macro,
                            orig.take(i as int),
                        ),
                        self.use_macro == old(self).use_macro,
                        self.enabled == old(self).enabled,
                        i <= n == orig.len(),
                        rest@ == orig.skip(i as int),
                        out@.len() == i,
                        crate::ast::exprs_texts(out@, true) == crate::ast::exprs_texts(
                            orig.take(i as int),
                            true,
                        ),
                        crate::ast::exprs_texts(out@, false) == crate::ast::exprs_texts(
                            orig.take(i as int),
                            false,
                        ),
                        forall|j: int|
                            0 <= j < i ==> (wf_expr(#[trigger] orig[j]) ==> wf_expr(out@[j])),
                    decreases n - i,
                {
                    let a = rest.remove(0);
                    proof {
                        assert(a == orig[i as int]);
                        assert(rest@ =~= orig.skip(i + 1));
                        assert(decreases_to!(e => a));
                    }
                    let a2 = self.flow_expr(a);
                    let ghost out_before = out@;
                    out.push(a2);
                    proof {
                        lemma_exprs_texts_push(out_before, a2, true);
                        lemma_exprs_texts_push(out_before, a2, false);
                        assert(orig.take(i + 1) =~= orig.take(i as int).push(orig[i as int]));
                        lemma_exprs_texts_push(orig.take(i as int), orig[i as int], true);
                        lemma_exprs_texts_push(orig.take(i as int), orig[i as int], false);
                        lemma_counter_exprs_push(
                            cf,
                            old(self).use_macro,
                            orig.take(i as int),
                            orig[i as int],
                        );
                    }
                    i = i + 1;
                }
                proof {
                    assert(orig.take(n as int) =~= orig);
                }
                let r2 = Expr::Other(id, out);
                proof {
                    if wf_expr(e) {
                        assert forall|m: int| 0 <= m < out@.len() implies wf_expr(
                            #[trigger] out@[m],
                        ) by {
                            assert(wf_expr(orig[m]));
                            assert(wf_expr(orig[m]) ==> wf_expr(out@[m]));
                        }
                        assert(wf_expr(r2));
                    }
                }
                r2
            },
            _ => e,
        }
    }

    /// Rewrites one top-level item: a function's body is visited as a
    /// block; imports and other items pass through unmodified.
    fn flow_item(&mut self, it: Item) -> (r: Item)
        requires
            old(self).loop_counter < 3,
        ensures
            final(self).loop_counter < 3,
            final(self).loop_counter == counter_after_item(
                old(self).loop_counter,
                old(self).use_macro,
                it,
            ),
            final(self).use_macro == old(self).use_macro,
            final(self).enabled == old(self).enabled,
            wf_item(it) ==> wf_item(r),
            item_texts(r, true) == item_texts(it, true),
            item_texts(r, false) == item_texts(it, false),
            (match it {
                Item::Fn(f0) => match r {
                    Item::Fn(g) => g.name == f0.name && g.public == f0.public && g.sig == f0.sig
                        && (has_marker(f0.body.stmts@) ==> g.body.stmts@.len()
                        == f0.body.stmts@.len()) && ((!has_marker(f0.body.stmts@) && old(
                        self,
                    ).loop_counter != 0) ==> g.body.stmts@.len() == f0.body.stmts@.len()) && (
                    !has_marker(f0.body.stmts@) && old(
                        self,
                    ).loop_counter == 0 ==> g.body.stmts@.len() == f0.body.stmts@.len() + 1
                        && is_dummy_loop(g.body.stmts@[0])) && (g.body.stmts@.len()
                        == f0.body.stmts@.len() || (g.body.stmts@.len() == f0.body.stmts@.len() + 1
                        && is_dummy_loop(g.body.stmts@[0]) && (old(self).use_macro
                        ==> is_flow_macro_call(g.body.stmts@[0])) && (!old(self).use_macro
                        ==> valid_dummy_construct(g.body.stmts@[0])))),
                    _ => false,
                },
                _ => r == it,
            }),
        decreases it,
    {
        match it {
            Item::Fn(f) => {
                proof {
                    assert(decreases_to!(it => f.body));
                }
                let body2 = self.visit_block_mut(f.body);
                Item::Fn(FnItem { name: f.name, public: f.public, sig: f.sig, body: body2 })
            },
            other => other,
        }
    }

    /// The whole pass over one program: resets the block-visit counter and
    /// visits every block of every item. Well-formedness and every string
    /// text of the program are preserved; no text is invented or lost.
    #[verifier::loop_isolation(false)]
    pub fn flow_obfuscate(&mut self, program: Program) -> (r: Program)
        ensures
            final(self).loop_counter < 3,
            final(self).use_macro == old(self).use_macro,
            final(self).enabled == old(self).enabled,
            wf_program(program) ==> wf_program(r),
            program_texts(r, true) == program_texts(program, true),
            program_texts(r, false) == program_texts(program, false),
            r.items@.len() == program.items@.len(),
            forall|i: int|
                0 <= i < program.items@.len() ==> (match program.items@[i] {
                    Item::Fn(f0) => match #[trigger] r.items@[i] {
                        Item::Fn(g) => g.name == f0.name && g.public == f0.public && (has_marker(
                            f0.body.stmts@,
                        ) ==> g.body.stmts@.len() == f0.body.stmts@.len()) && (g.body.stmts@.len()
                            == f0.body.stmts@.len() || (g.body.stmts@.len() == f0.body.stmts@.len()
                            + 1 && is_dummy_loop(g.body.stmts@[0]) && (old(self).use_macro
                            ==> is_flow_macro_call(g.body.stmts@[0])) && (!old(self).use_macro
                            ==> valid_dummy_construct(g.body.stmts@[0])))) && (g.body.stmts@.len()
                            == f0.body.stmts@.len() + 1 <==> block_inserts(
                            counter_after_items(0, old(self).use_macro, program.items@.take(i)),
                            f0.body,
                        )),
                        _ => false,
                    },
                    _ => r.items@[i] == program.items@[i],
                }),
            program.items@.len() > 0 ==> (match program.items@[0] {
                Item::Fn(f0) => !has_marker(f0.body.stmts@) ==> (match r.items@[0] {
                    Item::Fn(g) => g.body.stmts@.len() == f0.body.stmts@.len() + 1
                        && is_dummy_loop(g.body.stmts@[0]) && (old(self).use_macro
                        ==> is_flow_macro_call(g.body.stmts@[0])) && (!old(self).use_macro
                        ==> valid_dummy_construct(g.body.stmts@[0])),
                    _ => false,
                }),
                _ => true,
            }),
    {
        self.loop_counter = 0;
        let ghost orig = program.items@;
        let mut rest = program.items;
        let mut out: Vec<Item> = Vec::new();
        let n = rest.len();
        let mut i: usize = 0;
        proof {
            assert(orig.skip(0) =~= orig);
            assert(orig.take(0) =~= Seq::<Item>::empty());
            assert(counter_after_items(0, old(self).use_macro, orig.take(0)) == 0);
        }
        while i < n
            invariant
                self.loop_counter < 3,
                self.loop_counter == counter_after_items(
                    0,
                    old(self).use_macro,
                    orig.take(i as int),
                ),
                self.use_macro == old(self).use_macro,
                self.enabled == old(self).enabled,
                i <= n == orig.len(),
                rest@ == orig.skip(i as int),
                out@.len() == i,
                items_texts(out@, true) == items_texts(orig.take(i as int), true),
                items_texts(out@, false) == items_texts(orig.take(i as int), false),
                forall|j: int| 0 <= j < i ==> (wf_item(#[trigger] orig[j]) ==> wf_item(out@[j])),
                forall|j: int|
                    0 <= j < i ==> (match orig[j] {
                        Item::Fn(f0) => match #[trigger] out@[j] {
                            Item::Fn(g) => g.name == f0.name && g.public == f0.public
                                && (has_marker(f0.body.stmts@) ==> g.body.stmts@.len()
                                == f0.body.stmts@.len()) && (g.body.stmts@.len()
                                == f0.body.stmts@.len() || (g.body.stmts@.len()
                                == f0.body.stmts@.len() + 1 && is_dummy_loop(g.body.stmts@[0]) && (
                            old(self).use_macro ==> is_flow_macro_call(g.body.stmts@[0])) && (!old(
                                self,
                            ).use_macro ==> valid_dummy_construct(g.body.stmts@[0])))) && (
                            g.body.stmts@.len() == f0.body.stmts@.len() + 1 <==> block_inserts(
                                counter_after_items(0, old(self).use_macro, orig.take(j)),
                                f0.body,
                            )),
                            _ => false,
                        },
                        _ => out@[j] == orig[j],
                    }),
                i == 0 ==> self.loop_counter == 0,
                i > 0 ==> (match orig[0] {
                    Item::Fn(f0) => !has_marker(f0.body.stmts@) ==> (match out@[0] {
                        Item::Fn(g) => g.body.stmts@.len() == f0.body.stmts@.len() + 1
                            && is_dummy_loop(g.body.stmts@[0]) && (old(self).use_macro
                            ==> is_flow_macro_call(g.body.stmts@[0])) && (!old(self).use_macro
                            ==> valid_dummy_construct(g.body.stmts@[0])),
                        _ => false,
                    }),
                    _ => true,
                }),
            decreases n - i,
        {
            let it = rest.remove(0);
            proof {
                assert(it == orig[i as int]);
                assert(rest@ =~= orig.skip(i + 1));
            }
            let it2 = self.flow_item(it);
            let ghost out_before = out@;
            out.push(it2);
            proof {
                lemma_items_texts_push(out_before, it2, true);
                lemma_items_texts_push(out_before, it2, false);
                assert(orig.take(i + 1) =~= orig.take(i as int).push(orig[i as int]));
                lemma_items_texts_push(orig.take(i as int), orig[i as int], true);
                lemma_items_texts_push(orig.take(i as int), orig[i as int], false);
                lemma_counter_items_push(
                    0,
                    old(self).use_macro,
                    orig.take(i as int),
                    orig[i as int],
                );
            }
            i = i + 1;
        }
        proof {
            assert(orig.take(n as int) =~= orig);
        }
        let r = Program { items: out };
        proof {
            if wf_program(program) {
                assert forall|m: int| 0 <= m < r.items@.len() implies wf_item(
                    #[trigger] r.items@[m],
                ) by {
                    assert(wf_item(program.items@[m]));
                    assert(wf_item(orig[m]) ==> wf_item(out@[m]));
                }
            }
        }
        r
    }
}

/// Runs the semantics of an emitted dummy loop: starting from `initial`,
/// the counter is raised by `increment` each pass until it exceeds `bound`,
/// at which point the loop breaks. Returns the exact number of raising
/// passes, which is `(bound - initial) / increment + 1`; the pass that
/// observes the exceeded bound and breaks is one more. The loop always
/// terminates.
pub fn run_dummy_loop(initial: u32, increment: u32, bound: u32) -> (writes: u32)
    requires
        1 <= increment,
        initial <= bound,
        bound + increment <= u32::MAX,
    ensures
        writes >= 1,
        initial + (writes - 1) * increment <= bound,
        initial + writes * increment > bound,
        writes == (bound - initial) as int / increment as int + 1,
{
    let mut counter = initial;
    let mut writes: u32 = 0;
    while counter <= bound
        invariant
            1 <= increment,
            initial <= bound,
            bound + increment <= u32::MAX,
            counter == initial + writes * increment,
            counter <= bound + increment,
            writes >= 1 ==> initial + (writes - 1) * increment <= bound,
        decreases bound + increment - counter,
    {
        proof {
            assert((writes + 1) * increment == writes * increment + increment) by (nonlinear_arith);
            assert(writes <= writes * increment) by (nonlinear_arith)
                requires
                    increment >= 1,
                    writes >= 0,
            ;
            assert(writes * increment == counter - initial);
            assert(writes + 1 <= u32::MAX);
        }
        counter = counter + increment;
        writes = writes + 1;
    }
    proof {
        let x = (bound - initial) as int;
        let d = increment as int;
        let q = (writes - 1) as int;
        let r = x - q * d;
        assert(0 <= r < d) by {
            assert(initial + q * d <= bound);
            assert(initial + (q + 1) * d > bound);
            assert((q + 1) * d == q * d + d) by (nonlinear_arith);
        }
        lemma_fundamental_div_mod_converse(x, d, q, r);
        assert(x / d == q);
    }
    writes
}

/// The exact pass count of `run_dummy_loop` matches the ceiling form: with
/// `w` raising passes, `w` equals `ceil((bound-initial)/increment) + 1`
/// when the increment divides the distance, and the total number of loop
/// passes `w + 1` equals it otherwise.
pub proof fn lemma_dummy_iterations_ceiling(initial: int, increment: int, bound: int)
    requires
        1 <= increment,
        initial <= bound,
    ensures
        (bound - initial) % increment == 0 ==> (bound - initial) / increment + 1 == (bound - initial
            + increment - 1) / increment + 1,
        (bound - initial) % increment != 0 ==> (bound - initial) / increment + 1 == (bound - initial
            + increment - 1) / increment,
{
    let x = bound - initial;
    let d = increment;
    let q = x / d;
    let r = x % d;
    vstd::arithmetic::div_mod::lemma_fundamental_div_mod(x, d);
    if r == 0 {
        assert(x + d - 1 == q * d + (d - 1));
        lemma_fundamental_div_mod_converse(x + d - 1, d, q, d - 1);
    } else {
        assert(x + d - 1 == (q + 1) * d + (r - 1)) by (nonlinear_arith)
            requires
                x == q * d + r,
        ;
        lemma_fundamental_div_mod_converse(x + d - 1, d, q + 1, r - 1);
    }
}

} // verus!
