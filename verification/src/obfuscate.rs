//! The pipeline that sequences the three passes over one source unit:
//! string-literal obfuscation, then control-flow obfuscation, then
//! identifier renaming, each applied only when its per-run configuration
//! enables it. One pipeline instance holds fresh per-run state (rename
//! table, block counter, literal counters) for one unit of input.

use vstd::prelude::*;
use vstd::math::min;
use crate::ast::{
    Expr, Item, Program, Stmt, has_marker, is_dummy_loop, is_marker_local, program_texts,
    wf_program,
};
use crate::flow::{
    FlowConfig, FlowObfuscator, block_inserts, counter_after_block, counter_after_expr,
    counter_after_exprs, counter_after_item, counter_after_items, counter_after_stmt,
    counter_after_stmts, is_flow_macro_call, valid_dummy_construct,
};
use crate::stringobf::{is_enc_macro, str_rel_expr, str_rel_item, str_rel_program, str_rel_stmt};
use crate::rename::{
    RenameConfig, VariableRenamer, entry_point_name, listed, program_imports, rn_rel_item, tbl_at,
    tbl_inv, tbl_maps, use_declares,
};
use crate::stringobf::{StringConfig, StringObfuscator, quota_of};

verus! {

/// The string pass never creates or destroys the flow pass's sentinel: a
/// related statement carries the marker or a dummy loop exactly when the
/// original does.
proof fn lemma_str_rel_marker_stmt(s0: Stmt, s1: Stmt)
    requires
        str_rel_stmt(s0, s1),
    ensures
        is_marker_local(s1) == is_marker_local(s0),
        is_dummy_loop(s1) == is_dummy_loop(s0),
    decreases s0,
{
    reveal_strlit("flow_stmt");
    reveal_strlit("encrypt_string");
    match (s0, s1) {
        (Stmt::Expr(e0, _), Stmt::Expr(e1, _)) => {
            match (e0, e1) {
                (Expr::Block(b0), Expr::Block(b1)) => {
                    assert forall|i: int|
                        0 <= i < b0.stmts@.len() implies is_marker_local(#[trigger] b1.stmts@[i])
                        == is_marker_local(b0.stmts@[i]) by {
                        assert(str_rel_stmt(b0.stmts@[i], b1.stmts@[i]));
                        match (b0.stmts@[i], b1.stmts@[i]) {
                            (Stmt::Local(_), Stmt::Local(_)) => {},
                            _ => {},
                        }
                    }
                    if is_dummy_loop(s0) {
                        let w = choose|w: int|
                            0 <= w < b0.stmts@.len() && is_marker_local(#[trigger] b0.stmts@[w]);
                        assert(is_marker_local(b1.stmts@[w]));
                    }
                    if is_dummy_loop(s1) {
                        let w = choose|w: int|
                            0 <= w < b1.stmts@.len() && is_marker_local(#[trigger] b1.stmts@[w]);
                        assert(is_marker_local(b0.stmts@[w]));
                    }
                },
                (Expr::StrLit(_), _) => {
                    if !(e1 == e0) {
                        match e1 {
                            Expr::Macro(m2) => {
                                assert(m2.path@.len() == 2);
                                assert(m2.path@.last()@ == "encrypt_string"@);
                                assert(m2.path@.last()@ != crate::ast::flow_macro_name());
                            },
                            _ => {},
                        }
                    }
                },
                _ => {},
            }
        },
        _ => {},
    }
}

/// `lemma_str_rel_marker_stmt` over a statement list.
proof fn lemma_str_rel_marker_stmts(ss0: Seq<Stmt>, ss1: Seq<Stmt>)
    requires
        ss1.len() == ss0.len(),
        forall|i: int| 0 <= i < ss0.len() ==> str_rel_stmt(#[trigger] ss0[i], ss1[i]),
    ensures
        has_marker(ss1) == has_marker(ss0),
{
    assert forall|i: int|
        0 <= i < ss0.len() implies is_marker_local(#[trigger] ss1[i]) == is_marker_local(ss0[i])
        && is_dummy_loop(ss1[i]) == is_dummy_loop(ss0[i]) by {
        lemma_str_rel_marker_stmt(ss0[i], ss1[i]);
    }
    if has_marker(ss0) {
        assert(has_marker(ss1)) by {
            if crate::ast::has_marker_local(ss0) {
                let w = choose|w: int|
                    0 <= w < ss0.len() && is_marker_local(#[trigger] ss0[w]);
                assert(is_marker_local(ss1[w]));
            } else {
                let w = choose|w: int| 0 <= w < ss0.len() && is_dummy_loop(#[trigger] ss0[w]);
                assert(is_dummy_loop(ss1[w]));
            }
        }
    }
    if has_marker(ss1) {
        assert(has_marker(ss0)) by {
            if crate::ast::has_marker_local(ss1) {
                let w = choose|w: int|
                    0 <= w < ss1.len() && is_marker_local(#[trigger] ss1[w]);
                assert(is_marker_local(ss0[w]));
            } else {
                let w = choose|w: int| 0 <= w < ss1.len() && is_dummy_loop(#[trigger] ss1[w]);
                assert(is_dummy_loop(ss0[w]));
            }
        }
    }
}

/// The string pass changes no block structure, so the flow pass's counter
/// walks related trees identically.
proof fn lemma_str_rel_counter_expr(c: u32, m: bool, e0: Expr, e1: Expr)
    requires
        str_rel_expr(e0, e1),
    ensures
        counter_after_expr(c, m, e1) == counter_after_expr(c, m, e0),
    decreases e0,
{
    match (e0, e1) {
        (Expr::Assign(l0, r0), Expr::Assign(l1, r1)) => {
            lemma_str_rel_counter_expr(c, m, *l0, *l1);
            lemma_str_rel_counter_expr(counter_after_expr(c, m, *l0), m, *r0, *r1);
            assert(counter_after_expr(c, m, e0) == counter_after_expr(
                counter_after_expr(c, m, *l0),
                m,
                *r0,
            ));
            assert(counter_after_expr(c, m, e1) == counter_after_expr(
                counter_after_expr(c, m, *l1),
                m,
                *r1,
            ));
        },
        (Expr::Call(f0, a0), Expr::Call(f1, a1)) => {
            lemma_str_rel_counter_expr(c, m, *f0, *f1);
            lemma_str_rel_counter_exprs(counter_after_expr(c, m, *f0), m, a0@, a1@);
            assert(counter_after_expr(c, m, e0) == counter_after_exprs(
                counter_after_expr(c, m, *f0),
                m,
                a0@,
            ));
            assert(counter_after_expr(c, m, e1) == counter_after_exprs(
                counter_after_expr(c, m, *f1),
                m,
                a1@,
            ));
        },
        (Expr::Block(b0), Expr::Block(b1)) => {
            lemma_str_rel_marker_stmts(b0.stmts@, b1.stmts@);
            let c1 = ((c + 1) as u32 % 3) as u32;
            let c2 = if block_inserts(c, b0) && !m {
                ((c1 + 1) as u32 % 3) as u32
            } else {
                c1
            };
            lemma_str_rel_counter_stmts(c2, m, b0.stmts@, b1.stmts@);
            assert(block_inserts(c, b1) == block_inserts(c, b0));
            assert(counter_after_expr(c, m, e0) == counter_after_block(c, m, b0));
            assert(counter_after_expr(c, m, e1) == counter_after_block(c, m, b1));
            assert(counter_after_block(c, m, b0) == counter_after_stmts(c2, m, b0.stmts@));
            assert(counter_after_block(c, m, b1) == counter_after_stmts(c2, m, b1.stmts@));
        },
        (Expr::Other(_, ch0), Expr::Other(_, ch1)) => {
            lemma_str_rel_counter_exprs(c, m, ch0@, ch1@);
            assert(counter_after_expr(c, m, e0) == counter_after_exprs(c, m, ch0@));
            assert(counter_after_expr(c, m, e1) == counter_after_exprs(c, m, ch1@));
        },
        _ => {},
    }
}

/// `lemma_str_rel_counter_expr` over an expression list.
proof fn lemma_str_rel_counter_exprs(c: u32, m: bool, a0: Seq<Expr>, a1: Seq<Expr>)
    requires
        a1.len() == a0.len(),
        forall|i: int| 0 <= i < a0.len() ==> str_rel_expr(#[trigger] a0[i], a1[i]),
    ensures
        counter_after_exprs(c, m, a1) == counter_after_exprs(c, m, a0),
    decreases a0,
{
    if a0.len() > 0 {
        lemma_str_rel_counter_expr(c, m, a0[0], a1[0]);
        assert forall|i: int|
            0 <= i < a0.drop_first().len() implies str_rel_expr(
            #[trigger] a0.drop_first()[i],
            a1.drop_first()[i],
        ) by {
            assert(a0.drop_first()[i] == a0[i + 1]);
            assert(a1.drop_first()[i] == a1[i + 1]);
            assert(str_rel_expr(a0[i + 1], a1[i + 1]));
        }
        lemma_str_rel_counter_exprs(
            counter_after_expr(c, m, a0[0]),
            m,
            a0.drop_first(),
            a1.drop_first(),
        );
    }
}

/// `lemma_str_rel_counter_expr` over one statement.
proof fn lemma_str_rel_counter_stmt(c: u32, m: bool, s0: Stmt, s1: Stmt)
    requires
        str_rel_stmt(s0, s1),
    ensures
        counter_after_stmt(c, m, s1) == counter_after_stmt(c, m, s0),
    decreases s0,
{
    match (s0, s1) {
        (Stmt::Local(l0), Stmt::Local(l1)) => {
            match (l0.init, l1.init) {
                (Option::Some(e0), Option::Some(e1)) => {
                    lemma_str_rel_counter_expr(c, m, e0, e1);
                },
                _ => {},
            }
        },
        (Stmt::Expr(e0, _), Stmt::Expr(e1, _)) => {
            lemma_str_rel_counter_expr(c, m, e0, e1);
        },
        (Stmt::Item(it0), Stmt::Item(it1)) => {
            lemma_str_rel_counter_item(c, m, *it0, *it1);
        },
        _ => {},
    }
}

/// `lemma_str_rel_counter_expr` over a statement list.
proof fn lemma_str_rel_counter_stmts(c: u32, m: bool, a0: Seq<Stmt>, a1: Seq<Stmt>)
    requires
        a1.len() == a0.len(),
        forall|i: int| 0 <= i < a0.len() ==> str_rel_stmt(#[trigger] a0[i], a1[i]),
    ensures
        counter_after_stmts(c, m, a1) == counter_after_stmts(c, m, a0),
    decreases a0,
{
    if a0.len() > 0 {
        lemma_str_rel_counter_stmt(c, m, a0[0], a1[0]);
        assert forall|i: int|
            0 <= i < a0.drop_first().len() implies str_rel_stmt(
            #[trigger] a0.drop_first()[i],
            a1.drop_first()[i],
        ) by {
            assert(a0.drop_first()[i] == a0[i + 1]);
            assert(a1.drop_first()[i] == a1[i + 1]);
            assert(str_rel_stmt(a0[i + 1], a1[i + 1]));
        }
        lemma_str_rel_counter_stmts(
            counter_after_stmt(c, m, a0[0]),
            m,
            a0.drop_first(),
            a1.drop_first(),
        );
    }
}

/// `lemma_str_rel_counter_expr` over a top-level item.
proof fn lemma_str_rel_counter_item(c: u32, m: bool, it0: Item, it1: Item)
    requires
        str_rel_item(it0, it1),
    ensures
        counter_after_item(c, m, it1) == counter_after_item(c, m, it0),
    decreases it0,
{
    match (it0, it1) {
        (Item::Fn(f0), Item::Fn(f1)) => {
            lemma_str_rel_marker_stmts(f0.body.stmts@, f1.body.stmts@);
            let c1 = ((c + 1) as u32 % 3) as u32;
            let c2 = if block_inserts(c, f0.body) && !m {
                ((c1 + 1) as u32 % 3) as u32
            } else {
                c1
            };
            lemma_str_rel_counter_stmts(c2, m, f0.body.stmts@, f1.body.stmts@);
            assert(block_inserts(c, f1.body) == block_inserts(c, f0.body));
            assert(counter_after_item(c, m, it0) == counter_after_block(c, m, f0.body));
            assert(counter_after_item(c, m, it1) == counter_after_block(c, m, f1.body));
            assert(counter_after_block(c, m, f0.body) == counter_after_stmts(
                c2,
                m,
                f0.body.stmts@,
            ));
            assert(counter_after_block(c, m, f1.body) == counter_after_stmts(
                c2,
                m,
                f1.body.stmts@,
            ));
        },
        _ => {},
    }
}

/// `lemma_str_rel_counter_expr` over an item list.
proof fn lemma_str_rel_counter_items(c: u32, m: bool, a0: Seq<Item>, a1: Seq<Item>)
    requires
        a1.len() == a0.len(),
        forall|i: int| 0 <= i < a0.len() ==> str_rel_item(#[trigger] a0[i], a1[i]),
    ensures
        counter_after_items(c, m, a1) == counter_after_items(c, m, a0),
    decreases a0,
{
    if a0.len() > 0 {
        lemma_str_rel_counter_item(c, m, a0[0], a1[0]);
        assert forall|i: int|
            0 <= i < a0.drop_first().len() implies str_rel_item(
            #[trigger] a0.drop_first()[i],
            a1.drop_first()[i],
        ) by {
            assert(a0.drop_first()[i] == a0[i + 1]);
            assert(a1.drop_first()[i] == a1[i + 1]);
            assert(str_rel_item(a0[i + 1], a1[i + 1]));
        }
        lemma_str_rel_counter_items(
            counter_after_item(c, m, a0[0]),
            m,
            a0.drop_first(),
            a1.drop_first(),
        );
    }
}

/// The per-run configuration of the whole pipeline.
#[derive(Clone)]
pub struct Config {
    pub rename_config: RenameConfig,
    pub flow_config: FlowConfig,
    pub string_config: StringConfig,
}

impl Config {
    /// The default configuration: string and flow obfuscation on (full
    /// percentage, macro emission), renaming off.
    pub fn default() -> (c: Self)
        ensures
            !c.rename_config.enable_rename_obfuscation,
            c.flow_config.enable_flow_obfuscation,
            c.flow_config.use_macro,
            c.string_config.enable_string_obfuscation,
            c.string_config.percentage == 100,
    {
        Self {
            rename_config: RenameConfig::default(),
            flow_config: FlowConfig::default(),
            string_config: StringConfig::default(),
        }
    }
}

/// One pipeline instance: fresh pass state for one unit of input.
pub struct Obfuscator {
    pub rename_obfuscator: VariableRenamer,
    pub flow_obfuscator: FlowObfuscator,
    pub string_obfuscator: StringObfuscator,
}

impl Obfuscator {
    /// A pipeline under the default configuration.
    pub fn new() -> (s: Self)
        ensures
            tbl_inv(s.rename_obfuscator.renamed_vars@),
            !s.rename_obfuscator.enabled,
            s.flow_obfuscator.enabled,
            s.flow_obfuscator.use_macro,
            s.string_obfuscator.enabled,
            s.string_obfuscator.percentage == 100,
    {
        Self::from_config(Config::default())
    }

    /// A pipeline under the given configuration, with fresh per-run state.
    pub fn from_config(config: Config) -> (s: Self)
        ensures
            tbl_inv(s.rename_obfuscator.renamed_vars@),
            s.rename_obfuscator.enabled == config.rename_config.enable_rename_obfuscation,
            s.flow_obfuscator.enabled == config.flow_config.enable_flow_obfuscation,
            s.flow_obfuscator.use_macro == config.flow_config.use_macro,
            s.flow_obfuscator.loop_counter == 0,
            s.string_obfuscator.enabled == config.string_config.enable_string_obfuscation,
            s.string_obfuscator.percentage == config.string_config.percentage,
    {
        Self {
            rename_obfuscator: VariableRenamer::new(config.rename_config),
            flow_obfuscator: FlowObfuscator::new(config.flow_config),
            string_obfuscator: StringObfuscator::new(config.string_config),
        }
    }

    /// Applies the enabled passes in their fixed order: strings, flow,
    /// renaming. Whatever the configuration, a well-formed tree stays well
    /// formed, no string text is invented or lost, the top-level item count
    /// is unchanged, and with every pass disabled the tree passes through
    /// untouched. With the string pass enabled its quota, counter and
    /// scan-order suffix of surviving literals are those of the pass; with
    /// renaming enabled every eligible top-level function declaration is
    /// rewritten to its recorded generated name and the blacklist is
    /// exactly the old one plus the program's imports; with the flow pass
    /// alone enabled its per-item insertion schedule shows on the result.
    #[verifier::rlimit(100)]
    pub fn obfuscate(&mut self, program: Program) -> (r: Program)
        requires
            tbl_inv(old(self).rename_obfuscator.renamed_vars@),
            program_texts(program, true).len() <= usize::MAX,
            program_texts(program, false).len() <= usize::MAX,
        ensures
            tbl_inv(final(self).rename_obfuscator.renamed_vars@),
            wf_program(program) ==> wf_program(r),
            program_texts(r, true) == program_texts(program, true),
            r.items@.len() == program.items@.len(),
            !old(self).string_obfuscator.enabled && !old(self).flow_obfuscator.enabled && !old(
                self,
            ).rename_obfuscator.enabled ==> r == program,
            forall|i: int|
                0 <= i < program.items@.len() ==> (match program.items@[i] {
                    Item::Fn(f0) => f0.name@ == entry_point_name() ==> (match #[trigger] r.items@[i] {
                        Item::Fn(g) => g.name@ == entry_point_name() && g.public == f0.public,
                        _ => false,
                    }),
                    _ => true,
                }),
            old(self).string_obfuscator.enabled ==> {
                &&& final(self).string_obfuscator.strings_to_encrypt == quota_of(
                    old(self).string_obfuscator.percentage,
                    program_texts(program, true).len(),
                )
                &&& (old(self).string_obfuscator.percentage >= 100 ==> final(self).string_obfuscator.encrypted_count == program_texts(program, false).len())
                &&& (old(self).string_obfuscator.percentage < 100 ==> final(self).string_obfuscator.encrypted_count == min(
                    program_texts(program, false).len() as int,
                    final(self).string_obfuscator.strings_to_encrypt as int,
                ))
                &&& program_texts(r, false) == program_texts(program, false).skip(
                    final(self).string_obfuscator.encrypted_count as int,
                )
            },
            !old(self).string_obfuscator.enabled ==> program_texts(r, false) == program_texts(
                program,
                false,
            ) && final(self).string_obfuscator == old(self).string_obfuscator,
            !old(self).flow_obfuscator.enabled ==> final(self).flow_obfuscator == old(
                self,
            ).flow_obfuscator,
            !old(self).rename_obfuscator.enabled ==> final(self).rename_obfuscator == old(
                self,
            ).rename_obfuscator,
            old(self).flow_obfuscator.enabled && !old(self).rename_obfuscator.enabled ==> (forall|
                i: int,
            |
                0 <= i < program.items@.len() ==> (match program.items@[i] {
                    Item::Fn(f0) => match #[trigger] r.items@[i] {
                        Item::Fn(g) => g.name == f0.name && g.public == f0.public && (has_marker(
                            f0.body.stmts@,
                        ) ==> g.body.stmts@.len() == f0.body.stmts@.len()) && (g.body.stmts@.len()
                            == f0.body.stmts@.len() || (g.body.stmts@.len() == f0.body.stmts@.len()
                            + 1 && is_dummy_loop(g.body.stmts@[0]) && (old(
                            self,
                        ).flow_obfuscator.use_macro ==> is_flow_macro_call(g.body.stmts@[0])) && (
                        !old(self).flow_obfuscator.use_macro ==> valid_dummy_construct(
                            g.body.stmts@[0],
                        )))) && (g.body.stmts@.len() == f0.body.stmts@.len() + 1 <==> block_inserts(
                            counter_after_items(
                                0,
                                old(self).flow_obfuscator.use_macro,
                                program.items@.take(i),
                            ),
                            f0.body,
                        )),
                        _ => false,
                    },
                    _ => r.items@[i] == program.items@[i],
                })),
            old(self).flow_obfuscator.enabled && old(self).rename_obfuscator.enabled ==> (forall|
                i: int,
            |
                0 <= i < program.items@.len() ==> (match program.items@[i] {
                    Item::Fn(f0) => match #[trigger] r.items@[i] {
                        Item::Fn(g) => g.public == f0.public && (has_marker(f0.body.stmts@)
                            ==> g.body.stmts@.len() == f0.body.stmts@.len()) && (g.body.stmts@.len()
                            == f0.body.stmts@.len() || g.body.stmts@.len() == f0.body.stmts@.len()
                            + 1) && (g.body.stmts@.len() == f0.body.stmts@.len() + 1
                            <==> block_inserts(
                            counter_after_items(
                                0,
                                old(self).flow_obfuscator.use_macro,
                                program.items@.take(i),
                            ),
                            f0.body,
                        )),
                        _ => false,
                    },
                    _ => true,
                })),
            old(self).rename_obfuscator.enabled ==> (forall|i: int|
                0 <= i < program.items@.len() ==> (match program.items@[i] {
                    Item::Fn(f0) => match #[trigger] r.items@[i] {
                        Item::Fn(g) => g.public == f0.public && (f0.name@ != entry_point_name()
                            && !f0.public && !listed(
                            final(self).rename_obfuscator.imported_functions@,
                            f0.name@,
                        ) ==> tbl_maps(final(self).rename_obfuscator.renamed_vars@, f0.name@)
                            && g.name@ == tbl_at(
                            final(self).rename_obfuscator.renamed_vars@,
                            f0.name@,
                        )),
                        _ => false,
                    },
                    _ => true,
                })),
            old(self).rename_obfuscator.enabled ==> (forall|k: Seq<char>|
                listed(final(self).rename_obfuscator.imported_functions@, k) ==> (listed(
                    old(self).rename_obfuscator.imported_functions@,
                    k,
                ) || program_imports(program, k))) && (forall|k: Seq<char>|
                program_imports(program, k) ==> listed(
                    final(self).rename_obfuscator.imported_functions@,
                    k,
                )) && (forall|k: Seq<char>|
                listed(old(self).rename_obfuscator.imported_functions@, k) ==> listed(
                    final(self).rename_obfuscator.imported_functions@,
                    k,
                )),
    {
        let ghost p0 = program;
        let mut result = program;
        if self.string_obfuscator.enabled {
            result = self.string_obfuscator.obfuscate_strings(result);
        }
        let ghost p1 = result;
        if self.flow_obfuscator.enabled {
            result = self.flow_obfuscator.flow_obfuscate(result);
        }
        let ghost p2 = result;
        if self.rename_obfuscator.enabled {
            result = self.rename_obfuscator.rename(result);
        }
        let ghost p3 = result;
        proof {
            assert forall|i: int| 0 <= i < p0.items@.len() implies (match p0.items@[i] {
                Item::Fn(f0) => f0.name@ == entry_point_name() ==> (match #[trigger] p3.items@[i] {
                    Item::Fn(g) => g.name@ == entry_point_name() && g.public == f0.public,
                    _ => false,
                }),
                _ => true,
            }) by {
                match p0.items@[i] {
                    Item::Fn(f0) => {
                        if f0.name@ == entry_point_name() {
                            assert(match p1.items@[i] {
                                Item::Fn(g) => g.name@ == entry_point_name() && g.public
                                    == f0.public,
                                _ => false,
                            });
                            assert(match p2.items@[i] {
                                Item::Fn(g) => g.name@ == entry_point_name() && g.public
                                    == f0.public,
                                _ => false,
                            });
                        }
                    },
                    _ => {},
                }
            }
            if old(self).rename_obfuscator.enabled {
                // the first two passes keep every function's name and
                // visibility and every other item untouched, so the
                // renaming pass's declaration clause carries to the input
                assert forall|i: int| 0 <= i < p0.items@.len() implies (match p0.items@[i] {
                    Item::Fn(f0) => match #[trigger] p3.items@[i] {
                        Item::Fn(g) => g.public == f0.public && (f0.name@ != entry_point_name()
                            && !f0.public && !listed(
                            self.rename_obfuscator.imported_functions@,
                            f0.name@,
                        ) ==> tbl_maps(self.rename_obfuscator.renamed_vars@, f0.name@) && g.name@
                            == tbl_at(self.rename_obfuscator.renamed_vars@, f0.name@)),
                        _ => false,
                    },
                    _ => true,
                }) by {
                    match p0.items@[i] {
                        Item::Fn(f0) => {
                            match p1.items@[i] {
                                Item::Fn(g1) => {
                                    assert(g1.name == f0.name && g1.public == f0.public);
                                    match p2.items@[i] {
                                        Item::Fn(g2) => {
                                            assert(g2.name == f0.name && g2.public == f0.public);
                                        },
                                        _ => {},
                                    }
                                },
                                _ => {},
                            }
                        },
                        _ => {},
                    }
                }
                assert forall|k: Seq<char>| program_imports(p2, k) implies program_imports(
                    p0,
                    k,
                ) by {
                    let w = choose|w: int|
                        0 <= w < p2.items@.len() && (match #[trigger] p2.items@[w] {
                            Item::Use(u) => use_declares(u, k),
                            _ => false,
                        });
                    assert(p2.items@[w] == p1.items@[w]);
                    assert(p1.items@[w] == p0.items@[w]);
                }
                assert forall|k: Seq<char>| program_imports(p0, k) implies program_imports(
                    p2,
                    k,
                ) by {
                    let w = choose|w: int|
                        0 <= w < p0.items@.len() && (match #[trigger] p0.items@[w] {
                            Item::Use(u) => use_declares(u, k),
                            _ => false,
                        });
                    assert(p1.items@[w] == p0.items@[w]);
                    assert(p2.items@[w] == p1.items@[w]);
                }
            }
            if old(self).flow_obfuscator.enabled {
                let m = old(self).flow_obfuscator.use_macro;
                assert forall|i: int| 0 <= i < p0.items@.len() implies (match p0.items@[i] {
                    Item::Fn(f0) => match #[trigger] p2.items@[i] {
                        Item::Fn(g) => g.name == f0.name && g.public == f0.public && (has_marker(
                            f0.body.stmts@,
                        ) ==> g.body.stmts@.len() == f0.body.stmts@.len()) && (g.body.stmts@.len()
                            == f0.body.stmts@.len() || (g.body.stmts@.len() == f0.body.stmts@.len()
                            + 1 && is_dummy_loop(g.body.stmts@[0]) && (m ==> is_flow_macro_call(
                            g.body.stmts@[0],
                        )) && (!m ==> valid_dummy_construct(g.body.stmts@[0])))) && (
                        g.body.stmts@.len() == f0.body.stmts@.len() + 1 <==> block_inserts(
                            counter_after_items(0, m, p0.items@.take(i)),
                            f0.body,
                        )),
                        _ => false,
                    },
                    _ => p2.items@[i] == p0.items@[i],
                }) by {
                    // the string pass kept every item's kind, name and
                    // structure, so the flow pass's schedule over its
                    // output is the schedule over the input
                    if old(self).string_obfuscator.enabled {
                        assert(str_rel_item(p0.items@[i], p1.items@[i]));
                        assert forall|w: int|
                            0 <= w < p0.items@.take(i).len() implies str_rel_item(
                            #[trigger] p0.items@.take(i)[w],
                            p1.items@.take(i)[w],
                        ) by {
                            assert(p0.items@.take(i)[w] == p0.items@[w]);
                            assert(p1.items@.take(i)[w] == p1.items@[w]);
                            assert(str_rel_item(p0.items@[w], p1.items@[w]));
                        }
                        lemma_str_rel_counter_items(0, m, p0.items@.take(i), p1.items@.take(i));
                        match (p0.items@[i], p1.items@[i]) {
                            (Item::Fn(f0), Item::Fn(f1)) => {
                                lemma_str_rel_marker_stmts(f0.body.stmts@, f1.body.stmts@);
                                assert(f1.name == f0.name && f1.public == f0.public);
                                assert(f1.body.stmts@.len() == f0.body.stmts@.len());
                                assert(has_marker(f1.body.stmts@) == has_marker(f0.body.stmts@));
                                assert(block_inserts(
                                    counter_after_items(0, m, p1.items@.take(i)),
                                    f1.body,
                                ) == block_inserts(
                                    counter_after_items(0, m, p0.items@.take(i)),
                                    f0.body,
                                ));
                            },
                            _ => {
                                assert(p1.items@[i] == p0.items@[i]);
                            },
                        }
                    } else {
                        assert(p1 == p0);
                        assert(p1.items@.take(i) =~= p0.items@.take(i));
                    }
                    assert(p1.items@.len() == p0.items@.len());
                    assert(0 <= i < p1.items@.len());
                    assert(match p1.items@[i] {
                        Item::Fn(f1) => match p2.items@[i] {
                            Item::Fn(g) => g.name == f1.name && g.public == f1.public && (
                            has_marker(f1.body.stmts@) ==> g.body.stmts@.len()
                                == f1.body.stmts@.len()) && (g.body.stmts@.len()
                                == f1.body.stmts@.len() || (g.body.stmts@.len()
                                == f1.body.stmts@.len() + 1 && is_dummy_loop(g.body.stmts@[0]) && (
                            m ==> is_flow_macro_call(g.body.stmts@[0])) && (!m
                                ==> valid_dummy_construct(g.body.stmts@[0])))) && (
                            g.body.stmts@.len() == f1.body.stmts@.len() + 1 <==> block_inserts(
                                counter_after_items(0, m, p1.items@.take(i)),
                                f1.body,
                            )),
                            _ => false,
                        },
                        _ => p2.items@[i] == p1.items@[i],
                    });
                }
                if !old(self).rename_obfuscator.enabled {
                    assert(p3 == p2);
                    assert forall|i: int| 0 <= i < p0.items@.len() implies (match p0.items@[i] {
                        Item::Fn(f0) => match #[trigger] p3.items@[i] {
                            Item::Fn(g) => g.name == f0.name && g.public == f0.public && (
                            has_marker(f0.body.stmts@) ==> g.body.stmts@.len()
                                == f0.body.stmts@.len()) && (g.body.stmts@.len()
                                == f0.body.stmts@.len() || (g.body.stmts@.len()
                                == f0.body.stmts@.len() + 1 && is_dummy_loop(g.body.stmts@[0]) && (
                            m ==> is_flow_macro_call(g.body.stmts@[0])) && (!m
                                ==> valid_dummy_construct(g.body.stmts@[0])))) && (
                            g.body.stmts@.len() == f0.body.stmts@.len() + 1 <==> block_inserts(
                                counter_after_items(0, m, p0.items@.take(i)),
                                f0.body,
                            )),
                            _ => false,
                        },
                        _ => p3.items@[i] == p0.items@[i],
                    }) by {
                        assert(p3.items@[i] == p2.items@[i]);
                    }
                } else {
                    // the renaming pass relates items pointwise and keeps
                    // every function's visibility and statement count, so
                    // the insertion schedule survives it
                    let tb = self.rename_obfuscator.renamed_vars@;
                    assert forall|i: int| 0 <= i < p0.items@.len() implies (match p0.items@[i] {
                        Item::Fn(f0) => match #[trigger] p3.items@[i] {
                            Item::Fn(g) => g.public == f0.public && (has_marker(f0.body.stmts@)
                                ==> g.body.stmts@.len() == f0.body.stmts@.len()) && (
                            g.body.stmts@.len() == f0.body.stmts@.len() || g.body.stmts@.len()
                                == f0.body.stmts@.len() + 1) && (g.body.stmts@.len()
                                == f0.body.stmts@.len() + 1 <==> block_inserts(
                                counter_after_items(0, m, p0.items@.take(i)),
                                f0.body,
                            )),
                            _ => false,
                        },
                        _ => true,
                    }) by {
                        assert(rn_rel_item(tb, p2.items@[i], p3.items@[i]));
                        match (p2.items@[i], p3.items@[i]) {
                            (Item::Fn(g2), Item::Fn(g3)) => {
                                assert(g3.public == g2.public);
                                assert(g3.body.stmts@.len() == g2.body.stmts@.len());
                            },
                            _ => {},
                        }
                    }
                }
            }
        }
        result
    }
}

} // verus!

