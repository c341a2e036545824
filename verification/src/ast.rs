//! The syntax-tree model that the obfuscation passes rewrite.
//!
//! A program is an ordered sequence of top-level items: functions, import
//! declarations, and other items that pass through unmodified. Function
//! bodies are blocks of statements; expressions cover the kinds the passes
//! read (literals, identifier paths, assignments, calls, nested blocks,
//! macro invocations), and every other kind is an opaque node that carries
//! its directly nested child expressions so traversals still reach them.
//! Macro invocations carry an unparsed token stream: flat tokens plus
//! nested delimited groups.
//!
//! The host grammar library owns parsing and printing; an adapter outside
//! this crate maps its trees to and from this model, keying each opaque
//! node by the identifier stored in it.

use vstd::prelude::*;

verus! {

/// The delimiter of a nested token group.
#[derive(Clone, Copy, PartialEq, Eq, Structural)]
pub enum Delim {
    Paren,
    Bracket,
    Brace,
}

/// One token of a macro invocation's argument stream.
pub enum Token {
    /// An identifier token.
    Ident(String),
    /// A string-literal token; the field holds the literal's text.
    StrLit(String),
    /// A punctuation character.
    Punct(char),
    /// Any other leaf token (numeric literal, lifetime, ...), carried
    /// opaquely under a key the adapter assigned.
    Other(u64),
    /// A delimited group of nested tokens.
    Group(Delim, Vec<Token>),
}

/// A macro invocation: a callee path, the delimiter of its argument
/// region, and its opaque token stream.
pub struct MacroCall {
    pub path: Vec<String>,
    pub delim: Delim,
    pub tokens: Vec<Token>,
}

/// The opaque terminating dummy loop that the flow pass emits. The fields
/// name the three locals the loop reads and writes, so that the renaming
/// pass keeps the construct consistent; the loop's fixed shape (write the
/// incremented counter through an optimization barrier, break once it
/// exceeds the bound) is the adapter's to print.
#[derive(Clone)]
pub struct OpaqueLoop {
    pub counter: String,
    pub increment: String,
    pub bound: String,
}

/// An expression node.
pub enum Expr {
    /// A string literal; the field holds its text.
    StrLit(String),
    /// A numeric literal.
    NumLit(u64),
    /// A boolean literal.
    BoolLit(bool),
    /// A path reference (an identifier, possibly qualified).
    Path(Vec<String>),
    /// An assignment: left-hand place, right-hand value.
    Assign(Box<Expr>, Box<Expr>),
    /// A call: callee expression and ordered arguments.
    Call(Box<Expr>, Vec<Expr>),
    /// A block expression.
    Block(Block),
    /// A macro invocation.
    Macro(MacroCall),
    /// The emitted dummy loop construct.
    Loop(OpaqueLoop),
    /// Any other expression kind, carried opaquely under a key the adapter
    /// assigned, together with its directly nested child expressions
    /// (nested blocks appear as `Expr::Block` children).
    Other(u64, Vec<Expr>),
}

/// A pattern of a local binding.
#[derive(Clone)]
pub enum Pat {
    /// A simple identifier pattern: the unit the renaming pass rewrites.
    Ident(String),
    /// Any other pattern, carried opaquely.
    Other(u64),
}

/// A local binding: pattern plus optional initializer. The tag keys the
/// adapter's record of what the model does not carry (a type ascription,
/// attributes); bindings the passes emit carry the zero tag.
pub struct LocalStmt {
    pub pat: Pat,
    pub init: Option<Expr>,
    pub tag: u64,
}

/// One statement of a block.
pub enum Stmt {
    /// A local binding.
    Local(LocalStmt),
    /// An expression statement; the flag records whether a semicolon
    /// terminates it, which only the adapter's printing reads.
    Expr(Expr, bool),
    /// An item declared inside the block.
    Item(Box<Item>),
}

/// A block: an ordered statement list, forming a nested scope.
pub struct Block {
    pub stmts: Vec<Stmt>,
}

/// A function item: name, visibility, body. The sig tag keys the adapter's
/// record of the rest of the signature (parameters, return type, generics).
pub struct FnItem {
    pub name: String,
    pub public: bool,
    pub sig: u64,
    pub body: Block,
}

/// An import declaration's tree of path segments, terminating in a plain
/// name or a renamed-import binding.
pub enum UseTree {
    Path(String, Box<UseTree>),
    Name(String),
    Rename(String, String),
    Other(u64),
}

/// A top-level item.
pub enum Item {
    Fn(FnItem),
    Use(UseTree),
    Other(u64),
}

/// The root of the model: the ordered top-level items of one source unit.
pub struct Program {
    pub items: Vec<Item>,
}

/// Whether a character may start an identifier.
pub open spec fn ident_start_char(c: char) -> bool {
    ('a' <= c && c <= 'z') || ('A' <= c && c <= 'Z') || c == '_'
}

/// Whether a character may continue an identifier.
pub open spec fn ident_char(c: char) -> bool {
    ident_start_char(c) || ('0' <= c && c <= '9')
}

/// Whether a text is a syntactically valid identifier.
pub open spec fn valid_ident(s: Seq<char>) -> bool {
    &&& s.len() > 0
    &&& ident_start_char(s[0])
    &&& forall|i: int| 0 <= i < s.len() ==> ident_char(#[trigger] s[i])
}

/// Whether a path is non-empty with valid segments.
pub open spec fn valid_path(segs: Seq<String>) -> bool {
    &&& segs.len() > 0
    &&& forall|i: int| 0 <= i < segs.len() ==> valid_ident(#[trigger] segs[i]@)
}

/// Well-formedness of a token: every identifier in it is valid.
pub open spec fn wf_token(t: Token) -> bool
    decreases t,
{
    match t {
        Token::Ident(s) => valid_ident(s@),
        Token::StrLit(_) => true,
        Token::Punct(_) => true,
        Token::Other(_) => true,
        Token::Group(_, ts) => forall|i: int|
            0 <= i < ts@.len() ==> wf_token(#[trigger] ts@[i]),
    }
}

/// Well-formedness of a whole token stream.
pub open spec fn wf_tokens(ts: Seq<Token>) -> bool {
    forall|i: int| 0 <= i < ts.len() ==> wf_token(#[trigger] ts[i])
}

/// Well-formedness of an expression: every identifier and path in it is
/// valid.
pub open spec fn wf_expr(e: Expr) -> bool
    decreases e,
{
    match e {
        Expr::StrLit(_) => true,
        Expr::NumLit(_) => true,
        Expr::BoolLit(_) => true,
        Expr::Path(segs) => valid_path(segs@),
        Expr::Assign(l, r) => wf_expr(*l) && wf_expr(*r),
        Expr::Call(f, args) => wf_expr(*f) && forall|i: int|
            0 <= i < args@.len() ==> wf_expr(#[trigger] args@[i]),
        Expr::Block(b) => wf_block(b),
        Expr::Macro(m) => valid_path(m.path@) && wf_tokens(m.tokens@),
        Expr::Loop(lp) => valid_ident(lp.counter@) && valid_ident(lp.increment@) && valid_ident(
            lp.bound@,
        ),
        Expr::Other(_, children) => forall|i: int|
            0 <= i < children@.len() ==> wf_expr(#[trigger] children@[i]),
    }
}

/// Well-formedness of a statement.
pub open spec fn wf_stmt(s: Stmt) -> bool
    decreases s,
{
    match s {
        Stmt::Local(l) => wf_pat(l.pat) && match l.init {
            Option::Some(e) => wf_expr(e),
            Option::None => true,
        },
        Stmt::Expr(e, _) => wf_expr(e),
        Stmt::Item(it) => wf_item(*it),
    }
}

/// Well-formedness of a pattern.
pub open spec fn wf_pat(p: Pat) -> bool {
    match p {
        Pat::Ident(n) => valid_ident(n@),
        Pat::Other(_) => true,
    }
}

/// Well-formedness of a block: every statement in it is well formed.
pub open spec fn wf_block(b: Block) -> bool
    decreases b,
{
    forall|i: int| 0 <= i < b.stmts@.len() ==> wf_stmt(#[trigger] b.stmts@[i])
}

/// Well-formedness of an import declaration.
pub open spec fn wf_use(u: UseTree) -> bool
    decreases u,
{
    match u {
        UseTree::Path(seg, rest) => valid_ident(seg@) && wf_use(*rest),
        UseTree::Name(n) => valid_ident(n@),
        UseTree::Rename(n, a) => valid_ident(n@) && valid_ident(a@),
        UseTree::Other(_) => true,
    }
}

/// Well-formedness of a top-level item.
pub open spec fn wf_item(it: Item) -> bool
    decreases it,
{
    match it {
        Item::Fn(f) => valid_ident(f.name@) && wf_block(f.body),
        Item::Use(u) => wf_use(u),
        Item::Other(_) => true,
    }
}

/// Well-formedness of a whole program. Each pass preserves this, which is
/// the model-level form of the guarantee that the printed output re-parses.
pub open spec fn wf_program(p: Program) -> bool {
    forall|i: int| 0 <= i < p.items@.len() ==> wf_item(#[trigger] p.items@[i])
}

/// The fixed reserved name of the sentinel binding that marks a block as
/// already carrying an inserted opaque loop.
pub open spec fn marker_name() -> Seq<char> {
    "_is_dummy_145"@
}

/// The final path segment of the external opaque-loop-generating macro.
pub open spec fn flow_macro_name() -> Seq<char> {
    "flow_stmt"@
}

/// Whether a statement is the sentinel marker binding itself.
pub open spec fn is_marker_local(s: Stmt) -> bool {
    match s {
        Stmt::Local(l) => match l.pat {
            Pat::Ident(n) => n@ == marker_name(),
            _ => false,
        },
        _ => false,
    }
}

/// Whether a statement carries an inserted dummy loop: either the inline
/// construct (a block expression whose direct statements include the
/// sentinel binding) or a call of the external opaque-loop macro.
pub open spec fn is_dummy_loop(s: Stmt) -> bool {
    match s {
        Stmt::Expr(Expr::Block(b), _) => exists|i: int|
            0 <= i < b.stmts@.len() && is_marker_local(#[trigger] b.stmts@[i]),
        Stmt::Expr(Expr::Macro(m), _) => m.path@.len() > 0 && m.path@.last()@
            == flow_macro_name(),
        _ => false,
    }
}

/// Whether a statement list holds the sentinel binding directly.
pub open spec fn has_marker_local(stmts: Seq<Stmt>) -> bool {
    exists|i: int| 0 <= i < stmts.len() && is_marker_local(#[trigger] stmts[i])
}

/// Whether a statement list already carries an inserted dummy loop: the
/// sentinel binding directly (the inside of an inline construct), an
/// inline construct, or a call of the external opaque-loop macro.
pub open spec fn has_marker(stmts: Seq<Stmt>) -> bool {
    has_marker_local(stmts) || exists|i: int|
        0 <= i < stmts.len() && is_dummy_loop(#[trigger] stmts[i])
}

/// The texts of the string literals of a token stream, in scan order,
/// recursing into nested groups.
pub open spec fn token_texts(ts: Seq<Token>) -> Seq<Seq<char>>
    decreases ts,
{
    if ts.len() == 0 {
        Seq::empty()
    } else {
        one_token_texts(ts[0]) + token_texts(ts.drop_first())
    }
}

/// The texts of the string literals of one token.
pub open spec fn one_token_texts(t: Token) -> Seq<Seq<char>>
    decreases t,
{
    match t {
        Token::StrLit(s) => seq![s@],
        Token::Group(_, ts) => token_texts(ts@),
        _ => Seq::empty(),
    }
}

/// The texts of the string literals of an expression, in scan order.
/// With `with_tokens` the count includes literal tokens inside macro
/// invocations; without it, only string-literal expression nodes.
pub open spec fn expr_texts(e: Expr, with_tokens: bool) -> Seq<Seq<char>>
    decreases e,
{
    match e {
        Expr::StrLit(s) => seq![s@],
        Expr::NumLit(_) => Seq::empty(),
        Expr::BoolLit(_) => Seq::empty(),
        Expr::Path(_) => Seq::empty(),
        Expr::Assign(l, r) => expr_texts(*l, with_tokens) + expr_texts(*r, with_tokens),
        Expr::Call(f, args) => expr_texts(*f, with_tokens) + exprs_texts(args@, with_tokens),
        Expr::Block(b) => stmts_texts(b.stmts@, with_tokens),
        Expr::Macro(m) => if with_tokens {
            token_texts(m.tokens@)
        } else {
            Seq::empty()
        },
        Expr::Loop(_) => Seq::empty(),
        Expr::Other(_, children) => exprs_texts(children@, with_tokens),
    }
}

/// The string-literal texts of an expression list, in scan order.
pub open spec fn exprs_texts(es: Seq<Expr>, with_tokens: bool) -> Seq<Seq<char>>
    decreases es,
{
    if es.len() == 0 {
        Seq::empty()
    } else {
        expr_texts(es[0], with_tokens) + exprs_texts(es.drop_first(), with_tokens)
    }
}

/// The string-literal texts of a statement, in scan order.
pub open spec fn stmt_texts(s: Stmt, with_tokens: bool) -> Seq<Seq<char>>
    decreases s,
{
    match s {
        Stmt::Local(l) => match l.init {
            Option::Some(e) => expr_texts(e, with_tokens),
            Option::None => Seq::empty(),
        },
        Stmt::Expr(e, _) => expr_texts(e, with_tokens),
        Stmt::Item(it) => item_texts(*it, with_tokens),
    }
}

/// The string-literal texts of a statement list, in scan order.
pub open spec fn stmts_texts(ss: Seq<Stmt>, with_tokens: bool) -> Seq<Seq<char>>
    decreases ss,
{
    if ss.len() == 0 {
        Seq::empty()
    } else {
        stmt_texts(ss[0], with_tokens) + stmts_texts(ss.drop_first(), with_tokens)
    }
}

/// The string-literal texts of a top-level item, in scan order.
pub open spec fn item_texts(it: Item, with_tokens: bool) -> Seq<Seq<char>>
    decreases it,
{
    match it {
        Item::Fn(f) => stmts_texts(f.body.stmts@, with_tokens),
        Item::Use(_) => Seq::empty(),
        Item::Other(_) => Seq::empty(),
    }
}

/// The string-literal texts of an item list, in scan order.
pub open spec fn items_texts(its: Seq<Item>, with_tokens: bool) -> Seq<Seq<char>>
    decreases its,
{
    if its.len() == 0 {
        Seq::empty()
    } else {
        item_texts(its[0], with_tokens) + items_texts(its.drop_first(), with_tokens)
    }
}

/// The string-literal texts of a whole program, in scan order. With
/// `with_tokens` this is what the string pass counts in its first step.
pub open spec fn program_texts(p: Program, with_tokens: bool) -> Seq<Seq<char>> {
    items_texts(p.items@, with_tokens)
}

/// Whether a name occurs in a token stream as an identifier token,
/// recursing into nested groups.
pub open spec fn tokens_mention(ts: Seq<Token>, k: Seq<char>) -> bool {
    exists|i: int| 0 <= i < ts.len() && token_mentions(#[trigger] ts[i], k)
}

/// Whether a name occurs in one token.
pub open spec fn token_mentions(t: Token, k: Seq<char>) -> bool
    decreases t,
{
    match t {
        Token::Ident(s) => s@ == k,
        Token::Group(_, ts) => exists|i: int|
            0 <= i < ts@.len() && token_mentions(#[trigger] ts@[i], k),
        _ => false,
    }
}

/// Whether a name occurs in an expression in a position the renaming pass
/// rewrites: the final segment of a path, an identifier token of a macro
/// stream, or a dummy-loop variable.
pub open spec fn expr_mentions(e: Expr, k: Seq<char>) -> bool
    decreases e,
{
    match e {
        Expr::StrLit(_) => false,
        Expr::NumLit(_) => false,
        Expr::BoolLit(_) => false,
        Expr::Path(segs) => segs@.len() > 0 && segs@.last()@ == k,
        Expr::Assign(l, r) => expr_mentions(*l, k) || expr_mentions(*r, k),
        Expr::Call(f, args) => expr_mentions(*f, k) || exists|i: int|
            0 <= i < args@.len() && expr_mentions(#[trigger] args@[i], k),
        Expr::Block(b) => stmts_mention(b.stmts@, k),
        Expr::Macro(m) => tokens_mention(m.tokens@, k),
        Expr::Loop(lp) => lp.counter@ == k || lp.increment@ == k || lp.bound@ == k,
        Expr::Other(_, children) => exists|i: int|
            0 <= i < children@.len() && expr_mentions(#[trigger] children@[i], k),
    }
}

/// Whether a name occurs in a statement: as a bound identifier pattern, or
/// in a contained expression or item.
pub open spec fn stmt_mentions(s: Stmt, k: Seq<char>) -> bool
    decreases s,
{
    match s {
        Stmt::Local(l) => (match l.pat {
            Pat::Ident(n) => n@ == k,
            _ => false,
        }) || (match l.init {
            Option::Some(e) => expr_mentions(e, k),
            Option::None => false,
        }),
        Stmt::Expr(e, _) => expr_mentions(e, k),
        Stmt::Item(it) => item_mentions(*it, k),
    }
}

/// Whether a name occurs in a statement list.
pub open spec fn stmts_mention(ss: Seq<Stmt>, k: Seq<char>) -> bool
    decreases ss,
{
    exists|i: int| 0 <= i < ss.len() && stmt_mentions(#[trigger] ss[i], k)
}

/// Whether a name occurs in a top-level item: as a function's declared
/// name or in its body. Import declarations are never rewritten and are
/// not searched.
pub open spec fn item_mentions(it: Item, k: Seq<char>) -> bool
    decreases it,
{
    match it {
        Item::Fn(f) => f.name@ == k || stmts_mention(f.body.stmts@, k),
        Item::Use(_) => false,
        Item::Other(_) => false,
    }
}

/// Whether a function declared under the given name somewhere in an
/// expression is public, so that the renaming pass leaves its declared
/// name in place.
pub open spec fn pinned_expr(e: Expr, k: Seq<char>) -> bool
    decreases e,
{
    match e {
        Expr::Assign(l, r) => pinned_expr(*l, k) || pinned_expr(*r, k),
        Expr::Call(f, args) => pinned_expr(*f, k) || exists|i: int|
            0 <= i < args@.len() && pinned_expr(#[trigger] args@[i], k),
        Expr::Block(b) => pinned_stmts(b.stmts@, k),
        Expr::Other(_, children) => exists|i: int|
            0 <= i < children@.len() && pinned_expr(#[trigger] children@[i], k),
        _ => false,
    }
}

/// `pinned_expr` over one statement.
pub open spec fn pinned_stmt(s: Stmt, k: Seq<char>) -> bool
    decreases s,
{
    match s {
        Stmt::Local(l) => match l.init {
            Option::Some(e) => pinned_expr(e, k),
            Option::None => false,
        },
        Stmt::Expr(e, _) => pinned_expr(e, k),
        Stmt::Item(it) => pinned_item(*it, k),
    }
}

/// `pinned_expr` over a statement list.
pub open spec fn pinned_stmts(ss: Seq<Stmt>, k: Seq<char>) -> bool
    decreases ss,
{
    exists|i: int| 0 <= i < ss.len() && pinned_stmt(#[trigger] ss[i], k)
}

/// `pinned_expr` over a top-level item.
pub open spec fn pinned_item(it: Item, k: Seq<char>) -> bool
    decreases it,
{
    match it {
        Item::Fn(f) => (f.name@ == k && f.public) || pinned_stmts(f.body.stmts@, k),
        _ => false,
    }
}

/// Whether a public function of the given name is declared anywhere in the
/// program: such a declaration keeps its name through the renaming pass.
pub open spec fn pinned_program(p: Program, k: Seq<char>) -> bool {
    exists|i: int| 0 <= i < p.items@.len() && pinned_item(#[trigger] p.items@[i], k)
}

/// Whether a name occurs anywhere in a program, in the positions the
/// renaming pass rewrites or declares.
pub open spec fn program_mentions(p: Program, k: Seq<char>) -> bool {
    exists|i: int| 0 <= i < p.items@.len() && item_mentions(#[trigger] p.items@[i], k)
}

/// Token texts distribute over concatenation of streams.
pub proof fn lemma_token_texts_add(a: Seq<Token>, b: Seq<Token>)
    ensures
        token_texts(a + b) == token_texts(a) + token_texts(b),
    decreases a,
{
    if a.len() == 0 {
        assert(a + b =~= b);
        assert(token_texts(a) + token_texts(b) =~= token_texts(b));
    } else {
        assert((a + b).drop_first() =~= a.drop_first() + b);
        lemma_token_texts_add(a.drop_first(), b);
        assert(token_texts(a + b) =~= token_texts(a) + token_texts(b));
    }
}

/// Expression texts distribute over concatenation of expression lists.
pub proof fn lemma_exprs_texts_add(a: Seq<Expr>, b: Seq<Expr>, wt: bool)
    ensures
        exprs_texts(a + b, wt) == exprs_texts(a, wt) + exprs_texts(b, wt),
    decreases a,
{
    if a.len() == 0 {
        assert(a + b =~= b);
        assert(exprs_texts(a, wt) + exprs_texts(b, wt) =~= exprs_texts(b, wt));
    } else {
        assert((a + b).drop_first() =~= a.drop_first() + b);
        lemma_exprs_texts_add(a.drop_first(), b, wt);
        assert(exprs_texts(a + b, wt) =~= exprs_texts(a, wt) + exprs_texts(b, wt));
    }
}

/// Statement texts distribute over concatenation of statement lists.
pub proof fn lemma_stmts_texts_add(a: Seq<Stmt>, b: Seq<Stmt>, wt: bool)
    ensures
        stmts_texts(a + b, wt) == stmts_texts(a, wt) + stmts_texts(b, wt),
    decreases a,
{
    if a.len() == 0 {
        assert(a + b =~= b);
        assert(stmts_texts(a, wt) + stmts_texts(b, wt) =~= stmts_texts(b, wt));
    } else {
        assert((a + b).drop_first() =~= a.drop_first() + b);
        lemma_stmts_texts_add(a.drop_first(), b, wt);
        assert(stmts_texts(a + b, wt) =~= stmts_texts(a, wt) + stmts_texts(b, wt));
    }
}

/// Item texts distribute over concatenation of item lists.
pub proof fn lemma_items_texts_add(a: Seq<Item>, b: Seq<Item>, wt: bool)
    ensures
        items_texts(a + b, wt) == items_texts(a, wt) + items_texts(b, wt),
    decreases a,
{
    if a.len() == 0 {
        assert(a + b =~= b);
        assert(items_texts(a, wt) + items_texts(b, wt) =~= items_texts(b, wt));
    } else {
        assert((a + b).drop_first() =~= a.drop_first() + b);
        lemma_items_texts_add(a.drop_first(), b, wt);
        assert(items_texts(a + b, wt) =~= items_texts(a, wt) + items_texts(b, wt));
    }
}

/// Appending one statement appends its texts.
pub proof fn lemma_stmts_texts_push(ss: Seq<Stmt>, s: Stmt, wt: bool)
    ensures
        stmts_texts(ss.push(s), wt) == stmts_texts(ss, wt) + stmt_texts(s, wt),
{
    assert(ss.push(s) =~= ss + seq![s]);
    lemma_stmts_texts_add(ss, seq![s], wt);
    let single = seq![s];
    assert(single.drop_first() =~= Seq::<Stmt>::empty());
    assert(stmts_texts(single, wt) == stmt_texts(single[0], wt) + stmts_texts(
        single.drop_first(),
        wt,
    ));
    assert(stmts_texts(single, wt) =~= stmt_texts(s, wt));
}

/// Appending one expression appends its texts.
pub proof fn lemma_exprs_texts_push(es: Seq<Expr>, e: Expr, wt: bool)
    ensures
        exprs_texts(es.push(e), wt) == exprs_texts(es, wt) + expr_texts(e, wt),
{
    assert(es.push(e) =~= es + seq![e]);
    lemma_exprs_texts_add(es, seq![e], wt);
    let single = seq![e];
    assert(single.drop_first() =~= Seq::<Expr>::empty());
    assert(exprs_texts(single, wt) == expr_texts(single[0], wt) + exprs_texts(
        single.drop_first(),
        wt,
    ));
    assert(exprs_texts(single, wt) =~= expr_texts(e, wt));
}

/// Appending one item appends its texts.
pub proof fn lemma_items_texts_push(its: Seq<Item>, it: Item, wt: bool)
    ensures
        items_texts(its.push(it), wt) == items_texts(its, wt) + item_texts(it, wt),
{
    assert(its.push(it) =~= its + seq![it]);
    lemma_items_texts_add(its, seq![it], wt);
    let single = seq![it];
    assert(single.drop_first() =~= Seq::<Item>::empty());
    assert(items_texts(single, wt) == item_texts(single[0], wt) + items_texts(
        single.drop_first(),
        wt,
    ));
    assert(items_texts(single, wt) =~= item_texts(it, wt));
}

/// Appending one token appends its texts.
pub proof fn lemma_token_texts_push(ts: Seq<Token>, t: Token)
    ensures
        token_texts(ts.push(t)) == token_texts(ts) + one_token_texts(t),
{
    assert(ts.push(t) =~= ts + seq![t]);
    lemma_token_texts_add(ts, seq![t]);
    let single = seq![t];
    assert(single.drop_first() =~= Seq::<Token>::empty());
    assert(token_texts(single) == one_token_texts(single[0]) + token_texts(single.drop_first()));
    assert(token_texts(single) =~= one_token_texts(t));
}

/// Skipping within the left part of a concatenation.
pub proof fn lemma_skip_concat<A>(a: Seq<A>, b: Seq<A>, d: int)
    requires
        0 <= d <= a.len(),
    ensures
        (a + b).skip(d) == a.skip(d) + b,
{
    assert((a + b).skip(d) =~= a.skip(d) + b);
}

/// Skipping the whole left part of a concatenation and into the right.
pub proof fn lemma_skip_concat_right<A>(a: Seq<A>, b: Seq<A>, d: int)
    requires
        0 <= d <= b.len(),
    ensures
        (a + b).skip(a.len() + d) == b.skip(d),
{
    assert((a + b).skip(a.len() as int + d) =~= b.skip(d));
}

/// A statement list whose statements all have empty texts has empty texts.
pub proof fn lemma_stmts_texts_all_empty(ss: Seq<Stmt>, wt: bool)
    requires
        forall|i: int|
            0 <= i < ss.len() ==> stmt_texts(#[trigger] ss[i], wt) == Seq::<Seq<char>>::empty(),
    ensures
        stmts_texts(ss, wt) == Seq::<Seq<char>>::empty(),
    decreases ss,
{
    if ss.len() == 0 {
    } else {
        assert(forall|i: int|
            0 <= i < ss.drop_first().len() ==> stmt_texts(#[trigger] ss.drop_first()[i], wt)
                == Seq::<Seq<char>>::empty());
        lemma_stmts_texts_all_empty(ss.drop_first(), wt);
        assert(stmts_texts(ss, wt) =~= Seq::<Seq<char>>::empty());
    }
}

/// Executable test of `ident_start_char`.
fn ident_start_ok(c: char) -> (r: bool)
    ensures
        r == ident_start_char(c),
{
    let u = c as u32;
    (97 <= u && u <= 122) || (65 <= u && u <= 90) || u == 95
}

/// Executable test of `ident_char`.
fn ident_char_ok(c: char) -> (r: bool)
    ensures
        r == ident_char(c),
{
    let u = c as u32;
    ident_start_ok(c) || (48 <= u && u <= 57)
}

/// Checks that a text is a syntactically valid identifier.
pub fn check_ident(s: &String) -> (r: bool)
    ensures
        r == valid_ident(s@),
{
    let n = s.as_str().unicode_len();
    if n == 0 {
        return false;
    }
    if !ident_start_ok(s.as_str().get_char(0)) {
        return false;
    }
    let mut i: usize = 0;
    while i < n
        invariant
            n == s@.len(),
            i <= n,
            forall|j: int| 0 <= j < i ==> ident_char(#[trigger] s@[j]),
        decreases n - i,
    {
        if !ident_char_ok(s.as_str().get_char(i)) {
            return false;
        }
        i = i + 1;
    }
    true
}

/// Checks that a path is non-empty with valid segments.
#[verifier::loop_isolation(false)]
fn check_path(segs: &Vec<String>) -> (r: bool)
    ensures
        r == valid_path(segs@),
{
    if segs.len() == 0 {
        return false;
    }
    let mut i: usize = 0;
    while i < segs.len()
        invariant
            i <= segs@.len(),
            forall|j: int| 0 <= j < i ==> valid_ident(#[trigger] segs@[j]@),
        decreases segs@.len() - i,
    {
        if !check_ident(&segs[i]) {
            return false;
        }
        i = i + 1;
    }
    true
}

/// Checks well-formedness of one token.
#[verifier::loop_isolation(false)]
fn token_wf(t: &Token) -> (r: bool)
    ensures
        r == wf_token(*t),
    decreases *t,
{
    match t {
        Token::Ident(s) => check_ident(s),
        Token::Group(_, ts) => {
            let mut i: usize = 0;
            while i < ts.len()
                invariant
                    i <= ts@.len(),
                    forall|j: int| 0 <= j < i ==> wf_token(#[trigger] ts@[j]),
                decreases ts@.len() - i,
            {
                if !token_wf(&ts[i]) {
                    return false;
                }
                i = i + 1;
            }
            true
        },
        _ => true,
    }
}

/// Checks well-formedness of a token stream.
#[verifier::loop_isolation(false)]
fn tokens_wf(ts: &Vec<Token>) -> (r: bool)
    ensures
        r == wf_tokens(ts@),
{
    let mut i: usize = 0;
    while i < ts.len()
        invariant
            i <= ts@.len(),
            forall|j: int| 0 <= j < i ==> wf_token(#[trigger] ts@[j]),
        decreases ts@.len() - i,
    {
        if !token_wf(&ts[i]) {
            return false;
        }
        i = i + 1;
    }
    true
}

/// Checks well-formedness of an expression.
#[verifier::loop_isolation(false)]
fn expr_wf(e: &Expr) -> (r: bool)
    ensures
        r == wf_expr(*e),
    decreases *e,
{
    match e {
        Expr::StrLit(_) => true,
        Expr::NumLit(_) => true,
        Expr::BoolLit(_) => true,
        Expr::Path(segs) => check_path(segs),
        Expr::Assign(l, r) => expr_wf(l) && expr_wf(r),
        Expr::Call(f, args) => {
            if !expr_wf(f) {
                return false;
            }
            let mut i: usize = 0;
            while i < args.len()
                invariant
                    i <= args@.len(),
                    forall|j: int| 0 <= j < i ==> wf_expr(#[trigger] args@[j]),
                decreases args@.len() - i,
            {
                if !expr_wf(&args[i]) {
                    return false;
                }
                i = i + 1;
            }
            true
        },
        Expr::Block(b) => block_wf(b),
        Expr::Macro(m) => check_path(&m.path) && tokens_wf(&m.tokens),
        Expr::Loop(lp) => check_ident(&lp.counter) && check_ident(&lp.increment) && check_ident(
            &lp.bound,
        ),
        Expr::Other(_, children) => {
            let mut i: usize = 0;
            while i < children.len()
                invariant
                    i <= children@.len(),
                    forall|j: int| 0 <= j < i ==> wf_expr(#[trigger] children@[j]),
                decreases children@.len() - i,
            {
                if !expr_wf(&children[i]) {
                    return false;
                }
                i = i + 1;
            }
            true
        },
    }
}

/// Checks well-formedness of a statement.
fn stmt_wf(s: &Stmt) -> (r: bool)
    ensures
        r == wf_stmt(*s),
    decreases *s,
{
    match s {
        Stmt::Local(l) => {
            let pat_ok = match &l.pat {
                Pat::Ident(n) => check_ident(n),
                Pat::Other(_) => true,
            };
            pat_ok && match &l.init {
                Option::Some(e) => expr_wf(e),
                Option::None => true,
            }
        },
        Stmt::Expr(e, _) => expr_wf(e),
        Stmt::Item(it) => item_wf(it),
    }
}

/// Checks well-formedness of a block.
#[verifier::loop_isolation(false)]
fn block_wf(b: &Block) -> (r: bool)
    ensures
        r == wf_block(*b),
    decreases *b,
{
    let mut i: usize = 0;
    while i < b.stmts.len()
        invariant
            i <= b.stmts@.len(),
            forall|j: int| 0 <= j < i ==> wf_stmt(#[trigger] b.stmts@[j]),
        decreases b.stmts@.len() - i,
    {
        if !stmt_wf(&b.stmts[i]) {
            return false;
        }
        i = i + 1;
    }
    true
}

/// Checks well-formedness of an import declaration.
fn use_wf(u: &UseTree) -> (r: bool)
    ensures
        r == wf_use(*u),
    decreases *u,
{
    match u {
        UseTree::Path(seg, rest) => check_ident(seg) && use_wf(rest),
        UseTree::Name(n) => check_ident(n),
        UseTree::Rename(n, a) => check_ident(n) && check_ident(a),
        UseTree::Other(_) => true,
    }
}

/// Checks well-formedness of a top-level item.
fn item_wf(it: &Item) -> (r: bool)
    ensures
        r == wf_item(*it),
    decreases *it,
{
    match it {
        Item::Fn(f) => check_ident(&f.name) && block_wf(&f.body),
        Item::Use(u) => use_wf(u),
        Item::Other(_) => true,
    }
}

/// Checks whether a name occurs in one token.
#[verifier::loop_isolation(false)]
fn token_m(t: &Token, k: &String) -> (r: bool)
    ensures
        r == token_mentions(*t, k@),
    decreases *t,
{
    match t {
        Token::Ident(s) => s.eq(k),
        Token::Group(_, ts) => {
            let mut i: usize = 0;
            while i < ts.len()
                invariant
                    i <= ts@.len(),
                    forall|j: int| 0 <= j < i ==> !token_mentions(#[trigger] ts@[j], k@),
                decreases ts@.len() - i,
            {
                if token_m(&ts[i], k) {
                    return true;
                }
                i = i + 1;
            }
            false
        },
        _ => false,
    }
}

/// Checks whether a name occurs in a token stream.
#[verifier::loop_isolation(false)]
fn tokens_m(ts: &Vec<Token>, k: &String) -> (r: bool)
    ensures
        r == tokens_mention(ts@, k@),
{
    let mut i: usize = 0;
    while i < ts.len()
        invariant
            i <= ts@.len(),
            forall|j: int| 0 <= j < i ==> !token_mentions(#[trigger] ts@[j], k@),
        decreases ts@.len() - i,
    {
        if token_m(&ts[i], k) {
            return true;
        }
        i = i + 1;
    }
    false
}

/// Checks whether a name occurs in an expression.
#[verifier::loop_isolation(false)]
fn expr_m(e: &Expr, k: &String) -> (r: bool)
    ensures
        r == expr_mentions(*e, k@),
    decreases *e,
{
    match e {
        Expr::StrLit(_) => false,
        Expr::NumLit(_) => false,
        Expr::BoolLit(_) => false,
        Expr::Path(segs) => {
            if segs.len() == 0 {
                return false;
            }
            segs[segs.len() - 1].eq(k)
        },
        Expr::Assign(l, r) => expr_m(l, k) || expr_m(r, k),
        Expr::Call(f, args) => {
            if expr_m(f, k) {
                return true;
            }
            let mut i: usize = 0;
            while i < args.len()
                invariant
                    i <= args@.len(),
                    forall|j: int| 0 <= j < i ==> !expr_mentions(#[trigger] args@[j], k@),
                decreases args@.len() - i,
            {
                if expr_m(&args[i], k) {
                    return true;
                }
                i = i + 1;
            }
            false
        },
        Expr::Block(b) => stmts_m(&b.stmts, k),
        Expr::Macro(m) => tokens_m(&m.tokens, k),
        Expr::Loop(lp) => lp.counter.eq(k) || lp.increment.eq(k) || lp.bound.eq(k),
        Expr::Other(_, children) => {
            let mut i: usize = 0;
            while i < children.len()
                invariant
                    i <= children@.len(),
                    forall|j: int| 0 <= j < i ==> !expr_mentions(#[trigger] children@[j], k@),
                decreases children@.len() - i,
            {
                if expr_m(&children[i], k) {
                    return true;
                }
                i = i + 1;
            }
            false
        },
    }
}

/// Checks whether a name occurs in a statement.
fn stmt_m(s: &Stmt, k: &String) -> (r: bool)
    ensures
        r == stmt_mentions(*s, k@),
    decreases *s,
{
    match s {
        Stmt::Local(l) => {
            let in_pat = match &l.pat {
                Pat::Ident(n) => n.eq(k),
                Pat::Other(_) => false,
            };
            in_pat || match &l.init {
                Option::Some(e) => expr_m(e, k),
                Option::None => false,
            }
        },
        Stmt::Expr(e, _) => expr_m(e, k),
        Stmt::Item(it) => item_m(it, k),
    }
}

/// Checks whether a name occurs in a statement list.
#[verifier::loop_isolation(false)]
fn stmts_m(ss: &Vec<Stmt>, k: &String) -> (r: bool)
    ensures
        r == stmts_mention(ss@, k@),
    decreases ss@,
{
    let mut i: usize = 0;
    while i < ss.len()
        invariant
            i <= ss@.len(),
            forall|j: int| 0 <= j < i ==> !stmt_mentions(#[trigger] ss@[j], k@),
        decreases ss@.len() - i,
    {
        if stmt_m(&ss[i], k) {
            return true;
        }
        i = i + 1;
    }
    false
}

/// Checks whether a name occurs in a top-level item.
fn item_m(it: &Item, k: &String) -> (r: bool)
    ensures
        r == item_mentions(*it, k@),
    decreases *it,
{
    match it {
        Item::Fn(f) => f.name.eq(k) || stmts_m(&f.body.stmts, k),
        Item::Use(_) => false,
        Item::Other(_) => false,
    }
}

/// Checks whether a name occurs anywhere in a program, in the positions
/// the renaming pass rewrites or declares.
#[verifier::loop_isolation(false)]
pub fn contains_ident(p: &Program, name: &String) -> (r: bool)
    ensures
        r == program_mentions(*p, name@),
{
    let mut i: usize = 0;
    while i < p.items.len()
        invariant
            i <= p.items@.len(),
            forall|j: int| 0 <= j < i ==> !item_mentions(#[trigger] p.items@[j], name@),
        decreases p.items@.len() - i,
    {
        if item_m(&p.items[i], name) {
            return true;
        }
        i = i + 1;
    }
    false
}

/// Counts the string literals of one token.
fn count_in_token(t: &Token) -> (r: usize)
    requires
        one_token_texts(*t).len() <= usize::MAX,
    ensures
        r == one_token_texts(*t).len(),
    decreases *t,
{
    match t {
        Token::StrLit(_) => 1,
        Token::Group(_, ts) => count_in_tokens(ts),
        _ => 0,
    }
}

/// Counts the string literals of a token stream.
#[verifier::loop_isolation(false)]
fn count_in_tokens(ts: &Vec<Token>) -> (r: usize)
    requires
        token_texts(ts@).len() <= usize::MAX,
    ensures
        r == token_texts(ts@).len(),
    decreases ts@,
{
    let mut i: usize = 0;
    let mut c: usize = 0;
    proof {
        assert(ts@.skip(0) =~= ts@);
    }
    while i < ts.len()
        invariant
            i <= ts@.len(),
            c + token_texts(ts@.skip(i as int)).len() == token_texts(ts@).len(),
        decreases ts@.len() - i,
    {
        proof {
            assert(ts@.skip(i as int).drop_first() =~= ts@.skip(i + 1));
            assert(ts@.skip(i as int)[0] == ts@[i as int]);
        }
        let d = count_in_token(&ts[i]);
        c = c + d;
        i = i + 1;
    }
    proof {
        assert(ts@.skip(ts@.len() as int) =~= Seq::<Token>::empty());
    }
    c
}

/// Counts the string literals of an expression, literal tokens inside
/// macro invocations included.
#[verifier::loop_isolation(false)]
fn count_in_expr(e: &Expr) -> (r: usize)
    requires
        expr_texts(*e, true).len() <= usize::MAX,
    ensures
        r == expr_texts(*e, true).len(),
    decreases *e,
{
    match e {
        Expr::StrLit(_) => 1,
        Expr::NumLit(_) => 0,
        Expr::BoolLit(_) => 0,
        Expr::Path(_) => 0,
        Expr::Assign(l, r) => {
            let a = count_in_expr(l);
            let b = count_in_expr(r);
            a + b
        },
        Expr::Call(f, args) => {
            let a = count_in_expr(f);
            let b = count_in_exprs(args);
            a + b
        },
        Expr::Block(b) => count_in_stmts(&b.stmts),
        Expr::Macro(m) => count_in_tokens(&m.tokens),
        Expr::Loop(_) => 0,
        Expr::Other(_, children) => count_in_exprs(children),
    }
}

/// Counts the string literals of an expression list.
#[verifier::loop_isolation(false)]
fn count_in_exprs(es: &Vec<Expr>) -> (r: usize)
    requires
        exprs_texts(es@, true).len() <= usize::MAX,
    ensures
        r == exprs_texts(es@, true).len(),
    decreases es@,
{
    let mut i: usize = 0;
    let mut c: usize = 0;
    proof {
        assert(es@.skip(0) =~= es@);
    }
    while i < es.len()
        invariant
            i <= es@.len(),
            c + exprs_texts(es@.skip(i as int), true).len() == exprs_texts(es@, true).len(),
        decreases es@.len() - i,
    {
        proof {
            assert(es@.skip(i as int).drop_first() =~= es@.skip(i + 1));
            assert(es@.skip(i as int)[0] == es@[i as int]);
        }
        let d = count_in_expr(&es[i]);
        c = c + d;
        i = i + 1;
    }
    proof {
        assert(es@.skip(es@.len() as int) =~= Seq::<Expr>::empty());
    }
    c
}

/// Counts the string literals of a statement.
fn count_in_stmt(s: &Stmt) -> (r: usize)
    requires
        stmt_texts(*s, true).len() <= usize::MAX,
    ensures
        r == stmt_texts(*s, true).len(),
    decreases *s,
{
    match s {
        Stmt::Local(l) => match &l.init {
            Option::Some(e) => count_in_expr(e),
            Option::None => 0,
        },
        Stmt::Expr(e, _) => count_in_expr(e),
        Stmt::Item(it) => count_in_item(it),
    }
}

/// Counts the string literals of a statement list.
#[verifier::loop_isolation(false)]
fn count_in_stmts(ss: &Vec<Stmt>) -> (r: usize)
    requires
        stmts_texts(ss@, true).len() <= usize::MAX,
    ensures
        r == stmts_texts(ss@, true).len(),
    decreases ss@,
{
    let mut i: usize = 0;
    let mut c: usize = 0;
    proof {
        assert(ss@.skip(0) =~= ss@);
    }
    while i < ss.len()
        invariant
            i <= ss@.len(),
            c + stmts_texts(ss@.skip(i as int), true).len() == stmts_texts(ss@, true).len(),
        decreases ss@.len() - i,
    {
        proof {
            assert(ss@.skip(i as int).drop_first() =~= ss@.skip(i + 1));
            assert(ss@.skip(i as int)[0] == ss@[i as int]);
        }
        let d = count_in_stmt(&ss[i]);
        c = c + d;
        i = i + 1;
    }
    proof {
        assert(ss@.skip(ss@.len() as int) =~= Seq::<Stmt>::empty());
    }
    c
}

/// Counts the string literals of a top-level item.
fn count_in_item(it: &Item) -> (r: usize)
    requires
        item_texts(*it, true).len() <= usize::MAX,
    ensures
        r == item_texts(*it, true).len(),
    decreases *it,
{
    match it {
        Item::Fn(f) => count_in_stmts(&f.body.stmts),
        Item::Use(_) => 0,
        Item::Other(_) => 0,
    }
}

/// Counts every string literal of a program reachable by a full scan,
/// literal tokens inside macro invocations included: the total the string
/// pass computes its quota from.
#[verifier::loop_isolation(false)]
pub fn count_string_literals(p: &Program) -> (r: usize)
    requires
        program_texts(*p, true).len() <= usize::MAX,
    ensures
        r == program_texts(*p, true).len(),
{
    let mut i: usize = 0;
    let mut c: usize = 0;
    proof {
        assert(p.items@.skip(0) =~= p.items@);
    }
    while i < p.items.len()
        invariant
            i <= p.items@.len(),
            c + items_texts(p.items@.skip(i as int), true).len() == items_texts(
                p.items@,
                true,
            ).len(),
        decreases p.items@.len() - i,
    {
        proof {
            assert(p.items@.skip(i as int).drop_first() =~= p.items@.skip(i + 1));
            assert(p.items@.skip(i as int)[0] == p.items@[i as int]);
        }
        let d = count_in_item(&p.items[i]);
        c = c + d;
        i = i + 1;
    }
    proof {
        assert(p.items@.skip(p.items@.len() as int) =~= Seq::<Item>::empty());
    }
    c
}

/// Checks well-formedness of a whole program: the model-level form of the
/// guarantee that the printed output re-parses.
#[verifier::loop_isolation(false)]
pub fn is_well_formed(p: &Program) -> (r: bool)
    ensures
        r == wf_program(*p),
{
    let mut i: usize = 0;
    while i < p.items.len()
        invariant
            i <= p.items@.len(),
            forall|j: int| 0 <= j < i ==> wf_item(#[trigger] p.items@[j]),
        decreases p.items@.len() - i,
    {
        if !item_wf(&p.items[i]) {
            return false;
        }
        i = i + 1;
    }
    true
}

} // verus!
