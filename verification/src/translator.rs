//! Lowering: from the nested, lexically scoped AST to flat coroutine blocks.
//!
//! Each subroutine body becomes a tree of blocks. A block carries a unique
//! id, the typed context it captures from its parent (`ctx`, sorted by name
//! so emission is deterministic), the names it introduces (`local`), the
//! dataflow handles it must request before running (`wait`) and those it
//! promises to submit on exit (`submit`).
//!
//! The whole pass is pinned to the spec-level functions below
//! (`spec_lower_*`): the executable translator returns exactly their value,
//! which makes translation deterministic by construction.

use vstd::prelude::*;

use crate::ast;
use crate::ast::{spec_view_stmt, spec_view_stmts, Expr, Ident, Param, SpecBlockAst, SpecExpr, SpecParam, SpecStmt, Stmt, Type};
use crate::error::{SpecTransError, TranslateError, TranslatorError};
use crate::names::{
    set_contains, set_sorted, spec_find, spec_map_get, spec_map_insert, spec_map_insert_all,
    spec_map_remove, spec_map_remove_all, spec_put, spec_set_diff, spec_set_insert,
    spec_set_insert_all, NameMap, NameSet,
};

verus! {

broadcast use vstd::std_specs::vec::group_vec_axioms, vstd::seq::group_seq_axioms;

// ---------------------------------------------------------------------------
// Lowered blocks.
// ---------------------------------------------------------------------------

/// A lowered coroutine block.
pub struct Block {
    pub id: u64,
    pub ctx: NameMap,
    pub local: NameSet,
    pub wait: NameSet,
    pub submit: NameSet,
    pub ty: BlockType,
}

pub enum BlockType {
    Fork(BlockFork),
    For(BlockFor),
    If(BlockIf),
    ExternCall(BlockExternCall),
}

/// Children spawned together; `decls` are the handles allocated here.
pub struct BlockFork {
    pub children: Vec<Block>,
    pub decls: Vec<String>,
}

pub struct BlockFor {
    pub index: Ident,
    pub lower: Expr,
    pub upper: Expr,
    pub block: Box<Block>,
}

pub struct BlockIf {
    pub cond: Expr,
    pub body: Box<Block>,
}

pub struct BlockExternCall {
    pub symbol: Ident,
    pub args: Vec<Expr>,
    pub params: Vec<Type>,
}

#[verifier::ext_equal]
pub struct SpecBlock {
    pub id: u64,
    pub ctx: Seq<(Seq<char>, Type)>,
    pub local: Seq<Seq<char>>,
    pub wait: Seq<Seq<char>>,
    pub submit: Seq<Seq<char>>,
    pub kind: SpecBlockKind,
}

#[verifier::ext_equal]
pub enum SpecBlockKind {
    Fork { children: Seq<SpecBlock>, decls: Seq<Seq<char>> },
    For { index: Seq<char>, lower: SpecExpr, upper: SpecExpr, body: Box<SpecBlock> },
    If { cond: SpecExpr, body: Box<SpecBlock> },
    ExternCall { symbol: Seq<char>, args: Seq<SpecExpr>, params: Seq<Type> },
}

pub open spec fn spec_view_lowered(b: Block) -> SpecBlock
    decreases b, 1int,
{
    SpecBlock {
        id: b.id,
        ctx: b.ctx@,
        local: b.local@,
        wait: b.wait@,
        submit: b.submit@,
        kind: match b.ty {
            BlockType::Fork(f) => SpecBlockKind::Fork {
                children: spec_view_lowered_seq(f.children@),
                decls: f.decls.deep_view(),
            },
            BlockType::For(f) => SpecBlockKind::For {
                index: f.index@,
                lower: f.lower@,
                upper: f.upper@,
                body: Box::new(spec_view_lowered(*f.block)),
            },
            BlockType::If(i) => SpecBlockKind::If {
                cond: i.cond@,
                body: Box::new(spec_view_lowered(*i.body)),
            },
            BlockType::ExternCall(c) => SpecBlockKind::ExternCall {
                symbol: c.symbol@,
                args: c.args.deep_view(),
                params: c.params@,
            },
        },
    }
}

pub open spec fn spec_view_lowered_seq(v: Seq<Block>) -> Seq<SpecBlock>
    decreases v, 0int,
{
    if v.len() == 0 {
        Seq::empty()
    } else {
        seq![spec_view_lowered(v[0])] + spec_view_lowered_seq(v.drop_first())
    }
}

pub proof fn lemma_view_lowered_seq_index(v: Seq<Block>)
    ensures
        spec_view_lowered_seq(v).len() == v.len(),
        forall|i: int|
            0 <= i < v.len() ==> spec_view_lowered_seq(v)[i] == spec_view_lowered(v[i]),
    decreases v,
{
    if v.len() > 0 {
        lemma_view_lowered_seq_index(v.drop_first());
    }
}

impl View for Block {
    type V = SpecBlock;

    open spec fn view(&self) -> SpecBlock {
        spec_view_lowered(*self)
    }
}

// ---------------------------------------------------------------------------
// Free variables of expressions.
// ---------------------------------------------------------------------------

/// The free variables of an expression, as a sorted set of names.
/// Literals contribute nothing.
pub open spec fn spec_captures(e: SpecExpr) -> Seq<Seq<char>>
    decreases e,
{
    match e {
        SpecExpr::Ident(n) => seq![n],
        SpecExpr::Lit(_) => Seq::empty(),
        SpecExpr::BinOp(l, _, r) => spec_set_insert_all(
            spec_captures(*l),
            spec_captures(*r),
            0,
        ),
    }
}

pub proof fn lemma_captures_sorted(e: SpecExpr)
    ensures
        set_sorted(spec_captures(e)),
    decreases e,
{
    match e {
        SpecExpr::Ident(n) => {}
        SpecExpr::Lit(_) => {}
        SpecExpr::BinOp(l, _, r) => {
            lemma_captures_sorted(*l);
            crate::names::lemma_set_insert_all_sorted(spec_captures(*l), spec_captures(*r), 0);
        }
    }
}

/// Free-variable analysis: a pure fold over the expression tree.
pub fn captures_expr(e: &Expr) -> (r: NameSet)
    ensures
        r@ == spec_captures(e@),
    decreases *e,
{
    match e {
        Expr::Ident(ei) => {
            let mut s = NameSet::new();
            s.insert(ei.ident.name.clone());
            proof {
                assert(s@ =~= seq![ei.ident.name@]);
            }
            s
        }
        Expr::Lit(_) => NameSet::new(),
        Expr::BinOp(b) => {
            let mut l = captures_expr(&b.lhs);
            let r2 = captures_expr(&b.rhs);
            l.insert_all(&r2);
            l
        }
    }
}

// ---------------------------------------------------------------------------
// Sizes of the ghost AST, used as termination measures.
// ---------------------------------------------------------------------------

pub open spec fn size_block(b: SpecBlockAst) -> nat
    decreases b, 0int,
{
    1 + size_stmts(b.stmts)
}

pub open spec fn size_stmts(ss: Seq<SpecStmt>) -> nat
    decreases ss, 1int,
{
    if ss.len() == 0 {
        0
    } else {
        1 + size_stmt(ss[0]) + size_stmts(ss.drop_first())
    }
}

pub open spec fn size_stmt(s: SpecStmt) -> nat
    decreases s, 2int,
{
    match s {
        SpecStmt::Decl(_) => 1,
        SpecStmt::Blk(b) => 1 + size_block(b),
        SpecStmt::For { body, .. } => 1 + size_block(body),
        SpecStmt::If { body, .. } => 1 + size_block(body),
        SpecStmt::Call { .. } => 1,
    }
}

/// How many blocks lowering a block produces: one for the block itself plus
/// those of its statements.
pub open spec fn spec_block_count(b: SpecBlockAst) -> nat
    decreases b, 0int,
{
    1 + spec_stmts_count(b.stmts)
}

pub open spec fn spec_stmts_count(ss: Seq<SpecStmt>) -> nat
    decreases ss, 1int,
{
    if ss.len() == 0 {
        0
    } else {
        spec_stmt_count(ss[0]) + spec_stmts_count(ss.drop_first())
    }
}

pub open spec fn spec_stmt_count(s: SpecStmt) -> nat
    decreases s, 2int,
{
    match s {
        SpecStmt::Decl(_) => 0,
        SpecStmt::Blk(b) => spec_block_count(b),
        SpecStmt::For { body, .. } => 1 + spec_block_count(body),
        SpecStmt::If { body, .. } => 1 + spec_block_count(body),
        SpecStmt::Call { .. } => 1,
    }
}

// ---------------------------------------------------------------------------
// The lowering algorithm, at the specification level.
// ---------------------------------------------------------------------------

/// Imported signatures the translator has seen so far.
pub type SpecExterns = Seq<(Seq<char>, Seq<SpecParam>)>;

/// State threaded through the statements of one block.
#[verifier::ext_equal]
pub struct SpecFoldState {
    /// Typing environment: bindings visible to the statements that follow.
    pub env: Seq<(Seq<char>, Type)>,
    /// Names declared at this level, as a sorted set.
    pub local: Seq<Seq<char>>,
    /// Names declared at this level, in declaration order.
    pub decls: Seq<Seq<char>>,
    /// Lowered child blocks so far.
    pub children: Seq<SpecBlock>,
    /// Union of the children's contexts so far.
    pub ctx: Seq<(Seq<char>, Type)>,
}

/// Outcome of lowering one unit: the result and the advanced block counter.
pub type SpecLowered = (core::result::Result<SpecBlock, SpecTransError>, int);

/// Bind each declared name, rejecting a name already declared at this
/// level, already captured by an earlier statement of this level, or (at a
/// subroutine's top level) a parameter name.
pub open spec fn spec_decl_names(
    fs: SpecFoldState,
    reserved: Seq<Seq<char>>,
    names: Seq<Seq<char>>,
    i: int,
) -> core::result::Result<SpecFoldState, SpecTransError>
    decreases names.len() - i,
{
    if i < 0 || i >= names.len() {
        Ok(fs)
    } else if set_contains(fs.local, names[i]) || set_contains(reserved, names[i])
        || crate::names::map_contains_key(fs.ctx, names[i]) {
        Err(SpecTransError::Redeclaration(names[i]))
    } else {
        spec_decl_names(
            SpecFoldState {
                env: spec_map_insert(fs.env, names[i], Type::Value),
                local: spec_set_insert(fs.local, names[i]),
                decls: fs.decls.push(names[i]),
                ..fs
            },
            reserved,
            names,
            i + 1,
        )
    }
}

/// Look up each name in the environment and add it to `ctx` with its kind;
/// a name with no binding is an `UntypedIdentifier`.
pub open spec fn spec_type_names(
    env: Seq<(Seq<char>, Type)>,
    ctx: Seq<(Seq<char>, Type)>,
    names: Seq<Seq<char>>,
    i: int,
) -> core::result::Result<Seq<(Seq<char>, Type)>, SpecTransError>
    decreases names.len() - i,
{
    if i < 0 || i >= names.len() {
        Ok(ctx)
    } else {
        match spec_map_get(env, names[i]) {
            Option::None => Err(SpecTransError::UntypedIdentifier(names[i])),
            Option::Some(t) => spec_type_names(env, spec_map_insert(ctx, names[i], t), names, i + 1),
        }
    }
}

/// Classify the free variables of each argument into the wait- or submit-set
/// by the parameter kind the argument feeds, typing each in the environment.
pub open spec fn spec_call_sets(
    env: Seq<(Seq<char>, Type)>,
    params: Seq<SpecParam>,
    args: Seq<SpecExpr>,
    i: int,
    ctx: Seq<(Seq<char>, Type)>,
    wait: Seq<Seq<char>>,
    submit: Seq<Seq<char>>,
) -> core::result::Result<(Seq<(Seq<char>, Type)>, Seq<Seq<char>>, Seq<Seq<char>>), SpecTransError>
    decreases params.len() - i,
{
    if i < 0 || i >= params.len() || i >= args.len() {
        Ok((ctx, wait, submit))
    } else {
        let caps = spec_captures(args[i]);
        match spec_type_names(env, ctx, caps, 0) {
            Err(e) => Err(e),
            Ok(ctx2) => match params[i].ty {
                Type::Name => spec_call_sets(
                    env,
                    params,
                    args,
                    i + 1,
                    ctx2,
                    wait,
                    spec_set_insert_all(submit, caps, 0),
                ),
                _ => spec_call_sets(
                    env,
                    params,
                    args,
                    i + 1,
                    ctx2,
                    spec_set_insert_all(wait, caps, 0),
                    submit,
                ),
            },
        }
    }
}

/// Lower one block: fold its statements, then wrap the children in a Fork
/// whose context is the union of the children's contexts minus the names
/// declared here.
pub open spec fn spec_lower_block(
    ex: SpecExterns,
    env: Seq<(Seq<char>, Type)>,
    reserved: Seq<Seq<char>>,
    b: SpecBlockAst,
    c: int,
) -> SpecLowered
    decreases b, 0int,
{
    let init = SpecFoldState {
        env: env,
        local: Seq::empty(),
        decls: Seq::empty(),
        children: Seq::empty(),
        ctx: Seq::empty(),
    };
    let r = spec_lower_stmts(ex, reserved, init, b.stmts, c);
    match r.0 {
        Err(e) => (Err(e), r.1),
        Ok(fs) => (
            Ok(
                SpecBlock {
                    id: r.1 as u64,
                    ctx: spec_map_remove_all(fs.ctx, fs.local, 0),
                    local: fs.local,
                    wait: Seq::empty(),
                    submit: Seq::empty(),
                    kind: SpecBlockKind::Fork { children: fs.children, decls: fs.decls },
                },
            ),
            r.1 + 1,
        ),
    }
}

/// Fold the statements of a block in order, threading the typing
/// environment and accumulating children and their contexts.
pub open spec fn spec_lower_stmts(
    ex: SpecExterns,
    reserved: Seq<Seq<char>>,
    fs: SpecFoldState,
    stmts: Seq<SpecStmt>,
    c: int,
) -> (core::result::Result<SpecFoldState, SpecTransError>, int)
    decreases stmts, 1int,
{
    if stmts.len() == 0 {
        (Ok(fs), c)
    } else {
        match stmts[0] {
            SpecStmt::Decl(names) => match spec_decl_names(fs, reserved, names, 0) {
                Err(e) => (Err(e), c),
                Ok(fs2) => spec_lower_stmts(ex, reserved, fs2, stmts.drop_first(), c),
            },
            SpecStmt::Blk(inner) => spec_lower_child(
                ex,
                reserved,
                fs,
                stmts.drop_first(),
                spec_lower_block(ex, fs.env, Seq::empty(), inner, c),
            ),
            SpecStmt::For { index, lower, upper, body } => spec_lower_child(
                ex,
                reserved,
                fs,
                stmts.drop_first(),
                spec_lower_for(ex, fs.env, index, lower, upper, body, c),
            ),
            SpecStmt::If { cond, body } => spec_lower_child(
                ex,
                reserved,
                fs,
                stmts.drop_first(),
                spec_lower_if(ex, fs.env, cond, body, c),
            ),
            SpecStmt::Call { ident, args } => spec_lower_child(
                ex,
                reserved,
                fs,
                stmts.drop_first(),
                spec_lower_call(ex, fs.env, ident, args, c),
            ),
        }
    }
}

/// Record one lowered child and continue with the remaining statements.
pub open spec fn spec_lower_child(
    ex: SpecExterns,
    reserved: Seq<Seq<char>>,
    fs: SpecFoldState,
    rest: Seq<SpecStmt>,
    r: SpecLowered,
) -> (core::result::Result<SpecFoldState, SpecTransError>, int)
    decreases rest, 2int,
{
    match r.0 {
        Err(e) => (Err(e), r.1),
        Ok(child) => spec_lower_stmts(
            ex,
            reserved,
            SpecFoldState {
                children: fs.children.push(child),
                ctx: spec_map_insert_all(fs.ctx, child.ctx, 0),
                ..fs
            },
            rest,
            r.1,
        ),
    }
}

/// Lower a for-loop: the bounds are evaluated in the parent context, so
/// their free variables are waited on; the body sees the index as an `Int`.
/// An index name that is itself read by the bounds is rejected.
pub open spec fn spec_lower_for(
    ex: SpecExterns,
    env: Seq<(Seq<char>, Type)>,
    index: Seq<char>,
    lower: SpecExpr,
    upper: SpecExpr,
    body: SpecBlockAst,
    c: int,
) -> SpecLowered
    decreases body, 1int,
{
    let caps = spec_set_insert_all(spec_captures(lower), spec_captures(upper), 0);
    if set_contains(caps, index) {
        (Err(SpecTransError::Redeclaration(index)), c)
    } else {
        let r = spec_lower_block(
            ex,
            spec_map_insert(env, index, Type::Int),
            Seq::empty(),
            body,
            c,
        );
        match r.0 {
            Err(e) => (Err(e), r.1),
            Ok(child) => match spec_type_names(
                env,
                spec_map_remove(child.ctx, index),
                caps,
                0,
            ) {
                Err(e) => (Err(e), r.1),
                Ok(ctx) => (
                    Ok(
                        SpecBlock {
                            id: r.1 as u64,
                            ctx: ctx,
                            local: seq![index],
                            wait: caps,
                            submit: Seq::empty(),
                            kind: SpecBlockKind::For {
                                index: index,
                                lower: lower,
                                upper: upper,
                                body: Box::new(child),
                            },
                        },
                    ),
                    r.1 + 1,
                ),
            },
        }
    }
}

/// Lower a conditional: the condition's free variables are waited on.
pub open spec fn spec_lower_if(
    ex: SpecExterns,
    env: Seq<(Seq<char>, Type)>,
    cond: SpecExpr,
    body: SpecBlockAst,
    c: int,
) -> SpecLowered
    decreases body, 1int,
{
    let caps = spec_captures(cond);
    let r = spec_lower_block(ex, env, Seq::empty(), body, c);
    match r.0 {
        Err(e) => (Err(e), r.1),
        Ok(child) => match spec_type_names(env, child.ctx, caps, 0) {
            Err(e) => (Err(e), r.1),
            Ok(ctx) => (
                Ok(
                    SpecBlock {
                        id: r.1 as u64,
                        ctx: ctx,
                        local: Seq::empty(),
                        wait: caps,
                        submit: Seq::empty(),
                        kind: SpecBlockKind::If { cond: cond, body: Box::new(child) },
                    },
                ),
                r.1 + 1,
            ),
        },
    }
}

/// Lower a call to an imported symbol. The call must name a declared import
/// with matching arity. A handle the call itself produces is not waited on.
pub open spec fn spec_lower_call(
    ex: SpecExterns,
    env: Seq<(Seq<char>, Type)>,
    ident: Seq<char>,
    args: Seq<SpecExpr>,
    c: int,
) -> SpecLowered {
    match spec_find(ex, ident) {
        Option::None => (Err(SpecTransError::UnknownSymbol(ident)), c),
        Option::Some(params) => if params.len() != args.len() {
            (Err(SpecTransError::ArityMismatch(ident)), c)
        } else {
            match spec_call_sets(env, params, args, 0, Seq::empty(), Seq::empty(), Seq::empty()) {
                Err(e) => (Err(e), c),
                Ok((ctx, wait0, submit)) => (
                    Ok(
                        SpecBlock {
                            id: c as u64,
                            ctx: ctx,
                            local: Seq::empty(),
                            wait: spec_set_diff(wait0, submit),
                            submit: submit,
                            kind: SpecBlockKind::ExternCall {
                                symbol: ident,
                                args: args,
                                params: spec_param_types(params),
                            },
                        },
                    ),
                    c + 1,
                ),
            }
        },
    }
}

pub open spec fn spec_param_types(params: Seq<SpecParam>) -> Seq<Type>
    decreases params.len(),
{
    if params.len() == 0 {
        Seq::empty()
    } else {
        seq![params[0].ty] + spec_param_types(params.drop_first())
    }
}

/// Bindings a parameter list contributes to the environment.
pub open spec fn spec_param_pairs(params: Seq<SpecParam>) -> Seq<(Seq<char>, Type)>
    decreases params.len(),
{
    if params.len() == 0 {
        Seq::empty()
    } else {
        seq![(params[0].name, params[0].ty)] + spec_param_pairs(params.drop_first())
    }
}

pub open spec fn spec_param_names(params: Seq<SpecParam>) -> Seq<Seq<char>>
    decreases params.len(),
{
    if params.len() == 0 {
        Seq::empty()
    } else {
        seq![params[0].name] + spec_param_names(params.drop_first())
    }
}

/// Lower a subroutine: seed the environment with its parameters, lower the
/// body, then add the parameters to the root block's context with their
/// declared kinds. A top-level declaration of a parameter name is a
/// redeclaration.
pub open spec fn spec_lower_sub(
    ex: SpecExterns,
    sig: crate::ast::SpecSignature,
    body: SpecBlockAst,
    c: int,
) -> SpecLowered {
    let env0 = spec_map_insert_all(Seq::empty(), spec_param_pairs(sig.params), 0);
    let reserved = spec_set_insert_all(Seq::empty(), spec_param_names(sig.params), 0);
    let r = spec_lower_block(ex, env0, reserved, body, c);
    match r.0 {
        Err(e) => (Err(e), r.1),
        Ok(blk) => (
            Ok(
                SpecBlock {
                    ctx: spec_map_insert_all(blk.ctx, spec_param_pairs(sig.params), 0),
                    ..blk
                },
            ),
            r.1,
        ),
    }
}

/// State of a whole translation: imports seen, subroutines lowered,
/// diagnostics found, and the block counter.
#[verifier::ext_equal]
pub struct SpecTransState {
    pub externs: SpecExterns,
    pub blocks: Seq<(Seq<char>, SpecBlock)>,
    pub errors: Seq<SpecTransError>,
    pub counter: int,
}

pub open spec fn spec_init_state() -> SpecTransState {
    SpecTransState {
        externs: Seq::empty(),
        blocks: Seq::empty(),
        errors: Seq::empty(),
        counter: 0,
    }
}

/// Process one item: an import registers its signature; a subroutine is
/// lowered against the imports seen so far. Diagnostics are accumulated and
/// later subroutines are still processed.
pub open spec fn spec_visit_item(st: SpecTransState, it: crate::ast::SpecItem) -> SpecTransState {
    match it {
        crate::ast::SpecItem::Import(sig) => SpecTransState {
            externs: spec_put(st.externs, sig.ident, sig.params),
            ..st
        },
        crate::ast::SpecItem::Sub(sig, body) => {
            let r = spec_lower_sub(st.externs, sig, body, st.counter);
            match r.0 {
                Ok(blk) => SpecTransState {
                    blocks: spec_put(st.blocks, sig.ident, blk),
                    counter: r.1,
                    ..st
                },
                Err(e) => SpecTransState { errors: st.errors.push(e), counter: r.1, ..st },
            }
        },
    }
}

pub open spec fn spec_visit_items(st: SpecTransState, items: Seq<crate::ast::SpecItem>) -> SpecTransState
    decreases items,
{
    if items.len() == 0 {
        st
    } else {
        spec_visit_items(spec_visit_item(st, items[0]), items.drop_first())
    }
}

/// Blocks a whole file asks for; the translator's counter never exceeds it.
pub open spec fn spec_items_count(items: Seq<crate::ast::SpecItem>) -> nat
    decreases items,
{
    if items.len() == 0 {
        0
    } else {
        spec_item_count(items[0]) + spec_items_count(items.drop_first())
    }
}

pub open spec fn spec_item_count(it: crate::ast::SpecItem) -> nat {
    match it {
        crate::ast::SpecItem::Import(_) => 0,
        crate::ast::SpecItem::Sub(_, body) => spec_block_count(body),
    }
}


// ---------------------------------------------------------------------------
// Executable helpers over the translator's association lists.
// ---------------------------------------------------------------------------

pub proof fn lemma_param_types_index(params: Seq<SpecParam>)
    ensures
        spec_param_types(params).len() == params.len(),
        forall|i: int| 0 <= i < params.len() ==> spec_param_types(params)[i] == params[i].ty,
    decreases params.len(),
{
    if params.len() > 0 {
        lemma_param_types_index(params.drop_first());
    }
}

pub proof fn lemma_param_pairs_index(params: Seq<SpecParam>)
    ensures
        spec_param_pairs(params).len() == params.len(),
        forall|i: int|
            0 <= i < params.len() ==> spec_param_pairs(params)[i] == (
                params[i].name,
                params[i].ty,
            ),
    decreases params.len(),
{
    if params.len() > 0 {
        lemma_param_pairs_index(params.drop_first());
    }
}

pub proof fn lemma_param_names_index(params: Seq<SpecParam>)
    ensures
        spec_param_names(params).len() == params.len(),
        forall|i: int| 0 <= i < params.len() ==> spec_param_names(params)[i] == params[i].name,
    decreases params.len(),
{
    if params.len() > 0 {
        lemma_param_names_index(params.drop_first());
    }
}

/// The imported signatures, keyed by name.
pub open spec fn externs_view(v: Seq<(String, Vec<Param>)>) -> SpecExterns {
    v.map_values(|p: (String, Vec<Param>)| (p.0@, p.1.deep_view()))
}

/// The lowered subroutines, keyed by name.
pub open spec fn blocks_view(v: Seq<(String, Block)>) -> Seq<(Seq<char>, SpecBlock)> {
    v.map_values(|p: (String, Block)| (p.0@, p.1@))
}

fn find_extern<'a>(v: &'a Vec<(String, Vec<Param>)>, name: &String) -> (r: Option<
    &'a Vec<Param>,
>)
    ensures
        match r {
            Option::Some(ps) => spec_find(externs_view(v@), name@) == Option::Some(
                ps.deep_view(),
            ),
            Option::None => spec_find(externs_view(v@), name@) is None,
        },
{
    let ghost ev = externs_view(v@);
    proof {
        assert(ev.skip(0) =~= ev);
    }
    let mut i: usize = 0;
    while i < v.len()
        invariant
            i <= v@.len(),
            ev == externs_view(v@),
            ev.len() == v@.len(),
            spec_find(ev, name@) == spec_find(ev.skip(i as int), name@),
        decreases v@.len() - i,
    {
        proof {
            assert(ev[i as int] == (v@[i as int].0@, v@[i as int].1.deep_view()));
            assert(ev.skip(i as int)[0] == ev[i as int]);
            assert(ev.skip(i as int).drop_first() =~= ev.skip(i + 1));
        }
        if crate::names::name_eq(&v[i].0, name) {
            proof {
                assert(spec_find(ev.skip(i as int), name@) == Option::Some(
                    v@[i as int].1.deep_view(),
                ));
            }
            return Some(&v[i].1);
        }
        i = i + 1;
    }
    proof {
        assert(ev.skip(v@.len() as int) =~= Seq::<(Seq<char>, Seq<SpecParam>)>::empty());
    }
    None
}

fn put_extern(v: &mut Vec<(String, Vec<Param>)>, name: String, params: Vec<Param>)
    ensures
        externs_view(final(v)@) == spec_put(
            externs_view(old(v)@),
            name@,
            params.deep_view(),
        ),
{
    let ghost ev0 = externs_view(v@);
    let mut j: usize = 0;
    while j < v.len()
        invariant
            j <= v@.len(),
            externs_view(v@) == ev0,
            externs_view(old(v)@) == ev0,
            ev0.len() == v@.len(),
            forall|x: int| 0 <= x < j ==> ev0[x].0 != name@,
        decreases v@.len() - j,
    {
        proof {
            assert(ev0[j as int] == (v@[j as int].0@, v@[j as int].1.deep_view()));
        }
        if crate::names::name_eq(&v[j].0, &name) {
            let ghost pv = params.deep_view();
            let ghost n0 = name@;
            let ghost vpre = v@;
            v.set(j, (name, params));
            proof {
                crate::names::lemma_spec_put_position(ev0, n0, pv, j as int);
                assert forall|x: int| 0 <= x < v@.len() implies externs_view(v@)[x] == ev0.update(
                    j as int,
                    (n0, pv),
                )[x] by {
                    assert(v@[x] == vpre.update(j as int, (v@[j as int].0, v@[j as int].1))[x]);
                    if x != j {
                        assert(vpre.update(j as int, (v@[j as int].0, v@[j as int].1))[x]
                            == vpre[x]);
                        assert(externs_view(v@)[x] == (v@[x].0@, v@[x].1.deep_view()));
                        assert(ev0[x] == (vpre[x].0@, vpre[x].1.deep_view()));
                    } else {
                        assert(externs_view(v@)[x] == (v@[x].0@, v@[x].1.deep_view()));
                    }
                }
                assert(externs_view(v@) =~= ev0.update(j as int, (n0, pv)));
            }
            return ;
        }
        j = j + 1;
    }
    let ghost pv = params.deep_view();
    let ghost n0 = name@;
    v.push((name, params));
    proof {
        crate::names::lemma_spec_put_position(ev0, n0, pv, ev0.len() as int);
        assert(externs_view(v@) =~= ev0.push((n0, pv)));
    }
}

fn put_block(v: &mut Vec<(String, Block)>, name: String, blk: Block)
    ensures
        blocks_view(final(v)@) == spec_put(blocks_view(old(v)@), name@, blk@),
{
    let ghost bv0 = blocks_view(v@);
    let ghost bb = blk@;
    let mut j: usize = 0;
    while j < v.len()
        invariant
            j <= v@.len(),
            blocks_view(v@) == bv0,
            blocks_view(old(v)@) == bv0,
            bv0.len() == v@.len(),
            forall|x: int| 0 <= x < j ==> bv0[x].0 != name@,
        decreases v@.len() - j,
    {
        proof {
            assert(bv0[j as int] == (v@[j as int].0@, v@[j as int].1@));
        }
        if crate::names::name_eq(&v[j].0, &name) {
            let ghost bb2 = blk@;
            let ghost n0 = name@;
            let ghost vpre = v@;
            v.set(j, (name, blk));
            proof {
                crate::names::lemma_spec_put_position(bv0, n0, bb2, j as int);
                assert forall|x: int| 0 <= x < v@.len() implies blocks_view(v@)[x] == bv0.update(
                    j as int,
                    (n0, bb2),
                )[x] by {
                    assert(v@[x] == vpre.update(j as int, (v@[j as int].0, v@[j as int].1))[x]);
                    if x != j {
                        assert(vpre.update(j as int, (v@[j as int].0, v@[j as int].1))[x]
                            == vpre[x]);
                        assert(blocks_view(v@)[x] == (v@[x].0@, v@[x].1@));
                        assert(bv0[x] == (vpre[x].0@, vpre[x].1@));
                        assert(bv0.update(j as int, (n0, bb2))[x] == bv0[x]);
                    } else {
                        assert(blocks_view(v@)[x] == (v@[x].0@, v@[x].1@));
                        assert(bv0.update(j as int, (n0, bb2))[x] == (n0, bb2));
                    }
                }
                assert(blocks_view(v@) =~= bv0.update(j as int, (n0, bb2)));
            }
            return ;
        }
        j = j + 1;
    }
    let ghost n0 = name@;
    v.push((name, blk));
    proof {
        crate::names::lemma_spec_put_position(bv0, n0, bb, bv0.len() as int);
        assert(blocks_view(v@) =~= bv0.push((n0, bb)));
    }
}

fn get_param_types(ps: &Vec<Param>) -> (r: Vec<Type>)
    ensures
        r@ == spec_param_types(ps.deep_view()),
{
    proof {
        lemma_param_types_index(ps.deep_view());
    }
    let mut r: Vec<Type> = Vec::new();
    let mut i: usize = 0;
    while i < ps.len()
        invariant
            i <= ps@.len(),
            ps.deep_view().len() == ps@.len(),
            r@.len() == i,
            forall|j: int| 0 <= j < i ==> r@[j] == ps.deep_view()[j].ty,
        decreases ps@.len() - i,
    {
        r.push(ps[i].ty);
        proof {
            assert(ps.deep_view()[i as int] == ps@[i as int].deep_view());
        }
        i = i + 1;
    }
    proof {
        assert(r@ =~= spec_param_types(ps.deep_view()));
    }
    r
}

/// Add each name of `names` to `ctx` with the kind the environment gives it.
fn type_names(env: &NameMap, ctx: &mut NameMap, names: &NameSet) -> (r: core::result::Result<
    (),
    TranslateError,
>)
    ensures
        match (r, spec_type_names(env@, old(ctx)@, names@, 0)) {
            (core::result::Result::Ok(()), core::result::Result::Ok(c2)) => final(ctx)@ == c2,
            (core::result::Result::Err(e), core::result::Result::Err(se)) => e@ == se,
            _ => false,
        },
{
    let ghost c0 = ctx@;
    let mut i: usize = 0;
    while i < names.len()
        invariant
            i <= names@.len(),
            c0 == old(ctx)@,
            spec_type_names(env@, ctx@, names@, i as int) == spec_type_names(
                env@,
                c0,
                names@,
                0,
            ),
        decreases names@.len() - i,
    {
        let n = names.get(i);
        match env.get(n) {
            Option::None => {
                return Err(TranslateError::UntypedIdentifier(n.clone()));
            },
            Option::Some(t) => {
                ctx.insert(n.clone(), t);
            },
        }
        i = i + 1;
    }
    Ok(())
}


pub proof fn lemma_view_lowered_seq_push(v: Seq<Block>, b: Block)
    ensures
        spec_view_lowered_seq(v.push(b)) == spec_view_lowered_seq(v).push(spec_view_lowered(b)),
{
    lemma_view_lowered_seq_index(v.push(b));
    lemma_view_lowered_seq_index(v);
    assert forall|i: int|
        0 <= i < v.len() + 1 implies spec_view_lowered_seq(v.push(b))[i] == spec_view_lowered_seq(
        v,
    ).push(spec_view_lowered(b))[i] by {
        if i < v.len() {
            assert(v.push(b)[i] == v[i]);
        } else {
            assert(v.push(b)[i] == b);
        }
    }
    assert(spec_view_lowered_seq(v.push(b)) =~= spec_view_lowered_seq(v).push(
        spec_view_lowered(b),
    ));
}

// ---------------------------------------------------------------------------
// The translator.
// ---------------------------------------------------------------------------

/// Accumulates imported signatures, lowered subroutines and diagnostics
/// while walking a file, handing out block ids from a single counter.
pub struct Translator {
    errors: Vec<TranslateError>,
    externs: Vec<(String, Vec<Param>)>,
    blocks: Vec<(String, Block)>,
    block_id: u64,
}

impl Translator {
    /// The abstract translation state this translator is in.
    pub closed spec fn spec_state(&self) -> SpecTransState {
        SpecTransState {
            externs: externs_view(self.externs@),
            blocks: blocks_view(self.blocks@),
            errors: self.errors.deep_view(),
            counter: self.block_id as int,
        }
    }

    pub fn new() -> (r: Self)
        ensures
            r.spec_state() == spec_init_state(),
    {
        let r = Self { errors: Vec::new(), externs: Vec::new(), blocks: Vec::new(), block_id: 0 };
        proof {
            assert(externs_view(r.externs@) =~= spec_init_state().externs);
            assert(blocks_view(r.blocks@) =~= spec_init_state().blocks);
            assert(r.errors.deep_view() =~= spec_init_state().errors);
            assert(r.spec_state() =~= spec_init_state());
        }
        r
    }

    /// Draw the next block id.
    fn id(&mut self) -> (r: u64)
        requires
            old(self).block_id < u64::MAX,
        ensures
            r == old(self).block_id,
            final(self).block_id == old(self).block_id + 1,
            final(self).externs == old(self).externs,
            final(self).blocks == old(self).blocks,
            final(self).errors == old(self).errors,
    {
        let id = self.block_id;
        self.block_id = self.block_id + 1;
        id
    }

    fn fold_stmt_call(&mut self, env: &NameMap, stmt: ast::StmtCall) -> (r: core::result::Result<
        Block,
        TranslateError,
    >)
        requires
            old(self).block_id < u64::MAX,
        ensures
            final(self).externs == old(self).externs,
            final(self).blocks == old(self).blocks,
            final(self).errors == old(self).errors,
            ({
                let sr = spec_lower_call(
                    externs_view(old(self).externs@),
                    env@,
                    stmt.ident@,
                    stmt.args.deep_view(),
                    old(self).block_id as int,
                );
                &&& final(self).block_id as int == sr.1
                &&& old(self).block_id <= final(self).block_id
                &&& final(self).block_id as int <= old(self).block_id + 1
                &&& match (r, sr.0) {
                    (core::result::Result::Ok(blk), core::result::Result::Ok(sb)) => blk@ == sb,
                    (core::result::Result::Err(e), core::result::Result::Err(se)) => e@ == se,
                    _ => false,
                }
            }),
    {
        let ghost ex = externs_view(self.externs@);
        let ghost c0 = self.block_id as int;
        let ghost av = stmt.args.deep_view();
        let param_tys: Vec<Type>;
        let param_count: usize;
        match find_extern(&self.externs, &stmt.ident.name) {
            Option::None => {
                return Err(TranslateError::UnknownSymbol(stmt.ident.name));
            },
            Option::Some(ps) => {
                param_tys = get_param_types(ps);
                param_count = ps.len();
                proof {
                    assert(ps.deep_view().len() == ps@.len());
                }
            },
        }
        let ghost pv = choose|pv: Seq<SpecParam>| spec_find(ex, stmt.ident@) == Option::Some(pv);
        proof {
            assert(param_tys@ == spec_param_types(pv));
            lemma_param_types_index(pv);
            assert(pv.len() == param_count);
        }
        if param_count != stmt.args.len() {
            return Err(TranslateError::ArityMismatch(stmt.ident.name));
        }
        let mut ctx = NameMap::new();
        let mut wait0 = NameSet::new();
        let mut submit = NameSet::new();
        proof {
            assert(ctx@ =~= Seq::<(Seq<char>, Type)>::empty());
            assert(wait0@ =~= Seq::<Seq<char>>::empty());
            assert(submit@ =~= Seq::<Seq<char>>::empty());
        }
        let mut i: usize = 0;
        while i < param_count
            invariant
                i <= param_count,
                param_count <= usize::MAX,
                pv.len() == param_count,
                av.len() == param_count,
                stmt.args.deep_view() == av,
                stmt.args@.len() == param_count,
                param_tys@ == spec_param_types(pv),
                spec_find(ex, stmt.ident@) == Option::Some(pv),
                c0 == old(self).block_id as int,
                ex == externs_view(old(self).externs@),
                self.externs == old(self).externs,
                self.blocks == old(self).blocks,
                self.errors == old(self).errors,
                self.block_id == old(self).block_id,
                old(self).block_id < u64::MAX,
                spec_call_sets(env@, pv, av, i as int, ctx@, wait0@, submit@) == spec_call_sets(
                    env@,
                    pv,
                    av,
                    0,
                    Seq::empty(),
                    Seq::empty(),
                    Seq::empty(),
                ),
            decreases param_count - i,
        {
            let ghost ctx_pre = ctx@;
            let caps = captures_expr(&stmt.args[i]);
            proof {
                assert(av[i as int] == stmt.args@[i as int].deep_view());
                lemma_param_types_index(pv);
            }
            match type_names(env, &mut ctx, &caps) {
                core::result::Result::Err(e) => {
                    proof {
                        assert(spec_call_sets(env@, pv, av, i as int, ctx_pre, wait0@, submit@)
                            matches core::result::Result::Err(se) && e@ == se);
                    }
                    return Err(e);
                },
                core::result::Result::Ok(()) => {},
            }
            if param_tys[i] == Type::Name {
                submit.insert_all(&caps);
            } else {
                wait0.insert_all(&caps);
            }
            i = i + 1;
        }
        let wait = wait0.diff(&submit);
        let id = self.id();
        let blk = Block {
            id,
            ctx,
            local: NameSet::new(),
            wait,
            submit,
            ty: BlockType::ExternCall(
                BlockExternCall { symbol: stmt.ident, args: stmt.args, params: param_tys },
            ),
        };
        proof {
            let sr = spec_lower_call(ex, env@, stmt.ident@, av, c0);
            assert(blk@.local =~= Seq::<Seq<char>>::empty());
            assert(sr.0 matches core::result::Result::Ok(sb) && blk@ =~= sb);
        }
        Ok(blk)
    }
}


impl Translator {
    fn fold_stmt_if(&mut self, env: &NameMap, stmt: ast::StmtIf) -> (r: core::result::Result<
        Block,
        TranslateError,
    >)
        requires
            old(self).block_id + 1 + spec_block_count(stmt.body@) <= u64::MAX,
        ensures
            final(self).externs == old(self).externs,
            final(self).blocks == old(self).blocks,
            final(self).errors == old(self).errors,
            ({
                let sr = spec_lower_if(
                    externs_view(old(self).externs@),
                    env@,
                    stmt.cond@,
                    stmt.body@,
                    old(self).block_id as int,
                );
                &&& final(self).block_id as int == sr.1
                &&& old(self).block_id <= final(self).block_id
                &&& final(self).block_id as int <= old(self).block_id + 1 + spec_block_count(
                    stmt.body@,
                )
                &&& match (r, sr.0) {
                    (core::result::Result::Ok(blk), core::result::Result::Ok(sb)) => blk@ == sb,
                    (core::result::Result::Err(e), core::result::Result::Err(se)) => e@ == se,
                    _ => false,
                }
            }),
        decreases size_block(stmt.body@), 1int,
    {
        let ghost ex = externs_view(self.externs@);
        let ghost c0 = self.block_id as int;
        let caps = captures_expr(&stmt.cond);
        let empty_rs = NameSet::new();
        proof {
            assert(empty_rs@ =~= Seq::<Seq<char>>::empty());
        }
        let r = self.fold_block(env, &empty_rs, stmt.body);
        match r {
            core::result::Result::Err(e) => Err(e),
            core::result::Result::Ok(child) => {
                let ghost cv = child@;
                let mut ctx = child.ctx.duplicate();
                match type_names(env, &mut ctx, &caps) {
                    core::result::Result::Err(e) => {
                        return Err(e);
                    },
                    core::result::Result::Ok(()) => {},
                }
                let id = self.id();
                let blk = Block {
                    id,
                    ctx,
                    local: NameSet::new(),
                    wait: caps,
                    submit: NameSet::new(),
                    ty: BlockType::If(BlockIf { cond: stmt.cond, body: Box::new(child) }),
                };
                proof {
                    let sr = spec_lower_if(ex, env@, stmt.cond@, stmt.body@, c0);
                    assert(blk@.local =~= Seq::<Seq<char>>::empty());
                    assert(blk@.submit =~= Seq::<Seq<char>>::empty());
                    assert(sr.0 matches core::result::Result::Ok(sb) && blk@ =~= sb);
                }
                Ok(blk)
            },
        }
    }

    fn fold_stmt_for(&mut self, env: &NameMap, stmt: ast::StmtFor) -> (r: core::result::Result<
        Block,
        TranslateError,
    >)
        requires
            old(self).block_id + 1 + spec_block_count(stmt.body@) <= u64::MAX,
        ensures
            final(self).externs == old(self).externs,
            final(self).blocks == old(self).blocks,
            final(self).errors == old(self).errors,
            ({
                let sr = spec_lower_for(
                    externs_view(old(self).externs@),
                    env@,
                    stmt.index@,
                    stmt.lower@,
                    stmt.upper@,
                    stmt.body@,
                    old(self).block_id as int,
                );
                &&& final(self).block_id as int == sr.1
                &&& old(self).block_id <= final(self).block_id
                &&& final(self).block_id as int <= old(self).block_id + 1 + spec_block_count(
                    stmt.body@,
                )
                &&& match (r, sr.0) {
                    (core::result::Result::Ok(blk), core::result::Result::Ok(sb)) => blk@ == sb,
                    (core::result::Result::Err(e), core::result::Result::Err(se)) => e@ == se,
                    _ => false,
                }
            }),
        decreases size_block(stmt.body@), 1int,
    {
        let ghost ex = externs_view(self.externs@);
        let ghost c0 = self.block_id as int;
        let mut wait = captures_expr(&stmt.lower);
        let caps_hi = captures_expr(&stmt.upper);
        wait.insert_all(&caps_hi);
        if wait.contains(&stmt.index.name) {
            return Err(TranslateError::Redeclaration(stmt.index.name));
        }
        let mut env1 = env.duplicate();
        env1.insert(stmt.index.name.clone(), Type::Int);
        let empty_rs = NameSet::new();
        proof {
            assert(empty_rs@ =~= Seq::<Seq<char>>::empty());
        }
        let r = self.fold_block(&env1, &empty_rs, stmt.body);
        match r {
            core::result::Result::Err(e) => Err(e),
            core::result::Result::Ok(child) => {
                let ghost cv = child@;
                let mut ctx = child.ctx.duplicate();
                ctx.remove(&stmt.index.name);
                match type_names(env, &mut ctx, &wait) {
                    core::result::Result::Err(e) => {
                        return Err(e);
                    },
                    core::result::Result::Ok(()) => {},
                }
                let mut local = NameSet::new();
                local.insert(stmt.index.name.clone());
                let id = self.id();
                let blk = Block {
                    id,
                    ctx,
                    local,
                    wait,
                    submit: NameSet::new(),
                    ty: BlockType::For(
                        BlockFor {
                            index: stmt.index,
                            lower: stmt.lower,
                            upper: stmt.upper,
                            block: Box::new(child),
                        },
                    ),
                };
                proof {
                    let sr = spec_lower_for(
                        ex,
                        env@,
                        stmt.index@,
                        stmt.lower@,
                        stmt.upper@,
                        stmt.body@,
                        c0,
                    );
                    assert(blk@.local =~= seq![stmt.index@]);
                    assert(blk@.submit =~= Seq::<Seq<char>>::empty());
                    assert(sr.0 matches core::result::Result::Ok(sb) && blk@ =~= sb);
                }
                Ok(blk)
            },
        }
    }

    fn fold_block(&mut self, env: &NameMap, reserved: &NameSet, b: ast::Block) -> (r:
        core::result::Result<Block, TranslateError>)
        requires
            old(self).block_id + spec_block_count(b@) <= u64::MAX,
        ensures
            final(self).externs == old(self).externs,
            final(self).blocks == old(self).blocks,
            final(self).errors == old(self).errors,
            ({
                let sr = spec_lower_block(
                    externs_view(old(self).externs@),
                    env@,
                    reserved@,
                    b@,
                    old(self).block_id as int,
                );
                &&& final(self).block_id as int == sr.1
                &&& old(self).block_id <= final(self).block_id
                &&& final(self).block_id as int <= old(self).block_id + spec_block_count(b@)
                &&& match (r, sr.0) {
                    (core::result::Result::Ok(blk), core::result::Result::Ok(sb)) => blk@ == sb,
                    (core::result::Result::Err(e), core::result::Result::Err(se)) => e@ == se,
                    _ => false,
                }
            }),
        decreases size_block(b@), 0int,
    {
        let ghost bview = b@;
        let ghost c0 = self.block_id as int;
        let ghost ex = externs_view(self.externs@);
        let mut env2 = env.duplicate();
        let mut local = NameSet::new();
        let mut decls: Vec<String> = Vec::new();
        let mut children: Vec<Block> = Vec::new();
        let mut ctx = NameMap::new();
        proof {
            assert(decls.deep_view() =~= Seq::<Seq<char>>::empty());
            assert(spec_view_lowered_seq(children@) =~= Seq::<SpecBlock>::empty());
            assert(local@ =~= Seq::<Seq<char>>::empty());
            assert(ctx@ =~= Seq::<(Seq<char>, Type)>::empty());
        }
        let ast::Block { stmts } = b;
        let fr = self.fold_stmts(
            &mut env2,
            reserved,
            &mut local,
            &mut decls,
            &mut children,
            &mut ctx,
            stmts,
        );
        match fr {
            core::result::Result::Err(e) => Err(e),
            core::result::Result::Ok(()) => {
                ctx.remove_all(&local);
                let id = self.id();
                let blk = Block {
                    id,
                    ctx,
                    local,
                    wait: NameSet::new(),
                    submit: NameSet::new(),
                    ty: BlockType::Fork(BlockFork { children, decls }),
                };
                proof {
                    let sr = spec_lower_block(ex, env@, reserved@, bview, c0);
                    assert(blk@.wait =~= Seq::<Seq<char>>::empty());
                    assert(blk@.submit =~= Seq::<Seq<char>>::empty());
                    assert(sr.0 matches core::result::Result::Ok(sb) && blk@ =~= sb);
                }
                Ok(blk)
            },
        }
    }

    #[verifier::loop_isolation(false)]
    fn fold_stmts(
        &mut self,
        env2: &mut NameMap,
        reserved: &NameSet,
        local: &mut NameSet,
        decls: &mut Vec<String>,
        children: &mut Vec<Block>,
        ctx: &mut NameMap,
        stmts: Vec<Stmt>,
    ) -> (r: core::result::Result<(), TranslateError>)
        requires
            old(self).block_id as int + spec_stmts_count(spec_view_stmts(stmts@)) <= u64::MAX,
        ensures
            final(self).externs == old(self).externs,
            final(self).blocks == old(self).blocks,
            final(self).errors == old(self).errors,
            ({
                let ss = spec_view_stmts(stmts@);
                let fs0 = SpecFoldState {
                    env: old(env2)@,
                    local: old(local)@,
                    decls: old(decls).deep_view(),
                    children: spec_view_lowered_seq(old(children)@),
                    ctx: old(ctx)@,
                };
                let sr = spec_lower_stmts(
                    externs_view(old(self).externs@),
                    reserved@,
                    fs0,
                    ss,
                    old(self).block_id as int,
                );
                &&& final(self).block_id as int == sr.1
                &&& old(self).block_id <= final(self).block_id
                &&& final(self).block_id as int <= old(self).block_id + spec_stmts_count(ss)
                &&& match (r, sr.0) {
                    (core::result::Result::Ok(()), core::result::Result::Ok(fs)) => final(env2)@
                        == fs.env && final(local)@ == fs.local && final(decls).deep_view()
                        == fs.decls && spec_view_lowered_seq(final(children)@) == fs.children
                        && final(ctx)@ == fs.ctx,
                    (core::result::Result::Err(e), core::result::Result::Err(se)) => e@ == se,
                    _ => false,
                }
            }),
        decreases size_stmts(spec_view_stmts(stmts@)), 1int,
    {
        broadcast use vstd::seq_lib::group_seq_properties;

        let ghost ss = spec_view_stmts(stmts@);
        let ghost ex = externs_view(self.externs@);
        let ghost c0 = self.block_id as int;
        let mut stmts = stmts;
        if stmts.len() == 0 {
            return Ok(());
        }
        let ghost sv0 = stmts@;
        let s = stmts.remove(0);
        proof {
            assert(sv0.remove(0) =~= sv0.drop_first());
            assert(ss == seq![spec_view_stmt(sv0[0])] + spec_view_stmts(sv0.drop_first()));
            assert(ss[0] == spec_view_stmt(s));
            assert(ss.drop_first() =~= spec_view_stmts(stmts@));
            assert(size_stmts(ss) == 1 + size_stmt(ss[0]) + size_stmts(ss.drop_first()));
            assert(spec_stmts_count(ss) == spec_stmt_count(ss[0]) + spec_stmts_count(
                ss.drop_first(),
            ));
            assert(size_stmts(spec_view_stmts(stmts@)) == size_stmts(ss.drop_first()));
            assert(spec_stmts_count(spec_view_stmts(stmts@)) == spec_stmts_count(
                ss.drop_first(),
            ));
        }
        match s {
            Stmt::Decl(d) => {
                let ghost names = d.dfs.deep_view();
                proof {
                    assert(ss[0] == SpecStmt::Decl(names));
                }
                let ghost fs_entry = SpecFoldState {
                    env: env2@,
                    local: local@,
                    decls: decls.deep_view(),
                    children: spec_view_lowered_seq(children@),
                    ctx: ctx@,
                };
                let mut dfs = d.dfs;
                let ghost mut gi: int = 0;
                proof {
                    assert(dfs.deep_view() =~= names.skip(0));
                }
                while dfs.len() > 0
                    invariant
                        0 <= gi <= names.len(),
                        dfs.deep_view() == names.skip(gi),
                        dfs@.len() + gi == names.len(),
                        self.externs == old(self).externs,
                        self.blocks == old(self).blocks,
                        self.errors == old(self).errors,
                        self.block_id == old(self).block_id,
                        children@ == old(children)@,
                        spec_decl_names(
                            SpecFoldState {
                                env: env2@,
                                local: local@,
                                decls: decls.deep_view(),
                                children: spec_view_lowered_seq(children@),
                                ctx: ctx@,
                            },
                            reserved@,
                            names,
                            gi,
                        ) == spec_decl_names(fs_entry, reserved@, names, 0),
                        fs_entry.ctx == ctx@,
                        fs_entry.children == spec_view_lowered_seq(children@),
                    decreases dfs@.len(),
                {
                    let ghost dpre = dfs.deep_view();
                    let n = dfs.remove(0);
                    proof {
                        assert(dpre[0] == n@);
                        assert(dpre[0] == names[gi]);
                        assert(dfs.deep_view() =~= dpre.drop_first());
                        assert(dfs.deep_view() =~= names.skip(gi + 1));
                    }
                    if local.contains(&n.name) || reserved.contains(&n.name)
                        || ctx.contains_key(&n.name) {
                        return Err(TranslateError::Redeclaration(n.name));
                    }
                    env2.insert(n.name.clone(), Type::Value);
                    local.insert(n.name.clone());
                    let ghost dclpre = decls.deep_view();
                    decls.push(n.name);
                    proof {
                        assert(decls.deep_view() =~= dclpre.push(names[gi]));
                        gi = gi + 1;
                    }
                }
                proof {
                    assert(names.skip(gi).len() == 0);
                    assert(gi == names.len());
                }
                let rr = self.fold_stmts(env2, reserved, local, decls, children, ctx, stmts);
                proof {
                    let fs2 = SpecFoldState {
                        env: env2@,
                        local: local@,
                        decls: decls.deep_view(),
                        children: spec_view_lowered_seq(children@),
                        ctx: ctx@,
                    };
                    assert(spec_decl_names(fs2, reserved@, names, names.len() as int) == core::result::Result::<
                        SpecFoldState,
                        SpecTransError,
                    >::Ok(fs2));
                }
                rr
            },
            Stmt::Block(sb) => {
                let empty_rs = NameSet::new();
                proof {
                    assert(empty_rs@ =~= Seq::<Seq<char>>::empty());
                    assert(ss[0] == SpecStmt::Blk(sb.block@));
                }
                let cr = self.fold_block(env2, &empty_rs, sb.block);
                self.fold_child(env2, reserved, local, decls, children, ctx, stmts, cr)
            },
            Stmt::For(f) => {
                proof {
                    assert(ss[0] == SpecStmt::For {
                        index: f.index@,
                        lower: f.lower@,
                        upper: f.upper@,
                        body: f.body@,
                    });
                }
                let cr = self.fold_stmt_for(env2, f);
                self.fold_child(env2, reserved, local, decls, children, ctx, stmts, cr)
            },
            Stmt::If(i) => {
                proof {
                    assert(ss[0] == SpecStmt::If { cond: i.cond@, body: i.body@ });
                }
                let cr = self.fold_stmt_if(env2, i);
                self.fold_child(env2, reserved, local, decls, children, ctx, stmts, cr)
            },
            Stmt::Call(c) => {
                proof {
                    assert(ss[0] == SpecStmt::Call { ident: c.ident@, args: c.args.deep_view() });
                }
                let cr = self.fold_stmt_call(env2, c);
                self.fold_child(env2, reserved, local, decls, children, ctx, stmts, cr)
            },
        }
    }

    /// Record one lowered child (or stop on its error) and fold the rest.
    fn fold_child(
        &mut self,
        env2: &mut NameMap,
        reserved: &NameSet,
        local: &mut NameSet,
        decls: &mut Vec<String>,
        children: &mut Vec<Block>,
        ctx: &mut NameMap,
        stmts: Vec<Stmt>,
        cr: core::result::Result<Block, TranslateError>,
    ) -> (r: core::result::Result<(), TranslateError>)
        requires
            old(self).block_id as int + spec_stmts_count(spec_view_stmts(stmts@)) <= u64::MAX,
        ensures
            final(self).externs == old(self).externs,
            final(self).blocks == old(self).blocks,
            final(self).errors == old(self).errors,
            ({
                let ss = spec_view_stmts(stmts@);
                let fs0 = SpecFoldState {
                    env: old(env2)@,
                    local: old(local)@,
                    decls: old(decls).deep_view(),
                    children: spec_view_lowered_seq(old(children)@),
                    ctx: old(ctx)@,
                };
                let crv: core::result::Result<SpecBlock, SpecTransError> = match cr {
                    core::result::Result::Ok(blk) => core::result::Result::Ok(blk@),
                    core::result::Result::Err(e) => core::result::Result::Err(e@),
                };
                let sr = spec_lower_child(
                    externs_view(old(self).externs@),
                    reserved@,
                    fs0,
                    ss,
                    (crv, old(self).block_id as int),
                );
                &&& final(self).block_id as int == sr.1
                &&& old(self).block_id <= final(self).block_id
                &&& final(self).block_id as int <= old(self).block_id + spec_stmts_count(ss)
                &&& match (r, sr.0) {
                    (core::result::Result::Ok(()), core::result::Result::Ok(fs)) => final(env2)@
                        == fs.env && final(local)@ == fs.local && final(decls).deep_view()
                        == fs.decls && spec_view_lowered_seq(final(children)@) == fs.children
                        && final(ctx)@ == fs.ctx,
                    (core::result::Result::Err(e), core::result::Result::Err(se)) => e@ == se,
                    _ => false,
                }
            }),
        decreases size_stmts(spec_view_stmts(stmts@)), 2int,
    {
        match cr {
            core::result::Result::Err(e) => Err(e),
            core::result::Result::Ok(child) => {
                let ghost cv = child@;
                ctx.insert_all(&child.ctx);
                let ghost chpre = children@;
                children.push(child);
                proof {
                    assert(children@ == chpre.push(child));
                    lemma_view_lowered_seq_push(chpre, child);
                }
                self.fold_stmts(env2, reserved, local, decls, children, ctx, stmts)
            },
        }
    }
}


impl Translator {
    #[verifier::loop_isolation(false)]
    fn fold_sub(&mut self, sig: ast::Signature, body: ast::Block) -> (r: core::result::Result<
        Block,
        TranslateError,
    >)
        requires
            old(self).block_id + spec_block_count(body@) <= u64::MAX,
        ensures
            final(self).externs == old(self).externs,
            final(self).blocks == old(self).blocks,
            final(self).errors == old(self).errors,
            ({
                let sr = spec_lower_sub(
                    externs_view(old(self).externs@),
                    sig@,
                    body@,
                    old(self).block_id as int,
                );
                &&& final(self).block_id as int == sr.1
                &&& old(self).block_id <= final(self).block_id
                &&& final(self).block_id as int <= old(self).block_id + spec_block_count(body@)
                &&& match (r, sr.0) {
                    (core::result::Result::Ok(blk), core::result::Result::Ok(sb)) => blk@ == sb,
                    (core::result::Result::Err(e), core::result::Result::Err(se)) => e@ == se,
                    _ => false,
                }
            }),
    {
        let ghost pairs = spec_param_pairs(sig@.params);
        let ghost names = spec_param_names(sig@.params);
        proof {
            lemma_param_pairs_index(sig@.params);
            lemma_param_names_index(sig@.params);
        }
        let mut env0 = NameMap::new();
        let mut reserved = NameSet::new();
        proof {
            assert(env0@ =~= Seq::<(Seq<char>, Type)>::empty());
            assert(reserved@ =~= Seq::<Seq<char>>::empty());
        }
        let ghost e0 = env0@;
        let ghost r0 = reserved@;
        let mut i: usize = 0;
        while i < sig.params.len()
            invariant
                i <= sig.params@.len(),
                spec_map_insert_all(env0@, pairs, i as int) == spec_map_insert_all(e0, pairs, 0),
                spec_set_insert_all(reserved@, names, i as int) == spec_set_insert_all(
                    r0,
                    names,
                    0,
                ),
            decreases sig.params@.len() - i,
        {
            proof {
                assert(sig@.params[i as int] == sig.params@[i as int]@);
            }
            env0.insert(sig.params[i].name.name.clone(), sig.params[i].ty);
            reserved.insert(sig.params[i].name.name.clone());
            i = i + 1;
        }
        let r = self.fold_block(&env0, &reserved, body);
        match r {
            core::result::Result::Err(e) => Err(e),
            core::result::Result::Ok(blk) => {
                let ghost bv = blk@;
                let Block { id, ctx, local, wait, submit, ty } = blk;
                let mut ctx2 = ctx;
                let ghost cx0 = ctx2@;
                let mut j: usize = 0;
                while j < sig.params.len()
                    invariant
                        j <= sig.params@.len(),
                        spec_map_insert_all(ctx2@, pairs, j as int) == spec_map_insert_all(
                            cx0,
                            pairs,
                            0,
                        ),
                    decreases sig.params@.len() - j,
                {
                    proof {
                        assert(sig@.params[j as int] == sig.params@[j as int]@);
                    }
                    ctx2.insert(sig.params[j].name.name.clone(), sig.params[j].ty);
                    j = j + 1;
                }
                let blk2 = Block { id, ctx: ctx2, local, wait, submit, ty };
                proof {
                    let sr = spec_lower_sub(
                        externs_view(old(self).externs@),
                        sig@,
                        body@,
                        old(self).block_id as int,
                    );
                    assert(sr.0 matches core::result::Result::Ok(sb) && blk2@ =~= sb);
                }
                Ok(blk2)
            },
        }
    }

    fn visit_item_import(&mut self, import: ast::ItemImport)
        ensures
            final(self).blocks == old(self).blocks,
            final(self).errors == old(self).errors,
            final(self).block_id == old(self).block_id,
            externs_view(final(self).externs@) == spec_put(
                externs_view(old(self).externs@),
                import.signature@.ident,
                import.signature@.params,
            ),
    {
        let ast::ItemImport { signature } = import;
        let ast::Signature { ident, params } = signature;
        put_extern(&mut self.externs, ident.name, params);
    }

    fn visit_item_sub(&mut self, sub: ast::ItemSub)
        requires
            old(self).block_id + spec_block_count(sub.body@) <= u64::MAX,
        ensures
            final(self).spec_state() == spec_visit_item(
                old(self).spec_state(),
                crate::ast::SpecItem::Sub(sub.signature@, sub.body@),
            ),
            final(self).spec_state().counter <= old(self).spec_state().counter + spec_item_count(
                crate::ast::SpecItem::Sub(sub.signature@, sub.body@),
            ),
            old(self).spec_state().counter <= final(self).spec_state().counter,
    {
        let name = sub.signature.ident.name.clone();
        let ast::ItemSub { signature, body } = sub;
        let r = self.fold_sub(signature, body);
        match r {
            core::result::Result::Ok(blk) => {
                put_block(&mut self.blocks, name, blk);
                proof {
                    assert(final(self).spec_state() =~= spec_visit_item(
                        old(self).spec_state(),
                        crate::ast::SpecItem::Sub(sub.signature@, sub.body@),
                    ));
                }
            },
            core::result::Result::Err(e) => {
                let ghost epre = self.errors.deep_view();
                let ghost ev = e@;
                self.errors.push(e);
                proof {
                    assert(self.errors.deep_view() =~= epre.push(ev));
                    assert(final(self).spec_state() =~= spec_visit_item(
                        old(self).spec_state(),
                        crate::ast::SpecItem::Sub(sub.signature@, sub.body@),
                    ));
                }
            },
        }
    }
}

impl Translator {
    /// Walk the items of a file in order: imports register their
    /// signatures, each subroutine is lowered against the imports seen so
    /// far, and its diagnostics, if any, are accumulated.
    #[verifier::loop_isolation(false)]
    fn run_items(&mut self, items: Vec<crate::ast::Item>)
        requires
            old(self).spec_state().counter + spec_items_count(items.deep_view()) <= u64::MAX,
            0 <= old(self).spec_state().counter,
        ensures
            final(self).spec_state() == spec_visit_items(
                old(self).spec_state(),
                items.deep_view(),
            ),
    {
        let ghost all = items.deep_view();
        let ghost st0 = self.spec_state();
        let mut items = items;
        proof {
            assert(items.deep_view() =~= all);
        }
        while items.len() > 0
            invariant
                spec_visit_items(self.spec_state(), items.deep_view()) == spec_visit_items(
                    st0,
                    all,
                ),
                self.spec_state().counter + spec_items_count(items.deep_view()) <= u64::MAX,
                0 <= self.spec_state().counter,
            decreases items@.len(),
        {
            let ghost dv = items.deep_view();
            let ghost iv0 = items@;
            let it = items.remove(0);
            proof {
                assert(iv0.remove(0) =~= iv0.drop_first());
                assert(dv.len() == iv0.len());
                assert(dv[0] == iv0[0]@);
                assert(items.deep_view() =~= dv.drop_first());
                assert(spec_items_count(dv) == spec_item_count(dv[0]) + spec_items_count(
                    dv.drop_first(),
                ));
            }
            match it {
                crate::ast::Item::Import(imp) => {
                    let ghost stpre = self.spec_state();
                    proof {
                        assert(dv[0] == crate::ast::SpecItem::Import(imp.signature@));
                    }
                    self.visit_item_import(imp);
                    proof {
                        assert(self.spec_state() =~= spec_visit_item(stpre, dv[0]));
                    }
                },
                crate::ast::Item::Sub(sub) => {
                    proof {
                        assert(dv[0] == crate::ast::SpecItem::Sub(sub.signature@, sub.body@));
                        assert(spec_item_count(dv[0]) == spec_block_count(sub.body@));
                    }
                    self.visit_item_sub(sub);
                },
            }
        }
        proof {
            assert(items.deep_view() =~= Seq::<crate::ast::SpecItem>::empty());
        }
    }

    /// Translate a file: lower every subroutine, and either emit the C
    /// translation unit or report every diagnostic that was found.
    pub fn translate(self, file: ast::File) -> (r: core::result::Result<
        String,
        TranslatorError,
    >)
        requires
            self.spec_state().counter + spec_items_count(file@.items) <= u64::MAX,
            0 <= self.spec_state().counter,
        ensures
            ({
                let st = spec_visit_items(self.spec_state(), file@.items);
                match r {
                    core::result::Result::Ok(out) => st.errors.len() == 0 && out@
                        == crate::emit::spec_emit_all(st.externs, st.blocks),
                    core::result::Result::Err(te) => st.errors.len() > 0
                        && te.errors.deep_view() == st.errors,
                }
            }),
    {
        proof {
            assert(file@.items =~= file.items.deep_view());
        }
        let mut this = self;
        let ast::File { items } = file;
        this.run_items(items);
        if this.errors.len() == 0 {
            Ok(crate::emit::emit_all(&this.externs, &this.blocks))
        } else {
            Err(TranslatorError { errors: this.errors })
        }
    }
}

/// Lower a whole file without emitting: on success the imported signatures
/// and one lowered root block per subroutine, in file order; otherwise
/// every diagnostic that was found, in order.
pub fn lower_file(input: ast::File) -> (r: core::result::Result<
    (Vec<(String, Vec<Param>)>, Vec<(String, Block)>),
    TranslatorError,
>)
    requires
        spec_items_count(input@.items) <= u64::MAX,
    ensures
        ({
            let st = spec_visit_items(spec_init_state(), input@.items);
            match r {
                core::result::Result::Ok((ex, blocks)) => st.errors.len() == 0 && externs_view(
                    ex@,
                ) == st.externs && blocks_view(blocks@) == st.blocks,
                core::result::Result::Err(te) => st.errors.len() > 0 && te.errors.deep_view()
                    == st.errors,
            }
        }),
{
    proof {
        assert(input@.items =~= input.items.deep_view());
    }
    let mut t = Translator::new();
    let ast::File { items } = input;
    t.run_items(items);
    let st_errors_empty = t.errors.len() == 0;
    if st_errors_empty {
        Ok((t.externs, t.blocks))
    } else {
        Err(TranslatorError { errors: t.errors })
    }
}

/// What translating a file means: the items are visited in order, and the
/// result is either the emitted text or the accumulated diagnostics.
pub open spec fn spec_translate(f: crate::ast::SpecFile) -> core::result::Result<
    Seq<char>,
    Seq<SpecTransError>,
> {
    let st = spec_visit_items(spec_init_state(), f.items);
    if st.errors.len() > 0 {
        core::result::Result::Err(st.errors)
    } else {
        core::result::Result::Ok(crate::emit::spec_emit_all(st.externs, st.blocks))
    }
}

/// Translate a file with a fresh translator.
pub fn translate(input: ast::File) -> (r: core::result::Result<String, TranslatorError>)
    requires
        spec_items_count(input@.items) <= u64::MAX,
    ensures
        match (r, spec_translate(input@)) {
            (core::result::Result::Ok(out), core::result::Result::Ok(sv)) => out@ == sv,
            (core::result::Result::Err(te), core::result::Result::Err(errs)) => te.errors.deep_view()
                == errs,
            _ => false,
        },
{
    Translator::new().translate(input)
}

/// Emission is deterministic: two runs of the translator on the same AST
/// produce byte-identical output. The contract of [`translate`] pins its
/// result to [`spec_translate`], a function of the AST alone, so any two
/// successful results of equal files agree character for character.
pub proof fn lemma_emission_deterministic(
    f1: crate::ast::SpecFile,
    f2: crate::ast::SpecFile,
    out1: Seq<char>,
    out2: Seq<char>,
)
    requires
        f1 == f2,
        spec_translate(f1) == core::result::Result::<Seq<char>, Seq<SpecTransError>>::Ok(out1),
        spec_translate(f2) == core::result::Result::<Seq<char>, Seq<SpecTransError>>::Ok(out2),
    ensures
        out1 == out2,
{
}

} // verus!
