//! C emission: walk the lowered block trees and print one self-contained
//! translation unit against the runtime ABI.
//!
//! The output is pinned character by character to the `spec_gen_*` functions
//! below, so emission is deterministic: the same lowered blocks always give
//! the same text.

use vstd::prelude::*;

use crate::ast::{Expr, Op, Param, SpecExpr, SpecLit, SpecParam, Type};
use crate::names::{set_contains, spec_find};
use crate::translator::{Block, BlockType, SpecBlock, SpecBlockKind, SpecExterns};

verus! {

broadcast use vstd::std_specs::vec::group_vec_axioms, vstd::seq::group_seq_axioms;

// ---------------------------------------------------------------------------
// Decimal formatting.
// ---------------------------------------------------------------------------

pub open spec fn spec_digit(d: int) -> char {
    if d == 0 {
        '0'
    } else if d == 1 {
        '1'
    } else if d == 2 {
        '2'
    } else if d == 3 {
        '3'
    } else if d == 4 {
        '4'
    } else if d == 5 {
        '5'
    } else if d == 6 {
        '6'
    } else if d == 7 {
        '7'
    } else if d == 8 {
        '8'
    } else {
        '9'
    }
}

/// The decimal digits of a non-negative number.
pub open spec fn spec_dec(n: int) -> Seq<char>
    decreases n,
{
    if n < 10 {
        seq![spec_digit(n)]
    } else {
        spec_dec(n / 10).push(spec_digit(n % 10))
    }
}

/// A signed decimal: a minus sign, then the digits of the magnitude.
pub open spec fn spec_dec_i64(v: int) -> Seq<char> {
    if v < 0 {
        seq!['-'] + spec_dec(-v)
    } else {
        spec_dec(v)
    }
}

fn digit_str(d: u64) -> (r: &'static str)
    requires
        d < 10,
    ensures
        r@ == seq![spec_digit(d as int)],
{
    proof {
        reveal_strlit("0");
        reveal_strlit("1");
        reveal_strlit("2");
        reveal_strlit("3");
        reveal_strlit("4");
        reveal_strlit("5");
        reveal_strlit("6");
        reveal_strlit("7");
        reveal_strlit("8");
        reveal_strlit("9");
    }
    let r: &'static str = if d == 0 {
        "0"
    } else if d == 1 {
        "1"
    } else if d == 2 {
        "2"
    } else if d == 3 {
        "3"
    } else if d == 4 {
        "4"
    } else if d == 5 {
        "5"
    } else if d == 6 {
        "6"
    } else if d == 7 {
        "7"
    } else if d == 8 {
        "8"
    } else {
        "9"
    };
    proof {
        assert(r@ =~= seq![spec_digit(d as int)]);
    }
    r
}

/// Append the decimal digits of `n`.
pub fn fmt_u64(out: &mut String, n: u64)
    ensures
        final(out)@ == old(out)@ + spec_dec(n as int),
    decreases n,
{
    let ghost o0 = out@;
    if n < 10 {
        out.append(digit_str(n));
        proof {
            assert(out@ =~= o0 + spec_dec(n as int));
        }
    } else {
        fmt_u64(out, n / 10);
        out.append(digit_str(n % 10));
        proof {
            assert(out@ =~= o0 + spec_dec(n as int));
        }
    }
}

/// Append the signed decimal form of `v`.
pub fn fmt_i64(out: &mut String, v: i64)
    ensures
        final(out)@ == old(out)@ + spec_dec_i64(v as int),
{
    let ghost o0 = out@;
    if v < 0 {
        out.append("-");
        proof {
            reveal_strlit("-");
        }
        let m: u64 = if v == i64::MIN {
            9223372036854775808u64
        } else {
            (0 - v) as u64
        };
        proof {
            assert(m as int == -(v as int));
        }
        fmt_u64(out, m);
        proof {
            assert("-"@ =~= seq!['-']);
            assert(out@ =~= o0 + spec_dec_i64(v as int));
        }
    } else {
        fmt_u64(out, v as u64);
    }
}

// ---------------------------------------------------------------------------
// Text fragments of the emitted C.
// ---------------------------------------------------------------------------

/// The C type a parameter kind maps to: scalars stay scalars, both handle
/// directions become the runtime's `df`.
pub open spec fn spec_cty(t: Type) -> Seq<char> {
    match t {
        Type::Int => "int"@,
        Type::Float => "float"@,
        Type::Value => "df"@,
        Type::Name => "df"@,
    }
}

fn append_cty(out: &mut String, t: Type)
    ensures
        final(out)@ == old(out)@ + spec_cty(t),
{
    match t {
        Type::Int => out.append("int"),
        Type::Float => out.append("float"),
        Type::Value => out.append("df"),
        Type::Name => out.append("df"),
    }
}

/// The runtime ABI header, prepended verbatim to every emitted file.
pub open spec fn spec_header() -> Seq<char> {
    "#include <stddef.h>\ntypedef struct { unsigned long id; void *slot; } df;\ntypedef enum { WAIT, EXIT } Action;\ndf df_create(void);\nint request(df *d);\nvoid submit(df d);\ndf wait(df d);\nvoid spawn(Action (*block)(void *), void *ctx);\nvoid *alloc(size_t n);\nvoid dealloc(void *p);\nint cast_int(df d);\n"@
}

fn append_header(out: &mut String)
    ensures
        final(out)@ == old(out)@ + spec_header(),
{
    out.append(
        "#include <stddef.h>\ntypedef struct { unsigned long id; void *slot; } df;\ntypedef enum { WAIT, EXIT } Action;\ndf df_create(void);\nint request(df *d);\nvoid submit(df d);\ndf wait(df d);\nvoid spawn(Action (*block)(void *), void *ctx);\nvoid *alloc(size_t n);\nvoid dealloc(void *p);\nint cast_int(df d);\n",
    );
}

// ---------------------------------------------------------------------------
// Expressions.
// ---------------------------------------------------------------------------

/// Emit an expression against a block. An identifier names either a local
/// of the block, a waited handle (blocking-read, cast in scalar position),
/// or a plain context field. Literals and operators print as themselves.
pub open spec fn spec_gen_expr(b: SpecBlock, e: SpecExpr, ty: Type) -> Seq<char>
    decreases e,
{
    match e {
        SpecExpr::Ident(n) => if set_contains(b.local, n) {
            n
        } else if set_contains(b.wait, n) {
            match ty {
                Type::Value => "wait(ctx->"@ + n + ")"@,
                Type::Name => "wait(ctx->"@ + n + ")"@,
                _ => "cast_int(wait(ctx->"@ + n + "))"@,
            }
        } else {
            "ctx->"@ + n
        },
        SpecExpr::Lit(l) => match l {
            SpecLit::Int(v) => spec_dec_i64(v as int),
            SpecLit::Float(w, f) => spec_dec(w as int) + "."@ + f,
        },
        SpecExpr::BinOp(l, op, r) => spec_gen_expr(b, *l, ty) + spec_op(op) + spec_gen_expr(
            b,
            *r,
            ty,
        ),
    }
}

pub open spec fn spec_op(op: Op) -> Seq<char> {
    match op {
        Op::Add => "+"@,
        Op::Sub => "-"@,
        Op::Mul => "*"@,
        Op::Div => "/"@,
    }
}


// ---------------------------------------------------------------------------
// Block pieces.
// ---------------------------------------------------------------------------

/// The request prologue: one guarded `request` per waited handle; an
/// unsatisfied request parks the coroutine by returning `WAIT`.
pub open spec fn spec_gen_requests(wait: Seq<Seq<char>>, i: int) -> Seq<char>
    decreases wait.len() - i,
{
    if i < 0 || i >= wait.len() {
        Seq::empty()
    } else {
        "if (request(&ctx->"@ + wait[i] + ")) { return WAIT; }"@ + spec_gen_requests(wait, i + 1)
    }
}

/// The submit epilogue: publish every promised handle on normal exit.
pub open spec fn spec_gen_submits(submit: Seq<Seq<char>>, i: int) -> Seq<char>
    decreases submit.len() - i,
{
    if i < 0 || i >= submit.len() {
        Seq::empty()
    } else {
        "submit(ctx->"@ + submit[i] + ");"@ + spec_gen_submits(submit, i + 1)
    }
}

pub open spec fn spec_gen_ctx_fields(ctx: Seq<(Seq<char>, Type)>, i: int) -> Seq<char>
    decreases ctx.len() - i,
{
    if i < 0 || i >= ctx.len() {
        Seq::empty()
    } else {
        spec_cty(ctx[i].1) + " "@ + ctx[i].0 + ";"@ + spec_gen_ctx_fields(ctx, i + 1)
    }
}

/// The typedef'd context struct of a block, one field per captured name.
pub open spec fn spec_gen_ctx(b: SpecBlock) -> Seq<char> {
    "typedef struct {"@ + spec_gen_ctx_fields(b.ctx, 0) + "} block_ctx_"@ + spec_dec(b.id as int)
        + ";"@
}

pub open spec fn spec_gen_signature(b: SpecBlock) -> Seq<char> {
    "Action block_"@ + spec_dec(b.id as int) + "(block_ctx_"@ + spec_dec(b.id as int)
        + " *ctx)"@
}

pub open spec fn spec_gen_fork_copies(
    local: Seq<Seq<char>>,
    ctx: Seq<(Seq<char>, Type)>,
    i: int,
) -> Seq<char>
    decreases ctx.len() - i,
{
    if i < 0 || i >= ctx.len() {
        Seq::empty()
    } else {
        "child_ctx->"@ + ctx[i].0 + "="@ + (if set_contains(local, ctx[i].0) {
            ctx[i].0
        } else {
            "ctx->"@ + ctx[i].0
        }) + ";"@ + spec_gen_fork_copies(local, ctx, i + 1)
    }
}

/// Allocate a child's context, fill every captured field (a handle declared
/// here comes from the local C variable, anything else from the parent's
/// own context), then spawn the child. The child owns the context from the
/// moment `spawn` returns.
pub open spec fn spec_gen_fork(parent: SpecBlock, child: SpecBlock) -> Seq<char> {
    "{block_ctx_"@ + spec_dec(child.id as int) + " *child_ctx = alloc(sizeof(*child_ctx));"@
        + spec_gen_fork_copies(parent.local, child.ctx, 0) + "spawn(block_"@ + spec_dec(
        child.id as int,
    ) + ", child_ctx);}"@
}

pub open spec fn spec_gen_decls(decls: Seq<Seq<char>>, i: int) -> Seq<char>
    decreases decls.len() - i,
{
    if i < 0 || i >= decls.len() {
        Seq::empty()
    } else {
        "df "@ + decls[i] + "=df_create();"@ + spec_gen_decls(decls, i + 1)
    }
}

pub open spec fn spec_gen_forks(parent: SpecBlock, children: Seq<SpecBlock>, i: int) -> Seq<char>
    decreases children.len() - i,
{
    if i < 0 || i >= children.len() {
        Seq::empty()
    } else {
        spec_gen_fork(parent, children[i]) + spec_gen_forks(parent, children, i + 1)
    }
}

pub open spec fn spec_gen_args(
    b: SpecBlock,
    args: Seq<SpecExpr>,
    params: Seq<Type>,
    i: int,
) -> Seq<char>
    decreases args.len() - i,
{
    if i < 0 || i >= args.len() || i >= params.len() {
        Seq::empty()
    } else {
        spec_gen_expr(b, args[i], params[i]) + (if i + 1 < args.len() {
            ","@
        } else {
            Seq::<char>::empty()
        }) + spec_gen_args(b, args, params, i + 1)
    }
}

/// The kind-specific middle of a block body.
pub open spec fn spec_gen_kind(b: SpecBlock) -> Seq<char> {
    match b.kind {
        SpecBlockKind::Fork { children, decls } => spec_gen_decls(decls, 0) + spec_gen_forks(
            b,
            children,
            0,
        ),
        SpecBlockKind::For { index, lower, upper, body } => "for (int "@ + index + "="@
            + spec_gen_expr(b, lower, Type::Int) + "; "@ + index + "<"@ + spec_gen_expr(
            b,
            upper,
            Type::Int,
        ) + "; "@ + index + "++)"@ + spec_gen_fork(b, *body),
        SpecBlockKind::If { cond, body } => "if ("@ + spec_gen_expr(b, cond, Type::Int) + ")"@
            + spec_gen_fork(b, *body),
        SpecBlockKind::ExternCall { symbol, args, params } => symbol + "("@ + spec_gen_args(
            b,
            args,
            params,
            0,
        ) + ");"@,
    }
}

/// A whole block function: request prologue, kind-specific body, submit
/// epilogue, then free the context and exit.
pub open spec fn spec_gen_body(b: SpecBlock) -> Seq<char> {
    "{"@ + spec_gen_requests(b.wait, 0) + spec_gen_kind(b) + spec_gen_submits(b.submit, 0)
        + "dealloc(ctx);return EXIT;}"@
}

pub open spec fn spec_gen_block(b: SpecBlock) -> Seq<char> {
    spec_gen_ctx(b) + spec_gen_signature(b) + spec_gen_body(b)
}

/// A block followed by the transitive tree of its children, depth first.
pub open spec fn spec_gen_tree(b: SpecBlock) -> Seq<char>
    decreases b, 1int,
{
    spec_gen_block(b) + match b.kind {
        SpecBlockKind::Fork { children, .. } => spec_gen_trees(b, children, 0),
        SpecBlockKind::For { body, .. } => spec_gen_tree(*body),
        SpecBlockKind::If { body, .. } => spec_gen_tree(*body),
        SpecBlockKind::ExternCall { .. } => Seq::empty(),
    }
}

pub open spec fn spec_gen_trees(parent: SpecBlock, children: Seq<SpecBlock>, i: int) -> Seq<char>
    decreases children, 0int, children.len() - i,
{
    if i < 0 || i >= children.len() {
        Seq::empty()
    } else {
        spec_gen_tree(children[i]) + spec_gen_trees(parent, children, i + 1)
    }
}

// ---------------------------------------------------------------------------
// File-level pieces.
// ---------------------------------------------------------------------------

pub open spec fn spec_gen_extern_params(params: Seq<SpecParam>, i: int) -> Seq<char>
    decreases params.len() - i,
{
    if i < 0 || i >= params.len() {
        Seq::empty()
    } else {
        spec_cty(params[i].ty) + " "@ + params[i].name + (if i + 1 < params.len() {
            ","@
        } else {
            Seq::<char>::empty()
        }) + spec_gen_extern_params(params, i + 1)
    }
}

/// One forward declaration per import: return type `void`, one C parameter
/// per DSL parameter.
pub open spec fn spec_gen_externs(ex: SpecExterns, i: int) -> Seq<char>
    decreases ex.len() - i,
{
    if i < 0 || i >= ex.len() {
        Seq::empty()
    } else {
        "void "@ + ex[i].0 + "("@ + spec_gen_extern_params(ex[i].1, 0) + ");"@
            + spec_gen_externs(ex, i + 1)
    }
}

/// The exported entry symbol, bound to the root block of the subroutine
/// named `main`; nothing is emitted when there is no such subroutine.
pub open spec fn spec_gen_entry(blocks: Seq<(Seq<char>, SpecBlock)>) -> Seq<char> {
    match spec_find(blocks, "main"@) {
        Option::Some(b) => "void *entry = block_"@ + spec_dec(b.id as int) + ";"@,
        Option::None => Seq::empty(),
    }
}

pub open spec fn spec_gen_subs(blocks: Seq<(Seq<char>, SpecBlock)>, i: int) -> Seq<char>
    decreases blocks.len() - i,
{
    if i < 0 || i >= blocks.len() {
        Seq::empty()
    } else {
        spec_gen_tree(blocks[i].1) + spec_gen_subs(blocks, i + 1)
    }
}

/// A whole translation unit: the runtime header, the import declarations,
/// the entry binding, then every subroutine's block tree in file order.
pub open spec fn spec_emit_all(ex: SpecExterns, blocks: Seq<(Seq<char>, SpecBlock)>) -> Seq<
    char,
> {
    spec_header() + spec_gen_externs(ex, 0) + spec_gen_entry(blocks) + spec_gen_subs(blocks, 0)
}


// ---------------------------------------------------------------------------
// The generator.
// ---------------------------------------------------------------------------

/// Accumulates the emitted C text.
pub struct BlockGenerator {
    out: String,
}

impl BlockGenerator {
    pub fn new() -> (r: Self)
        ensures
            r.spec_out() == Seq::<char>::empty(),
    {
        let r = Self { out: String::new() };
        r
    }

    pub closed spec fn spec_out(&self) -> Seq<char> {
        self.out@
    }

    pub fn finish(self) -> (r: String)
        ensures
            r@ == self.spec_out(),
    {
        self.out
    }

    /// Emit one block: its context struct, its signature, its body.
    pub fn gen(&mut self, block: &Block)
        ensures
            final(self).spec_out() == old(self).spec_out() + spec_gen_block(block@),
    {
        let ghost o0 = self.out@;
        self.gen_ctx(block);
        self.gen_signature(block);
        self.gen_body(block);
        proof {
            assert(self.out@ =~= o0 + spec_gen_block(block@));
        }
    }

    #[verifier::loop_isolation(false)]
    fn gen_ctx(&mut self, block: &Block)
        ensures
            final(self).spec_out() == old(self).spec_out() + spec_gen_ctx(block@),
    {
        let ghost o0 = self.out@;
        let ghost cx = block@.ctx;
        self.out.append("typedef struct {");
        let mut i: usize = 0;
        while i < block.ctx.len()
            invariant
                i <= cx.len(),
                cx.len() == block.ctx@.len(),
                self.out@ + spec_gen_ctx_fields(cx, i as int) == o0 + "typedef struct {"@
                    + spec_gen_ctx_fields(cx, 0),
            decreases cx.len() - i,
        {
            let ghost op = self.out@;
            append_cty(&mut self.out, block.ctx.ty_at(i));
            self.out.append(" ");
            self.out.append(block.ctx.key_at(i).as_str());
            self.out.append(";");
            proof {
                assert(self.out@ =~= op + (spec_cty(cx[i as int].1) + " "@ + cx[i as int].0
                    + ";"@));
                assert(self.out@ + spec_gen_ctx_fields(cx, i + 1) =~= op + spec_gen_ctx_fields(
                    cx,
                    i as int,
                ));
            }
            i = i + 1;
        }
        self.out.append("} block_ctx_");
        fmt_u64(&mut self.out, block.id);
        self.out.append(";");
        proof {
            assert(self.out@ =~= o0 + spec_gen_ctx(block@));
        }
    }

    fn gen_signature(&mut self, block: &Block)
        ensures
            final(self).spec_out() == old(self).spec_out() + spec_gen_signature(block@),
    {
        let ghost o0 = self.out@;
        self.out.append("Action block_");
        fmt_u64(&mut self.out, block.id);
        self.out.append("(block_ctx_");
        fmt_u64(&mut self.out, block.id);
        self.out.append(" *ctx)");
        proof {
            assert(self.out@ =~= o0 + spec_gen_signature(block@));
        }
    }

    #[verifier::loop_isolation(false)]
    fn gen_requests(&mut self, block: &Block)
        ensures
            final(self).spec_out() == old(self).spec_out() + spec_gen_requests(block@.wait, 0),
    {
        let ghost o0 = self.out@;
        let ghost w = block@.wait;
        let mut i: usize = 0;
        while i < block.wait.len()
            invariant
                i <= w.len(),
                w.len() == block.wait@.len(),
                self.out@ + spec_gen_requests(w, i as int) == o0 + spec_gen_requests(w, 0),
            decreases w.len() - i,
        {
            let ghost op = self.out@;
            self.out.append("if (request(&ctx->");
            self.out.append(block.wait.get(i).as_str());
            self.out.append(")) { return WAIT; }");
            proof {
                assert(self.out@ =~= op + ("if (request(&ctx->"@ + w[i as int]
                    + ")) { return WAIT; }"@));
                assert(self.out@ + spec_gen_requests(w, i + 1) =~= op + spec_gen_requests(
                    w,
                    i as int,
                ));
            }
            i = i + 1;
        }
    }

    #[verifier::loop_isolation(false)]
    fn gen_submits(&mut self, block: &Block)
        ensures
            final(self).spec_out() == old(self).spec_out() + spec_gen_submits(block@.submit, 0),
    {
        let ghost o0 = self.out@;
        let ghost w = block@.submit;
        let mut i: usize = 0;
        while i < block.submit.len()
            invariant
                i <= w.len(),
                w.len() == block.submit@.len(),
                self.out@ + spec_gen_submits(w, i as int) == o0 + spec_gen_submits(w, 0),
            decreases w.len() - i,
        {
            let ghost op = self.out@;
            self.out.append("submit(ctx->");
            self.out.append(block.submit.get(i).as_str());
            self.out.append(");");
            proof {
                assert(self.out@ =~= op + ("submit(ctx->"@ + w[i as int] + ");"@));
                assert(self.out@ + spec_gen_submits(w, i + 1) =~= op + spec_gen_submits(
                    w,
                    i as int,
                ));
            }
            i = i + 1;
        }
    }

    #[verifier::loop_isolation(false)]
    fn gen_fork(&mut self, parent: &Block, child: &Block)
        ensures
            final(self).spec_out() == old(self).spec_out() + spec_gen_fork(parent@, child@),
    {
        let ghost o0 = self.out@;
        let ghost lv = parent@.local;
        let ghost cx = child@.ctx;
        self.out.append("{block_ctx_");
        fmt_u64(&mut self.out, child.id);
        self.out.append(" *child_ctx = alloc(sizeof(*child_ctx));");
        let ghost oc = self.out@;
        let mut i: usize = 0;
        while i < child.ctx.len()
            invariant
                i <= cx.len(),
                cx.len() == child.ctx@.len(),
                self.out@ + spec_gen_fork_copies(lv, cx, i as int) == oc + spec_gen_fork_copies(
                    lv,
                    cx,
                    0,
                ),
            decreases cx.len() - i,
        {
            let ghost op = self.out@;
            let name = child.ctx.key_at(i);
            self.out.append("child_ctx->");
            self.out.append(name.as_str());
            self.out.append("=");
            if parent.local.contains(name) {
                self.out.append(name.as_str());
                proof {
                    assert(self.out@ =~= op + ("child_ctx->"@ + cx[i as int].0 + "="@
                        + cx[i as int].0));
                }
            } else {
                self.out.append("ctx->");
                self.out.append(name.as_str());
                proof {
                    assert(self.out@ =~= op + ("child_ctx->"@ + cx[i as int].0 + "="@ + ("ctx->"@
                        + cx[i as int].0)));
                }
            }
            self.out.append(";");
            proof {
                assert(self.out@ + spec_gen_fork_copies(lv, cx, i + 1) =~= op
                    + spec_gen_fork_copies(lv, cx, i as int));
            }
            i = i + 1;
        }
        self.out.append("spawn(block_");
        fmt_u64(&mut self.out, child.id);
        self.out.append(", child_ctx);}");
        proof {
            assert(self.out@ =~= o0 + spec_gen_fork(parent@, child@));
        }
    }

    fn gen_expr(&mut self, block: &Block, expr: &Expr, ty: Type)
        ensures
            final(self).spec_out() == old(self).spec_out() + spec_gen_expr(block@, expr@, ty),
        decreases *expr,
    {
        let ghost o0 = self.out@;
        match expr {
            Expr::Ident(ei) => {
                let name = &ei.ident.name;
                if block.local.contains(name) {
                    self.out.append(name.as_str());
                } else if block.wait.contains(name) {
                    match ty {
                        Type::Value | Type::Name => {
                            self.out.append("wait(ctx->");
                            self.out.append(name.as_str());
                            self.out.append(")");
                            proof {
                                assert(self.out@ =~= o0 + ("wait(ctx->"@ + name@ + ")"@));
                            }
                        },
                        _ => {
                            self.out.append("cast_int(wait(ctx->");
                            self.out.append(name.as_str());
                            self.out.append("))");
                            proof {
                                assert(self.out@ =~= o0 + ("cast_int(wait(ctx->"@ + name@
                                    + "))"@));
                            }
                        },
                    }
                } else {
                    self.out.append("ctx->");
                    self.out.append(name.as_str());
                    proof {
                        assert(self.out@ =~= o0 + ("ctx->"@ + name@));
                    }
                }
            },
            Expr::Lit(el) => {
                match &el.lit {
                    crate::ast::Lit::Int(li) => {
                        fmt_i64(&mut self.out, li.value);
                    },
                    crate::ast::Lit::Float(lf) => {
                        fmt_u64(&mut self.out, lf.whole);
                        self.out.append(".");
                        self.out.append(lf.frac.as_str());
                        proof {
                            assert(self.out@ =~= o0 + (spec_dec(lf.whole as int) + "."@
                                + lf.frac@));
                        }
                    },
                }
            },
            Expr::BinOp(b) => {
                self.gen_expr(block, &b.lhs, ty);
                match b.op {
                    Op::Add => self.out.append("+"),
                    Op::Sub => self.out.append("-"),
                    Op::Mul => self.out.append("*"),
                    Op::Div => self.out.append("/"),
                }
                self.gen_expr(block, &b.rhs, ty);
                proof {
                    assert(self.out@ =~= o0 + spec_gen_expr(block@, expr@, ty));
                }
            },
        }
    }

    #[verifier::rlimit(60)]
    #[verifier::loop_isolation(false)]
    fn gen_body(&mut self, block: &Block)
        ensures
            final(self).spec_out() == old(self).spec_out() + spec_gen_body(block@),
    {
        let ghost o0 = self.out@;
        self.out.append("{");
        self.gen_requests(block);
        match &block.ty {
            BlockType::Fork(fork) => {
                let ghost dv = fork.decls.deep_view();
                let ghost od = self.out@;
                let mut i: usize = 0;
                while i < fork.decls.len()
                    invariant
                        i <= dv.len(),
                        dv.len() == fork.decls@.len(),
                        self.out@ + spec_gen_decls(dv, i as int) == od + spec_gen_decls(dv, 0),
                    decreases dv.len() - i,
                {
                    let ghost op = self.out@;
                    proof {
                        assert(dv[i as int] == fork.decls@[i as int]@);
                    }
                    self.out.append("df ");
                    self.out.append(fork.decls[i].as_str());
                    self.out.append("=df_create();");
                    proof {
                        assert(self.out@ =~= op + ("df "@ + dv[i as int] + "=df_create();"@));
                        assert(self.out@ + spec_gen_decls(dv, i + 1) =~= op + spec_gen_decls(
                            dv,
                            i as int,
                        ));
                    }
                    i = i + 1;
                }
                let ghost ch = block@.kind->Fork_children;
                let ghost of = self.out@;
                proof {
                    crate::translator::lemma_view_lowered_seq_index(fork.children@);
                }
                let mut j: usize = 0;
                while j < fork.children.len()
                    invariant
                        j <= ch.len(),
                        ch.len() == fork.children@.len(),
                        self.out@ + spec_gen_forks(block@, ch, j as int) == of + spec_gen_forks(
                            block@,
                            ch,
                            0,
                        ),
                    decreases ch.len() - j,
                {
                    let ghost op = self.out@;
                    self.gen_fork(block, &fork.children[j]);
                    proof {
                        assert(ch[j as int] == fork.children@[j as int]@);
                        assert(self.out@ + spec_gen_forks(block@, ch, j + 1) =~= op
                            + spec_gen_forks(block@, ch, j as int));
                    }
                    j = j + 1;
                }
            },
            BlockType::For(f) => {
                self.out.append("for (int ");
                self.out.append(f.index.name.as_str());
                self.out.append("=");
                self.gen_expr(block, &f.lower, Type::Int);
                self.out.append("; ");
                self.out.append(f.index.name.as_str());
                self.out.append("<");
                self.gen_expr(block, &f.upper, Type::Int);
                self.out.append("; ");
                self.out.append(f.index.name.as_str());
                self.out.append("++)");
                self.gen_fork(block, &f.block);
            },
            BlockType::If(c) => {
                self.out.append("if (");
                self.gen_expr(block, &c.cond, Type::Int);
                self.out.append(")");
                self.gen_fork(block, &c.body);
            },
            BlockType::ExternCall(call) => {
                self.out.append(call.symbol.name.as_str());
                self.out.append("(");
                let ghost av = call.args.deep_view();
                let ghost pv = call.params@;
                let ghost oa = self.out@;
                let n = call.args.len();
                let np = call.params.len();
                let mut k: usize = 0;
                while k < n
                    invariant
                        k <= n,
                        n == av.len(),
                        n == call.args@.len(),
                        np == pv.len(),
                        np == call.params@.len(),
                        self.out@ + spec_gen_args(block@, av, pv, k as int) == oa
                            + spec_gen_args(block@, av, pv, 0),
                    decreases n - k,
                {
                    let ghost op = self.out@;
                    if k < np {
                        self.gen_expr(block, &call.args[k], call.params[k]);
                        if k + 1 < n {
                            self.out.append(",");
                            proof {
                                reveal_strlit(",");
                            }
                        }
                        proof {
                            assert(av[k as int] == call.args@[k as int].deep_view());
                            if k + 1 < n {
                                assert(self.out@ =~= op + (spec_gen_expr(
                                    block@,
                                    av[k as int],
                                    pv[k as int],
                                ) + ","@));
                            }
                            assert(self.out@ + spec_gen_args(block@, av, pv, k + 1) =~= op
                                + spec_gen_args(block@, av, pv, k as int));
                        }
                    } else {
                        proof {
                            assert(spec_gen_args(block@, av, pv, k as int)
                                =~= Seq::<char>::empty());
                            assert(spec_gen_args(block@, av, pv, k + 1)
                                =~= Seq::<char>::empty());
                            assert(self.out@ + spec_gen_args(block@, av, pv, k + 1) =~= op
                                + spec_gen_args(block@, av, pv, k as int));
                        }
                    }
                    k = k + 1;
                }
                self.out.append(");");
            },
        }
        self.gen_submits(block);
        self.out.append("dealloc(ctx);return EXIT;}");
        proof {
            assert(self.out@ =~= o0 + spec_gen_body(block@));
        }
    }

    /// Emit a block and then, depth first, every block of its subtree.
    #[verifier::loop_isolation(false)]
    pub fn gen_tree(&mut self, block: &Block)
        ensures
            final(self).spec_out() == old(self).spec_out() + spec_gen_tree(block@),
        decreases *block,
    {
        let ghost o0 = self.out@;
        self.gen(block);
        match &block.ty {
            BlockType::Fork(fork) => {
                let ghost ch = block@.kind->Fork_children;
                let ghost of = self.out@;
                proof {
                    crate::translator::lemma_view_lowered_seq_index(fork.children@);
                }
                let mut j: usize = 0;
                while j < fork.children.len()
                    invariant
                        j <= ch.len(),
                        ch.len() == fork.children@.len(),
                        self.out@ + spec_gen_trees(block@, ch, j as int) == of + spec_gen_trees(
                            block@,
                            ch,
                            0,
                        ),
                    decreases ch.len() - j,
                {
                    let ghost op = self.out@;
                    self.gen_tree(&fork.children[j]);
                    proof {
                        assert(ch[j as int] == fork.children@[j as int]@);
                        assert(self.out@ + spec_gen_trees(block@, ch, j + 1) =~= op
                            + spec_gen_trees(block@, ch, j as int));
                    }
                    j = j + 1;
                }
                proof {
                    assert(self.out@ =~= o0 + spec_gen_tree(block@));
                }
            },
            BlockType::For(f) => {
                self.gen_tree(&f.block);
                proof {
                    assert(self.out@ =~= o0 + spec_gen_tree(block@));
                }
            },
            BlockType::If(c) => {
                self.gen_tree(&c.body);
                proof {
                    assert(self.out@ =~= o0 + spec_gen_tree(block@));
                }
            },
            BlockType::ExternCall(_) => {
                proof {
                    assert(self.out@ =~= o0 + spec_gen_tree(block@));
                }
            },
        }
    }
}


/// The root block id of the subroutine named `main`, if there is one.
#[verifier::loop_isolation(false)]
fn find_main_id(blocks: &Vec<(String, Block)>) -> (r: Option<u64>)
    ensures
        match r {
            Option::Some(id) => spec_find(crate::translator::blocks_view(blocks@), "main"@)
                matches Option::Some(b) && b.id == id,
            Option::None => spec_find(crate::translator::blocks_view(blocks@), "main"@) is None,
        },
{
    let ghost bv = crate::translator::blocks_view(blocks@);
    let main_name = "main".to_owned();
    proof {
        assert(bv.skip(0) =~= bv);
    }
    let mut i: usize = 0;
    while i < blocks.len()
        invariant
            i <= blocks@.len(),
            bv.len() == blocks@.len(),
            main_name@ == "main"@,
            spec_find(bv, "main"@) == spec_find(bv.skip(i as int), "main"@),
        decreases blocks@.len() - i,
    {
        proof {
            assert(bv[i as int] == (blocks@[i as int].0@, blocks@[i as int].1@));
            assert(bv.skip(i as int)[0] == bv[i as int]);
            assert(bv.skip(i as int).drop_first() =~= bv.skip(i + 1));
        }
        if crate::names::name_eq(&blocks[i].0, &main_name) {
            return Some(blocks[i].1.id);
        }
        i = i + 1;
    }
    proof {
        assert(bv.skip(bv.len() as int) =~= Seq::<(Seq<char>, SpecBlock)>::empty());
    }
    None
}

/// Print the whole translation unit for the given imports and lowered
/// subroutines: header, import declarations, entry binding, block trees.
#[verifier::rlimit(60)]
#[verifier::loop_isolation(false)]
pub fn emit_all(externs: &Vec<(String, Vec<Param>)>, blocks: &Vec<(String, Block)>) -> (r:
    String)
    ensures
        r@ == spec_emit_all(
            crate::translator::externs_view(externs@),
            crate::translator::blocks_view(blocks@),
        ),
{
    let ghost ev = crate::translator::externs_view(externs@);
    let ghost bv = crate::translator::blocks_view(blocks@);
    let mut out = String::new();
    append_header(&mut out);
    let ghost oe = out@;
    let mut i: usize = 0;
    while i < externs.len()
        invariant
            i <= externs@.len(),
            ev.len() == externs@.len(),
            out@ + spec_gen_externs(ev, i as int) == oe + spec_gen_externs(ev, 0),
        decreases externs@.len() - i,
    {
        let ghost op = out@;
        proof {
            assert(ev[i as int] == (externs@[i as int].0@, externs@[i as int].1.deep_view()));
        }
        out.append("void ");
        out.append(externs[i].0.as_str());
        out.append("(");
        let ghost pv = ev[i as int].1;
        let ghost opp = out@;
        let ps = &externs[i].1;
        let mut j: usize = 0;
        while j < ps.len()
            invariant
                j <= ps@.len(),
                pv.len() == ps@.len(),
                pv == ps.deep_view(),
                out@ + spec_gen_extern_params(pv, j as int) == opp + spec_gen_extern_params(
                    pv,
                    0,
                ),
            decreases ps@.len() - j,
        {
            let ghost oq = out@;
            proof {
                assert(pv[j as int] == ps@[j as int]@);
            }
            append_cty(&mut out, ps[j].ty);
            out.append(" ");
            out.append(ps[j].name.name.as_str());
            if j + 1 < ps.len() {
                out.append(",");
                proof {
                    assert(out@ =~= oq + (spec_cty(pv[j as int].ty) + " "@ + pv[j as int].name
                        + ","@));
                }
            } else {
                proof {
                    assert(out@ =~= oq + (spec_cty(pv[j as int].ty) + " "@
                        + pv[j as int].name));
                }
            }
            proof {
                assert(out@ + spec_gen_extern_params(pv, j + 1) =~= oq
                    + spec_gen_extern_params(pv, j as int));
            }
            j = j + 1;
        }
        out.append(");");
        proof {
            assert(out@ =~= op + ("void "@ + ev[i as int].0 + "("@ + spec_gen_extern_params(
                ev[i as int].1,
                0,
            ) + ");"@));
            assert(out@ + spec_gen_externs(ev, i + 1) =~= op + spec_gen_externs(ev, i as int));
        }
        i = i + 1;
    }
    match find_main_id(blocks) {
        Option::Some(id) => {
            out.append("void *entry = block_");
            fmt_u64(&mut out, id);
            out.append(";");
        },
        Option::None => {},
    }
    let ghost ob = out@;
    proof {
        assert(ob =~= spec_header() + spec_gen_externs(ev, 0) + spec_gen_entry(bv));
    }
    let mut k: usize = 0;
    while k < blocks.len()
        invariant
            k <= blocks@.len(),
            bv.len() == blocks@.len(),
            out@ + spec_gen_subs(bv, k as int) == ob + spec_gen_subs(bv, 0),
        decreases blocks@.len() - k,
    {
        let ghost op = out@;
        proof {
            assert(bv[k as int] == (blocks@[k as int].0@, blocks@[k as int].1@));
        }
        let mut g = BlockGenerator::new();
        g.gen_tree(&blocks[k].1);
        let piece = g.finish();
        out.append(piece.as_str());
        proof {
            assert(out@ + spec_gen_subs(bv, k + 1) =~= op + spec_gen_subs(bv, k as int));
        }
        k = k + 1;
    }
    proof {
        assert(out@ =~= spec_emit_all(ev, bv));
    }
    out
}

} // verus!
