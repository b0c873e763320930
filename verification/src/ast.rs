//! Abstract syntax of the DSL.
//!
//! A source file is an ordered sequence of items: imports of native symbols
//! (signature only) and subroutines (signature plus body). Statements
//! declare dataflow handles, call imported symbols, loop over an integer
//! range, or branch on a condition. Expressions are identifiers, literals
//! and binary arithmetic.
//!
//! Every node has a ghost counterpart (`Spec*`) in which identifiers are
//! character sequences; the translator's contracts are stated over these.

use vstd::prelude::*;

verus! {

broadcast use vstd::std_specs::vec::group_vec_axioms, vstd::seq::group_seq_axioms;

/// The kind of a value: scalar `Int`/`Float`, or a dataflow handle.
/// `Value` marks an input handle (the callee reads it), `Name` an output
/// handle (the callee produces it).
#[derive(Clone, Copy, Debug, PartialEq, Eq, Structural)]
pub enum Type {
    Int,
    Float,
    Value,
    Name,
}

#[derive(Clone, Copy, Debug, PartialEq, Eq, Structural)]
pub enum Op {
    Add,
    Sub,
    Mul,
    Div,
}

#[derive(Clone, Debug)]
pub struct Ident {
    pub name: String,
}

impl View for Ident {
    type V = Seq<char>;

    open spec fn view(&self) -> Seq<char> {
        self.name@
    }
}

#[derive(Clone, Debug)]
pub struct Param {
    pub name: Ident,
    pub ty: Type,
}

#[verifier::ext_equal]
pub struct SpecParam {
    pub name: Seq<char>,
    pub ty: Type,
}

impl View for Param {
    type V = SpecParam;

    open spec fn view(&self) -> SpecParam {
        SpecParam { name: self.name@, ty: self.ty }
    }
}

impl DeepView for Param {
    type V = SpecParam;

    open spec fn deep_view(&self) -> SpecParam {
        self@
    }
}

#[derive(Clone, Debug)]
pub struct Signature {
    pub ident: Ident,
    pub params: Vec<Param>,
}

#[verifier::ext_equal]
pub struct SpecSignature {
    pub ident: Seq<char>,
    pub params: Seq<SpecParam>,
}

impl View for Signature {
    type V = SpecSignature;

    open spec fn view(&self) -> SpecSignature {
        SpecSignature { ident: self.ident@, params: self.params.deep_view() }
    }
}

#[derive(Clone, Debug)]
pub struct LitInt {
    pub value: i64,
}

/// A float literal, kept as its decimal parts: the digits before the dot
/// and the digits after it.
#[derive(Clone, Debug)]
pub struct LitFloat {
    pub whole: u64,
    pub frac: String,
}

#[derive(Clone, Debug)]
pub enum Lit {
    Int(LitInt),
    Float(LitFloat),
}

#[verifier::ext_equal]
pub enum SpecLit {
    Int(i64),
    Float(u64, Seq<char>),
}

impl View for Lit {
    type V = SpecLit;

    open spec fn view(&self) -> SpecLit {
        match self {
            Lit::Int(i) => SpecLit::Int(i.value),
            Lit::Float(f) => SpecLit::Float(f.whole, f.frac@),
        }
    }
}

#[derive(Debug)]
pub struct ExprIdent {
    pub ident: Ident,
}

#[derive(Debug)]
pub struct ExprLit {
    pub lit: Lit,
}

#[derive(Debug)]
pub struct ExprBinOp {
    pub lhs: Box<Expr>,
    pub op: Op,
    pub rhs: Box<Expr>,
}

#[derive(Debug)]
pub enum Expr {
    Ident(ExprIdent),
    Lit(ExprLit),
    BinOp(ExprBinOp),
}

#[verifier::ext_equal]
pub enum SpecExpr {
    Ident(Seq<char>),
    Lit(SpecLit),
    BinOp(Box<SpecExpr>, Op, Box<SpecExpr>),
}

pub open spec fn spec_view_expr(e: Expr) -> SpecExpr
    decreases e,
{
    match e {
        Expr::Ident(i) => SpecExpr::Ident(i.ident@),
        Expr::Lit(l) => SpecExpr::Lit(l.lit@),
        Expr::BinOp(b) => SpecExpr::BinOp(
            Box::new(spec_view_expr(*b.lhs)),
            b.op,
            Box::new(spec_view_expr(*b.rhs)),
        ),
    }
}

impl View for Expr {
    type V = SpecExpr;

    open spec fn view(&self) -> SpecExpr {
        spec_view_expr(*self)
    }
}

impl DeepView for Expr {
    type V = SpecExpr;

    open spec fn deep_view(&self) -> SpecExpr {
        spec_view_expr(*self)
    }
}

#[derive(Debug)]
pub struct StmtDecl {
    pub dfs: Vec<Ident>,
}

#[derive(Debug)]
pub struct StmtBlock {
    pub block: Block,
}

#[derive(Debug)]
pub struct StmtFor {
    pub index: Ident,
    pub lower: Expr,
    pub upper: Expr,
    pub body: Block,
}

#[derive(Debug)]
pub struct StmtIf {
    pub cond: Expr,
    pub body: Block,
}

#[derive(Debug)]
pub struct StmtCall {
    pub ident: Ident,
    pub args: Vec<Expr>,
}

#[derive(Debug)]
pub enum Stmt {
    Decl(StmtDecl),
    Block(StmtBlock),
    For(StmtFor),
    If(StmtIf),
    Call(StmtCall),
}

#[derive(Debug)]
pub struct Block {
    pub stmts: Vec<Stmt>,
}

#[verifier::ext_equal]
pub struct SpecBlockAst {
    pub stmts: Seq<SpecStmt>,
}

#[verifier::ext_equal]
pub enum SpecStmt {
    Decl(Seq<Seq<char>>),
    Blk(SpecBlockAst),
    For { index: Seq<char>, lower: SpecExpr, upper: SpecExpr, body: SpecBlockAst },
    If { cond: SpecExpr, body: SpecBlockAst },
    Call { ident: Seq<char>, args: Seq<SpecExpr> },
}

pub open spec fn spec_view_block(b: Block) -> SpecBlockAst
    decreases b,
{
    SpecBlockAst { stmts: spec_view_stmts(b.stmts@) }
}

pub open spec fn spec_view_stmts(ss: Seq<Stmt>) -> Seq<SpecStmt>
    decreases ss,
{
    if ss.len() == 0 {
        Seq::empty()
    } else {
        seq![spec_view_stmt(ss[0])] + spec_view_stmts(ss.drop_first())
    }
}

pub open spec fn spec_view_stmt(s: Stmt) -> SpecStmt
    decreases s,
{
    match s {
        Stmt::Decl(d) => SpecStmt::Decl(d.dfs.deep_view()),
        Stmt::Block(b) => SpecStmt::Blk(spec_view_block(b.block)),
        Stmt::For(f) => SpecStmt::For {
            index: f.index@,
            lower: f.lower@,
            upper: f.upper@,
            body: spec_view_block(f.body),
        },
        Stmt::If(i) => SpecStmt::If { cond: i.cond@, body: spec_view_block(i.body) },
        Stmt::Call(c) => SpecStmt::Call { ident: c.ident@, args: c.args.deep_view() },
    }
}

impl View for Block {
    type V = SpecBlockAst;

    open spec fn view(&self) -> SpecBlockAst {
        spec_view_block(*self)
    }
}

impl View for Stmt {
    type V = SpecStmt;

    open spec fn view(&self) -> SpecStmt {
        spec_view_stmt(*self)
    }
}

impl DeepView for Ident {
    type V = Seq<char>;

    open spec fn deep_view(&self) -> Seq<char> {
        self.name@
    }
}

#[derive(Debug)]
pub struct ItemImport {
    pub signature: Signature,
}

#[derive(Debug)]
pub struct ItemSub {
    pub signature: Signature,
    pub body: Block,
}

#[derive(Debug)]
pub enum Item {
    Import(ItemImport),
    Sub(ItemSub),
}

#[verifier::ext_equal]
pub enum SpecItem {
    Import(SpecSignature),
    Sub(SpecSignature, SpecBlockAst),
}

impl View for Item {
    type V = SpecItem;

    open spec fn view(&self) -> SpecItem {
        match self {
            Item::Import(i) => SpecItem::Import(i.signature@),
            Item::Sub(s) => SpecItem::Sub(s.signature@, s.body@),
        }
    }
}

impl DeepView for Item {
    type V = SpecItem;

    open spec fn deep_view(&self) -> SpecItem {
        self@
    }
}

#[derive(Debug)]
pub struct File {
    pub items: Vec<Item>,
}

#[verifier::ext_equal]
pub struct SpecFile {
    pub items: Seq<SpecItem>,
}

impl View for File {
    type V = SpecFile;

    open spec fn view(&self) -> SpecFile {
        SpecFile { items: self.items.deep_view() }
    }
}

} // verus!
