//! .rama v2 AST — Specter paths, Rust-like schemas, no naming-convention sigils.

use vstd::prelude::*;
use crate::span::{Span, Spanned};

verus! {

#[derive(Debug, Clone, PartialEq)]
pub struct SourceFile {
    pub items: Vec<Item>,
    pub span: Span,
}

#[derive(Debug, Clone, PartialEq)]
pub enum Item {
    Module(ModuleDecl),
    Struct(StructDecl),
    PState(PStateDecl),
    Depot(DepotDecl),
    Op(OpDef),
    Fn(FnDef),
    Extern(ExternDecl),
}

#[derive(Debug, Clone, PartialEq)]
pub struct ModuleDecl {
    /// Module class name, e.g. `UsersModule`.
    pub name: Spanned<String>,
    /// Clojure namespace when declared as `module a.b.c/Name`.
    pub namespace: Option<String>,
    /// Stream topology name (`topology users`); defaults to `main`.
    pub topology: Option<String>,
    pub span: Span,
}

#[derive(Debug, Clone, PartialEq)]
pub struct StructDecl {
    pub name: Spanned<String>,
    pub fields: Vec<StructField>,
    pub span: Span,
}

#[derive(Debug, Clone, PartialEq)]
pub struct StructField {
    /// Keyword name without leading `:`.
    pub name: Spanned<String>,
    pub ty: Spanned<TypeExpr>,
}

#[derive(Debug, Clone, PartialEq)]
pub struct PStateDecl {
    pub name: Spanned<String>,
    pub ty: Spanned<TypeExpr>,
    pub span: Span,
}

#[derive(Debug, Clone, PartialEq)]
pub struct DepotDecl {
    pub name: Spanned<String>,
    pub keyed_by: Vec<Spanned<DepotKey>>,
    pub span: Span,
}

#[derive(Debug, Clone, PartialEq)]
pub enum DepotKey {
    Field(String),
    Literal(String),
}

#[derive(Debug, Clone, PartialEq)]
pub struct OpDef {
    pub name: Spanned<String>,
    pub params: Vec<Param>,
    pub body: Block,
    pub span: Span,
}

#[derive(Debug, Clone, PartialEq)]
pub struct FnDef {
    pub name: Spanned<String>,
    pub params: Vec<Param>,
    pub return_ty: Option<Spanned<ValueTypeExpr>>,
    pub body: Block,
    pub span: Span,
}

#[derive(Debug, Clone, PartialEq)]
pub struct Param {
    pub name: Spanned<String>,
    pub ty: Option<Spanned<ValueTypeExpr>>,
}

#[derive(Debug, Clone, PartialEq)]
pub struct ExternDecl {
    pub name: Spanned<String>,
    /// Qualified Clojure Var symbol, e.g. `clojure.core/vec`.
    pub target: Option<Spanned<String>>,
    pub type_params: Vec<Spanned<String>>,
    pub params: Vec<Param>,
    pub return_ty: Spanned<ValueTypeExpr>,
    pub span: Span,
}

#[derive(Debug, PartialEq)]
pub struct Block {
    pub stmts: Vec<Stmt>,
    pub span: Span,
}

#[derive(Debug, PartialEq)]
pub enum Stmt {
    Let { pattern: LetPattern, value: Expr, span: Span },
    Select { pstate: Spanned<String>, path: Vec<Expr>, target: BindingTarget, span: Span },
    Transform { pstate: Spanned<String>, path: Vec<Expr>, span: Span },
    Fail { value: Expr, condition: Expr, span: Span },
    Return { value: Expr, span: Span },
    /// Bare `|hash key` partition hop.
    Hash { key: Expr, span: Span },
    Effect { value: Expr, span: Span },
    If { condition: Expr, consequence: Block, alternative: Option<Block>, span: Span },
}

#[derive(Debug, Clone, PartialEq)]
pub enum LetPattern {
    Name(Spanned<String>),
    Destructure(Vec<Spanned<String>>),
}

#[derive(Debug, Clone, PartialEq)]
pub enum BindingTarget {
    Name(Spanned<String>),
    Destructure(Vec<Spanned<String>>),
}

#[derive(Debug, PartialEq)]
pub enum Expr {
    Call(CallExpr),
    List { elems: Vec<Expr>, span: Span },
    MapLit { entries: Vec<MapEntry>, span: Span },
    String(Spanned<String>),
    Keyword(Spanned<String>),
    Ident(Spanned<String>),
    Int(Spanned<i64>),
    Bool(Spanned<bool>),
    Binary { op: BinaryOp, left: Box<Expr>, right: Box<Expr>, span: Span },
    Ternary { cond: Box<Expr>, then_branch: Box<Expr>, else_branch: Box<Expr>, span: Span },
    As { value: Box<Expr>, ty: Spanned<ValueTypeExpr>, span: Span },
}

#[derive(Debug, Clone, Copy, PartialEq, Eq)]
pub enum BinaryOp {
    Eq,
    NotEq,
}

/// The source range an expression node records.
pub open spec fn expr_span(e: Expr) -> Span {
    match e {
        Expr::Call(c) => c.span,
        Expr::List { span, .. } => span,
        Expr::MapLit { span, .. } => span,
        Expr::String(s) => s.span,
        Expr::Keyword(s) => s.span,
        Expr::Ident(s) => s.span,
        Expr::Int(s) => s.span,
        Expr::Bool(s) => s.span,
        Expr::Binary { span, .. } => span,
        Expr::Ternary { span, .. } => span,
        Expr::As { span, .. } => span,
    }
}

impl Expr {
    pub fn span(&self) -> (out: Span)
        ensures
            out == expr_span(*self),
    {
        match self {
            Expr::Call(c) => c.span,
            Expr::List { span, .. } => *span,
            Expr::MapLit { span, .. } => *span,
            Expr::String(s) => s.span,
            Expr::Keyword(s) => s.span,
            Expr::Ident(s) => s.span,
            Expr::Int(s) => s.span,
            Expr::Bool(s) => s.span,
            Expr::Binary { span, .. } => *span,
            Expr::Ternary { span, .. } => *span,
            Expr::As { span, .. } => *span,
        }
    }
}

#[derive(Debug, PartialEq)]
pub struct CallExpr {
    pub callee: Spanned<String>,
    pub args: Vec<Expr>,
    pub span: Span,
}

#[derive(Debug, PartialEq)]
pub struct MapEntry {
    pub key: Expr,
    pub value: Option<Expr>,
}

#[derive(Debug, PartialEq)]
pub enum TypeExpr {
    Named(String),
    MapType { key: Box<TypeExpr>, value: Box<TypeExpr>, subindexed: bool },
    Object,
}

/// JVM-oriented ordinary value type syntax. PState schemas use [`TypeExpr`].
#[derive(Debug, PartialEq, Eq, Hash)]
pub enum ValueTypeExpr {
    Named { path: String, args: Vec<ValueTypeExpr> },
    Union(Vec<ValueTypeExpr>),
    Function { params: Vec<ValueTypeExpr>, ret: Box<ValueTypeExpr> },
    Capability { name: String, args: Vec<ValueTypeExpr> },
    Nil,
    Unknown,
    Dynamic,
    Any,
    Never,
}

impl Clone for TypeExpr {
    fn clone(&self) -> (out: Self)
        decreases self,
    {
        match self {
            TypeExpr::Named(n) => TypeExpr::Named(n.clone()),
            TypeExpr::MapType { key, value, subindexed } => TypeExpr::MapType {
                key: Box::new((**key).clone()),
                value: Box::new((**value).clone()),
                subindexed: *subindexed,
            },
            TypeExpr::Object => TypeExpr::Object,
        }
    }
}

impl Clone for ValueTypeExpr {
    fn clone(&self) -> (out: Self)
        decreases self,
    {
        match self {
            ValueTypeExpr::Named { path, args } => ValueTypeExpr::Named {
                path: path.clone(),
                args: clone_value_types(args),
            },
            ValueTypeExpr::Union(members) => ValueTypeExpr::Union(clone_value_types(members)),
            ValueTypeExpr::Function { params, ret } => ValueTypeExpr::Function {
                params: clone_value_types(params),
                ret: Box::new((**ret).clone()),
            },
            ValueTypeExpr::Capability { name, args } => ValueTypeExpr::Capability {
                name: name.clone(),
                args: clone_value_types(args),
            },
            ValueTypeExpr::Nil => ValueTypeExpr::Nil,
            ValueTypeExpr::Unknown => ValueTypeExpr::Unknown,
            ValueTypeExpr::Dynamic => ValueTypeExpr::Dynamic,
            ValueTypeExpr::Any => ValueTypeExpr::Any,
            ValueTypeExpr::Never => ValueTypeExpr::Never,
        }
    }
}

#[verifier::loop_isolation(false)]
pub fn clone_value_types(xs: &Vec<ValueTypeExpr>) -> (out: Vec<ValueTypeExpr>)
    ensures
        out.len() == xs.len(),
    decreases xs,
{
    let mut out: Vec<ValueTypeExpr> = Vec::new();
    let mut i: usize = 0;
    while i < xs.len()
        invariant
            i <= xs.len(),
            out.len() == i,
        decreases xs.len() - i,
    {
        out.push(xs[i].clone());
        i += 1;
    }
    out
}

impl Clone for Expr {
    fn clone(&self) -> (out: Self)
        decreases self,
    {
        match self {
            Expr::Call(c) => Expr::Call(c.clone()),
            Expr::List { elems, span } => Expr::List { elems: clone_exprs(elems), span: *span },
            Expr::MapLit { entries, span } => Expr::MapLit { entries: clone_entries(entries), span: *span },
            Expr::String(s) => Expr::String(s.clone()),
            Expr::Keyword(s) => Expr::Keyword(s.clone()),
            Expr::Ident(s) => Expr::Ident(s.clone()),
            Expr::Int(s) => Expr::Int(Spanned { node: s.node, span: s.span }),
            Expr::Bool(s) => Expr::Bool(Spanned { node: s.node, span: s.span }),
            Expr::Binary { op, left, right, span } => Expr::Binary {
                op: *op,
                left: Box::new((**left).clone()),
                right: Box::new((**right).clone()),
                span: *span,
            },
            Expr::Ternary { cond, then_branch, else_branch, span } => Expr::Ternary {
                cond: Box::new((**cond).clone()),
                then_branch: Box::new((**then_branch).clone()),
                else_branch: Box::new((**else_branch).clone()),
                span: *span,
            },
            Expr::As { value, ty, span } => Expr::As {
                value: Box::new((**value).clone()),
                ty: Spanned { node: ty.node.clone(), span: ty.span },
                span: *span,
            },
        }
    }
}

impl Clone for CallExpr {
    fn clone(&self) -> (out: Self)
        decreases self,
    {
        CallExpr { callee: self.callee.clone(), args: clone_exprs(&self.args), span: self.span }
    }
}

impl Clone for MapEntry {
    fn clone(&self) -> (out: Self)
        decreases self,
    {
        MapEntry {
            key: self.key.clone(),
            value: match &self.value {
                Some(v) => Some(v.clone()),
                None => None,
            },
        }
    }
}

#[verifier::loop_isolation(false)]
pub fn clone_exprs(xs: &Vec<Expr>) -> (out: Vec<Expr>)
    ensures
        out.len() == xs.len(),
    decreases xs,
{
    let mut out: Vec<Expr> = Vec::new();
    let mut i: usize = 0;
    while i < xs.len()
        invariant
            i <= xs.len(),
            out.len() == i,
        decreases xs.len() - i,
    {
        out.push(xs[i].clone());
        i += 1;
    }
    out
}

#[verifier::loop_isolation(false)]
fn clone_entries(xs: &Vec<MapEntry>) -> (out: Vec<MapEntry>)
    decreases xs,
{
    let mut out: Vec<MapEntry> = Vec::new();
    let mut i: usize = 0;
    while i < xs.len()
        invariant
            i <= xs.len(),
        decreases xs.len() - i,
    {
        out.push(xs[i].clone());
        i += 1;
    }
    out
}

impl Clone for Block {
    fn clone(&self) -> (out: Self)
        decreases self,
    {
        Block { stmts: clone_stmts(&self.stmts), span: self.span }
    }
}

#[verifier::loop_isolation(false)]
fn clone_stmts(xs: &Vec<Stmt>) -> (out: Vec<Stmt>)
    decreases xs,
{
    let mut out: Vec<Stmt> = Vec::new();
    let mut i: usize = 0;
    while i < xs.len()
        invariant
            i <= xs.len(),
        decreases xs.len() - i,
    {
        out.push(xs[i].clone());
        i += 1;
    }
    out
}

impl Clone for Stmt {
    fn clone(&self) -> (out: Self)
        decreases self,
    {
        match self {
            Stmt::Let { pattern, value, span } => Stmt::Let {
                pattern: pattern.clone(),
                value: value.clone(),
                span: *span,
            },
            Stmt::Select { pstate, path, target, span } => Stmt::Select {
                pstate: pstate.clone(),
                path: clone_exprs(path),
                target: target.clone(),
                span: *span,
            },
            Stmt::Transform { pstate, path, span } => Stmt::Transform {
                pstate: pstate.clone(),
                path: clone_exprs(path),
                span: *span,
            },
            Stmt::Fail { value, condition, span } => Stmt::Fail {
                value: value.clone(),
                condition: condition.clone(),
                span: *span,
            },
            Stmt::Return { value, span } => Stmt::Return { value: value.clone(), span: *span },
            Stmt::Hash { key, span } => Stmt::Hash { key: key.clone(), span: *span },
            Stmt::Effect { value, span } => Stmt::Effect { value: value.clone(), span: *span },
            Stmt::If { condition, consequence, alternative, span } => Stmt::If {
                condition: condition.clone(),
                consequence: consequence.clone(),
                alternative: match alternative {
                    Some(b) => Some(b.clone()),
                    None => None,
                },
                span: *span,
            },
        }
    }
}

} // verus!
