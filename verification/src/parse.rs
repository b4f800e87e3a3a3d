//! .rama v2 parser: recursive descent over lexer tokens, with ordered
//! choice and backtracking.

use vstd::prelude::*;
use crate::ast::{BindingTarget, Block, CallExpr, DepotDecl, DepotKey, Expr, ExternDecl, FnDef, Item, LetPattern, MapEntry, ModuleDecl, OpDef, Param, PStateDecl, SourceFile, Stmt, StructDecl, StructField, TypeExpr, ValueTypeExpr, BinaryOp};
use crate::error::{Diagnostic, ParseError};
use crate::lex::{lex, SpannedToken, TokenKind};
use crate::span::{Span, Spanned};
use crate::text::{ends_with, join, owned, str_eq, views};

verus! {

type Toks = Vec<SpannedToken>;

/// Parse result: the node and the index of the first token after it.
type Res<T> = Option<(T, usize)>;

pub open spec fn advances<T>(r: Res<T>, pos: usize, len: nat) -> bool {
    r matches Some((_, p)) ==> pos < p <= len
}

/// Punctuation and keyword tokens without payload.
#[derive(Clone, Copy)]
enum Tag {
    Module,
    Struct,
    PState,
    Depot,
    Op,
    Fn,
    Extern,
    Let,
    Fail,
    Return,
    If,
    Else,
    KeyedBy,
    MapKw,
    Object,
    ArrowTransform,
    ArrowSelect,
    ThinArrow,
    EqEq,
    NotEq,
    Eq,
    Question,
    At,
    Dot,
    Slash,
    Plus,
    Union,
    LParen,
    RParen,
    LBrace,
    RBrace,
    LBracket,
    RBracket,
    Comma,
    Semicolon,
    Colon,
    Lt,
    Gt,
}

/// The tag that names a token kind, for kinds without a payload.
spec fn tag_of(k: TokenKind) -> Option<Tag> {
    match k {
        TokenKind::Module => Some(Tag::Module),
        TokenKind::Struct => Some(Tag::Struct),
        TokenKind::PState => Some(Tag::PState),
        TokenKind::Depot => Some(Tag::Depot),
        TokenKind::Op => Some(Tag::Op),
        TokenKind::Fn => Some(Tag::Fn),
        TokenKind::Extern => Some(Tag::Extern),
        TokenKind::Let => Some(Tag::Let),
        TokenKind::Fail => Some(Tag::Fail),
        TokenKind::Return => Some(Tag::Return),
        TokenKind::If => Some(Tag::If),
        TokenKind::Else => Some(Tag::Else),
        TokenKind::KeyedBy => Some(Tag::KeyedBy),
        TokenKind::MapKw => Some(Tag::MapKw),
        TokenKind::Object => Some(Tag::Object),
        TokenKind::ArrowTransform => Some(Tag::ArrowTransform),
        TokenKind::ArrowSelect => Some(Tag::ArrowSelect),
        TokenKind::ThinArrow => Some(Tag::ThinArrow),
        TokenKind::EqEq => Some(Tag::EqEq),
        TokenKind::NotEq => Some(Tag::NotEq),
        TokenKind::Eq => Some(Tag::Eq),
        TokenKind::Question => Some(Tag::Question),
        TokenKind::At => Some(Tag::At),
        TokenKind::Dot => Some(Tag::Dot),
        TokenKind::Slash => Some(Tag::Slash),
        TokenKind::Plus => Some(Tag::Plus),
        TokenKind::Union => Some(Tag::Union),
        TokenKind::LParen => Some(Tag::LParen),
        TokenKind::RParen => Some(Tag::RParen),
        TokenKind::LBrace => Some(Tag::LBrace),
        TokenKind::RBrace => Some(Tag::RBrace),
        TokenKind::LBracket => Some(Tag::LBracket),
        TokenKind::RBracket => Some(Tag::RBracket),
        TokenKind::Comma => Some(Tag::Comma),
        TokenKind::Semicolon => Some(Tag::Semicolon),
        TokenKind::Colon => Some(Tag::Colon),
        TokenKind::Lt => Some(Tag::Lt),
        TokenKind::Gt => Some(Tag::Gt),
        _ => None,
    }
}

/// The failure mark after a miss at `pos`: the furthest point reached.
pub open spec fn furthest(err: usize, pos: usize) -> usize {
    if pos > err { pos } else { err }
}

fn tag_matches(tag: Tag, k: &TokenKind) -> (r: bool)
    ensures
        r == (tag_of(*k) == Some(tag)),
{
    match (tag, k) {
        (Tag::Module, TokenKind::Module) => true,
        (Tag::Struct, TokenKind::Struct) => true,
        (Tag::PState, TokenKind::PState) => true,
        (Tag::Depot, TokenKind::Depot) => true,
        (Tag::Op, TokenKind::Op) => true,
        (Tag::Fn, TokenKind::Fn) => true,
        (Tag::Extern, TokenKind::Extern) => true,
        (Tag::Let, TokenKind::Let) => true,
        (Tag::Fail, TokenKind::Fail) => true,
        (Tag::Return, TokenKind::Return) => true,
        (Tag::If, TokenKind::If) => true,
        (Tag::Else, TokenKind::Else) => true,
        (Tag::KeyedBy, TokenKind::KeyedBy) => true,
        (Tag::MapKw, TokenKind::MapKw) => true,
        (Tag::Object, TokenKind::Object) => true,
        (Tag::ArrowTransform, TokenKind::ArrowTransform) => true,
        (Tag::ArrowSelect, TokenKind::ArrowSelect) => true,
        (Tag::ThinArrow, TokenKind::ThinArrow) => true,
        (Tag::EqEq, TokenKind::EqEq) => true,
        (Tag::NotEq, TokenKind::NotEq) => true,
        (Tag::Eq, TokenKind::Eq) => true,
        (Tag::Question, TokenKind::Question) => true,
        (Tag::At, TokenKind::At) => true,
        (Tag::Dot, TokenKind::Dot) => true,
        (Tag::Slash, TokenKind::Slash) => true,
        (Tag::Plus, TokenKind::Plus) => true,
        (Tag::Union, TokenKind::Union) => true,
        (Tag::LParen, TokenKind::LParen) => true,
        (Tag::RParen, TokenKind::RParen) => true,
        (Tag::LBrace, TokenKind::LBrace) => true,
        (Tag::RBrace, TokenKind::RBrace) => true,
        (Tag::LBracket, TokenKind::LBracket) => true,
        (Tag::RBracket, TokenKind::RBracket) => true,
        (Tag::Comma, TokenKind::Comma) => true,
        (Tag::Semicolon, TokenKind::Semicolon) => true,
        (Tag::Colon, TokenKind::Colon) => true,
        (Tag::Lt, TokenKind::Lt) => true,
        (Tag::Gt, TokenKind::Gt) => true,
        _ => false,
    }
}

/// Records `pos` as the furthest point where the grammar failed.
fn fail_at(err: &mut usize, pos: usize)
    ensures
        *final(err) == furthest(*old(err), pos),
{
    if pos > *err {
        *err = pos;
    }
}

/// Whether token `pos` is `tag`; a miss is recorded as a failure.
fn at_tag(t: &Toks, pos: usize, tag: Tag, err: &mut usize) -> (r: bool)
    ensures
        r ==> pos < t.len(),
        r == (pos < t.len() && tag_of(t@[pos as int].0) == Some(tag)),
        *final(err) == if r { *old(err) } else { furthest(*old(err), pos) },
{
    if pos < t.len() && tag_matches(tag, &t[pos].0) {
        true
    } else {
        fail_at(err, pos);
        false
    }
}

/// Span from the start of token `a` to the end of token `b - 1`.
fn span_of(t: &Toks, a: usize, b: usize) -> (out: Span)
    requires
        a < b <= t.len(),
    ensures
        out.start == t@[a as int].1.start,
        out.end == t@[b - 1].1.end,
{
    Span::new(t[a].1.start, t[b - 1].1.end)
}

fn ident(t: &Toks, pos: usize, err: &mut usize) -> (r: Res<String>)
    ensures
        advances(r, pos, t.len() as nat),
        r matches Some((_, p)) ==> p == pos + 1,
{
    if pos < t.len() {
        match &t[pos].0 {
            TokenKind::Ident(s) => {
                return Some((s.clone(), pos + 1));
            }
            _ => {}
        }
    }
    fail_at(err, pos);
    None
}

fn ident_spanned(t: &Toks, pos: usize, err: &mut usize) -> (r: Res<Spanned<String>>)
    ensures
        advances(r, pos, t.len() as nat),
        r matches Some((_, p)) ==> p == pos + 1,
{
    match ident(t, pos, err) {
        Some((s, p)) => Some((Spanned::new(s, t[pos].1), p)),
        None => None,
    }
}

/// `Ident(word)` exactly.
fn word(t: &Toks, pos: usize, w: &str, err: &mut usize) -> (r: bool)
    ensures
        r ==> pos < t.len(),
        r == (pos < t.len() && t@[pos as int].0 is Ident && t@[pos as int].0->Ident_0@ == w@),
        *final(err) == if r { *old(err) } else { furthest(*old(err), pos) },
{
    if pos < t.len() {
        match &t[pos].0 {
            TokenKind::Ident(s) => {
                if str_eq(s.as_str(), w) {
                    return true;
                }
            }
            _ => {}
        }
    }
    fail_at(err, pos);
    false
}

fn keyword(t: &Toks, pos: usize, err: &mut usize) -> (r: Res<Spanned<String>>)
    ensures
        advances(r, pos, t.len() as nat),
{
    if pos < t.len() {
        match &t[pos].0 {
            TokenKind::Keyword(s) => {
                return Some((Spanned::new(s.clone(), t[pos].1), pos + 1));
            }
            _ => {}
        }
    }
    fail_at(err, pos);
    None
}

fn pstate_ref(t: &Toks, pos: usize, err: &mut usize) -> (r: Res<Spanned<String>>)
    ensures
        advances(r, pos, t.len() as nat),
{
    if pos < t.len() {
        match &t[pos].0 {
            TokenKind::PStateRef(s) => {
                return Some((Spanned::new(s.clone(), t[pos].1), pos + 1));
            }
            _ => {}
        }
    }
    fail_at(err, pos);
    None
}

/// `ident (. ident)*`, as segments.
fn dotted(t: &Toks, pos: usize, err: &mut usize) -> (r: Res<Vec<String>>)
    ensures
        advances(r, pos, t.len() as nat),
{
    let (first, mut p) = match ident(t, pos, err) {
        Some(x) => x,
        None => { return None; }
    };
    let mut segments: Vec<String> = Vec::new();
    segments.push(first);
    while p < t.len()
        invariant
            pos < p <= t.len(),
        decreases t.len() - p,
    {
        if !at_tag(t, p, Tag::Dot, err) {
            break;
        }
        match ident(t, p + 1, err) {
            Some((s, q)) => {
                segments.push(s);
                p = q;
            }
            None => {
                break;
            }
        }
    }
    Some((segments, p))
}

// --- items -----------------------------------------------------------------

fn module_item(t: &Toks, pos: usize, err: &mut usize) -> (r: Res<Item>)
    ensures
        advances(r, pos, t.len() as nat),
{
    if !at_tag(t, pos, Tag::Module, err) {
        return None;
    }
    let (segments, mut p) = match dotted(t, pos + 1, err) {
        Some(x) => x,
        None => { return None; }
    };
    let mut class_name: Option<String> = None;
    if at_tag(t, p, Tag::Slash, err) {
        match ident(t, p + 1, err) {
            Some((s, q)) => {
                class_name = Some(s);
                p = q;
            }
            None => {}
        }
    }
    let mut topology: Option<String> = None;
    if word(t, p, "topology", err) {
        match ident(t, p + 1, err) {
            Some((s, q)) => {
                topology = Some(s);
                p = q;
            }
            None => {}
        }
    }
    let span = span_of(t, pos, p);
    let joined = join(&segments, ".");
    let (name, namespace) = match class_name {
        Some(c) => (c, Some(joined)),
        None => (joined, None),
    };
    Some((Item::Module(ModuleDecl { name: Spanned::new(name, span), namespace, topology, span }), p))
}

fn struct_item(t: &Toks, pos: usize, err: &mut usize) -> (r: Res<Item>)
    ensures
        advances(r, pos, t.len() as nat),
{
    if !at_tag(t, pos, Tag::Struct, err) {
        return None;
    }
    let (name, p) = match ident(t, pos + 1, err) {
        Some(x) => x,
        None => { return None; }
    };
    if !at_tag(t, p, Tag::LBrace, err) {
        return None;
    }
    let mut q = p + 1;
    let mut fields: Vec<StructField> = Vec::new();
    while q < t.len()
        invariant
            pos < q <= t.len(),
        decreases t.len() - q,
    {
        let (fname, q1) = match keyword(t, q, err) {
            Some(x) => x,
            None => { break; }
        };
        match type_expr(t, q1, err) {
            Some((ty, q2)) => {
                fields.push(StructField { name: fname, ty });
                q = q2;
            }
            None => { break; }
        }
    }
    if !at_tag(t, q, Tag::RBrace, err) {
        return None;
    }
    let span = span_of(t, pos, q + 1);
    Some((Item::Struct(StructDecl { name: Spanned::new(name, Span::default()), fields, span }), q + 1))
}

fn pstate_item(t: &Toks, pos: usize, err: &mut usize) -> (r: Res<Item>)
    ensures
        advances(r, pos, t.len() as nat),
{
    if !at_tag(t, pos, Tag::PState, err) {
        return None;
    }
    let (name, p) = match pstate_ref(t, pos + 1, err) {
        Some(x) => x,
        None => { return None; }
    };
    if !at_tag(t, p, Tag::Colon, err) {
        return None;
    }
    let (ty, q) = match type_expr(t, p + 1, err) {
        Some(x) => x,
        None => { return None; }
    };
    let span = span_of(t, pos, q);
    Some((Item::PState(PStateDecl { name, ty, span }), q))
}

fn depot_key(t: &Toks, pos: usize, err: &mut usize) -> (r: Res<Spanned<DepotKey>>)
    ensures
        advances(r, pos, t.len() as nat),
{
    if pos < t.len() {
        match &t[pos].0 {
            TokenKind::Ident(s) => {
                return Some((Spanned::new(DepotKey::Field(s.clone()), t[pos].1), pos + 1));
            }
            TokenKind::String(s) => {
                return Some((Spanned::new(DepotKey::Literal(s.clone()), t[pos].1), pos + 1));
            }
            _ => {}
        }
    }
    fail_at(err, pos);
    None
}

fn depot_item(t: &Toks, pos: usize, err: &mut usize) -> (r: Res<Item>)
    ensures
        advances(r, pos, t.len() as nat),
{
    if !at_tag(t, pos, Tag::Depot, err) {
        return None;
    }
    let (name, p) = match ident(t, pos + 1, err) {
        Some(x) => x,
        None => { return None; }
    };
    if !at_tag(t, p, Tag::KeyedBy, err) {
        return None;
    }
    let (first, mut q) = match depot_key(t, p + 1, err) {
        Some(x) => x,
        None => { return None; }
    };
    let mut keyed_by: Vec<Spanned<DepotKey>> = Vec::new();
    keyed_by.push(first);
    while q < t.len()
        invariant
            pos < q <= t.len(),
        decreases t.len() - q,
    {
        if !at_tag(t, q, Tag::Union, err) {
            break;
        }
        match depot_key(t, q + 1, err) {
            Some((k, q1)) => {
                keyed_by.push(k);
                q = q1;
            }
            None => { break; }
        }
    }
    let span = span_of(t, pos, q);
    Some((Item::Depot(DepotDecl { name: Spanned::new(name, Span::default()), keyed_by, span }), q))
}

fn op_item(t: &Toks, pos: usize, err: &mut usize) -> (r: Res<Item>)
    ensures
        advances(r, pos, t.len() as nat),
{
    if !at_tag(t, pos, Tag::Op, err) {
        return None;
    }
    let (name, p) = match ident(t, pos + 1, err) {
        Some(x) => x,
        None => { return None; }
    };
    let (params, q) = match typed_params(t, p, err) {
        Some(x) => x,
        None => { return None; }
    };
    let (body, e) = match block(t, q, err) {
        Some(x) => x,
        None => { return None; }
    };
    let span = span_of(t, pos, e);
    Some((Item::Op(OpDef { name: Spanned::new(name, Span::default()), params, body, span }), e))
}

fn fn_item(t: &Toks, pos: usize, err: &mut usize) -> (r: Res<Item>)
    ensures
        advances(r, pos, t.len() as nat),
{
    if !at_tag(t, pos, Tag::Fn, err) {
        return None;
    }
    let (name, p) = match ident_spanned(t, pos + 1, err) {
        Some(x) => x,
        None => { return None; }
    };
    let (params, mut q) = match typed_params(t, p, err) {
        Some(x) => x,
        None => { return None; }
    };
    let mut return_ty: Option<Spanned<ValueTypeExpr>> = None;
    if at_tag(t, q, Tag::ThinArrow, err) {
        match value_type(t, q + 1, err) {
            Some((ty, q1)) => {
                return_ty = Some(ty);
                q = q1;
            }
            None => {}
        }
    }
    let (body, e) = match block(t, q, err) {
        Some(x) => x,
        None => { return None; }
    };
    let span = span_of(t, pos, e);
    Some((Item::Fn(FnDef { name, params, return_ty, body, span }), e))
}

/// `ns.seg/name` (the name may be `+`).
fn qualified_var(t: &Toks, pos: usize, err: &mut usize) -> (r: Res<Spanned<String>>)
    ensures
        advances(r, pos, t.len() as nat),
{
    let (ns, p) = match dotted(t, pos, err) {
        Some(x) => x,
        None => { return None; }
    };
    if !at_tag(t, p, Tag::Slash, err) {
        return None;
    }
    let mut name: Option<String> = None;
    if p + 1 < t.len() {
        match &t[p + 1].0 {
            TokenKind::Ident(s) => { name = Some(s.clone()); }
            TokenKind::Plus => { name = Some(owned("+")); }
            _ => {}
        }
    }
    match name {
        Some(n) => {
            let mut text = join(&ns, ".");
            text.push('/');
            text.push_str(n.as_str());
            Some((Spanned::new(text, span_of(t, pos, p + 2)), p + 2))
        }
        None => {
            fail_at(err, p + 1);
            None
        }
    }
}

fn extern_item(t: &Toks, pos: usize, err: &mut usize) -> (r: Res<Item>)
    ensures
        advances(r, pos, t.len() as nat),
{
    if !at_tag(t, pos, Tag::Extern, err) {
        return None;
    }
    let (name, mut p) = match ident_spanned(t, pos + 1, err) {
        Some(x) => x,
        None => { return None; }
    };
    let mut type_params: Vec<Spanned<String>> = Vec::new();
    if at_tag(t, p, Tag::Lt, err) {
        match spanned_idents(t, p + 1, Tag::Comma, true, err) {
            Some((names, q)) => {
                if at_tag(t, q, Tag::Gt, err) {
                    type_params = names;
                    p = q + 1;
                }
            }
            None => {
                if at_tag(t, p + 1, Tag::Gt, err) {
                    p = p + 2;
                }
            }
        }
    }
    let mut target: Option<Spanned<String>> = None;
    if at_tag(t, p, Tag::Eq, err) {
        match qualified_var(t, p + 1, err) {
            Some((v, q)) => {
                target = Some(v);
                p = q;
            }
            None => {}
        }
    }
    let (params, q) = match typed_params(t, p, err) {
        Some(x) => x,
        None => { return None; }
    };
    if !at_tag(t, q, Tag::ThinArrow, err) {
        return None;
    }
    let (return_ty, mut e) = match value_type(t, q + 1, err) {
        Some(x) => x,
        None => { return None; }
    };
    if at_tag(t, e, Tag::Semicolon, err) {
        e = e + 1;
    }
    let span = span_of(t, pos, e);
    Some((Item::Extern(ExternDecl { name, target, type_params, params, return_ty, span }), e))
}

/// Spanned identifiers separated by `sep`; `None` when there is not even one.
fn spanned_idents(t: &Toks, pos: usize, sep: Tag, trailing: bool, err: &mut usize) -> (r: Res<Vec<Spanned<String>>>)
    ensures
        advances(r, pos, t.len() as nat),
{
    let (first, mut p) = match ident_spanned(t, pos, err) {
        Some(x) => x,
        None => { return None; }
    };
    let mut out: Vec<Spanned<String>> = Vec::new();
    out.push(first);
    while p < t.len()
        invariant
            pos < p <= t.len(),
        decreases t.len() - p,
    {
        if !at_tag(t, p, sep, err) {
            break;
        }
        match ident_spanned(t, p + 1, err) {
            Some((s, q)) => {
                out.push(s);
                p = q;
            }
            None => {
                if trailing {
                    p = p + 1;
                }
                break;
            }
        }
    }
    Some((out, p))
}

fn typed_params(t: &Toks, pos: usize, err: &mut usize) -> (r: Res<Vec<Param>>)
    ensures
        advances(r, pos, t.len() as nat),
{
    if !at_tag(t, pos, Tag::LParen, err) {
        return None;
    }
    let mut params: Vec<Param> = Vec::new();
    let mut p = pos + 1;
    while p < t.len()
        invariant
            pos < p <= t.len(),
        decreases t.len() - p,
    {
        let (name, mut q) = match ident_spanned(t, p, err) {
            Some(x) => x,
            None => { break; }
        };
        let mut ty: Option<Spanned<ValueTypeExpr>> = None;
        if at_tag(t, q, Tag::Colon, err) {
            match value_type(t, q + 1, err) {
                Some((v, q1)) => {
                    ty = Some(v);
                    q = q1;
                }
                None => {}
            }
        }
        params.push(Param { name, ty });
        if at_tag(t, q, Tag::Comma, err) {
            p = q + 1;
        } else {
            p = q;
            break;
        }
    }
    if !at_tag(t, p, Tag::RParen, err) {
        return None;
    }
    Some((params, p + 1))
}

// --- blocks and statements -------------------------------------------------

fn block(t: &Toks, pos: usize, err: &mut usize) -> (r: Res<Block>)
    ensures
        advances(r, pos, t.len() as nat),
    decreases t.len() - pos, 1nat,
{
    if !at_tag(t, pos, Tag::LBrace, err) {
        return None;
    }
    let mut stmts: Vec<Stmt> = Vec::new();
    let mut p = pos + 1;
    while p < t.len()
        invariant
            pos < p <= t.len(),
        decreases t.len() - p,
    {
        match stmt(t, p, err) {
            Some((s, q)) => {
                stmts.push(s);
                p = q;
            }
            None => { break; }
        }
    }
    if !at_tag(t, p, Tag::RBrace, err) {
        return None;
    }
    Some((Block { stmts, span: span_of(t, pos, p + 1) }, p + 1))
}

fn stmt(t: &Toks, pos: usize, err: &mut usize) -> (r: Res<Stmt>)
    requires
        pos <= t.len(),
    ensures
        advances(r, pos, t.len() as nat),
    decreases t.len() - pos, 0nat,
{
    // let
    if at_tag(t, pos, Tag::Let, err) {
        let mut pattern: Option<(LetPattern, usize)> = None;
        if at_tag(t, pos + 1, Tag::LBrace, err) {
            match spanned_idents(t, pos + 2, Tag::Comma, false, err) {
                Some((names, q)) => {
                    if at_tag(t, q, Tag::RBrace, err) {
                        pattern = Some((LetPattern::Destructure(names), q + 1));
                    }
                }
                None => {}
            }
        }
        if pattern.is_none() {
            match ident_spanned(t, pos + 1, err) {
                Some((n, q)) => { pattern = Some((LetPattern::Name(n), q)); }
                None => {}
            }
        }
        match pattern {
            Some((pattern, q)) => {
                if at_tag(t, q, Tag::Eq, err) {
                    match expr(t, q + 1, err) {
                        Some((value, e)) => {
                            return Some((Stmt::Let { pattern, value, span: span_of(t, pos, e) }, e));
                        }
                        None => {}
                    }
                }
            }
            None => {}
        }
        return None;
    }
    // fail
    if at_tag(t, pos, Tag::Fail, err) {
        match expr(t, pos + 1, err) {
            Some((value, q)) => {
                if at_tag(t, q, Tag::If, err) {
                    match expr(t, q + 1, err) {
                        Some((condition, e)) => {
                            return Some((Stmt::Fail { value, condition, span: span_of(t, pos, e) }, e));
                        }
                        None => {}
                    }
                }
            }
            None => {}
        }
        return None;
    }
    // return
    if at_tag(t, pos, Tag::Return, err) {
        match expr(t, pos + 1, err) {
            Some((value, e)) => {
                return Some((Stmt::Return { value, span: span_of(t, pos, e) }, e));
            }
            None => {}
        }
        return None;
    }
    // select / transform
    match pstate_ref(t, pos, err) {
        Some((pstate, p)) => {
            if at_tag(t, p, Tag::ArrowSelect, err) {
                match path(t, p + 1, err) {
                    Some((path, q)) => {
                        if at_tag(t, q, Tag::Gt, err) {
                            match binding_target(t, q + 1, err) {
                                Some((target, e)) => {
                                    return Some((Stmt::Select { pstate, path, target, span: span_of(t, pos, e) }, e));
                                }
                                None => {}
                            }
                        }
                    }
                    None => {}
                }
            } else if at_tag(t, p, Tag::ArrowTransform, err) {
                match path(t, p + 1, err) {
                    Some((path, e)) => {
                        return Some((Stmt::Transform { pstate, path, span: span_of(t, pos, e) }, e));
                    }
                    None => {}
                }
            }
        }
        None => {}
    }
    // |hash
    if pos < t.len() {
        let is_hash = match &t[pos].0 {
            TokenKind::Pipe(s) => str_eq(s.as_str(), "hash"),
            _ => false,
        };
        if is_hash {
            match expr(t, pos + 1, err) {
                Some((key, e)) => {
                    return Some((Stmt::Hash { key, span: span_of(t, pos, e) }, e));
                }
                None => {}
            }
        }
    }
    // if
    if at_tag(t, pos, Tag::If, err) {
        if at_tag(t, pos + 1, Tag::LParen, err) {
            match expr(t, pos + 2, err) {
                Some((condition, q)) => {
                    if at_tag(t, q, Tag::RParen, err) {
                        match block(t, q + 1, err) {
                            Some((consequence, q2)) => {
                                let mut alternative: Option<Block> = None;
                                let mut e = q2;
                                if at_tag(t, q2, Tag::Else, err) {
                                    match block(t, q2 + 1, err) {
                                        Some((b, q3)) => {
                                            alternative = Some(b);
                                            e = q3;
                                        }
                                        None => {}
                                    }
                                }
                                return Some((Stmt::If { condition, consequence, alternative, span: span_of(t, pos, e) }, e));
                            }
                            None => {}
                        }
                    }
                }
                None => {}
            }
        }
    }
    // effect
    match expr(t, pos, err) {
        Some((value, e)) => Some((Stmt::Effect { value, span: span_of(t, pos, e) }, e)),
        None => None,
    }
}

/// `expr (, expr)*`
fn path(t: &Toks, pos: usize, err: &mut usize) -> (r: Res<Vec<Expr>>)
    ensures
        advances(r, pos, t.len() as nat),
{
    let (first, mut p) = match expr(t, pos, err) {
        Some(x) => x,
        None => { return None; }
    };
    let mut out: Vec<Expr> = Vec::new();
    out.push(first);
    while p < t.len()
        invariant
            pos < p <= t.len(),
        decreases t.len() - p,
    {
        if !at_tag(t, p, Tag::Comma, err) {
            break;
        }
        match expr(t, p + 1, err) {
            Some((e, q)) => {
                out.push(e);
                p = q;
            }
            None => { break; }
        }
    }
    Some((out, p))
}

fn binding_target(t: &Toks, pos: usize, err: &mut usize) -> (r: Res<BindingTarget>)
    ensures
        advances(r, pos, t.len() as nat),
{
    if at_tag(t, pos, Tag::LBrace, err) {
        match spanned_idents(t, pos + 1, Tag::Comma, false, err) {
            Some((names, q)) => {
                if at_tag(t, q, Tag::RBrace, err) {
                    return Some((BindingTarget::Destructure(names), q + 1));
                }
            }
            None => {}
        }
    }
    match ident_spanned(t, pos, err) {
        Some((n, q)) => Some((BindingTarget::Name(n), q)),
        None => None,
    }
}

// --- schema and value types ------------------------------------------------

fn type_expr(t: &Toks, pos: usize, err: &mut usize) -> (r: Res<Spanned<TypeExpr>>)
    ensures
        advances(r, pos, t.len() as nat),
    decreases t.len() - pos,
{
    if at_tag(t, pos, Tag::MapKw, err) && at_tag(t, pos + 1, Tag::Lt, err) {
        match type_expr(t, pos + 2, err) {
            Some((key, p)) => {
                if at_tag(t, p, Tag::Comma, err) {
                    match type_expr(t, p + 1, err) {
                        Some((value, q)) => {
                            if at_tag(t, q, Tag::Gt, err) {
                                let mut e = q + 1;
                                let mut subindexed = false;
                                if at_tag(t, e, Tag::At, err) {
                                    match ident(t, e + 1, err) {
                                        Some((s, e2)) => {
                                            subindexed = str_eq(s.as_str(), "subindexed");
                                            e = e2;
                                        }
                                        None => {}
                                    }
                                }
                                let node = TypeExpr::MapType {
                                    key: Box::new(key.node),
                                    value: Box::new(value.node),
                                    subindexed,
                                };
                                return Some((Spanned::new(node, span_of(t, pos, e)), e));
                            }
                        }
                        None => {}
                    }
                }
            }
            None => {}
        }
    }
    if pos < t.len() {
        match &t[pos].0 {
            TokenKind::Ident(s) => {
                return Some((Spanned::new(TypeExpr::Named(s.clone()), t[pos].1), pos + 1));
            }
            TokenKind::Object => {
                return Some((Spanned::new(TypeExpr::Object, t[pos].1), pos + 1));
            }
            _ => {}
        }
    }
    fail_at(err, pos);
    None
}

/// `vt (, vt)* ,?` between the current position and a closing token.
fn value_type_list(t: &Toks, pos: usize, err: &mut usize) -> (r: (Vec<ValueTypeExpr>, usize))
    ensures
        pos <= r.1,
        pos <= t.len() ==> r.1 <= t.len(),
        r.1 == pos || r.1 <= t.len(),
    decreases t.len() - pos, 6nat,
{
    let mut out: Vec<ValueTypeExpr> = Vec::new();
    let mut p = pos;
    if p > t.len() {
        return (out, p);
    }
    while p < t.len()
        invariant
            pos <= p <= t.len(),
        decreases t.len() - p,
    {
        match value_type(t, p, err) {
            Some((v, q)) => {
                out.push(v.node);
                if at_tag(t, q, Tag::Comma, err) {
                    p = q + 1;
                } else {
                    p = q;
                    break;
                }
            }
            None => { break; }
        }
    }
    (out, p)
}

/// A name that is none of the built-in type words.
pub open spec fn ordinary_type_name(n: Seq<char>) -> bool {
    !(n == "Nil"@ || n == "Unknown"@ || n == "Dynamic"@ || n == "Dyn"@ || n == "Any"@ || n == "Never"@ || n == "Seqable"@
        || n == "Reducible"@ || n == "Countable"@ || n == "Transducer"@ || crate::text::is_suffix("?"@, n))
}

/// A bare class or alias name at `pos`: an ordinary name not followed by
/// `.`, `<`, `?` or `|`.
pub open spec fn plain_type_name(t: Seq<SpannedToken>, pos: int) -> bool {
    &&& 0 <= pos < t.len()
    &&& t[pos].0 is Ident
    &&& ordinary_type_name(t[pos].0->Ident_0@)
    &&& (pos + 1 >= t.len() || !(t[pos + 1].0 is Dot || t[pos + 1].0 is Lt || t[pos + 1].0 is Question || t[pos + 1].0 is Union))
}

/// The named type a bare name parses as.
pub open spec fn plain_named(r: Res<Spanned<ValueTypeExpr>>, t: Seq<SpannedToken>, pos: int) -> bool {
    r matches Some((v, q)) && (q == pos + 1 && (v.node matches ValueTypeExpr::Named { path, args } && (path@ == t[pos].0->Ident_0@
        && args@.len() == 0)))
}

/// A token that can open a value type: a name, `Map` or `Object`.
pub open spec fn type_start(t: Seq<SpannedToken>, pos: int) -> bool {
    0 <= pos < t.len() && (t[pos].0 is Ident || t[pos].0 is MapKw || t[pos].0 is Object)
}

fn segment(t: &Toks, pos: usize, err: &mut usize) -> (r: Res<String>)
    ensures
        advances(r, pos, t.len() as nat),
        r is Some <==> type_start(t@, pos as int),
        r matches Some((_, q)) ==> q == pos + 1,
        pos < t@.len() && t@[pos as int].0 is Ident ==> (r matches Some((x, _)) && x@ == t@[pos as int].0->Ident_0@),
{
    if pos < t.len() {
        match &t[pos].0 {
            TokenKind::Ident(s) => { return Some((s.clone(), pos + 1)); }
            TokenKind::MapKw => { return Some((owned("Map"), pos + 1)); }
            TokenKind::Object => { return Some((owned("Object"), pos + 1)); }
            _ => {}
        }
    }
    fail_at(err, pos);
    None
}

fn named_value_type(t: &Toks, pos: usize, err: &mut usize) -> (r: Res<Spanned<ValueTypeExpr>>)
    ensures
        advances(r, pos, t.len() as nat),
        plain_type_name(t@, pos as int) ==> plain_named(r, t@, pos as int),
        r is Some <==> type_start(t@, pos as int),
    decreases t.len() - pos, 3nat,
{
    let (first, mut p) = match segment(t, pos, err) {
        Some(x) => x,
        None => { return None; }
    };
    let ghost first_view = first@;
    let mut segments: Vec<String> = Vec::new();
    segments.push(first);
    while p < t.len()
        invariant
            pos < p <= t.len(),
            plain_type_name(t@, pos as int) ==> p == pos + 1 && segments@.len() == 1 && segments@[0]@ == first_view
                && first_view == t@[pos as int].0->Ident_0@,
        decreases t.len() - p,
    {
        if !at_tag(t, p, Tag::Dot, err) {
            break;
        }
        match segment(t, p + 1, err) {
            Some((s, q)) => {
                segments.push(s);
                p = q;
            }
            None => { break; }
        }
    }
    let mut args: Vec<ValueTypeExpr> = Vec::new();
    if at_tag(t, p, Tag::Lt, err) {
        let (list, q) = value_type_list(t, p + 1, err);
        if at_tag(t, q, Tag::Gt, err) {
            args = list;
            p = q + 1;
        }
    }
    proof {
        if plain_type_name(t@, pos as int) {
            assert(views(segments@) =~= seq![first_view]);
        }
    }
    let mut path = join(&segments, ".");
    let inline_nullable = ends_with(path.as_str(), "?");
    if inline_nullable {
        let cs = crate::text::chars_of(path.as_str());
        if cs.len() > 0 {
            path = crate::text::substring(cs.as_slice(), 0, cs.len() - 1);
        }
    }
    let base = if str_eq(path.as_str(), "Nil") {
        ValueTypeExpr::Nil
    } else if str_eq(path.as_str(), "Unknown") {
        ValueTypeExpr::Unknown
    } else if str_eq(path.as_str(), "Dynamic") || str_eq(path.as_str(), "Dyn") {
        ValueTypeExpr::Dynamic
    } else if str_eq(path.as_str(), "Any") {
        ValueTypeExpr::Any
    } else if str_eq(path.as_str(), "Never") {
        ValueTypeExpr::Never
    } else if str_eq(path.as_str(), "Seqable") || str_eq(path.as_str(), "Reducible")
        || str_eq(path.as_str(), "Countable") || str_eq(path.as_str(), "Transducer") {
        ValueTypeExpr::Capability { name: path, args }
    } else {
        ValueTypeExpr::Named { path, args }
    };
    let node = if inline_nullable {
        let mut members: Vec<ValueTypeExpr> = Vec::new();
        members.push(base);
        members.push(ValueTypeExpr::Nil);
        ValueTypeExpr::Union(members)
    } else {
        base
    };
    Some((Spanned::new(node, span_of(t, pos, p)), p))
}

fn function_value_type(t: &Toks, pos: usize, err: &mut usize) -> (r: Res<Spanned<ValueTypeExpr>>)
    ensures
        advances(r, pos, t.len() as nat),
        r is Some ==> pos + 1 < t@.len() && t@[pos + 1].0 is Lt,
        r is Some ==> type_start(t@, pos as int),
    decreases t.len() - pos, 3nat,
{
    if !(word(t, pos, "Fn", err) && at_tag(t, pos + 1, Tag::Lt, err) && at_tag(t, pos + 2, Tag::LParen, err)) {
        return None;
    }
    let (params, p) = value_type_list(t, pos + 3, err);
    if !(at_tag(t, p, Tag::RParen, err) && at_tag(t, p + 1, Tag::ThinArrow, err)) {
        return None;
    }
    let (ret, q) = match value_type(t, p + 2, err) {
        Some(x) => x,
        None => { return None; }
    };
    if !at_tag(t, q, Tag::Gt, err) {
        return None;
    }
    let node = ValueTypeExpr::Function { params, ret: Box::new(ret.node) };
    Some((Spanned::new(node, span_of(t, pos, q + 1)), q + 1))
}

fn nullable_value_type(t: &Toks, pos: usize, err: &mut usize) -> (r: Res<Spanned<ValueTypeExpr>>)
    ensures
        advances(r, pos, t.len() as nat),
        plain_type_name(t@, pos as int) ==> plain_named(r, t@, pos as int),
        r is Some <==> type_start(t@, pos as int),
    decreases t.len() - pos, 4nat,
{
    let first = function_value_type(t, pos, err);
    let base = match first {
        Some(x) => Some(x),
        None => named_value_type(t, pos, err),
    };
    match base {
        Some((b, p)) => {
            if at_tag(t, p, Tag::Question, err) {
                let span = b.span;
                let mut members: Vec<ValueTypeExpr> = Vec::new();
                members.push(b.node);
                members.push(ValueTypeExpr::Nil);
                Some((Spanned::new(ValueTypeExpr::Union(members), span), p + 1))
            } else {
                Some((b, p))
            }
        }
        None => None,
    }
}

/// A value type: `T`, `T?`, `Fn<(A) -> R>`, or a `|` union of those.
fn value_type(t: &Toks, pos: usize, err: &mut usize) -> (r: Res<Spanned<ValueTypeExpr>>)
    ensures
        advances(r, pos, t.len() as nat),
        plain_type_name(t@, pos as int) ==> plain_named(r, t@, pos as int),
        r is Some <==> type_start(t@, pos as int),
    decreases t.len() - pos, 5nat,
{
    let (first, mut p) = match nullable_value_type(t, pos, err) {
        Some(x) => x,
        None => { return None; }
    };
    let mut span = first.span;
    let ghost first_node = first.node;
    let mut nodes: Vec<ValueTypeExpr> = Vec::new();
    nodes.push(first.node);
    while p < t.len()
        invariant
            pos < p <= t.len(),
            plain_type_name(t@, pos as int) ==> p == pos + 1 && nodes@ == seq![first_node],
        decreases t.len() - p,
    {
        if !at_tag(t, p, Tag::Union, err) {
            break;
        }
        match nullable_value_type(t, p + 1, err) {
            Some((ty, q)) => {
                span = span.merge(ty.span);
                nodes.push(ty.node);
                p = q;
            }
            None => { break; }
        }
    }
    if nodes.len() == 1 {
        let node = nodes.pop().unwrap();
        Some((Spanned::new(node, span), p))
    } else {
        Some((Spanned::new(ValueTypeExpr::Union(nodes), span), p))
    }
}

// --- expressions -----------------------------------------------------------

/// `expr ,? expr ,? …` up to a closing token (comma optional, trailing allowed).
fn expr_list(t: &Toks, pos: usize, err: &mut usize) -> (r: (Vec<Expr>, usize))
    requires
        pos <= t.len(),
    ensures
        pos <= r.1 <= t.len(),
    decreases t.len() - pos, 4nat,
{
    let mut out: Vec<Expr> = Vec::new();
    let mut p = pos;
    while p < t.len()
        invariant
            pos <= p <= t.len(),
        decreases t.len() - p,
    {
        match expr(t, p, err) {
            Some((e, q)) => {
                out.push(e);
                if at_tag(t, q, Tag::Comma, err) {
                    p = q + 1;
                } else {
                    p = q;
                }
            }
            None => { break; }
        }
    }
    (out, p)
}

/// Map entries `key value?` separated by optional commas.
fn entry_list(t: &Toks, pos: usize, err: &mut usize) -> (r: (Vec<MapEntry>, usize))
    requires
        pos <= t.len(),
    ensures
        pos <= r.1 <= t.len(),
    decreases t.len() - pos, 4nat,
{
    let mut out: Vec<MapEntry> = Vec::new();
    let mut p = pos;
    while p < t.len()
        invariant
            pos <= p <= t.len(),
        decreases t.len() - p,
    {
        match expr(t, p, err) {
            Some((key, q)) => {
                let mut q2 = q;
                let mut value: Option<Expr> = None;
                if q < t.len() {
                    match expr(t, q, err) {
                        Some((v, q1)) => {
                            value = Some(v);
                            q2 = q1;
                        }
                        None => {}
                    }
                }
                out.push(MapEntry { key, value });
                if at_tag(t, q2, Tag::Comma, err) {
                    p = q2 + 1;
                } else {
                    p = q2;
                }
            }
            None => { break; }
        }
    }
    (out, p)
}

fn atom(t: &Toks, pos: usize, err: &mut usize) -> (r: Res<Expr>)
    ensures
        advances(r, pos, t.len() as nat),
    decreases t.len() - pos, 0nat,
{
    if pos >= t.len() {
        fail_at(err, pos);
        return None;
    }
    // ( expr )
    if at_tag(t, pos, Tag::LParen, err) {
        match expr(t, pos + 1, err) {
            Some((e, q)) => {
                if at_tag(t, q, Tag::RParen, err) {
                    return Some((e, q + 1));
                }
            }
            None => {}
        }
    }
    // call or identifier
    let callee: Option<String> = match &t[pos].0 {
        TokenKind::Ident(s) => Some(s.clone()),
        TokenKind::Ge => Some(owned(">=")),
        TokenKind::Gt => Some(owned(">")),
        TokenKind::Eq => Some(owned("=")),
        _ => None,
    };
    match callee {
        Some(name) => {
            let name = Spanned::new(name, t[pos].1);
            if at_tag(t, pos + 1, Tag::LParen, err) {
                let (args, q) = expr_list(t, pos + 2, err);
                if at_tag(t, q, Tag::RParen, err) {
                    let span = name.span;
                    return Some((Expr::Call(CallExpr { callee: name, args, span }), q + 1));
                }
            }
            return Some((Expr::Ident(name), pos + 1));
        }
        None => {}
    }
    // [ … ]
    if at_tag(t, pos, Tag::LBracket, err) {
        let (elems, q) = expr_list(t, pos + 1, err);
        if at_tag(t, q, Tag::RBracket, err) {
            return Some((Expr::List { elems, span: span_of(t, pos, q + 1) }, q + 1));
        }
    }
    // { … }
    if at_tag(t, pos, Tag::LBrace, err) {
        let (entries, q) = entry_list(t, pos + 1, err);
        if at_tag(t, q, Tag::RBrace, err) {
            return Some((Expr::MapLit { entries, span: span_of(t, pos, q + 1) }, q + 1));
        }
    }
    // literals
    let sp = t[pos].1;
    match &t[pos].0 {
        TokenKind::String(s) => Some((Expr::String(Spanned::new(s.clone(), sp)), pos + 1)),
        TokenKind::Int(n) => Some((Expr::Int(Spanned::new(*n, sp)), pos + 1)),
        TokenKind::Bool(b) => Some((Expr::Bool(Spanned::new(*b, sp)), pos + 1)),
        TokenKind::Keyword(s) => Some((Expr::Keyword(Spanned::new(s.clone(), sp)), pos + 1)),
        _ => {
            fail_at(err, pos);
            None
        }
    }
}

fn cast(t: &Toks, pos: usize, err: &mut usize) -> (r: Res<Expr>)
    ensures
        advances(r, pos, t.len() as nat),
    decreases t.len() - pos, 1nat,
{
    let (value, p) = match atom(t, pos, err) {
        Some(x) => x,
        None => { return None; }
    };
    if word(t, p, "as", err) {
        match value_type(t, p + 1, err) {
            Some((ty, q)) => {
                let span = value.span().merge(ty.span);
                return Some((Expr::As { value: Box::new(value), ty, span }, q));
            }
            None => {}
        }
    }
    Some((value, p))
}

fn equality(t: &Toks, pos: usize, err: &mut usize) -> (r: Res<Expr>)
    ensures
        advances(r, pos, t.len() as nat),
    decreases t.len() - pos, 2nat,
{
    let (left, p) = match cast(t, pos, err) {
        Some(x) => x,
        None => { return None; }
    };
    let op = if at_tag(t, p, Tag::EqEq, err) {
        Some(BinaryOp::Eq)
    } else if at_tag(t, p, Tag::NotEq, err) {
        Some(BinaryOp::NotEq)
    } else {
        None
    };
    match op {
        Some(op) => match cast(t, p + 1, err) {
            Some((right, q)) => {
                let span = left.span().merge(right.span());
                Some((Expr::Binary { op, left: Box::new(left), right: Box::new(right), span }, q))
            }
            None => Some((left, p)),
        },
        None => Some((left, p)),
    }
}

/// An expression: literals, calls, collections, `as` casts, `==` / `!=`,
/// and `cond ? a : b`.
fn expr(t: &Toks, pos: usize, err: &mut usize) -> (r: Res<Expr>)
    ensures
        advances(r, pos, t.len() as nat),
    decreases t.len() - pos, 3nat,
{
    let (cond, p) = match equality(t, pos, err) {
        Some(x) => x,
        None => { return None; }
    };
    if at_tag(t, p, Tag::Question, err) {
        match expr(t, p + 1, err) {
            Some((then_branch, q)) => {
                if at_tag(t, q, Tag::Colon, err) {
                    match expr(t, q + 1, err) {
                        Some((else_branch, e)) => {
                            let span = cond.span().merge(else_branch.span());
                            return Some((Expr::Ternary {
                                cond: Box::new(cond),
                                then_branch: Box::new(then_branch),
                                else_branch: Box::new(else_branch),
                                span,
                            }, e));
                        }
                        None => {}
                    }
                }
            }
            None => {}
        }
    }
    Some((cond, p))
}

fn item(t: &Toks, pos: usize, err: &mut usize) -> (r: Res<Item>)
    ensures
        advances(r, pos, t.len() as nat),
{
    if pos >= t.len() {
        fail_at(err, pos);
        return None;
    }
    match &t[pos].0 {
        TokenKind::Module => module_item(t, pos, err),
        TokenKind::Struct => struct_item(t, pos, err),
        TokenKind::PState => pstate_item(t, pos, err),
        TokenKind::Depot => depot_item(t, pos, err),
        TokenKind::Op => op_item(t, pos, err),
        TokenKind::Fn => fn_item(t, pos, err),
        TokenKind::Extern => extern_item(t, pos, err),
        _ => {
            fail_at(err, pos);
            None
        }
    }
}

/// Parse a `.rama` surface module.
pub fn parse(src: &str) -> (out: Result<SourceFile, ParseError>)
    ensures
        out matches Err(e) ==> e.diagnostics.len() > 0,
{
    let tokens = match lex(src) {
        Ok(t) => t,
        Err(e) => { return Err(e); }
    };
    crate::span::byte_len_fits(src);
    let eoi = src.len();
    let mut err: usize = 0;
    let mut items: Vec<Item> = Vec::new();
    let mut p: usize = 0;
    while p < tokens.len()
        invariant
            p <= tokens.len(),
        decreases tokens.len() - p,
    {
        match item(&tokens, p, &mut err) {
            Some((it, q)) => {
                items.push(it);
                p = q;
            }
            None => { break; }
        }
    }
    if p < tokens.len() {
        let span = if err < tokens.len() { tokens[err].1 } else { Span::new(eoi, eoi) };
        let message = if err < tokens.len() {
            owned("unexpected token")
        } else {
            owned("unexpected end of input")
        };
        return Err(ParseError::one(Diagnostic::parse(span, message)));
    }
    let span = if tokens.len() > 0 {
        Span::new(tokens[0].1.start, tokens[tokens.len() - 1].1.end)
    } else {
        Span::new(eoi, eoi)
    };
    Ok(SourceFile { items, span })
}

} // verus!
