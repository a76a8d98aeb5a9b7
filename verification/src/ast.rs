use vstd::prelude::*;

use crate::source_file::Location;

verus! {

/// An index into the parser's type table.  Two indices are equal exactly when
/// they stand for the same type, so expression types compare as plain values.
pub type TypeIndex = usize;

/// The resolved types the front end distinguishes while parsing statements.
#[derive(Clone, Copy, PartialEq, Eq, Structural, Debug)]
pub enum TypeKind {
    Bool,
    Int,
    Char,
    Text,
}

/// The declaration of a loop variable: its name, span, and (possibly still
/// unresolved) type.
pub struct LocalDecl {
    pub loc: Location,
    pub name: String,
    pub typ: Option<TypeIndex>,
}

impl LocalDecl {
    pub fn new(loc: Location, name: String, typ: Option<TypeIndex>) -> (r: LocalDecl)
        ensures
            r.loc == loc,
            r.name == name,
            r.typ == typ,
    {
        LocalDecl { loc, name, typ }
    }
}

/// An expression node.  Expressions reach the statement parser already tagged
/// with a resolved (possibly still unbound) type; the statement parser only
/// reads the tag and wraps expressions in implicit casts.
pub struct Expr {
    pub loc: Location,
    pub typ: Option<TypeIndex>,
    pub kind: ExprKind,
}

pub enum ExprKind {
    IntLit(u64),
    CharLit(char),
    BoolLit(bool),
    Ident(String),
    Assign(String, Box<Expr>),
    Call(String),
    ValOf(Box<Stmt>),
    ImplicitCast(Box<Expr>),
}

impl Expr {
    pub fn new(loc: Location, typ: Option<TypeIndex>, kind: ExprKind) -> (r: Expr)
        ensures
            r.loc == loc,
            r.typ == typ,
            r.kind == kind,
    {
        Expr { loc, typ, kind }
    }

    pub fn typ(&self) -> (r: &Option<TypeIndex>)
        ensures
            *r == self.typ,
    {
        &self.typ
    }

    /// Whether evaluating the expression can be observed: assignments, calls
    /// and `valof` blocks have effects, literals and bare names do not, and a
    /// cast is as effectful as what it wraps.
    pub open spec fn spec_has_sideeffect(&self) -> bool
        decreases self,
    {
        match self.kind {
            ExprKind::IntLit(_) => false,
            ExprKind::CharLit(_) => false,
            ExprKind::BoolLit(_) => false,
            ExprKind::Ident(_) => false,
            ExprKind::Assign(_, _) => true,
            ExprKind::Call(_) => true,
            ExprKind::ValOf(_) => true,
            ExprKind::ImplicitCast(inner) => inner.spec_has_sideeffect(),
        }
    }

    pub fn has_sideeffect(&self) -> (r: bool)
        ensures
            r == self.spec_has_sideeffect(),
        decreases *self,
    {
        match &self.kind {
            ExprKind::Assign(_, _) => true,
            ExprKind::Call(_) => true,
            ExprKind::ValOf(_) => true,
            ExprKind::ImplicitCast(inner) => inner.has_sideeffect(),
            _ => false,
        }
    }

    /// Wraps the expression in a cast node coercing it to `target`.
    pub fn implicit_cast(self, target: TypeIndex) -> (r: Expr)
        ensures
            r.loc == self.loc,
            r.typ == Some(target),
            r.kind == ExprKind::ImplicitCast(Box::new(self)),
    {
        let loc = self.loc;
        Expr { loc, typ: Some(target), kind: ExprKind::ImplicitCast(Box::new(self)) }
    }
}

/// A statement node, tagged with the span of the keyword that opened it.  Each
/// node exclusively owns its children.
pub struct Stmt {
    pub loc: Location,
    pub kind: StmtKind,
}

pub enum StmtKind {
    Block(Vec<Stmt>),
    ResultIs(Box<Expr>),
    Return(Box<Expr>),
    If(Box<Expr>, Box<Stmt>, Option<Box<Stmt>>),
    Unless(Box<Expr>, Box<Stmt>),
    While(Box<Expr>, Box<Stmt>),
    Until(Box<Expr>, Box<Stmt>),
    For(LocalDecl, Box<Expr>, Option<Box<Expr>>, Option<Box<Expr>>, Box<Stmt>),
    SwitchOn(Box<Expr>, Box<Stmt>),
    Case(Box<Expr>),
    DefaultCase,
    EndCase,
    Expr(Box<Expr>),
}

impl Stmt {
    pub fn new(loc: Location, kind: StmtKind) -> (r: Stmt)
        ensures
            r.loc == loc,
            r.kind == kind,
    {
        Stmt { loc, kind }
    }
}

} // verus!
