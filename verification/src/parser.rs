use vstd::prelude::*;

use crate::ast::{Expr, ExprKind, Stmt, TypeIndex, TypeKind};
use crate::error::{ParseError, ParseResult};
use crate::source_file::Located;
use crate::token::{Token, TokenKind};
use crate::parser::stmt::{ctx_evolved, StmtContext, StmtFrame};

pub mod stmt;

verus! {

/// `ts` holds each type at most once, so a `TypeIndex` identifies its type.
pub open spec fn types_unique(ts: Seq<TypeKind>) -> bool {
    forall|i: int, j: int| 0 <= i < j < ts.len() ==> ts[i] != ts[j]
}

/// `t` is a resolved type index naming `kind` in the table `ts`.
pub open spec fn is_type(ts: Seq<TypeKind>, t: Option<TypeIndex>, kind: TypeKind) -> bool {
    t matches Some(i) && 0 <= i < ts.len() && ts[i as int] == kind
}

/// What every parsing step preserves: the stream is untouched, the cursor
/// never moves backwards, and the type table and warning list only grow at
/// the end.
pub open spec fn parser_steps(a: Parser, b: Parser) -> bool {
    &&& b.wf()
    &&& b.spec_tokens() == a.spec_tokens()
    &&& a.spec_pos() <= b.spec_pos()
    &&& a.spec_types().is_prefix_of(b.spec_types())
    &&& a.spec_warnings().is_prefix_of(b.spec_warnings())
}

pub proof fn lemma_prefix_trans<T>(a: Seq<T>, b: Seq<T>, c: Seq<T>)
    requires
        a.is_prefix_of(b),
        b.is_prefix_of(c),
    ensures
        a.is_prefix_of(c),
{
    assert(a =~= c.subrange(0, a.len() as int)) by {
        assert forall|i: int| 0 <= i < a.len() implies a[i] == c.subrange(0, a.len() as int)[i] by {
            assert(a[i] == b.subrange(0, a.len() as int)[i]);
            assert(b[i] == c.subrange(0, b.len() as int)[i]);
        }
    }
}

/// A resolved type index keeps naming its type when the table grows.
pub proof fn lemma_is_type_prefix(
    ts1: Seq<TypeKind>,
    ts2: Seq<TypeKind>,
    t: Option<TypeIndex>,
    kind: TypeKind,
)
    requires
        ts1.is_prefix_of(ts2),
        is_type(ts1, t, kind),
    ensures
        is_type(ts2, t, kind),
{
    let i = t->0;
    assert(ts1[i as int] == ts2.subrange(0, ts1.len() as int)[i as int]);
}

pub proof fn lemma_parser_steps_trans(a: Parser, b: Parser, c: Parser)
    requires
        a.wf(),
        parser_steps(a, b),
        parser_steps(b, c),
    ensures
        parser_steps(a, c),
{
    lemma_prefix_trans(a.spec_types(), b.spec_types(), c.spec_types());
    lemma_prefix_trans(a.spec_warnings(), b.spec_warnings(), c.spec_warnings());
}

/// The token kinds an expression can begin with.
pub open spec fn expr_start(k: TokenKind) -> bool {
    match k {
        TokenKind::IntLit => true,
        TokenKind::CharLit => true,
        TokenKind::True => true,
        TokenKind::False => true,
        TokenKind::Ident => true,
        TokenKind::ValOf => true,
        _ => false,
    }
}

/// The token kinds that form a whole expression by themselves.
pub open spec fn atom_token(k: TokenKind) -> bool {
    match k {
        TokenKind::IntLit => true,
        TokenKind::CharLit => true,
        TokenKind::True => true,
        TokenKind::False => true,
        _ => false,
    }
}

/// Equality of two possibly unresolved type tags.
pub fn opt_type_eq(a: Option<TypeIndex>, b: Option<TypeIndex>) -> (r: bool)
    ensures
        r == (a == b),
{
    match (a, b) {
        (Some(x), Some(y)) => x == y,
        (None, None) => true,
        _ => false,
    }
}

/// The recursive-descent parser: a cursor over a pre-lexed token stream, the
/// table of resolved types, and the non-fatal warnings gathered so far.
pub struct Parser {
    tokens: Vec<Token>,
    pos: usize,
    types: Vec<TypeKind>,
    warnings: Vec<Located<ParseError>>,
}

impl Parser {
    pub closed spec fn spec_tokens(&self) -> Seq<Token> {
        self.tokens@
    }

    pub closed spec fn spec_pos(&self) -> int {
        self.pos as int
    }

    pub closed spec fn spec_types(&self) -> Seq<TypeKind> {
        self.types@
    }

    pub closed spec fn spec_warnings(&self) -> Seq<Located<ParseError>> {
        self.warnings@
    }

    /// The token the cursor rests on.
    pub open spec fn spec_current(&self) -> Token {
        self.spec_tokens()[self.spec_pos()]
    }

    /// The cursor always rests on a token; the stream ends with one `Eof`
    /// token and holds `Eof` nowhere else; the type table never repeats a
    /// type.
    pub open spec fn wf(&self) -> bool {
        &&& self.spec_tokens().len() >= 1
        &&& 0 <= self.spec_pos() < self.spec_tokens().len()
        &&& self.spec_tokens().last().kind == TokenKind::Eof
        &&& forall|i: int|
            0 <= i < self.spec_tokens().len() - 1 ==> (#[trigger] self.spec_tokens()[i]).kind
                != TokenKind::Eof
        &&& types_unique(self.spec_types())
    }

    pub fn new(tokens: Vec<Token>) -> (r: Parser)
        requires
            tokens@.len() >= 1,
            tokens@.last().kind == TokenKind::Eof,
            forall|i: int|
                0 <= i < tokens@.len() - 1 ==> (#[trigger] tokens@[i]).kind != TokenKind::Eof,
        ensures
            r.wf(),
            r.spec_tokens() == tokens@,
            r.spec_pos() == 0,
            r.spec_types().len() == 0,
            r.spec_warnings().len() == 0,
    {
        Parser { tokens, pos: 0, types: Vec::new(), warnings: Vec::new() }
    }

    pub fn current(&self) -> (r: &Token)
        requires
            self.wf(),
        ensures
            *r == self.spec_current(),
    {
        &self.tokens[self.pos]
    }

    /// The warnings gathered so far, in the order they arose.
    pub fn warnings(&self) -> (r: &Vec<Located<ParseError>>)
        ensures
            r@ == self.spec_warnings(),
    {
        &self.warnings
    }

    pub(crate) fn push_warning(&mut self, w: Located<ParseError>)
        ensures
            final(self).spec_warnings() == old(self).spec_warnings().push(w),
            final(self).spec_tokens() == old(self).spec_tokens(),
            final(self).spec_pos() == old(self).spec_pos(),
            final(self).spec_types() == old(self).spec_types(),
    {
        self.warnings.push(w);
    }

    /// Moves the cursor one token ahead, except at the end of the stream.
    pub(crate) fn advance(&mut self)
        requires
            old(self).wf(),
        ensures
            final(self).wf(),
            final(self).spec_tokens() == old(self).spec_tokens(),
            final(self).spec_types() == old(self).spec_types(),
            final(self).spec_warnings() == old(self).spec_warnings(),
            old(self).spec_current().kind != TokenKind::Eof ==> final(self).spec_pos() == old(
                self,
            ).spec_pos() + 1,
            old(self).spec_current().kind == TokenKind::Eof ==> final(self).spec_pos() == old(
                self,
            ).spec_pos(),
    {
        if self.pos < self.tokens.len() - 1 {
            self.pos += 1;
        }
    }

    /// Whether the cursor's token is of one of the given kinds.
    fn current_matches(&self, kinds: &[TokenKind]) -> (r: bool)
        requires
            self.wf(),
        ensures
            r == kinds@.contains(self.spec_current().kind),
    {
        let mut i: usize = 0;
        while i < kinds.len()
            invariant
                self.wf(),
                0 <= i <= kinds@.len(),
                forall|j: int| 0 <= j < i ==> kinds@[j] != self.spec_current().kind,
            decreases kinds@.len() - i,
        {
            if kinds[i] == self.tokens[self.pos].kind {
                return true;
            }
            i += 1;
        }
        false
    }

    /// Demands a token of one of the given kinds: consumes and returns it, or
    /// fails with an unexpected-token diagnostic and consumes nothing.
    pub fn expect(&mut self, kinds: &[TokenKind]) -> (r: ParseResult<Token>)
        requires
            old(self).wf(),
            !kinds@.contains(TokenKind::Eof),
        ensures
            final(self).wf(),
            final(self).spec_tokens() == old(self).spec_tokens(),
            final(self).spec_types() == old(self).spec_types(),
            final(self).spec_warnings() == old(self).spec_warnings(),
            match r {
                Ok(t) => {
                    &&& kinds@.contains(old(self).spec_current().kind)
                    &&& t == old(self).spec_current()
                    &&& final(self).spec_pos() == old(self).spec_pos() + 1
                },
                Err(e) => {
                    &&& !kinds@.contains(old(self).spec_current().kind)
                    &&& final(self).spec_pos() == old(self).spec_pos()
                    &&& e.spec_inner() == ParseError::UnexpectedToken(
                        old(self).spec_current().kind,
                    )
                    &&& e.spec_location() == old(self).spec_current().loc
                },
            },
    {
        if self.current_matches(kinds) {
            let t = self.duplicate_current();
            self.advance();
            Ok(t)
        } else {
            let kind = self.tokens[self.pos].kind;
            let loc = self.tokens[self.pos].loc;
            Err(Located::with_location(ParseError::UnexpectedToken(kind), loc))
        }
    }

    /// Consumes and returns the cursor's token only when it is of one of the
    /// given kinds; otherwise leaves the stream alone.
    pub fn advance_if(&mut self, kinds: &[TokenKind]) -> (r: Option<Token>)
        requires
            old(self).wf(),
            !kinds@.contains(TokenKind::Eof),
        ensures
            final(self).wf(),
            final(self).spec_tokens() == old(self).spec_tokens(),
            final(self).spec_types() == old(self).spec_types(),
            final(self).spec_warnings() == old(self).spec_warnings(),
            match r {
                Some(t) => {
                    &&& kinds@.contains(old(self).spec_current().kind)
                    &&& t == old(self).spec_current()
                    &&& final(self).spec_pos() == old(self).spec_pos() + 1
                },
                None => {
                    &&& !kinds@.contains(old(self).spec_current().kind)
                    &&& final(self).spec_pos() == old(self).spec_pos()
                },
            },
    {
        if self.current_matches(kinds) {
            let t = self.duplicate_current();
            self.advance();
            Some(t)
        } else {
            None
        }
    }

    /// Demands an identifier and hands its name out.
    pub(crate) fn expect_ident(&mut self) -> (r: ParseResult<String>)
        requires
            old(self).wf(),
        ensures
            final(self).wf(),
            final(self).spec_tokens() == old(self).spec_tokens(),
            final(self).spec_types() == old(self).spec_types(),
            final(self).spec_warnings() == old(self).spec_warnings(),
            match r {
                Ok(name) => {
                    &&& old(self).spec_current().kind == TokenKind::Ident
                    &&& name == old(self).spec_current().name
                    &&& final(self).spec_pos() == old(self).spec_pos() + 1
                },
                Err(e) => {
                    &&& old(self).spec_current().kind != TokenKind::Ident
                    &&& final(self).spec_pos() == old(self).spec_pos()
                    &&& e.spec_inner() == ParseError::UnexpectedToken(
                        old(self).spec_current().kind,
                    )
                    &&& e.spec_location() == old(self).spec_current().loc
                },
            },
    {
        if self.tokens[self.pos].kind == TokenKind::Ident {
            let name = self.tokens[self.pos].name.clone();
            self.advance();
            Ok(name)
        } else {
            let kind = self.tokens[self.pos].kind;
            let loc = self.tokens[self.pos].loc;
            Err(Located::with_location(ParseError::UnexpectedToken(kind), loc))
        }
    }

    /// An owned copy of the cursor's token.
    fn duplicate_current(&self) -> (r: Token)
        requires
            self.wf(),
        ensures
            r == self.spec_current(),
    {
        let t = &self.tokens[self.pos];
        Token {
            kind: t.kind,
            loc: t.loc,
            name: t.name.clone(),
            int_val: t.int_val,
            char_val: t.char_val,
        }
    }

    /// The index of `kind` in the type table, interning it on first use.
    pub(crate) fn get_type(&mut self, kind: TypeKind) -> (r: TypeIndex)
        requires
            old(self).wf(),
        ensures
            final(self).wf(),
            final(self).spec_tokens() == old(self).spec_tokens(),
            final(self).spec_pos() == old(self).spec_pos(),
            final(self).spec_warnings() == old(self).spec_warnings(),
            old(self).spec_types().is_prefix_of(final(self).spec_types()),
            is_type(final(self).spec_types(), Some(r), kind),
    {
        let n = self.types.len();
        let mut i: usize = 0;
        while i < n
            invariant
                self.wf(),
                *self == *old(self),
                n == self.types@.len(),
                0 <= i <= n,
                forall|j: int| 0 <= j < i ==> self.spec_types()[j] != kind,
            decreases n - i,
        {
            if self.types[i] == kind {
                return i;
            }
            i += 1;
        }
        self.types.push(kind);
        proof {
            assert(old(self).spec_types().is_prefix_of(self.spec_types()));
        }
        n
    }

    /// Demands a token of exactly the given kind, as `expect` does for a set.
    pub(crate) fn expect_kind(&mut self, kind: TokenKind) -> (r: ParseResult<Token>)
        requires
            old(self).wf(),
            kind != TokenKind::Eof,
        ensures
            final(self).wf(),
            final(self).spec_tokens() == old(self).spec_tokens(),
            final(self).spec_types() == old(self).spec_types(),
            final(self).spec_warnings() == old(self).spec_warnings(),
            match r {
                Ok(t) => {
                    &&& old(self).spec_current().kind == kind
                    &&& t == old(self).spec_current()
                    &&& final(self).spec_pos() == old(self).spec_pos() + 1
                },
                Err(e) => {
                    &&& old(self).spec_current().kind != kind
                    &&& final(self).spec_pos() == old(self).spec_pos()
                    &&& e.spec_inner() == ParseError::UnexpectedToken(
                        old(self).spec_current().kind,
                    )
                    &&& e.spec_location() == old(self).spec_current().loc
                },
            },
    {
        if self.tokens[self.pos].kind == kind {
            let t = self.duplicate_current();
            self.advance();
            Ok(t)
        } else {
            let got = self.tokens[self.pos].kind;
            let loc = self.tokens[self.pos].loc;
            Err(Located::with_location(ParseError::UnexpectedToken(got), loc))
        }
    }

    /// Consumes the cursor's token only when it is of exactly the given kind.
    pub(crate) fn advance_if_kind(&mut self, kind: TokenKind) -> (r: Option<Token>)
        requires
            old(self).wf(),
            kind != TokenKind::Eof,
        ensures
            final(self).wf(),
            final(self).spec_tokens() == old(self).spec_tokens(),
            final(self).spec_types() == old(self).spec_types(),
            final(self).spec_warnings() == old(self).spec_warnings(),
            match r {
                Some(t) => {
                    &&& old(self).spec_current().kind == kind
                    &&& t == old(self).spec_current()
                    &&& final(self).spec_pos() == old(self).spec_pos() + 1
                },
                None => {
                    &&& old(self).spec_current().kind != kind
                    &&& final(self).spec_pos() == old(self).spec_pos()
                },
            },
    {
        if self.tokens[self.pos].kind == kind {
            let t = self.duplicate_current();
            self.advance();
            Some(t)
        } else {
            None
        }
    }

    /// Parses one expression: a literal, a name, a call, an assignment, or a
    /// `valof` block.  The result is never itself an implicit cast, and a
    /// side-effect-free result leaves the warning list alone.
    pub fn parse_expr(&mut self, ctx: &mut StmtContext) -> (r: ParseResult<Expr>)
        requires
            old(self).wf(),
        ensures
            parser_steps(*old(self), *final(self)),
            ctx_evolved(old(ctx)@, final(ctx)@),
            stmt::valof_cells_stable(old(ctx)@, final(ctx)@),
            !expr_start(old(self).spec_current().kind) ==> r is Err && *final(self) == *old(self)
                && final(ctx)@ == old(ctx)@,
            atom_token(old(self).spec_current().kind) ==> r is Ok && final(self).spec_pos() == old(
                self,
            ).spec_pos() + 1 && final(self).spec_warnings() == old(self).spec_warnings()
                && final(ctx)@ == old(ctx)@,
            (old(self).spec_current().kind == TokenKind::Ident && old(self).spec_tokens()[old(
                self,
            ).spec_pos() + 1].kind == TokenKind::LParen && old(self).spec_tokens()[old(
                self,
            ).spec_pos() + 2].kind == TokenKind::RParen) ==> (r matches Ok(e) && e.kind
                == ExprKind::Call(old(self).spec_current().name) && e.typ is None && final(self).spec_pos() == old(self).spec_pos() + 3 && final(self).spec_warnings() == old(
                self,
            ).spec_warnings() && final(ctx)@ == old(ctx)@),
            match r {
                Ok(e) => {
                    &&& final(self).spec_pos() > old(self).spec_pos()
                    &&& e.loc == old(self).spec_current().loc
                    &&& !(e.kind is ImplicitCast)
                    &&& !e.spec_has_sideeffect() ==> final(self).spec_warnings() == old(
                        self,
                    ).spec_warnings()
                    &&& old(self).spec_current().kind == TokenKind::IntLit ==> e.kind
                        == ExprKind::IntLit(old(self).spec_current().int_val) && is_type(
                        final(self).spec_types(),
                        e.typ,
                        TypeKind::Int,
                    )
                    &&& old(self).spec_current().kind == TokenKind::CharLit ==> e.kind
                        == ExprKind::CharLit(old(self).spec_current().char_val) && is_type(
                        final(self).spec_types(),
                        e.typ,
                        TypeKind::Char,
                    )
                    &&& old(self).spec_current().kind == TokenKind::True ==> e.kind
                        == ExprKind::BoolLit(true) && is_type(
                        final(self).spec_types(),
                        e.typ,
                        TypeKind::Bool,
                    )
                    &&& old(self).spec_current().kind == TokenKind::False ==> e.kind
                        == ExprKind::BoolLit(false) && is_type(
                        final(self).spec_types(),
                        e.typ,
                        TypeKind::Bool,
                    )
                    &&& (old(self).spec_current().kind == TokenKind::Ident && old(
                        self,
                    ).spec_tokens()[old(self).spec_pos() + 1].kind != TokenKind::LParen && old(
                        self,
                    ).spec_tokens()[old(self).spec_pos() + 1].kind != TokenKind::Eq) ==> e.kind
                        == ExprKind::Ident(old(self).spec_current().name) && e.typ is None
                        && final(self).spec_pos() == old(self).spec_pos() + 1
                },
                Err(_) => true,
            },
        decreases self.spec_tokens().len() - self.spec_pos(), 1int,
    {
        let tok = self.duplicate_current();
        match tok.kind {
            TokenKind::IntLit => {
                self.advance();
                let ti = self.get_type(TypeKind::Int);
                Ok(Expr::new(tok.loc, Some(ti), ExprKind::IntLit(tok.int_val)))
            },
            TokenKind::CharLit => {
                self.advance();
                let ti = self.get_type(TypeKind::Char);
                Ok(Expr::new(tok.loc, Some(ti), ExprKind::CharLit(tok.char_val)))
            },
            TokenKind::True => {
                self.advance();
                let ti = self.get_type(TypeKind::Bool);
                Ok(Expr::new(tok.loc, Some(ti), ExprKind::BoolLit(true)))
            },
            TokenKind::False => {
                self.advance();
                let ti = self.get_type(TypeKind::Bool);
                Ok(Expr::new(tok.loc, Some(ti), ExprKind::BoolLit(false)))
            },
            TokenKind::Ident => {
                self.advance();
                if self.current().kind == TokenKind::LParen {
                    self.advance();
                    match self.expect_kind(TokenKind::RParen) {
                        Ok(_) => Ok(Expr::new(tok.loc, None, ExprKind::Call(tok.name))),
                        Err(e) => Err(e),
                    }
                } else if self.current().kind == TokenKind::Eq {
                    self.advance();
                    match self.parse_expr(ctx) {
                        Ok(rhs) => {
                            let typ = rhs.typ;
                            Ok(Expr::new(tok.loc, typ, ExprKind::Assign(tok.name, Box::new(rhs))))
                        },
                        Err(e) => Err(e),
                    }
                } else {
                    Ok(Expr::new(tok.loc, None, ExprKind::Ident(tok.name)))
                }
            },
            TokenKind::ValOf => {
                self.advance();
                ctx.enter(StmtFrame::ValOf { result_type: None });
                let body = match self.parse_stmt(ctx) {
                    Ok(b) => b,
                    Err(e) => {
                        proof {
                            stmt::lemma_evolved_unpush(
                                old(ctx)@,
                                StmtFrame::ValOf { result_type: None },
                                ctx@,
                            );
                            stmt::lemma_stable_unpush_valof(
                                old(ctx)@,
                                StmtFrame::ValOf { result_type: None },
                                ctx@,
                            );
                        }
                        ctx.leave();
                        return Err(e);
                    },
                };
                let top = ctx.depth() - 1;
                let cell = ctx.cell(top);
                proof {
                    stmt::lemma_evolved_unpush(
                        old(ctx)@,
                        StmtFrame::ValOf { result_type: None },
                        ctx@,
                    );
                    stmt::lemma_stable_unpush_valof(
                        old(ctx)@,
                        StmtFrame::ValOf { result_type: None },
                        ctx@,
                    );
                }
                ctx.leave();
                let typ = match cell {
                    Some(t) => t,
                    None => None,
                };
                Ok(Expr::new(tok.loc, typ, ExprKind::ValOf(Box::new(body))))
            },
            _ => Err(Located::with_location(ParseError::UnexpectedToken(tok.kind), tok.loc)),
        }
    }

    /// Parses the whole stream as a sequence of top-level statements in the
    /// root context, stopping at the end of the stream or at the first fatal
    /// diagnostic.  Warnings gathered on the way stay queryable afterwards.
    /// An already-empty stream yields the empty program.
    pub fn parse(&mut self) -> (r: ParseResult<Vec<Stmt>>)
        requires
            old(self).wf(),
        ensures
            parser_steps(*old(self), *final(self)),
            r is Ok ==> final(self).spec_current().kind == TokenKind::Eof,
            old(self).spec_current().kind == TokenKind::Eof ==> (r matches Ok(v) && v@.len() == 0
                && final(self).spec_pos() == old(self).spec_pos()),
            (old(self).spec_current().kind == TokenKind::LBrace && old(self).spec_tokens()[old(
                self,
            ).spec_pos() + 1].kind == TokenKind::RBrace && old(self).spec_tokens()[old(
                self,
            ).spec_pos() + 2].kind == TokenKind::Eof) ==> (r matches Ok(v) && v@.len() == 1),
    {
        let mut ctx = StmtContext::root();
        let mut prog: Vec<Stmt> = Vec::new();
        proof {
            assert(old(self).spec_types().is_prefix_of(self.spec_types()));
            assert(old(self).spec_warnings().is_prefix_of(self.spec_warnings()));
        }
        while self.current().kind != TokenKind::Eof
            invariant
                self.wf(),
                parser_steps(*old(self), *self),
                ctx@.len() == 0,
                old(self).spec_current().kind == TokenKind::Eof ==> (prog@.len() == 0
                    && self.spec_pos() == old(self).spec_pos()),
                (old(self).spec_current().kind == TokenKind::LBrace && old(self).spec_tokens()[old(
                    self,
                ).spec_pos() + 1].kind == TokenKind::RBrace && old(self).spec_tokens()[old(
                    self,
                ).spec_pos() + 2].kind == TokenKind::Eof) ==> ((prog@.len() == 0
                    && self.spec_pos() == old(self).spec_pos()) || (prog@.len() == 1
                    && self.spec_pos() == old(self).spec_pos() + 2)),
            decreases self.spec_tokens().len() - self.spec_pos(),
        {
            let ghost mid = *self;
            match self.parse_stmt(&mut ctx) {
                Ok(s) => {
                    prog.push(s);
                    proof {
                        lemma_parser_steps_trans(*old(self), mid, *self);
                    }
                },
                Err(e) => {
                    proof {
                        lemma_parser_steps_trans(*old(self), mid, *self);
                    }
                    return Err(e);
                },
            }
        }
        Ok(prog)
    }
}

} // verus!
