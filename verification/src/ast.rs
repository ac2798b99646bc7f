//! The syntax tree: what the parser builds and the interpreter walks.

use vstd::prelude::*;
use crate::token::{Token, TokenType, TokenTypeView, TokenView};

verus! {

/// An identifier: a token of type `Identifier`, with its name.
#[derive(Debug, PartialEq)]
pub struct Ident {
    token: Token,
    name: String,
}

/// An identifier with its texts as sequences of characters.
pub struct IdentView {
    pub token: TokenView,
    pub name: Seq<char>,
}

impl IdentView {
    /// The identifier that `token` is; `token` must be of type `Identifier`.
    pub open spec fn of(token: TokenView) -> IdentView {
        IdentView { token, name: token.token_type->Identifier_0 }
    }

    /// Whether the token is an identifier and the name is its name.
    pub open spec fn wf(self) -> bool {
        self.token.token_type == TokenTypeView::Identifier(self.name)
    }
}

impl View for Ident {
    type V = IdentView;

    closed spec fn view(&self) -> IdentView {
        IdentView { token: self.token@, name: self.name@ }
    }
}

impl Ident {
    /// The token is an identifier and the name is its name.
    pub closed spec fn wf(&self) -> bool {
        self.token.token_type == TokenType::Identifier(self.name)
    }

    /// A well-formed identifier's view is well-formed.
    pub proof fn lemma_wf(&self)
        requires
            self.wf(),
        ensures
            self@.wf(),
            self@ == IdentView::of(self@.token),
    {
    }

    /// The identifier that `token` is; hands the token back where it is none.
    pub fn new(token: Token) -> (r: Result<Self, Token>)
        ensures
            match r {
                Ok(ident) => token@.token_type is Identifier && ident.wf() && ident@
                    == IdentView::of(token@),
                Err(other) => !(token@.token_type is Identifier) && other == token,
            },
    {
        let found = match token.token_type.as_identifier() {
            Some(name) => Some(name.clone()),
            None => None,
        };
        match found {
            Some(name) => Ok(Self { token, name }),
            None => Err(token),
        }
    }

    /// The name.
    pub fn name(&self) -> (r: &String)
        ensures
            r@ == self@.name,
    {
        &self.name
    }

    /// The name, out of the identifier.
    pub fn into_name(self) -> (r: String)
        ensures
            r@ == self@.name,
    {
        self.name
    }

    /// The token that the identifier was made of.
    pub fn token(&self) -> (r: &Token)
        ensures
            r@ == self@.token,
    {
        &self.token
    }
}

/// An expression. A literal holds its token; a name among the literals is
/// read when the expression is evaluated, not before.
#[derive(Debug, PartialEq)]
pub enum Expr {
    Unary(Token, Box<Expr>),
    Binary(Box<Expr>, Token, Box<Expr>),
    Grouping(Box<Expr>),
    Literal(Token),
    Assignment(Ident, Token, Box<Expr>),
}

/// An expression with its texts as sequences of characters.
pub enum ExprView {
    Unary(TokenView, Box<ExprView>),
    Binary(Box<ExprView>, TokenView, Box<ExprView>),
    Grouping(Box<ExprView>),
    Literal(TokenView),
    Assignment(IdentView, TokenView, Box<ExprView>),
}

impl Expr {
    /// The expression with its texts as sequences of characters.
    pub open spec fn model(&self) -> ExprView
        decreases self,
    {
        match self {
            Expr::Unary(op, e) => ExprView::Unary(op@, Box::new((**e).model())),
            Expr::Binary(l, op, r) => ExprView::Binary(
                Box::new((**l).model()),
                op@,
                Box::new((**r).model()),
            ),
            Expr::Grouping(e) => ExprView::Grouping(Box::new((**e).model())),
            Expr::Literal(t) => ExprView::Literal(t@),
            Expr::Assignment(target, op, e) => ExprView::Assignment(
                target@,
                op@,
                Box::new((**e).model()),
            ),
        }
    }
}

impl View for Expr {
    type V = ExprView;

    open spec fn view(&self) -> ExprView {
        self.model()
    }
}

/// A statement.
#[derive(Debug, PartialEq)]
pub enum Statement {
    Block(Vec<Statement>),
    If(Expr, Box<Statement>, Option<Box<Statement>>),
    While(Expr, Box<Statement>),
    Var(Ident, Option<Expr>),
    Print(Expr),
    Expr(Expr),
    Empty,
}

/// A statement with its texts as sequences of characters.
pub enum StatementView {
    Block(Seq<StatementView>),
    If(ExprView, Box<StatementView>, Option<Box<StatementView>>),
    While(ExprView, Box<StatementView>),
    Var(IdentView, Option<ExprView>),
    Print(ExprView),
    Expr(ExprView),
    Empty,
}

impl Statement {
    /// The statement with its texts as sequences of characters.
    pub open spec fn model(&self) -> StatementView
        decreases self,
    {
        match self {
            Statement::Block(stmts) => StatementView::Block(
                Seq::new(
                    stmts@.len(),
                    |i: int|
                        if 0 <= i < stmts@.len() {
                            stmts@[i].model()
                        } else {
                            StatementView::Empty
                        },
                ),
            ),
            Statement::If(cond, then, otherwise) => StatementView::If(
                cond@,
                Box::new((**then).model()),
                match otherwise {
                    Some(s) => Some(Box::new((**s).model())),
                    None => None,
                },
            ),
            Statement::While(cond, body) => StatementView::While(
                cond@,
                Box::new((**body).model()),
            ),
            Statement::Var(ident, init) => StatementView::Var(
                ident@,
                match init {
                    Some(e) => Some(e@),
                    None => None,
                },
            ),
            Statement::Print(e) => StatementView::Print(e@),
            Statement::Expr(e) => StatementView::Expr(e@),
            Statement::Empty => StatementView::Empty,
        }
    }
}

impl View for Statement {
    type V = StatementView;

    open spec fn view(&self) -> StatementView {
        self.model()
    }
}

/// The views of the statements of `stmts`.
pub open spec fn statement_views(stmts: Seq<Statement>) -> Seq<StatementView> {
    Seq::new(stmts.len(), |i: int| stmts[i]@)
}

/// The view of a block is the block of the views.
pub proof fn lemma_block_view(stmts: Vec<Statement>)
    ensures
        Statement::Block(stmts)@ == StatementView::Block(statement_views(stmts@)),
{
    assert(Statement::Block(stmts)@->Block_0 =~= statement_views(stmts@));
}

} // verus!
