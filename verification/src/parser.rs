//! The parser: from tokens to statements, by recursive descent.

use vstd::prelude::*;
use crate::ast::{
    lemma_block_view, statement_views, Expr, ExprView, Ident, IdentView, Statement, StatementView,
};
use crate::scanner::{ends_input, Tokens};
use crate::token::{Token, TokenType, TokenTypeView, TokenView};

verus! {

/// Why a sequence of tokens is no program.
#[derive(Debug, PartialEq)]
pub enum ParseError {
    /// a name was needed where this token stands
    IdentifierExpected(Token),
    /// a `;` was needed where this token stands
    SemicolonExpected(Token),
    /// the left side of `=` is no bare name
    InvalidAssignmentTarget,
    /// the input ends inside a block
    UnterminatedBlock,
    /// this token cannot stand here; the text says what could
    UnexpectedToken(Token, String),
}

/// A parse error with its texts as sequences of characters.
pub enum ParseErrorView {
    IdentifierExpected(TokenView),
    SemicolonExpected(TokenView),
    InvalidAssignmentTarget,
    UnterminatedBlock,
    UnexpectedToken(TokenView, Seq<char>),
}

impl View for ParseError {
    type V = ParseErrorView;

    open spec fn view(&self) -> ParseErrorView {
        match self {
            ParseError::IdentifierExpected(t) => ParseErrorView::IdentifierExpected(t@),
            ParseError::SemicolonExpected(t) => ParseErrorView::SemicolonExpected(t@),
            ParseError::InvalidAssignmentTarget => ParseErrorView::InvalidAssignmentTarget,
            ParseError::UnterminatedBlock => ParseErrorView::UnterminatedBlock,
            ParseError::UnexpectedToken(t, what) => ParseErrorView::UnexpectedToken(t@, what@),
        }
    }
}

/// What a grammar rule makes of the tokens from some position on: a value
/// and the number of tokens that it took, or an error.
pub type Parsed<T> = Result<(T, nat), ParseErrorView>;

/// The number of tokens of `ts` from position `pos` on.
pub open spec fn left(ts: Seq<TokenView>, pos: nat) -> nat {
    if pos < ts.len() {
        (ts.len() - pos) as nat
    } else {
        0
    }
}

/// The token at `pos`.
pub open spec fn tok(ts: Seq<TokenView>, pos: nat) -> TokenView {
    ts[pos as int]
}

/// Whether the token at `pos` is of one of the types `types`.
pub open spec fn is_at(ts: Seq<TokenView>, pos: nat, types: Seq<TokenTypeView>) -> bool {
    pos < ts.len() && types.contains(tok(ts, pos).token_type)
}

/// The operators of the binary level `level`, from `or` (0) to `/ *` (5).
pub open spec fn level_operators(level: nat) -> Seq<TokenTypeView> {
    if level == 0 {
        seq![TokenTypeView::Or]
    } else if level == 1 {
        seq![TokenTypeView::And]
    } else if level == 2 {
        seq![TokenTypeView::BangEqual, TokenTypeView::EqualEqual]
    } else if level == 3 {
        seq![
            TokenTypeView::Greater,
            TokenTypeView::GreaterEqual,
            TokenTypeView::Less,
            TokenTypeView::LessEqual,
        ]
    } else if level == 4 {
        seq![TokenTypeView::Minus, TokenTypeView::Plus]
    } else {
        seq![TokenTypeView::Slash, TokenTypeView::Star]
    }
}

/// Whether a token of this type is an expression by itself.
pub open spec fn is_literal(t: TokenTypeView) -> bool {
    t is False || t is True || t is Nil || t is Integer || t is String || t is Decimal
        || t is Identifier
}

/// primary := "false" | "true" | "nil" | INT | DECIMAL | STRING | IDENT
///          | "(" expression ")"
pub open spec fn parse_primary(ts: Seq<TokenView>, pos: nat) -> Parsed<ExprView>
    decreases left(ts, pos), 0nat,
{
    if pos < ts.len() && is_literal(tok(ts, pos).token_type) {
        Ok((ExprView::Literal(tok(ts, pos)), 1))
    } else if is_at(ts, pos, seq![TokenTypeView::LeftParen]) {
        match parse_expression(ts, pos + 1) {
            Ok((e, n)) => if is_at(ts, pos + 1 + n, seq![TokenTypeView::RightParen]) {
                Ok((ExprView::Grouping(Box::new(e)), n + 2))
            } else {
                Err(ParseErrorView::UnexpectedToken(tok(ts, pos + 1 + n), "expected ')'"@))
            },
            Err(e) => Err(e),
        }
    } else {
        Err(ParseErrorView::UnexpectedToken(tok(ts, pos), "expected expression"@))
    }
}

/// unary := ("!"|"-") unary | primary
pub open spec fn parse_unary(ts: Seq<TokenView>, pos: nat) -> Parsed<ExprView>
    decreases left(ts, pos), 1nat,
{
    if is_at(ts, pos, seq![TokenTypeView::Bang, TokenTypeView::Minus]) {
        match parse_unary(ts, pos + 1) {
            Ok((e, n)) => Ok((ExprView::Unary(tok(ts, pos), Box::new(e)), n + 1)),
            Err(e) => Err(e),
        }
    } else {
        parse_primary(ts, pos)
    }
}

/// An operand of the binary level `level`: an expression of the next
/// level, and a unary expression on the last.
pub open spec fn parse_operand(ts: Seq<TokenView>, pos: nat, level: nat) -> Parsed<ExprView>
    decreases left(ts, pos), (if level < 5 { 12 - 2 * level } else { 2 }) as nat,
{
    if level < 5 {
        parse_binary(ts, pos, level + 1)
    } else {
        parse_unary(ts, pos)
    }
}

/// One binary level: an operand, then operators of the level with an
/// operand each, folded to the left.
pub open spec fn parse_binary(ts: Seq<TokenView>, pos: nat, level: nat) -> Parsed<ExprView>
    decreases left(ts, pos), (if level <= 5 { 13 - 2 * level } else { 3 }) as nat,
{
    match parse_operand(ts, pos, level) {
        Ok((e, n)) => match parse_binary_rest(ts, pos + n, level, e) {
            Ok((whole, m)) => Ok((whole, n + m)),
            Err(e) => Err(e),
        },
        Err(e) => Err(e),
    }
}

/// What follows the operand `first` on the binary level `level`.
pub open spec fn parse_binary_rest(ts: Seq<TokenView>, pos: nat, level: nat, first: ExprView)
    -> Parsed<ExprView>
    decreases left(ts, pos), 0nat,
{
    if is_at(ts, pos, level_operators(level)) {
        match parse_operand(ts, pos + 1, level) {
            Ok((right, n)) => match parse_binary_rest(
                ts,
                pos + 1 + n,
                level,
                ExprView::Binary(Box::new(first), tok(ts, pos), Box::new(right)),
            ) {
                Ok((whole, m)) => Ok((whole, 1 + n + m)),
                Err(e) => Err(e),
            },
            Err(e) => Err(e),
        }
    } else {
        Ok((first, 0))
    }
}

/// assignment := logic_or ( "=" expression )?
///
/// The left side of `=` must be a bare name.
pub open spec fn parse_assignment(ts: Seq<TokenView>, pos: nat) -> Parsed<ExprView>
    decreases left(ts, pos), 14nat,
{
    match parse_binary(ts, pos, 0) {
        Ok((target, n)) => if is_at(ts, pos + n, seq![TokenTypeView::Equal]) {
            match parse_expression(ts, pos + n + 1) {
                Ok((value, m)) => match target {
                    ExprView::Literal(t) => if t.token_type is Identifier {
                        Ok(
                            (
                                ExprView::Assignment(
                                    IdentView::of(t),
                                    tok(ts, pos + n),
                                    Box::new(value),
                                ),
                                n + 1 + m,
                            ),
                        )
                    } else {
                        Err(ParseErrorView::InvalidAssignmentTarget)
                    },
                    _ => Err(ParseErrorView::InvalidAssignmentTarget),
                },
                Err(e) => Err(e),
            }
        } else {
            Ok((target, n))
        },
        Err(e) => Err(e),
    }
}

/// expression := assignment
pub open spec fn parse_expression(ts: Seq<TokenView>, pos: nat) -> Parsed<ExprView>
    decreases left(ts, pos), 15nat,
{
    parse_assignment(ts, pos)
}

/// The `;` that ends a statement of `n` tokens made of `stmt`.
pub open spec fn parse_semicolon(ts: Seq<TokenView>, pos: nat, stmt: StatementView, n: nat)
    -> Parsed<StatementView> {
    if is_at(ts, pos + n, seq![TokenTypeView::Semicolon]) {
        Ok((stmt, n + 1))
    } else {
        Err(ParseErrorView::SemicolonExpected(tok(ts, pos + n)))
    }
}

/// What follows `var`: IDENT ( "=" expression )? ";"
pub open spec fn parse_var_decl(ts: Seq<TokenView>, pos: nat) -> Parsed<StatementView>
    decreases left(ts, pos), 0nat,
{
    if !(pos < ts.len() && tok(ts, pos).token_type is Identifier) {
        Err(ParseErrorView::IdentifierExpected(tok(ts, pos)))
    } else if is_at(ts, pos + 1, seq![TokenTypeView::Semicolon]) {
        Ok((StatementView::Var(IdentView::of(tok(ts, pos)), None), 2))
    } else if is_at(ts, pos + 1, seq![TokenTypeView::Equal]) {
        match parse_expression(ts, pos + 2) {
            Ok((e, n)) => parse_semicolon(
                ts,
                pos,
                StatementView::Var(IdentView::of(tok(ts, pos)), Some(e)),
                n + 2,
            ),
            Err(e) => Err(e),
        }
    } else {
        Err(ParseErrorView::UnexpectedToken(tok(ts, pos + 1), "expected ';' or '='"@))
    }
}

/// What follows `{`: declaration* "}"
///
/// The guard on `n` never fails: a declaration takes at least one token,
/// and there is one at `pos`.
pub open spec fn parse_block_items(ts: Seq<TokenView>, pos: nat) -> Parsed<Seq<StatementView>>
    decreases left(ts, pos), 21nat,
{
    if is_at(ts, pos, seq![TokenTypeView::RightBrace]) {
        Ok((Seq::empty(), 1))
    } else {
        match parse_declaration(ts, pos) {
            Ok((Some(s), n)) => if n == 0 || pos >= ts.len() {
                Err(ParseErrorView::UnterminatedBlock)
            } else {
                match parse_block_items(ts, pos + n) {
                    Ok((rest, m)) => Ok((seq![s] + rest, n + m)),
                    Err(e) => Err(e),
                }
            },
            Ok((None, _)) => Err(ParseErrorView::UnterminatedBlock),
            Err(e) => Err(e),
        }
    }
}

/// block := "{" declaration* "}"
///
/// `None` where no `{` stands at `pos`.
pub open spec fn parse_block(ts: Seq<TokenView>, pos: nat) -> Parsed<Option<StatementView>>
    decreases left(ts, pos), 16nat,
{
    if is_at(ts, pos, seq![TokenTypeView::LeftBrace]) {
        match parse_block_items(ts, pos + 1) {
            Ok((stmts, n)) => Ok((Some(StatementView::Block(stmts)), n + 1)),
            Err(e) => Err(e),
        }
    } else {
        Ok((None, 0))
    }
}

/// The block that an `if` or `else` needs at `pos`.
pub open spec fn parse_branch(ts: Seq<TokenView>, pos: nat) -> Parsed<StatementView>
    decreases left(ts, pos), 17nat,
{
    match parse_block(ts, pos) {
        Ok((Some(s), n)) => Ok((s, n)),
        Ok((None, _)) => Err(ParseErrorView::UnexpectedToken(tok(ts, pos), "expected '{'"@)),
        Err(e) => Err(e),
    }
}

/// "if" expression block ( "else" block )?
///
/// `None` where no `if` stands at `pos`.
pub open spec fn parse_conditional(ts: Seq<TokenView>, pos: nat) -> Parsed<Option<StatementView>>
    decreases left(ts, pos), 18nat,
{
    if is_at(ts, pos, seq![TokenTypeView::If]) {
        match parse_expression(ts, pos + 1) {
            Ok((cond, n)) => match parse_branch(ts, pos + 1 + n) {
                Ok((then, m)) => if is_at(ts, pos + 1 + n + m, seq![TokenTypeView::Else]) {
                    match parse_branch(ts, pos + 1 + n + m + 1) {
                        Ok((otherwise, k)) => Ok(
                            (
                                Some(
                                    StatementView::If(
                                        cond,
                                        Box::new(then),
                                        Some(Box::new(otherwise)),
                                    ),
                                ),
                                1 + n + m + 1 + k,
                            ),
                        ),
                        Err(e) => Err(e),
                    }
                } else {
                    Ok((Some(StatementView::If(cond, Box::new(then), None)), 1 + n + m))
                },
                Err(e) => Err(e),
            },
            Err(e) => Err(e),
        }
    } else {
        Ok((None, 0))
    }
}

/// statement := "print" expression ";" | block | conditional | ";"
///            | expression ";"
pub open spec fn parse_statement(ts: Seq<TokenView>, pos: nat) -> Parsed<StatementView>
    decreases left(ts, pos), 19nat,
{
    if is_at(ts, pos, seq![TokenTypeView::Print]) {
        match parse_expression(ts, pos + 1) {
            Ok((e, n)) => parse_semicolon(ts, pos, StatementView::Print(e), n + 1),
            Err(e) => Err(e),
        }
    } else {
        match parse_block(ts, pos) {
            Ok((Some(block), n)) => Ok((block, n)),
            Err(e) => Err(e),
            Ok((None, _)) => match parse_conditional(ts, pos) {
                Ok((Some(cond), n)) => Ok((cond, n)),
                Err(e) => Err(e),
                Ok((None, _)) => if is_at(ts, pos, seq![TokenTypeView::Semicolon]) {
                    Ok((StatementView::Empty, 1))
                } else {
                    match parse_expression(ts, pos) {
                        Ok((e, n)) => parse_semicolon(ts, pos, StatementView::Expr(e), n),
                        Err(e) => Err(e),
                    }
                },
            },
        }
    }
}

/// declaration := "var" IDENT ( "=" expression )? ";" | statement
///
/// `None` where the end of the input stands at `pos`.
pub open spec fn parse_declaration(ts: Seq<TokenView>, pos: nat) -> Parsed<Option<StatementView>>
    decreases left(ts, pos), 20nat,
{
    if is_at(ts, pos, seq![TokenTypeView::Eof]) {
        Ok((None, 1))
    } else if is_at(ts, pos, seq![TokenTypeView::Var]) {
        match parse_var_decl(ts, pos + 1) {
            Ok((s, n)) => Ok((Some(s), n + 1)),
            Err(e) => Err(e),
        }
    } else {
        match parse_statement(ts, pos) {
            Ok((s, n)) => Ok((Some(s), n)),
            Err(e) => Err(e),
        }
    }
}

/// The declarations from `pos` to the end of the input.
///
/// The guard on `n` never fails: a declaration takes at least one token,
/// and there is one at `pos`.
pub open spec fn parse_program(ts: Seq<TokenView>, pos: nat) -> Result<
    Seq<StatementView>,
    ParseErrorView,
>
    decreases left(ts, pos), 22nat,
{
    match parse_declaration(ts, pos) {
        Ok((Some(s), n)) => if n == 0 || pos >= ts.len() {
            Ok(seq![s])
        } else {
            match parse_program(ts, pos + n) {
                Ok(rest) => Ok(seq![s] + rest),
                Err(e) => Err(e),
            }
        },
        Ok((None, _)) => Ok(Seq::empty()),
        Err(e) => Err(e),
    }
}

/// The result `r` with `k` more tokens taken before it.
pub open spec fn shift<T>(r: Parsed<T>, k: nat) -> Parsed<T> {
    match r {
        Ok((v, n)) => Ok((v, n + k)),
        Err(e) => Err(e),
    }
}

/// The views of the token types of `types`.
pub open spec fn type_views(types: Seq<TokenType>) -> Seq<TokenTypeView> {
    types.map_values(|t: TokenType| t@)
}

/// Whether the expression `r` is what the grammar makes of the tokens, and
/// `taken` the number of tokens that it took.
pub open spec fn is_expr(r: Result<Box<Expr>, ParseError>, parsed: Parsed<ExprView>, taken: int)
    -> bool {
    match (r, parsed) {
        (Ok(e), Ok((v, n))) => (*e)@ == v && taken == n,
        (Err(e), Err(v)) => e@ == v,
        _ => false,
    }
}

/// Whether the statement `r` is what the grammar makes of the tokens, and
/// `taken` the number of tokens that it took.
pub open spec fn is_stmt(r: Result<Statement, ParseError>, parsed: Parsed<StatementView>, taken: int)
    -> bool {
    match (r, parsed) {
        (Ok(s), Ok((v, n))) => s@ == v && taken == n,
        (Err(e), Err(v)) => e@ == v,
        _ => false,
    }
}

/// Whether the statement `r`, if any, is what the grammar makes of the
/// tokens, and `taken` the number of tokens that it took.
pub open spec fn is_opt_stmt(
    r: Result<Option<Statement>, ParseError>,
    parsed: Parsed<Option<StatementView>>,
    taken: int,
) -> bool {
    match (r, parsed) {
        (Ok(Some(s)), Ok((Some(v), n))) => s@ == v && taken == n,
        (Ok(None), Ok((None, n))) => taken == n,
        (Err(e), Err(v)) => e@ == v,
        _ => false,
    }
}

/// A sequence of one holds just that one.
pub proof fn lemma_contains_one(t: TokenTypeView, a: TokenTypeView)
    ensures
        seq![a].contains(t) <==> t == a,
{
    if t == a {
        assert(seq![a][0] == t);
    }
}

/// A sequence of two holds just those two.
pub proof fn lemma_contains_two(t: TokenTypeView, a: TokenTypeView, b: TokenTypeView)
    ensures
        seq![a, b].contains(t) <==> t == a || t == b,
{
    if t == a {
        assert(seq![a, b][0] == t);
    }
    if t == b {
        assert(seq![a, b][1] == t);
    }
}

/// One token type.
fn one(a: TokenType) -> (r: Vec<TokenType>)
    ensures
        type_views(r@) == seq![a@],
{
    let r = vec![a];
    assert(type_views(r@) =~= seq![a@]);
    r
}

/// Two token types.
fn two(a: TokenType, b: TokenType) -> (r: Vec<TokenType>)
    ensures
        type_views(r@) == seq![a@, b@],
{
    let r = vec![a, b];
    assert(type_views(r@) =~= seq![a@, b@]);
    r
}

/// The operators of the binary level `level`.
fn level_types(level: u8) -> (r: Vec<TokenType>)
    ensures
        type_views(r@) == level_operators(level as nat),
{
    if level == 0 {
        one(TokenType::Or)
    } else if level == 1 {
        one(TokenType::And)
    } else if level == 2 {
        two(TokenType::BangEqual, TokenType::EqualEqual)
    } else if level == 3 {
        let r = vec![
            TokenType::Greater,
            TokenType::GreaterEqual,
            TokenType::Less,
            TokenType::LessEqual,
        ];
        assert(type_views(r@) =~= level_operators(3));
        r
    } else if level == 4 {
        two(TokenType::Minus, TokenType::Plus)
    } else {
        two(TokenType::Slash, TokenType::Star)
    }
}

/// A parser: the tokens of a program, read from left to right.
pub struct Parser {
    tokens: Tokens,
}

impl Parser {
    /// All the tokens.
    pub closed spec fn ts(&self) -> Seq<TokenView> {
        self.tokens.all()
    }

    /// How many tokens have been read.
    pub closed spec fn pos(&self) -> nat {
        self.tokens.position()
    }

    /// The tokens end with their only end-of-input token.
    pub closed spec fn wf(&self) -> bool {
        self.tokens.wf()
    }

    /// The parser is well-formed and has a token to read.
    pub open spec fn ready(&self) -> bool {
        self.wf() && self.pos() < self.ts().len()
    }

    /// A parser at the next token of `tokens`.
    fn new(tokens: Tokens) -> (r: Self)
        requires
            tokens.wf(),
        ensures
            r.wf(),
            r.ts() == tokens.all(),
            r.pos() == tokens.position(),
    {
        Self { tokens }
    }

    /// The token to read next.
    fn peek(&self) -> (r: &Token)
        requires
            self.ready(),
        ensures
            r@ == tok(self.ts(), self.pos()),
    {
        match self.tokens.peek() {
            Some(t) => t,
            None => {
                proof {
                    self.tokens.lemma_view();
                }
                unreached()
            },
        }
    }

    /// Reads one token.
    fn next(&mut self) -> (r: Token)
        requires
            old(self).ready(),
        ensures
            final(self).wf(),
            final(self).ts() == old(self).ts(),
            final(self).pos() == old(self).pos() + 1,
            r@ == tok(old(self).ts(), old(self).pos()),
            !(r@.token_type is Eof) ==> final(self).ready(),
    {
        proof {
            self.tokens.lemma_view();
        }
        match self.tokens.next() {
            Some(t) => t,
            None => unreached(),
        }
    }

    /// Reads the next token if it is of one of the types `types`.
    fn consume(&mut self, types: &Vec<TokenType>) -> (r: Option<Token>)
        requires
            old(self).ready(),
        ensures
            final(self).wf(),
            final(self).ts() == old(self).ts(),
            match r {
                Some(t) => {
                    &&& is_at(old(self).ts(), old(self).pos(), type_views(types@))
                    &&& t@ == tok(old(self).ts(), old(self).pos())
                    &&& final(self).pos() == old(self).pos() + 1
                    &&& !(t@.token_type is Eof) ==> final(self).ready()
                },
                None => {
                    &&& !is_at(old(self).ts(), old(self).pos(), type_views(types@))
                    &&& final(self).pos() == old(self).pos()
                },
            },
    {
        let curr = self.peek();
        let mut found = false;
        let mut k: usize = 0;
        while k < types.len()
            invariant
                k <= types.len(),
                found == exists|j: int| 0 <= j < k && type_views(types@)[j] == curr@.token_type,
            decreases types.len() - k,
        {
            if curr.token_type.same(&types[k]) {
                assert(type_views(types@)[k as int] == curr@.token_type);
                found = true;
            }
            k = k + 1;
        }
        if found {
            Some(self.next())
        } else {
            None
        }
    }

    /// The identifier that `given` is, or else the next token.
    fn ident(&mut self, given: Option<Token>) -> (r: Result<Ident, ParseError>)
        requires
            old(self).wf(),
            given is None ==> old(self).ready(),
        ensures
            final(self).wf(),
            final(self).ts() == old(self).ts(),
            final(self).pos() == old(self).pos() + (if given is None { 1nat } else { 0nat }),
            ({
                let token = match given {
                    Some(t) => t@,
                    None => tok(old(self).ts(), old(self).pos()),
                };
                match r {
                    Ok(ident) => token.token_type is Identifier && ident@ == IdentView::of(token)
                        && (given is None ==> final(self).ready()),
                    Err(e) => !(token.token_type is Identifier) && e@
                        == ParseErrorView::IdentifierExpected(token),
                }
            }),
    {
        let token = match given {
            Some(t) => t,
            None => self.next(),
        };
        match Ident::new(token) {
            Ok(ident) => Ok(ident),
            Err(other) => Err(ParseError::IdentifierExpected(other)),
        }
    }

    /// Reads the `;` that ends a statement.
    fn semicolon(&mut self) -> (r: Result<Token, ParseError>)
        requires
            old(self).ready(),
        ensures
            final(self).wf(),
            final(self).ts() == old(self).ts(),
            match r {
                Ok(t) => is_at(old(self).ts(), old(self).pos(), seq![TokenTypeView::Semicolon])
                    && final(self).pos() == old(self).pos() + 1 && final(self).ready(),
                Err(e) => !is_at(old(self).ts(), old(self).pos(), seq![TokenTypeView::Semicolon])
                    && e@ == ParseErrorView::SemicolonExpected(
                    tok(old(self).ts(), old(self).pos()),
                ),
            },
    {
        match self.consume(&one(TokenType::Semicolon)) {
            Some(t) => Ok(t),
            None => Err(ParseError::SemicolonExpected(self.next())),
        }
    }

    /// The error for a token that cannot stand where it does.
    fn unexpected(&self, msg: &str) -> (r: ParseError)
        requires
            self.ready(),
        ensures
            r@ == ParseErrorView::UnexpectedToken(tok(self.ts(), self.pos()), msg@),
    {
        ParseError::UnexpectedToken(self.peek().clone(), msg.to_owned())
    }

    /// primary := literal | "(" expression ")"
    fn primary(&mut self) -> (r: Result<Box<Expr>, ParseError>)
        requires
            old(self).ready(),
        ensures
            final(self).wf(),
            final(self).ts() == old(self).ts(),
            r is Ok ==> final(self).ready(),
            is_expr(
                r,
                parse_primary(old(self).ts(), old(self).pos()),
                final(self).pos() - old(self).pos(),
            ),
        decreases left(old(self).ts(), old(self).pos()), 0nat,
    {
        let literal = match self.peek().token_type {
            TokenType::False
            | TokenType::True
            | TokenType::Nil
            | TokenType::Integer(_)
            | TokenType::String(_)
            | TokenType::Decimal(_)
            | TokenType::Identifier(_) => true,
            _ => false,
        };
        if literal {
            return Ok(Box::new(Expr::Literal(self.next())));
        }
        if self.consume(&one(TokenType::LeftParen)).is_some() {
            let expr = self.expression()?;
            if self.consume(&one(TokenType::RightParen)).is_none() {
                return Err(self.unexpected("expected ')'"));
            }
            return Ok(Box::new(Expr::Grouping(expr)));
        }
        Err(self.unexpected("expected expression"))
    }

    /// unary := ("!"|"-") unary | primary
    fn unary(&mut self) -> (r: Result<Box<Expr>, ParseError>)
        requires
            old(self).ready(),
        ensures
            final(self).wf(),
            final(self).ts() == old(self).ts(),
            r is Ok ==> final(self).ready(),
            is_expr(
                r,
                parse_unary(old(self).ts(), old(self).pos()),
                final(self).pos() - old(self).pos(),
            ),
        decreases left(old(self).ts(), old(self).pos()), 1nat,
    {
        if let Some(operator) = self.consume(&two(TokenType::Bang, TokenType::Minus)) {
            let right = self.unary()?;
            Ok(Box::new(Expr::Unary(operator, right)))
        } else {
            self.primary()
        }
    }

    /// factor := unary ( ("/"|"*") unary )*
    fn factor(&mut self) -> (r: Result<Box<Expr>, ParseError>)
        requires
            old(self).ready(),
        ensures
            final(self).wf(),
            final(self).ts() == old(self).ts(),
            r is Ok ==> final(self).ready(),
            is_expr(
                r,
                parse_binary(old(self).ts(), old(self).pos(), 5),
                final(self).pos() - old(self).pos(),
            ),
        decreases left(old(self).ts(), old(self).pos()), 5nat,
    {
        self.match_binary(5)
    }

    /// term := factor ( ("-"|"+") factor )*
    fn term(&mut self) -> (r: Result<Box<Expr>, ParseError>)
        requires
            old(self).ready(),
        ensures
            final(self).wf(),
            final(self).ts() == old(self).ts(),
            r is Ok ==> final(self).ready(),
            is_expr(
                r,
                parse_binary(old(self).ts(), old(self).pos(), 4),
                final(self).pos() - old(self).pos(),
            ),
        decreases left(old(self).ts(), old(self).pos()), 9nat,
    {
        self.match_binary(4)
    }

    /// comparison := term ( (">"|">="|"<"|"<=") term )*
    fn comparison(&mut self) -> (r: Result<Box<Expr>, ParseError>)
        requires
            old(self).ready(),
        ensures
            final(self).wf(),
            final(self).ts() == old(self).ts(),
            r is Ok ==> final(self).ready(),
            is_expr(
                r,
                parse_binary(old(self).ts(), old(self).pos(), 3),
                final(self).pos() - old(self).pos(),
            ),
        decreases left(old(self).ts(), old(self).pos()), 13nat,
    {
        self.match_binary(3)
    }

    /// equality := comparison ( ("!="|"==") comparison )*
    fn equality(&mut self) -> (r: Result<Box<Expr>, ParseError>)
        requires
            old(self).ready(),
        ensures
            final(self).wf(),
            final(self).ts() == old(self).ts(),
            r is Ok ==> final(self).ready(),
            is_expr(
                r,
                parse_binary(old(self).ts(), old(self).pos(), 2),
                final(self).pos() - old(self).pos(),
            ),
        decreases left(old(self).ts(), old(self).pos()), 17nat,
    {
        self.match_binary(2)
    }

    /// logic_and := equality ( "and" equality )*
    fn logic_and(&mut self) -> (r: Result<Box<Expr>, ParseError>)
        requires
            old(self).ready(),
        ensures
            final(self).wf(),
            final(self).ts() == old(self).ts(),
            r is Ok ==> final(self).ready(),
            is_expr(
                r,
                parse_binary(old(self).ts(), old(self).pos(), 1),
                final(self).pos() - old(self).pos(),
            ),
        decreases left(old(self).ts(), old(self).pos()), 21nat,
    {
        self.match_binary(1)
    }

    /// logic_or := logic_and ( "or" logic_and )*
    fn logic_or(&mut self) -> (r: Result<Box<Expr>, ParseError>)
        requires
            old(self).ready(),
        ensures
            final(self).wf(),
            final(self).ts() == old(self).ts(),
            r is Ok ==> final(self).ready(),
            is_expr(
                r,
                parse_binary(old(self).ts(), old(self).pos(), 0),
                final(self).pos() - old(self).pos(),
            ),
        decreases left(old(self).ts(), old(self).pos()), 25nat,
    {
        self.match_binary(0)
    }

    /// An operand of the binary level `level`.
    fn operand(&mut self, level: u8) -> (r: Result<Box<Expr>, ParseError>)
        requires
            old(self).ready(),
            level <= 5,
        ensures
            final(self).wf(),
            final(self).ts() == old(self).ts(),
            r is Ok ==> final(self).ready(),
            is_expr(
                r,
                parse_operand(old(self).ts(), old(self).pos(), level as nat),
                final(self).pos() - old(self).pos(),
            ),
        decreases left(old(self).ts(), old(self).pos()), (4 * (5 - level) + 3) as nat,
    {
        if level == 0 {
            self.logic_and()
        } else if level == 1 {
            self.equality()
        } else if level == 2 {
            self.comparison()
        } else if level == 3 {
            self.term()
        } else if level == 4 {
            self.factor()
        } else {
            self.unary()
        }
    }

    /// One binary level: an operand, then operators of the level with an
    /// operand each, folded to the left.
    fn match_binary(&mut self, level: u8) -> (r: Result<Box<Expr>, ParseError>)
        requires
            old(self).ready(),
            level <= 5,
        ensures
            final(self).wf(),
            final(self).ts() == old(self).ts(),
            r is Ok ==> final(self).ready(),
            is_expr(
                r,
                parse_binary(old(self).ts(), old(self).pos(), level as nat),
                final(self).pos() - old(self).pos(),
            ),
        decreases left(old(self).ts(), old(self).pos()), (4 * (5 - level) + 4) as nat,
    {
        let types = level_types(level);
        let mut expr = self.operand(level)?;
        let ghost ts = self.ts();
        let ghost start = self.pos();
        let ghost target = parse_binary_rest(ts, start, level as nat, (*expr)@);
        loop
            invariant
                self.ready(),
                self.ts() == ts,
                ts == old(self).ts(),
                level <= 5,
                type_views(types@) == level_operators(level as nat),
                old(self).pos() <= start <= self.pos(),
                parse_binary(ts, old(self).pos(), level as nat) == shift(
                    target,
                    (start - old(self).pos()) as nat,
                ),
                target == shift(
                    parse_binary_rest(ts, self.pos(), level as nat, (*expr)@),
                    (self.pos() - start) as nat,
                ),
            ensures
                self.ready(),
                self.ts() == ts,
                start <= self.pos(),
                target == Ok::<(ExprView, nat), ParseErrorView>(
                    ((*expr)@, (self.pos() - start) as nat),
                ),
            decreases left(ts, self.pos()),
        {
            let operator = match self.consume(&types) {
                Some(operator) => operator,
                None => {
                    break ;
                },
            };
            let right = match self.operand(level) {
                Ok(right) => right,
                Err(e) => {
                    return Err(e);
                },
            };
            expr = Box::new(Expr::Binary(expr, operator, right));
        }
        Ok(expr)
    }

    /// assignment := logic_or ( "=" expression )?
    fn assignment(&mut self) -> (r: Result<Box<Expr>, ParseError>)
        requires
            old(self).ready(),
        ensures
            final(self).wf(),
            final(self).ts() == old(self).ts(),
            r is Ok ==> final(self).ready(),
            is_expr(
                r,
                parse_assignment(old(self).ts(), old(self).pos()),
                final(self).pos() - old(self).pos(),
            ),
        decreases left(old(self).ts(), old(self).pos()), 26nat,
    {
        let expr = self.logic_or()?;
        if let Some(eq) = self.consume(&one(TokenType::Equal)) {
            let rhs = self.expression()?;
            if let Expr::Literal(token) = *expr {
                if token.token_type.is_identifier() {
                    return match self.ident(Some(token)) {
                        Ok(ident) => Ok(Box::new(Expr::Assignment(ident, eq, rhs))),
                        Err(_) => Err(ParseError::InvalidAssignmentTarget),
                    };
                }
            }
            return Err(ParseError::InvalidAssignmentTarget);
        }
        Ok(expr)
    }

    /// expression := assignment
    fn expression(&mut self) -> (r: Result<Box<Expr>, ParseError>)
        requires
            old(self).ready(),
        ensures
            final(self).wf(),
            final(self).ts() == old(self).ts(),
            r is Ok ==> final(self).ready(),
            is_expr(
                r,
                parse_expression(old(self).ts(), old(self).pos()),
                final(self).pos() - old(self).pos(),
            ),
        decreases left(old(self).ts(), old(self).pos()), 27nat,
    {
        self.assignment()
    }
}

/// The statements `done` before what `r` holds, and `k` more tokens taken.
pub open spec fn prefixed(done: Seq<StatementView>, r: Parsed<Seq<StatementView>>, k: nat)
    -> Parsed<Seq<StatementView>> {
    match r {
        Ok((rest, n)) => Ok((done + rest, n + k)),
        Err(e) => Err(e),
    }
}

/// The statements `done` before those of `r`.
pub open spec fn following(
    done: Seq<StatementView>,
    r: Result<Seq<StatementView>, ParseErrorView>,
) -> Result<Seq<StatementView>, ParseErrorView> {
    match r {
        Ok(rest) => Ok(done + rest),
        Err(e) => Err(e),
    }
}

impl Parser {
    /// What follows `var`: a name, then `;` or `=` with a value and `;`.
    fn var_decl(&mut self) -> (r: Result<Statement, ParseError>)
        requires
            old(self).ready(),
        ensures
            final(self).wf(),
            final(self).ts() == old(self).ts(),
            r is Ok ==> final(self).ready(),
            is_stmt(
                r,
                parse_var_decl(old(self).ts(), old(self).pos()),
                final(self).pos() - old(self).pos(),
            ),
        decreases left(old(self).ts(), old(self).pos()), 0nat,
    {
        let ident = self.ident(None)?;
        proof {
            let next = tok(self.ts(), self.pos()).token_type;
            lemma_contains_one(next, TokenTypeView::Semicolon);
            lemma_contains_one(next, TokenTypeView::Equal);
            lemma_contains_two(next, TokenTypeView::Semicolon, TokenTypeView::Equal);
        }
        let token = match self.consume(&two(TokenType::Semicolon, TokenType::Equal)) {
            Some(token) => token,
            None => {
                return Err(self.unexpected("expected ';' or '='"));
            },
        };
        if token.token_type.same(&TokenType::Semicolon) {
            return Ok(Statement::Var(ident, None));
        }
        let val = self.expression()?;
        self.semicolon()?;
        Ok(Statement::Var(ident, Some(*val)))
    }

    /// A block, if `{` comes next.
    fn block(&mut self) -> (r: Result<Option<Statement>, ParseError>)
        requires
            old(self).ready(),
        ensures
            final(self).wf(),
            final(self).ts() == old(self).ts(),
            r is Ok ==> final(self).ready(),
            is_opt_stmt(
                r,
                parse_block(old(self).ts(), old(self).pos()),
                final(self).pos() - old(self).pos(),
            ),
        decreases left(old(self).ts(), old(self).pos()), 28nat,
    {
        if self.consume(&one(TokenType::LeftBrace)).is_none() {
            return Ok(None);
        }
        let mut stmts: Vec<Statement> = Vec::new();
        let ghost ts = self.ts();
        let ghost start = self.pos();
        let ghost target = parse_block_items(ts, start);
        proof {
            match target {
                Ok((rest, n)) => {
                    assert(statement_views(stmts@) + rest =~= rest);
                },
                Err(_) => {},
            }
        }
        loop
            invariant
                self.ready(),
                self.ts() == ts,
                ts == old(self).ts(),
                start == old(self).pos() + 1,
                start <= self.pos(),
                is_at(ts, old(self).pos(), seq![TokenTypeView::LeftBrace]),
                target == parse_block_items(ts, start),
                target == prefixed(
                    statement_views(stmts@),
                    parse_block_items(ts, self.pos()),
                    (self.pos() - start) as nat,
                ),
            decreases left(ts, self.pos()),
        {
            if self.consume(&one(TokenType::RightBrace)).is_some() {
                proof {
                    lemma_block_view(stmts);
                    assert(statement_views(stmts@) + Seq::<StatementView>::empty()
                        =~= statement_views(stmts@));
                }
                return Ok(Some(Statement::Block(stmts)));
            }
            let ghost before = self.pos();
            let ghost done = statement_views(stmts@);
            let stmt = match self.decleration() {
                Ok(Some(stmt)) => stmt,
                Ok(None) => {
                    return Err(ParseError::UnterminatedBlock);
                },
                Err(e) => {
                    return Err(e);
                },
            };
            proof {
                assert(statement_views(stmts@.push(stmt)) =~= done.push(stmt@));
                match parse_block_items(ts, self.pos()) {
                    Ok((rest, m)) => {
                        assert(done + (seq![stmt@] + rest) =~= done.push(stmt@) + rest);
                    },
                    Err(_) => {},
                }
            }
            stmts.push(stmt);
        }
    }

    /// An `if` with its branches, if `if` comes next.
    fn conditional(&mut self) -> (r: Result<Option<Statement>, ParseError>)
        requires
            old(self).ready(),
        ensures
            final(self).wf(),
            final(self).ts() == old(self).ts(),
            r is Ok ==> final(self).ready(),
            is_opt_stmt(
                r,
                parse_conditional(old(self).ts(), old(self).pos()),
                final(self).pos() - old(self).pos(),
            ),
        decreases left(old(self).ts(), old(self).pos()), 30nat,
    {
        if self.consume(&one(TokenType::If)).is_none() {
            return Ok(None);
        }
        let condition = self.expression()?;
        let when_true = match self.block()? {
            Some(block) => block,
            None => {
                return Err(self.unexpected("expected '{'"));
            },
        };
        if self.consume(&one(TokenType::Else)).is_none() {
            return Ok(Some(Statement::If(*condition, Box::new(when_true), None)));
        }
        let when_false = match self.block()? {
            Some(block) => block,
            None => {
                return Err(self.unexpected("expected '{'"));
            },
        };
        Ok(Some(Statement::If(*condition, Box::new(when_true), Some(Box::new(when_false)))))
    }

    /// statement := "print" expression ";" | block | conditional | ";"
    ///            | expression ";"
    fn statement(&mut self) -> (r: Result<Statement, ParseError>)
        requires
            old(self).ready(),
        ensures
            final(self).wf(),
            final(self).ts() == old(self).ts(),
            r is Ok ==> final(self).ready() && final(self).pos() > old(self).pos(),
            is_stmt(
                r,
                parse_statement(old(self).ts(), old(self).pos()),
                final(self).pos() - old(self).pos(),
            ),
        decreases left(old(self).ts(), old(self).pos()), 31nat,
    {
        if self.consume(&one(TokenType::Print)).is_some() {
            let expr = self.expression()?;
            self.semicolon()?;
            return Ok(Statement::Print(*expr));
        }
        if let Some(block) = self.block()? {
            return Ok(block);
        }
        if let Some(cond) = self.conditional()? {
            return Ok(cond);
        }
        if self.consume(&one(TokenType::Semicolon)).is_some() {
            return Ok(Statement::Empty);
        }
        let expr = self.expression()?;
        self.semicolon()?;
        Ok(Statement::Expr(*expr))
    }

    /// A declaration or a statement; `None` at the end of the input, which
    /// is read.
    fn decleration(&mut self) -> (r: Result<Option<Statement>, ParseError>)
        requires
            old(self).ready(),
        ensures
            final(self).wf(),
            final(self).ts() == old(self).ts(),
            r matches Ok(Some(_)) ==> final(self).ready(),
            r is Ok ==> final(self).pos() > old(self).pos(),
            is_opt_stmt(
                r,
                parse_declaration(old(self).ts(), old(self).pos()),
                final(self).pos() - old(self).pos(),
            ),
        decreases left(old(self).ts(), old(self).pos()), 32nat,
    {
        if self.consume(&one(TokenType::Eof)).is_some() {
            return Ok(None);
        }
        if self.consume(&one(TokenType::Var)).is_some() {
            return Ok(Some(self.var_decl()?));
        }
        Ok(Some(self.statement()?))
    }
}

/// The statements of a parsed program, in order.
#[derive(Debug)]
pub struct Statements {
    statements: Vec<Statement>,
}

impl View for Statements {
    type V = Seq<StatementView>;

    /// The statements not handed out yet.
    closed spec fn view(&self) -> Seq<StatementView> {
        statement_views(self.statements@)
    }
}

impl Statements {
    /// Hands out the next statement.
    pub fn next(&mut self) -> (r: Option<Statement>)
        ensures
            match r {
                Some(s) => old(self)@.len() > 0 && s@ == old(self)@[0] && final(self)@ == old(
                    self,
                )@.drop_first(),
                None => old(self)@.len() == 0 && final(self)@ == old(self)@,
            },
    {
        if self.statements.len() > 0 {
            let s = self.statements.remove(0);
            assert(statement_views(self.statements@) =~= old(self)@.drop_first());
            Some(s)
        } else {
            None
        }
    }

    /// The statements not handed out yet, as a vector.
    pub fn into_vec(self) -> (r: Vec<Statement>)
        ensures
            statement_views(r@) == self@,
    {
        self.statements
    }
}

/// Parses a program: the statements that `tokens` spell from the next token
/// to the end of the input, or the first error met. A program that parses
/// takes every token.
pub fn parse(tokens: Tokens) -> (r: Result<Statements, ParseError>)
    requires
        tokens.wf(),
        tokens@.len() > 0,
    ensures
        match r {
            Ok(stmts) => parse_program(tokens.all(), tokens.position()) == Ok::<
                Seq<StatementView>,
                ParseErrorView,
            >(stmts@),
            Err(e) => parse_program(tokens.all(), tokens.position()) == Err::<
                Seq<StatementView>,
                ParseErrorView,
            >(e@),
        },
        r is Ok ==> tokens.position() + program_tokens(tokens.all(), tokens.position())
            == tokens.all().len(),
{
    proof {
        tokens.lemma_view();
        lemma_program_takes_all(tokens.all(), tokens.position());
    }
    let mut parser = Parser::new(tokens);
    let mut decls: Vec<Statement> = Vec::new();
    let ghost ts = parser.ts();
    let ghost target = parse_program(ts, parser.pos());
    proof {
        match target {
            Ok(rest) => {
                assert(statement_views(decls@) + rest =~= rest);
            },
            Err(_) => {},
        }
    }
    loop
        invariant_except_break
            parser.ready(),
            target == following(statement_views(decls@), parse_program(ts, parser.pos())),
        invariant
            parser.ts() == ts,
            ts == tokens.all(),
            target == parse_program(ts, tokens.position()),
        ensures
            target == Ok::<Seq<StatementView>, ParseErrorView>(statement_views(decls@)),
        decreases left(ts, parser.pos()),
    {
        let ghost done = statement_views(decls@);
        let decl = match parser.decleration() {
            Ok(Some(decl)) => decl,
            Ok(None) => {
                assert(done + Seq::<StatementView>::empty() =~= done);
                break ;
            },
            Err(e) => {
                return Err(e);
            },
        };
        proof {
            assert(statement_views(decls@.push(decl)) =~= done.push(decl@));
            match parse_program(ts, parser.pos()) {
                Ok(rest) => {
                    assert(done + (seq![decl@] + rest) =~= done.push(decl@) + rest);
                },
                Err(_) => {},
            }
        }
        decls.push(decl);
    }
    Ok(Statements { statements: decls })
}

/// The number of tokens that the declarations from `pos` on take, the end
/// of the input included.
pub open spec fn program_tokens(ts: Seq<TokenView>, pos: nat) -> nat
    decreases left(ts, pos), 22nat,
{
    match parse_declaration(ts, pos) {
        Ok((Some(s), n)) => if n == 0 || pos >= ts.len() {
            n
        } else {
            n + program_tokens(ts, pos + n)
        },
        Ok((None, n)) => n,
        Err(e) => 0,
    }
}

/// A token of one of the types `types`, none of them the end of the input,
/// has a token after it.
pub proof fn lemma_taken(ts: Seq<TokenView>, pos: nat, types: Seq<TokenTypeView>)
    requires
        ends_input(ts),
        is_at(ts, pos, types),
        forall|k: int| 0 <= k < types.len() ==> !(#[trigger] types[k] is Eof),
    ensures
        pos + 1 < ts.len(),
{
    let k = choose|k: int| 0 <= k < types.len() && types[k] == tok(ts, pos).token_type;
    assert(!(types[k] is Eof));
    if pos + 1 >= ts.len() {
        assert(ts.last() == ts[pos as int]);
    }
}

/// A token that is not the end of the input has a token after it.
pub proof fn lemma_not_last(ts: Seq<TokenView>, pos: nat)
    requires
        ends_input(ts),
        pos < ts.len(),
        !(tok(ts, pos).token_type is Eof),
    ensures
        pos + 1 < ts.len(),
{
    if pos + 1 >= ts.len() {
        assert(ts.last() == ts[pos as int]);
    }
}

/// Whether a rule that went well took a token at least and left one.
pub open spec fn took<T>(ts: Seq<TokenView>, pos: nat, r: Parsed<T>) -> bool {
    r matches Ok((_, n)) ==> n >= 1 && pos + n < ts.len()
}

/// Whether a rule that may stand for nothing took nothing where it stands
/// for nothing, and else a token at least, and left one.
pub open spec fn took_if_any<T>(ts: Seq<TokenView>, pos: nat, r: Parsed<Option<T>>) -> bool {
    match r {
        Ok((Some(_), n)) => n >= 1 && pos + n < ts.len(),
        Ok((None, n)) => n == 0,
        Err(_) => true,
    }
}

/// A primary expression takes a token at least and never the end of the
/// input.
pub proof fn lemma_primary(ts: Seq<TokenView>, pos: nat)
    requires
        ends_input(ts),
        pos < ts.len(),
    ensures
        took(ts, pos, parse_primary(ts, pos)),
    decreases left(ts, pos), 0nat,
{
    if is_literal(tok(ts, pos).token_type) {
        lemma_not_last(ts, pos);
    } else if is_at(ts, pos, seq![TokenTypeView::LeftParen]) {
        lemma_taken(ts, pos, seq![TokenTypeView::LeftParen]);
        lemma_expression(ts, pos + 1);
        match parse_expression(ts, pos + 1) {
            Ok((e, n)) => {
                if is_at(ts, pos + 1 + n, seq![TokenTypeView::RightParen]) {
                    lemma_taken(ts, pos + 1 + n, seq![TokenTypeView::RightParen]);
                }
            },
            Err(_) => {},
        }
    }
}

/// A unary expression takes a token at least and never the end of the
/// input.
pub proof fn lemma_unary(ts: Seq<TokenView>, pos: nat)
    requires
        ends_input(ts),
        pos < ts.len(),
    ensures
        took(ts, pos, parse_unary(ts, pos)),
    decreases left(ts, pos), 1nat,
{
    if is_at(ts, pos, seq![TokenTypeView::Bang, TokenTypeView::Minus]) {
        lemma_taken(ts, pos, seq![TokenTypeView::Bang, TokenTypeView::Minus]);
        lemma_unary(ts, pos + 1);
    } else {
        lemma_primary(ts, pos);
    }
}

/// An operand takes a token at least and never the end of the input.
pub proof fn lemma_operand(ts: Seq<TokenView>, pos: nat, level: nat)
    requires
        ends_input(ts),
        pos < ts.len(),
    ensures
        took(ts, pos, parse_operand(ts, pos, level)),
    decreases left(ts, pos), (if level < 5 { 12 - 2 * level } else { 2 }) as nat,
{
    if level < 5 {
        lemma_binary(ts, pos, level + 1);
    } else {
        lemma_unary(ts, pos);
    }
}

/// A binary level takes a token at least and never the end of the input.
pub proof fn lemma_binary(ts: Seq<TokenView>, pos: nat, level: nat)
    requires
        ends_input(ts),
        pos < ts.len(),
    ensures
        took(ts, pos, parse_binary(ts, pos, level)),
    decreases left(ts, pos), (if level <= 5 { 13 - 2 * level } else { 3 }) as nat,
{
    lemma_operand(ts, pos, level);
    match parse_operand(ts, pos, level) {
        Ok((e, n)) => {
            lemma_binary_rest(ts, pos + n, level, e);
        },
        Err(_) => {},
    }
}

/// What follows an operand never takes the end of the input.
pub proof fn lemma_binary_rest(ts: Seq<TokenView>, pos: nat, level: nat, first: ExprView)
    requires
        ends_input(ts),
        pos < ts.len(),
    ensures
        parse_binary_rest(ts, pos, level, first) matches Ok((_, n)) ==> pos + n < ts.len(),
    decreases left(ts, pos), 0nat,
{
    if is_at(ts, pos, level_operators(level)) {
        lemma_taken(ts, pos, level_operators(level));
        lemma_operand(ts, pos + 1, level);
        match parse_operand(ts, pos + 1, level) {
            Ok((right, n)) => {
                lemma_binary_rest(
                    ts,
                    pos + 1 + n,
                    level,
                    ExprView::Binary(Box::new(first), tok(ts, pos), Box::new(right)),
                );
            },
            Err(_) => {},
        }
    }
}

/// An assignment takes a token at least and never the end of the input.
pub proof fn lemma_assignment(ts: Seq<TokenView>, pos: nat)
    requires
        ends_input(ts),
        pos < ts.len(),
    ensures
        took(ts, pos, parse_assignment(ts, pos)),
    decreases left(ts, pos), 14nat,
{
    lemma_binary(ts, pos, 0);
    match parse_binary(ts, pos, 0) {
        Ok((target, n)) => {
            if is_at(ts, pos + n, seq![TokenTypeView::Equal]) {
                lemma_taken(ts, pos + n, seq![TokenTypeView::Equal]);
                lemma_expression(ts, pos + n + 1);
            }
        },
        Err(_) => {},
    }
}

/// An expression takes a token at least and never the end of the input.
pub proof fn lemma_expression(ts: Seq<TokenView>, pos: nat)
    requires
        ends_input(ts),
        pos < ts.len(),
    ensures
        took(ts, pos, parse_expression(ts, pos)),
    decreases left(ts, pos), 15nat,
{
    lemma_assignment(ts, pos);
}

/// The `;` that ends a statement is not the end of the input.
pub proof fn lemma_semicolon(ts: Seq<TokenView>, pos: nat, stmt: StatementView, n: nat)
    requires
        ends_input(ts),
    ensures
        took(ts, pos, parse_semicolon(ts, pos, stmt, n)),
{
    if is_at(ts, pos + n, seq![TokenTypeView::Semicolon]) {
        lemma_taken(ts, pos + n, seq![TokenTypeView::Semicolon]);
    }
}

/// What follows `var` takes a token at least and never the end of the
/// input.
pub proof fn lemma_var_decl(ts: Seq<TokenView>, pos: nat)
    requires
        ends_input(ts),
        pos < ts.len(),
    ensures
        took(ts, pos, parse_var_decl(ts, pos)),
    decreases left(ts, pos), 0nat,
{
    if tok(ts, pos).token_type is Identifier {
        lemma_not_last(ts, pos);
        if is_at(ts, pos + 1, seq![TokenTypeView::Semicolon]) {
            lemma_taken(ts, pos + 1, seq![TokenTypeView::Semicolon]);
        } else if is_at(ts, pos + 1, seq![TokenTypeView::Equal]) {
            lemma_taken(ts, pos + 1, seq![TokenTypeView::Equal]);
            lemma_expression(ts, pos + 2);
            match parse_expression(ts, pos + 2) {
                Ok((e, n)) => {
                    lemma_semicolon(
                        ts,
                        pos,
                        StatementView::Var(IdentView::of(tok(ts, pos)), Some(e)),
                        n + 2,
                    );
                },
                Err(_) => {},
            }
        }
    }
}

/// What follows `{` takes a token at least and never the end of the input;
/// the guard in it never fails.
pub proof fn lemma_block_items(ts: Seq<TokenView>, pos: nat)
    requires
        ends_input(ts),
        pos < ts.len(),
    ensures
        took(ts, pos, parse_block_items(ts, pos)),
    decreases left(ts, pos), 21nat,
{
    if is_at(ts, pos, seq![TokenTypeView::RightBrace]) {
        lemma_taken(ts, pos, seq![TokenTypeView::RightBrace]);
    } else {
        lemma_declaration(ts, pos);
        match parse_declaration(ts, pos) {
            Ok((Some(s), n)) => {
                lemma_block_items(ts, pos + n);
            },
            _ => {},
        }
    }
}

/// A block takes a token at least and never the end of the input.
pub proof fn lemma_block(ts: Seq<TokenView>, pos: nat)
    requires
        ends_input(ts),
        pos < ts.len(),
    ensures
        took_if_any(ts, pos, parse_block(ts, pos)),
    decreases left(ts, pos), 16nat,
{
    if is_at(ts, pos, seq![TokenTypeView::LeftBrace]) {
        lemma_taken(ts, pos, seq![TokenTypeView::LeftBrace]);
        lemma_block_items(ts, pos + 1);
    }
}

/// The block of an `if` or `else` takes a token at least and never the end
/// of the input.
pub proof fn lemma_branch(ts: Seq<TokenView>, pos: nat)
    requires
        ends_input(ts),
        pos < ts.len(),
    ensures
        took(ts, pos, parse_branch(ts, pos)),
    decreases left(ts, pos), 17nat,
{
    lemma_block(ts, pos);
}

/// An `if` takes a token at least and never the end of the input.
pub proof fn lemma_conditional(ts: Seq<TokenView>, pos: nat)
    requires
        ends_input(ts),
        pos < ts.len(),
    ensures
        took_if_any(ts, pos, parse_conditional(ts, pos)),
    decreases left(ts, pos), 18nat,
{
    if is_at(ts, pos, seq![TokenTypeView::If]) {
        lemma_taken(ts, pos, seq![TokenTypeView::If]);
        lemma_expression(ts, pos + 1);
        match parse_expression(ts, pos + 1) {
            Ok((cond, n)) => {
                lemma_branch(ts, pos + 1 + n);
                match parse_branch(ts, pos + 1 + n) {
                    Ok((then, m)) => {
                        if is_at(ts, pos + 1 + n + m, seq![TokenTypeView::Else]) {
                            lemma_taken(ts, pos + 1 + n + m, seq![TokenTypeView::Else]);
                            lemma_branch(ts, pos + 1 + n + m + 1);
                        }
                    },
                    Err(_) => {},
                }
            },
            Err(_) => {},
        }
    }
}

/// A statement takes a token at least and never the end of the input.
pub proof fn lemma_statement(ts: Seq<TokenView>, pos: nat)
    requires
        ends_input(ts),
        pos < ts.len(),
    ensures
        took(ts, pos, parse_statement(ts, pos)),
    decreases left(ts, pos), 19nat,
{
    if is_at(ts, pos, seq![TokenTypeView::Print]) {
        lemma_taken(ts, pos, seq![TokenTypeView::Print]);
        lemma_expression(ts, pos + 1);
        match parse_expression(ts, pos + 1) {
            Ok((e, n)) => {
                lemma_semicolon(ts, pos, StatementView::Print(e), n + 1);
            },
            Err(_) => {},
        }
    } else {
        lemma_block(ts, pos);
        lemma_conditional(ts, pos);
        if is_at(ts, pos, seq![TokenTypeView::Semicolon]) {
            lemma_taken(ts, pos, seq![TokenTypeView::Semicolon]);
        }
        lemma_expression(ts, pos);
        match parse_expression(ts, pos) {
            Ok((e, n)) => {
                lemma_semicolon(ts, pos, StatementView::Expr(e), n);
            },
            Err(_) => {},
        }
    }
}

/// A declaration takes a token at least; it takes the end of the input
/// where it stands for nothing, and never else.
pub proof fn lemma_declaration(ts: Seq<TokenView>, pos: nat)
    requires
        ends_input(ts),
        pos < ts.len(),
    ensures
        match parse_declaration(ts, pos) {
            Ok((Some(_), n)) => n >= 1 && pos + n < ts.len(),
            Ok((None, n)) => n == 1 && pos + 1 == ts.len(),
            Err(_) => true,
        },
    decreases left(ts, pos), 20nat,
{
    if is_at(ts, pos, seq![TokenTypeView::Eof]) {
        lemma_contains_one(tok(ts, pos).token_type, TokenTypeView::Eof);
    } else if is_at(ts, pos, seq![TokenTypeView::Var]) {
        lemma_taken(ts, pos, seq![TokenTypeView::Var]);
        lemma_var_decl(ts, pos + 1);
    } else {
        lemma_statement(ts, pos);
    }
}

/// A program that parses takes every token, up to the end of the input and
/// with it; the guard in it never fails.
pub proof fn lemma_program_takes_all(ts: Seq<TokenView>, pos: nat)
    requires
        ends_input(ts),
        pos < ts.len(),
    ensures
        parse_program(ts, pos) is Ok ==> pos + program_tokens(ts, pos) == ts.len(),
    decreases left(ts, pos), 22nat,
{
    lemma_declaration(ts, pos);
    match parse_declaration(ts, pos) {
        Ok((Some(s), n)) => {
            lemma_program_takes_all(ts, pos + n);
        },
        _ => {},
    }
}

} // verus!
