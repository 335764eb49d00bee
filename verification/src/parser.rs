//! The parser: consumes a materialized token sequence through a cursor and
//! builds a program by recursive-descent statement parsing and
//! precedence-climbing expression parsing.
//!
//! The whole parse is specified by [`spec_parse_program`]; expressions by
//! [`spec_parse_expr`], whose loop half, [`spec_infix_loop`], binds each
//! operator's right operand at that operator's own level and so nests
//! same-level chains to the left.
//!
//! A parse error does not panic: it aborts the statement being parsed and
//! is surfaced as a structured diagnostic.

use vstd::prelude::*;

use crate::ast::Expression;
use crate::ast::ExpressionView;
use crate::ast::Program;
use crate::ast::Statement;
use crate::ast::StatementView;
use crate::precedences::Precedence;
use crate::precedences::get_precedence;
use crate::precedences::int_precedence;
use crate::precedences::spec_binding_power;
use crate::precedences::spec_get_precedence;
use crate::precedences::spec_int_precedence;
use crate::token::PosView;
use crate::token::Position;
use crate::token::Token;
use crate::token::TokenType;
use crate::token::TokenTypeView;
use crate::token::TokenView;
use crate::token::same_variant;
use crate::token::variant_eq;
use vstd::pervasive::unreached;

verus! {

/// A parse diagnostic. Parse errors are fatal for the statement being
/// parsed: the parser surfaces the diagnostic instead of crashing.
#[derive(Debug)]
pub enum ParserError {
    /// The cursor's successor was not of the expected kind.
    UnexpectedToken { position: Position, expected: TokenType, actual: TokenType },
    /// An expression cannot begin with this token.
    NoPrefixHandler { position: Position, kind: TokenType },
    /// The token sequence ended where a token was still required.
    UnexpectedEnd,
}

/// The mathematical value of a `ParserError`.
#[verifier::ext_equal]
pub enum ParserErrorView {
    UnexpectedToken { position: PosView, expected: TokenTypeView, actual: TokenTypeView },
    NoPrefixHandler { position: PosView, kind: TokenTypeView },
    UnexpectedEnd,
}

impl View for ParserError {
    type V = ParserErrorView;

    open spec fn view(&self) -> ParserErrorView {
        match self {
            ParserError::UnexpectedToken { position, expected, actual } => ParserErrorView::UnexpectedToken {
                position: position@,
                expected: expected@,
                actual: actual@,
            },
            ParserError::NoPrefixHandler { position, kind } => ParserErrorView::NoPrefixHandler {
                position: position@,
                kind: kind@,
            },
            ParserError::UnexpectedEnd => ParserErrorView::UnexpectedEnd,
        }
    }
}

impl DeepView for ParserError {
    type V = ParserErrorView;

    open spec fn deep_view(&self) -> ParserErrorView {
        self.view()
    }
}

/// Whether a token kind has a registered infix handler. A kind without one
/// is no error: its absence is what ends the precedence-climbing loop.
pub open spec fn infix_capable(k: TokenTypeView) -> bool {
    match k {
        TokenTypeView::Plus => true,
        TokenTypeView::Minus => true,
        TokenTypeView::Asterisk => true,
        TokenTypeView::Slash => true,
        TokenTypeView::Equal => true,
        TokenTypeView::NotEqual => true,
        TokenTypeView::LT => true,
        TokenTypeView::GT => true,
        TokenTypeView::LTEq => true,
        TokenTypeView::GTEq => true,
        _ => false,
    }
}

/// The precedence level of the token at `i`, with `LOWEST` both for a kind
/// without a table entry and past the end of the sequence.
pub open spec fn spec_prec_at(toks: Seq<TokenView>, i: int) -> Precedence {
    if 0 <= i && i < toks.len() {
        match spec_get_precedence(toks[i].kind) {
            Some(p) => p,
            None => Precedence::LOWEST,
        }
    } else {
        Precedence::LOWEST
    }
}

/// The prefix half of expression parsing at cursor index `pos`: a literal
/// token yields its literal node with the cursor unmoved; `Minus` and
/// `Bang` parse their operand at `PREFIX` level; any other kind has no
/// prefix handler, which is a fatal parse condition. On success the
/// result carries the index of the expression's last token.
pub open spec fn spec_parse_prefix(toks: Seq<TokenView>, pos: int) -> Result<
    (ExpressionView, int),
    ParserErrorView,
>
    decreases toks.len() - pos, 1int,
{
    if !(0 <= pos && pos < toks.len()) {
        Err(ParserErrorView::UnexpectedEnd)
    } else {
        let t = toks[pos];
        match t.kind {
            TokenTypeView::Integer(_) => Ok((ExpressionView::IntegerLiteral { token: t }, pos)),
            TokenTypeView::Float(_) => Ok((ExpressionView::FloatLiteral { token: t }, pos)),
            TokenTypeView::String(_) => Ok((ExpressionView::StringLiteral { token: t }, pos)),
            TokenTypeView::Boolean(_) => Ok((ExpressionView::BooleanLiteral { token: t }, pos)),
            TokenTypeView::Identifier(_) => Ok(
                (ExpressionView::IdentifierLiteral { token: t }, pos),
            ),
            TokenTypeView::Minus => match spec_parse_expr(
                toks,
                pos + 1,
                spec_int_precedence(Precedence::PREFIX),
            ) {
                Ok((right, last)) => Ok(
                    (ExpressionView::PrefixExpression { token: t, right: Box::new(right) }, last),
                ),
                Err(e) => Err(e),
            },
            TokenTypeView::Bang => match spec_parse_expr(
                toks,
                pos + 1,
                spec_int_precedence(Precedence::PREFIX),
            ) {
                Ok((right, last)) => Ok(
                    (ExpressionView::PrefixExpression { token: t, right: Box::new(right) }, last),
                ),
                Err(e) => Err(e),
            },
            _ => Err(ParserErrorView::NoPrefixHandler { position: t.position, kind: t.kind }),
        }
    }
}

/// One expression at cursor index `pos` with minimum binding power `minp`:
/// the prefix half followed by the precedence-climbing loop.
pub open spec fn spec_parse_expr(toks: Seq<TokenView>, pos: int, minp: int) -> Result<
    (ExpressionView, int),
    ParserErrorView,
>
    decreases toks.len() - pos, 2int,
{
    match spec_parse_prefix(toks, pos) {
        Err(e) => Err(e),
        Ok((left, last)) => {
            if pos <= last && last < toks.len() {
                spec_infix_loop(toks, left, last, minp)
            } else {
                Err(ParserErrorView::UnexpectedEnd)
            }
        },
    }
}

/// The precedence-climbing loop. `left` ends at index `last`; while the
/// next token is not a semicolon, binds more strongly than `minp`, and has
/// an infix handler, that operator's right operand is parsed at the
/// operator's own level — so an operand of equal level is not absorbed,
/// which nests same-level chains to the left — and the combined infix
/// expression becomes the new left operand.
pub open spec fn spec_infix_loop(
    toks: Seq<TokenView>,
    left: ExpressionView,
    last: int,
    minp: int,
) -> Result<(ExpressionView, int), ParserErrorView>
    decreases toks.len() - last, 0int,
{
    let peek = last + 1;
    if peek >= toks.len() || toks[peek].kind is Semicolon || !(spec_binding_power(toks[peek].kind)
        > minp) || !infix_capable(toks[peek].kind) {
        Ok((left, last))
    } else {
        let op = toks[peek];
        match spec_parse_expr(toks, peek + 1, spec_binding_power(op.kind)) {
            Err(e) => Err(e),
            Ok((right, last2)) => {
                if last < last2 && last2 < toks.len() {
                    spec_infix_loop(
                        toks,
                        ExpressionView::InfixExpression {
                            token: op,
                            left: Box::new(left),
                            right: Box::new(right),
                        },
                        last2,
                        minp,
                    )
                } else {
                    Err(ParserErrorView::UnexpectedEnd)
                }
            },
        }
    }
}

/// The cursor index just past an optional trailing semicolon at `j`.
pub open spec fn after_optional_semicolon(toks: Seq<TokenView>, j: int) -> int {
    if 0 <= j && j < toks.len() && toks[j].kind is Semicolon {
        j + 1
    } else {
        j
    }
}

/// One statement at cursor index `pos`. `Return` and the two binding
/// keywords dispatch to their statement forms; anything else is an
/// expression statement. On success the result carries the cursor index
/// just past the statement, its optional trailing semicolon included.
pub open spec fn spec_parse_statement(toks: Seq<TokenView>, pos: int) -> Result<
    (StatementView, int),
    ParserErrorView,
>
    decreases toks.len() - pos, 3int,
{
    if !(0 <= pos && pos < toks.len()) {
        Err(ParserErrorView::UnexpectedEnd)
    } else {
        let t = toks[pos];
        if t.kind is Return {
            match spec_parse_expr(toks, pos + 1, 0) {
                Err(e) => Err(e),
                Ok((v, last)) => Ok(
                    (
                        StatementView::ReturnStatement { token: t, value: Box::new(v) },
                        after_optional_semicolon(toks, last + 1),
                    ),
                ),
            }
        } else if t.kind is Value || t.kind is Update {
            if pos + 1 >= toks.len() {
                Err(ParserErrorView::UnexpectedEnd)
            } else if !(toks[pos + 1].kind is Identifier) {
                Err(
                    ParserErrorView::UnexpectedToken {
                        position: toks[pos + 1].position,
                        expected: TokenTypeView::Identifier(Seq::empty()),
                        actual: toks[pos + 1].kind,
                    },
                )
            } else if pos + 2 >= toks.len() {
                Err(ParserErrorView::UnexpectedEnd)
            } else if !(toks[pos + 2].kind is Assign) {
                Err(
                    ParserErrorView::UnexpectedToken {
                        position: toks[pos + 2].position,
                        expected: TokenTypeView::Assign,
                        actual: toks[pos + 2].kind,
                    },
                )
            } else {
                match spec_parse_expr(toks, pos + 3, 0) {
                    Err(e) => Err(e),
                    Ok((v, last)) => {
                        let next = after_optional_semicolon(toks, last + 1);
                        if t.kind is Value {
                            Ok(
                                (
                                    StatementView::ValueStatement {
                                        token: t,
                                        name: toks[pos + 1],
                                        value: Box::new(v),
                                    },
                                    next,
                                ),
                            )
                        } else {
                            Ok(
                                (
                                    StatementView::UpdateStatement {
                                        token: t,
                                        name: toks[pos + 1],
                                        value: Box::new(v),
                                    },
                                    next,
                                ),
                            )
                        }
                    },
                }
            }
        } else {
            match spec_parse_expr(toks, pos, 0) {
                Err(e) => Err(e),
                Ok((v, last)) => Ok(
                    (
                        StatementView::ExpressionStatement { token: t, expression: Box::new(v) },
                        after_optional_semicolon(toks, last + 1),
                    ),
                ),
            }
        }
    }
}

/// The whole program from cursor index `pos`: statements in encounter
/// order until the tokens are exhausted, and, where a statement fails to
/// parse, the statements parsed so far together with the diagnostic.
pub open spec fn spec_parse_program(toks: Seq<TokenView>, pos: int) -> (Seq<StatementView>, Option<
    ParserErrorView,
>)
    decreases toks.len() - pos, 4int,
{
    if !(0 <= pos && pos < toks.len()) {
        (Seq::empty(), None)
    } else {
        match spec_parse_statement(toks, pos) {
            Err(e) => (Seq::empty(), Some(e)),
            Ok((st, next)) => {
                if pos < next && next <= toks.len() {
                    let rest = spec_parse_program(toks, next);
                    (seq![st] + rest.0, rest.1)
                } else {
                    (Seq::empty(), None)
                }
            },
        }
    }
}

/// A successfully parsed prefix expression ends at or after its first
/// token and inside the sequence.
pub proof fn lemma_prefix_bounds(toks: Seq<TokenView>, pos: int)
    requires
        pos <= toks.len(),
    ensures
        spec_parse_prefix(toks, pos) matches Ok(p) ==> pos <= p.1 < toks.len(),
    decreases toks.len() - pos, 1int,
{
    if 0 <= pos && pos < toks.len() {
        match toks[pos].kind {
            TokenTypeView::Minus => {
                lemma_expr_bounds(toks, pos + 1, spec_int_precedence(Precedence::PREFIX));
            },
            TokenTypeView::Bang => {
                lemma_expr_bounds(toks, pos + 1, spec_int_precedence(Precedence::PREFIX));
            },
            _ => {},
        }
    }
}

/// A successfully parsed expression ends at or after its first token and
/// inside the sequence.
pub proof fn lemma_expr_bounds(toks: Seq<TokenView>, pos: int, minp: int)
    requires
        pos <= toks.len(),
    ensures
        spec_parse_expr(toks, pos, minp) matches Ok(p) ==> pos <= p.1 < toks.len(),
    decreases toks.len() - pos, 2int,
{
    lemma_prefix_bounds(toks, pos);
    match spec_parse_prefix(toks, pos) {
        Err(_) => {},
        Ok((left, last)) => {
            if pos <= last && last < toks.len() {
                lemma_loop_bounds(toks, left, last, minp);
            }
        },
    }
}

/// The precedence-climbing loop only moves the expression's end forward,
/// and keeps it inside the sequence.
pub proof fn lemma_loop_bounds(toks: Seq<TokenView>, left: ExpressionView, last: int, minp: int)
    requires
        0 <= last < toks.len(),
    ensures
        spec_infix_loop(toks, left, last, minp) matches Ok(p) ==> last <= p.1 < toks.len(),
    decreases toks.len() - last, 0int,
{
    let peek = last + 1;
    if peek >= toks.len() || toks[peek].kind is Semicolon || !(spec_binding_power(toks[peek].kind)
        > minp) || !infix_capable(toks[peek].kind) {
    } else {
        let op = toks[peek];
        lemma_expr_bounds(toks, peek + 1, spec_binding_power(op.kind));
        match spec_parse_expr(toks, peek + 1, spec_binding_power(op.kind)) {
            Err(_) => {},
            Ok((right, last2)) => {
                if last < last2 && last2 < toks.len() {
                    lemma_loop_bounds(
                        toks,
                        ExpressionView::InfixExpression {
                            token: op,
                            left: Box::new(left),
                            right: Box::new(right),
                        },
                        last2,
                        minp,
                    );
                }
            },
        }
    }
}

/// The parser state: an immutable, fully materialized token sequence and
/// a cursor into it.
#[derive(Debug)]
pub struct Parser {
    pub tokens: Vec<Token>,
    pub position: usize,
}

impl Parser {
    /// The mathematical values of the token sequence.
    pub open spec fn toks(&self) -> Seq<TokenView> {
        self.tokens.deep_view()
    }

    /// The cursor is inside the sequence or just past its end.
    pub open spec fn wf(&self) -> bool {
        &&& self.tokens@.len() < usize::MAX
        &&& self.position <= self.tokens@.len()
    }

    /// A parser over `tokens` with the cursor at the start.
    pub fn new(tokens: Vec<Token>) -> (r: Parser)
        requires
            tokens@.len() < usize::MAX,
        ensures
            r.wf(),
            r.tokens == tokens,
            r.position == 0,
    {
        Parser { tokens, position: 0 }
    }

    /// The token under the cursor, if any.
    pub fn current_token(&self) -> (r: Option<Token>)
        ensures
            match r {
                Some(t) => self.position < self.tokens@.len() && t == self.tokens@[self.position as int],
                None => self.position >= self.tokens@.len(),
            },
    {
        if self.position < self.tokens.len() {
            Some(self.tokens[self.position].duplicate())
        } else {
            None
        }
    }

    /// The token just after the cursor, if any.
    pub fn peek_token(&self) -> (r: Option<Token>)
        requires
            self.wf(),
        ensures
            match r {
                Some(t) => self.position + 1 < self.tokens@.len() && t == self.tokens@[self.position as int + 1],
                None => self.position + 1 >= self.tokens@.len(),
            },
    {
        if self.position + 1 < self.tokens.len() {
            Some(self.tokens[self.position + 1].duplicate())
        } else {
            None
        }
    }

    /// Moves the cursor one token forward.
    pub fn consume_token(&mut self)
        requires
            old(self).wf(),
            old(self).position < old(self).tokens@.len(),
        ensures
            final(self).wf(),
            final(self).tokens == old(self).tokens,
            final(self).position == old(self).position + 1,
    {
        self.position = self.position + 1;
    }

    /// The precedence level of the token under the cursor; `LOWEST` for a
    /// kind without a table entry and past the end.
    pub fn current_precedence(&self) -> (r: Precedence)
        ensures
            r == spec_prec_at(self.toks(), self.position as int),
    {
        match self.current_token() {
            Some(t) => match get_precedence(t.kind) {
                Some(p) => p,
                _ => Precedence::LOWEST,
            },
            _ => Precedence::LOWEST,
        }
    }

    /// The precedence level of the token just after the cursor; `LOWEST`
    /// for a kind without a table entry and past the end.
    pub fn peek_precedence(&self) -> (r: Precedence)
        requires
            self.wf(),
        ensures
            r == spec_prec_at(self.toks(), self.position as int + 1),
    {
        if let Some(peek) = self.peek_token() {
            return match get_precedence(peek.kind) {
                Some(p) => p,
                _ => Precedence::LOWEST,
            };
        } else {
            return Precedence::LOWEST;
        }
    }

    /// Whether the token under the cursor exists and is exactly `kind`,
    /// payload included.
    pub fn current_token_is(&self, kind: &TokenType) -> (r: bool)
        ensures
            r == (self.position < self.toks().len() && self.toks()[self.position as int].kind
                == kind@),
    {
        if let Some(t) = self.current_token() {
            return t.kind == *kind;
        } else {
            return false;
        }
    }

    /// Whether the token just after the cursor exists and is exactly
    /// `kind`, payload included.
    pub fn peek_token_is(&self, kind: &TokenType) -> (r: bool)
        requires
            self.wf(),
        ensures
            r == (self.position + 1 < self.toks().len() && self.toks()[self.position as int
                + 1].kind == kind@),
    {
        if let Some(t) = self.peek_token() {
            return t.kind == *kind;
        } else {
            return false;
        }
    }

    /// Advances onto the next token and reports true when that token is of
    /// the same kind variant as `kind`; otherwise reports false with the
    /// cursor unmoved. A mismatch is the caller's fatal parse condition.
    pub fn expect_peek(&mut self, kind: &TokenType) -> (r: bool)
        requires
            old(self).wf(),
        ensures
            final(self).wf(),
            final(self).tokens == old(self).tokens,
            r == (old(self).position + 1 < old(self).toks().len() && same_variant(
                old(self).toks()[old(self).position as int + 1].kind,
                kind@,
            )),
            r ==> final(self).position == old(self).position + 1,
            !r ==> final(self).position == old(self).position,
    {
        match self.peek_token() {
            Some(t) => {
                if variant_eq(&t.kind, kind) {
                    self.consume_token();
                    true
                } else {
                    false
                }
            },
            None => false,
        }
    }
}

/// A successfully parsed statement moves the cursor strictly forward and
/// not past the end of the sequence.
pub proof fn lemma_stmt_bounds(toks: Seq<TokenView>, pos: int)
    requires
        pos <= toks.len(),
    ensures
        spec_parse_statement(toks, pos) matches Ok(p) ==> pos < p.1 <= toks.len(),
{
    if 0 <= pos && pos < toks.len() {
        lemma_expr_bounds(toks, pos, 0);
        lemma_expr_bounds(toks, pos + 1, 0);
        if pos + 3 <= toks.len() {
            lemma_expr_bounds(toks, pos + 3, 0);
        }
    }
}

impl Parser {
    /// An identifier literal expression from the token under the cursor.
    fn parseIdentifierExpression(&self) -> (r: Expression)
        requires
            self.position < self.tokens@.len(),
        ensures
            r@ == (ExpressionView::IdentifierLiteral { token: self.toks()[self.position as int] }),
    {
        Expression::IdentifierLiteral {
            token: match self.current_token() {
                Some(t) => t,
                None => unreached(),
            },
        }
    }

    /// A boolean literal expression from the token under the cursor.
    fn parseBooleanExpression(&self) -> (r: Expression)
        requires
            self.position < self.tokens@.len(),
        ensures
            r@ == (ExpressionView::BooleanLiteral { token: self.toks()[self.position as int] }),
    {
        Expression::BooleanLiteral {
            token: match self.current_token() {
                Some(t) => t,
                None => unreached(),
            },
        }
    }

    /// An integer literal expression from the token under the cursor.
    fn parseIntegerExpression(&self) -> (r: Expression)
        requires
            self.position < self.tokens@.len(),
        ensures
            r@ == (ExpressionView::IntegerLiteral { token: self.toks()[self.position as int] }),
    {
        Expression::IntegerLiteral {
            token: match self.current_token() {
                Some(t) => t,
                None => unreached(),
            },
        }
    }

    /// A float literal expression from the token under the cursor.
    fn parseFloatExpression(&self) -> (r: Expression)
        requires
            self.position < self.tokens@.len(),
        ensures
            r@ == (ExpressionView::FloatLiteral { token: self.toks()[self.position as int] }),
    {
        Expression::FloatLiteral {
            token: match self.current_token() {
                Some(t) => t,
                None => unreached(),
            },
        }
    }

    /// A string literal expression from the token under the cursor.
    fn parseStringExpression(&self) -> (r: Expression)
        requires
            self.position < self.tokens@.len(),
        ensures
            r@ == (ExpressionView::StringLiteral { token: self.toks()[self.position as int] }),
    {
        Expression::StringLiteral {
            token: match self.current_token() {
                Some(t) => t,
                None => unreached(),
            },
        }
    }

    /// Whether a token kind has a registered infix handler.
    pub fn checkInfixExpression(&self, kind: &TokenType) -> (r: bool)
        ensures
            r == infix_capable(kind@),
    {
        match kind {
            TokenType::Plus => true,
            TokenType::Minus => true,
            TokenType::Asterisk => true,
            TokenType::Slash => true,
            TokenType::Equal => true,
            TokenType::NotEqual => true,
            TokenType::LT => true,
            TokenType::GT => true,
            TokenType::LTEq => true,
            TokenType::GTEq => true,
            _ => false,
        }
    }

    /// The unary-prefix handler: consumes the operator under the cursor
    /// and parses its operand at `PREFIX` level.
    fn parsePrefixExpression(&mut self) -> (r: Result<Expression, ParserError>)
        requires
            old(self).wf(),
            old(self).position < old(self).tokens@.len(),
            old(self).toks()[old(self).position as int].kind is Minus || old(self).toks()[old(
                self,
            ).position as int].kind is Bang,
        ensures
            final(self).wf(),
            final(self).tokens == old(self).tokens,
            ({
                let res = spec_parse_prefix(old(self).toks(), old(self).position as int);
                match r {
                    Ok(e) => res matches Ok(p) && e@ == p.0 && final(self).position as int == p.1,
                    Err(er) => res matches Err(ev) && er@ == ev,
                }
            }),
        decreases old(self).tokens@.len() - old(self).position, 0int,
    {
        let tok = match self.current_token() {
            Some(t) => t,
            None => unreached(),
        };
        self.consume_token();
        let right = match self.parseExpression(Precedence::PREFIX) {
            Ok(e) => e,
            Err(er) => {
                return Err(er);
            },
        };
        Ok(Expression::PrefixExpression { token: tok, right: Box::new(right) })
    }

    /// The prefix dispatch: a literal token yields its literal node with
    /// the cursor unmoved; `Minus` and `Bang` go to the unary-prefix
    /// handler; any other kind has no prefix handler, a fatal parse
    /// condition.
    pub fn matchPrefixExpression(&mut self) -> (r: Result<Expression, ParserError>)
        requires
            old(self).wf(),
        ensures
            final(self).wf(),
            final(self).tokens == old(self).tokens,
            ({
                let res = spec_parse_prefix(old(self).toks(), old(self).position as int);
                match r {
                    Ok(e) => res matches Ok(p) && e@ == p.0 && final(self).position as int == p.1,
                    Err(er) => res matches Err(ev) && er@ == ev,
                }
            }),
        decreases old(self).tokens@.len() - old(self).position, 1int,
    {
        let t = match self.current_token() {
            Some(t) => t,
            None => {
                return Err(ParserError::UnexpectedEnd);
            },
        };
        match &t.kind {
            TokenType::Integer(_) => Ok(self.parseIntegerExpression()),
            TokenType::Float(_) => Ok(self.parseFloatExpression()),
            TokenType::String(_) => Ok(self.parseStringExpression()),
            TokenType::Boolean(_) => Ok(self.parseBooleanExpression()),
            TokenType::Identifier(_) => Ok(self.parseIdentifierExpression()),
            TokenType::Minus => self.parsePrefixExpression(),
            TokenType::Bang => self.parsePrefixExpression(),
            _ => Err(ParserError::NoPrefixHandler { position: t.position, kind: t.kind }),
        }
    }

    /// An infix handler: consumes the operator under the cursor, captures
    /// its precedence, and parses the right operand at that same
    /// precedence — a right operand of equal precedence is not absorbed,
    /// so same-precedence chains nest to the left.
    pub fn parseInfixExpression(&mut self, left: Expression) -> (r: Result<
        Expression,
        ParserError,
    >)
        requires
            old(self).wf(),
            old(self).position < old(self).tokens@.len(),
            infix_capable(old(self).toks()[old(self).position as int].kind),
        ensures
            final(self).wf(),
            final(self).tokens == old(self).tokens,
            ({
                let op = old(self).toks()[old(self).position as int];
                let res = spec_parse_expr(
                    old(self).toks(),
                    old(self).position as int + 1,
                    spec_binding_power(op.kind),
                );
                match r {
                    Ok(e) => res matches Ok(p) && e@ == (ExpressionView::InfixExpression {
                        token: op,
                        left: Box::new(left@),
                        right: Box::new(p.0),
                    }) && final(self).position as int == p.1,
                    Err(er) => res matches Err(ev) && er@ == ev,
                }
            }),
        decreases old(self).tokens@.len() - old(self).position, 0int,
    {
        let tok = match self.current_token() {
            Some(t) => t,
            None => unreached(),
        };
        let precedence = self.current_precedence();
        self.consume_token();
        let right = match self.parseExpression(precedence) {
            Ok(e) => e,
            Err(er) => {
                return Err(er);
            },
        };
        Ok(Expression::InfixExpression { token: tok, left: Box::new(left), right: Box::new(right) })
    }

    /// One expression with minimum binding power `precedence`: the prefix
    /// dispatch followed by the precedence-climbing loop. On success the
    /// cursor rests on the expression's last token.
    pub fn parseExpression(&mut self, precedence: Precedence) -> (r: Result<
        Expression,
        ParserError,
    >)
        requires
            old(self).wf(),
        ensures
            final(self).wf(),
            final(self).tokens == old(self).tokens,
            ({
                let res = spec_parse_expr(
                    old(self).toks(),
                    old(self).position as int,
                    spec_int_precedence(precedence),
                );
                match r {
                    Ok(e) => res matches Ok(p) && e@ == p.0 && final(self).position as int == p.1,
                    Err(er) => res matches Err(ev) && er@ == ev,
                }
            }),
        decreases old(self).tokens@.len() - old(self).position, 2int,
    {
        let ghost toks0 = self.toks();
        let ghost pos0 = self.position as int;
        let ghost minp = spec_int_precedence(precedence);
        let mut left = match self.matchPrefixExpression() {
            Ok(e) => e,
            Err(er) => {
                return Err(er);
            },
        };
        proof {
            lemma_prefix_bounds(toks0, pos0);
        }
        loop
            invariant
                self.wf(),
                self.tokens == old(self).tokens,
                toks0 == self.toks(),
                minp == spec_int_precedence(precedence),
                pos0 == old(self).position as int,
                0 <= pos0,
                pos0 <= self.position as int,
                (self.position as int) < toks0.len(),
                spec_infix_loop(toks0, left@, self.position as int, minp) == spec_parse_expr(
                    toks0,
                    pos0,
                    minp,
                ),
            ensures
                spec_parse_expr(toks0, pos0, minp) == Ok::<(ExpressionView, int), ParserErrorView>(
                    (left@, self.position as int),
                ),
            decreases toks0.len() - self.position as int,
        {
            if self.peek_token_is(&TokenType::Semicolon) {
                break;
            }
            let pprec = self.peek_precedence();
            if !(int_precedence(precedence) < int_precedence(pprec)) {
                break;
            }
            let peeked = match self.peek_token() {
                Some(t) => t,
                None => unreached(),
            };
            if !self.checkInfixExpression(&peeked.kind) {
                break;
            }
            self.consume_token();
            let ghost lpre = *self;
            left = match self.parseInfixExpression(left) {
                Ok(e) => e,
                Err(er) => {
                    return Err(er);
                },
            };
            proof {
                lemma_expr_bounds(
                    toks0,
                    lpre.position as int + 1,
                    spec_binding_power(toks0[lpre.position as int].kind),
                );
            }
        }
        Ok(left)
    }

    /// A return statement: the keyword, the returned expression at the
    /// weakest level, and an optional trailing semicolon.
    fn parseReturnStatement(&mut self) -> (r: Result<Statement, ParserError>)
        requires
            old(self).wf(),
            old(self).position < old(self).tokens@.len(),
            old(self).toks()[old(self).position as int].kind is Return,
        ensures
            final(self).wf(),
            final(self).tokens == old(self).tokens,
            ({
                let res = spec_parse_statement(old(self).toks(), old(self).position as int);
                match r {
                    Ok(st) => res matches Ok(p) && st@ == p.0 && final(self).position as int
                        == p.1,
                    Err(er) => res matches Err(ev) && er@ == ev,
                }
            }),
    {
        let tok = match self.current_token() {
            Some(t) => t,
            None => unreached(),
        };
        self.consume_token();
        let value = match self.parseExpression(Precedence::LOWEST) {
            Ok(e) => e,
            Err(er) => {
                return Err(er);
            },
        };
        proof {
            lemma_expr_bounds(old(self).toks(), old(self).position as int + 1, 0);
        }
        self.consume_token();
        if self.current_token_is(&TokenType::Semicolon) {
            self.consume_token();
        }
        Ok(Statement::ReturnStatement { token: tok, value: Box::new(value) })
    }

    /// A value statement: the keyword, the bound name, `=`, the bound
    /// expression, and an optional trailing semicolon. It introduces an
    /// immutable binding.
    fn parseValueStatement(&mut self) -> (r: Result<Statement, ParserError>)
        requires
            old(self).wf(),
            old(self).position < old(self).tokens@.len(),
            old(self).toks()[old(self).position as int].kind is Value,
        ensures
            final(self).wf(),
            final(self).tokens == old(self).tokens,
            ({
                let res = spec_parse_statement(old(self).toks(), old(self).position as int);
                match r {
                    Ok(st) => res matches Ok(p) && st@ == p.0 && final(self).position as int
                        == p.1,
                    Err(er) => res matches Err(ev) && er@ == ev,
                }
            }),
    {
        let tok = match self.current_token() {
            Some(t) => t,
            None => unreached(),
        };
        let name = match self.peek_token() {
            None => {
                return Err(ParserError::UnexpectedEnd);
            },
            Some(t) => t,
        };
        if !variant_eq(&name.kind, &TokenType::Identifier(String::new())) {
            return Err(
                ParserError::UnexpectedToken {
                    position: name.position,
                    expected: TokenType::Identifier(String::new()),
                    actual: name.kind,
                },
            );
        }
        self.consume_token();
        match self.peek_token() {
            None => {
                return Err(ParserError::UnexpectedEnd);
            },
            Some(t) => {
                if !variant_eq(&t.kind, &TokenType::Assign) {
                    return Err(
                        ParserError::UnexpectedToken {
                            position: t.position,
                            expected: TokenType::Assign,
                            actual: t.kind,
                        },
                    );
                }
            },
        }
        self.consume_token();
        self.consume_token();
        let value = match self.parseExpression(Precedence::LOWEST) {
            Ok(e) => e,
            Err(er) => {
                return Err(er);
            },
        };
        proof {
            lemma_expr_bounds(old(self).toks(), old(self).position as int + 3, 0);
        }
        self.consume_token();
        if self.current_token_is(&TokenType::Semicolon) {
            self.consume_token();
        }
        Ok(Statement::ValueStatement { token: tok, name, value: Box::new(value) })
    }

    /// An update statement: like a value statement, but it rebinds an
    /// existing name.
    fn parseUpdateStatement(&mut self) -> (r: Result<Statement, ParserError>)
        requires
            old(self).wf(),
            old(self).position < old(self).tokens@.len(),
            old(self).toks()[old(self).position as int].kind is Update,
        ensures
            final(self).wf(),
            final(self).tokens == old(self).tokens,
            ({
                let res = spec_parse_statement(old(self).toks(), old(self).position as int);
                match r {
                    Ok(st) => res matches Ok(p) && st@ == p.0 && final(self).position as int
                        == p.1,
                    Err(er) => res matches Err(ev) && er@ == ev,
                }
            }),
    {
        let tok = match self.current_token() {
            Some(t) => t,
            None => unreached(),
        };
        let name = match self.peek_token() {
            None => {
                return Err(ParserError::UnexpectedEnd);
            },
            Some(t) => t,
        };
        if !variant_eq(&name.kind, &TokenType::Identifier(String::new())) {
            return Err(
                ParserError::UnexpectedToken {
                    position: name.position,
                    expected: TokenType::Identifier(String::new()),
                    actual: name.kind,
                },
            );
        }
        self.consume_token();
        match self.peek_token() {
            None => {
                return Err(ParserError::UnexpectedEnd);
            },
            Some(t) => {
                if !variant_eq(&t.kind, &TokenType::Assign) {
                    return Err(
                        ParserError::UnexpectedToken {
                            position: t.position,
                            expected: TokenType::Assign,
                            actual: t.kind,
                        },
                    );
                }
            },
        }
        self.consume_token();
        self.consume_token();
        let value = match self.parseExpression(Precedence::LOWEST) {
            Ok(e) => e,
            Err(er) => {
                return Err(er);
            },
        };
        proof {
            lemma_expr_bounds(old(self).toks(), old(self).position as int + 3, 0);
        }
        self.consume_token();
        if self.current_token_is(&TokenType::Semicolon) {
            self.consume_token();
        }
        Ok(Statement::UpdateStatement { token: tok, name, value: Box::new(value) })
    }

    /// An expression statement: a bare expression at the weakest level,
    /// with an optional trailing semicolon.
    fn parseExpressionStatement(&mut self) -> (r: Result<Statement, ParserError>)
        requires
            old(self).wf(),
            old(self).position < old(self).tokens@.len(),
            !(old(self).toks()[old(self).position as int].kind is Return),
            !(old(self).toks()[old(self).position as int].kind is Value),
            !(old(self).toks()[old(self).position as int].kind is Update),
        ensures
            final(self).wf(),
            final(self).tokens == old(self).tokens,
            ({
                let res = spec_parse_statement(old(self).toks(), old(self).position as int);
                match r {
                    Ok(st) => res matches Ok(p) && st@ == p.0 && final(self).position as int
                        == p.1,
                    Err(er) => res matches Err(ev) && er@ == ev,
                }
            }),
    {
        let tok = match self.current_token() {
            Some(t) => t,
            None => unreached(),
        };
        let expression = match self.parseExpression(Precedence::LOWEST) {
            Ok(e) => e,
            Err(er) => {
                return Err(er);
            },
        };
        proof {
            lemma_expr_bounds(old(self).toks(), old(self).position as int, 0);
        }
        self.consume_token();
        if self.current_token_is(&TokenType::Semicolon) {
            self.consume_token();
        }
        Ok(Statement::ExpressionStatement { token: tok, expression: Box::new(expression) })
    }

    /// One statement, dispatched on the token under the cursor: `return`
    /// and the two binding keywords go to their statement forms, anything
    /// else is an expression statement.
    fn parseStatement(&mut self) -> (r: Result<Statement, ParserError>)
        requires
            old(self).wf(),
            old(self).position < old(self).tokens@.len(),
        ensures
            final(self).wf(),
            final(self).tokens == old(self).tokens,
            ({
                let res = spec_parse_statement(old(self).toks(), old(self).position as int);
                match r {
                    Ok(st) => res matches Ok(p) && st@ == p.0 && final(self).position as int
                        == p.1,
                    Err(er) => res matches Err(ev) && er@ == ev,
                }
            }),
    {
        let t = match self.current_token() {
            Some(t) => t,
            None => unreached(),
        };
        match &t.kind {
            TokenType::Value => self.parseValueStatement(),
            TokenType::Update => self.parseUpdateStatement(),
            TokenType::Return => self.parseReturnStatement(),
            _ => self.parseExpressionStatement(),
        }
    }

    /// The whole program: statements in encounter order while the cursor
    /// has not reached the end of the token sequence. Where a statement
    /// fails to parse, the parse stops and the statements parsed so far
    /// are returned together with the diagnostic.
    pub fn parseProgram(&mut self) -> (r: (Program, Option<ParserError>))
        requires
            old(self).wf(),
        ensures
            final(self).wf(),
            final(self).tokens == old(self).tokens,
            ({
                let res = spec_parse_program(old(self).toks(), old(self).position as int);
                &&& r.0@.statements == res.0
                &&& match r.1 {
                    Some(e) => res.1 matches Some(ev) && e@ == ev,
                    None => res.1 is None,
                }
            }),
    {
        let ghost toks0 = self.toks();
        let ghost pos0 = self.position as int;
        let ghost res = spec_parse_program(toks0, pos0);
        let mut statements: Vec<Statement> = Vec::new();
        proof {
            assert(statements.deep_view() + spec_parse_program(toks0, pos0).0 =~= spec_parse_program(
                toks0,
                pos0,
            ).0);
        }
        loop
            invariant
                self.wf(),
                self.tokens == old(self).tokens,
                toks0 == self.toks(),
                pos0 == old(self).position as int,
                res == spec_parse_program(toks0, pos0),
                res.0 == statements.deep_view() + spec_parse_program(
                    toks0,
                    self.position as int,
                ).0,
                res.1 == spec_parse_program(toks0, self.position as int).1,
            ensures
                res.0 == statements.deep_view(),
                res.1 is None,
            decreases toks0.len() - self.position as int,
        {
            if self.position >= self.tokens.len() {
                proof {
                    assert(spec_parse_program(toks0, self.position as int).0
                        =~= Seq::<StatementView>::empty());
                    assert(res.0 =~= statements.deep_view());
                }
                break;
            }
            let ghost spre = *self;
            let ghost tv = statements.deep_view();
            match self.parseStatement() {
                Ok(stmt) => {
                    proof {
                        lemma_stmt_bounds(toks0, spre.position as int);
                    }
                    statements.push(stmt);
                    proof {
                        let rest0 = spec_parse_program(toks0, self.position as int).0;
                        assert(statements.deep_view() =~= tv.push(stmt@));
                        assert(tv + (seq![stmt@] + rest0) =~= tv.push(stmt@) + rest0);
                    }
                },
                Err(e) => {
                    proof {
                        assert(res.0 =~= statements.deep_view());
                    }
                    return (Program { statements }, Some(e));
                },
            }
        }
        (Program { statements }, None)
    }
}

} // verus!
