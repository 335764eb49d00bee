//! The abstract syntax tree: a closed set of expression variants, a closed
//! set of statement variants, and a program as the tree root. Every node
//! keeps its originating token for positions and diagnostics.

use vstd::prelude::*;

use crate::token::Token;
use crate::token::TokenView;

verus! {

broadcast use
    vstd::std_specs::vec::axiom_vec_decreases_to_view,
    vstd::seq::axiom_seq_index_decreases,
    vstd::seq::axiom_seq_subrange_decreases,
;

/// An expression node. The parser builds the literal, prefix, and infix
/// variants; the remaining variants complete the closed shape that the
/// evaluator consumes.
#[derive(Debug)]
pub enum Expression {
    IdentifierLiteral { token: Token },
    StringLiteral { token: Token },
    ArrayLiteral { token: Token, elements: Vec<Expression> },
    BooleanLiteral { token: Token },
    IntegerLiteral { token: Token },
    FloatLiteral { token: Token },
    IndexExpression { token: Token, left: Box<Expression>, index: Box<Expression> },
    MapLiteral { token: Token, pairs: Vec<(Expression, Expression)> },
    FunctionLiteral { token: Token, parameters: Vec<Expression>, body: Box<Statement> },
    PrefixExpression { token: Token, right: Box<Expression> },
    InfixExpression { token: Token, left: Box<Expression>, right: Box<Expression> },
    IfExpression {
        token: Token,
        condition: Box<Expression>,
        consequence: Box<Statement>,
        alternative: Option<Box<Statement>>,
    },
}

/// A statement node.
#[derive(Debug)]
pub enum Statement {
    BlockStatement { token: Token, statements: Vec<Statement> },
    ExpressionStatement { token: Token, expression: Box<Expression> },
    ValueStatement { token: Token, name: Token, value: Box<Expression> },
    UpdateStatement { token: Token, name: Token, value: Box<Expression> },
    ReturnStatement { token: Token, value: Box<Expression> },
}

/// The tree root: the top-level statements in encounter order.
#[derive(Debug)]
pub struct Program {
    pub statements: Vec<Statement>,
}

/// The mathematical value of an `Expression`.
#[verifier::ext_equal]
pub enum ExpressionView {
    IdentifierLiteral { token: TokenView },
    StringLiteral { token: TokenView },
    ArrayLiteral { token: TokenView, elements: Seq<ExpressionView> },
    BooleanLiteral { token: TokenView },
    IntegerLiteral { token: TokenView },
    FloatLiteral { token: TokenView },
    IndexExpression { token: TokenView, left: Box<ExpressionView>, index: Box<ExpressionView> },
    MapLiteral { token: TokenView, pairs: Seq<(ExpressionView, ExpressionView)> },
    FunctionLiteral {
        token: TokenView,
        parameters: Seq<ExpressionView>,
        body: Box<StatementView>,
    },
    PrefixExpression { token: TokenView, right: Box<ExpressionView> },
    InfixExpression { token: TokenView, left: Box<ExpressionView>, right: Box<ExpressionView> },
    IfExpression {
        token: TokenView,
        condition: Box<ExpressionView>,
        consequence: Box<StatementView>,
        alternative: Option<Box<StatementView>>,
    },
}

/// The mathematical value of a `Statement`.
#[verifier::ext_equal]
pub enum StatementView {
    BlockStatement { token: TokenView, statements: Seq<StatementView> },
    ExpressionStatement { token: TokenView, expression: Box<ExpressionView> },
    ValueStatement { token: TokenView, name: TokenView, value: Box<ExpressionView> },
    UpdateStatement { token: TokenView, name: TokenView, value: Box<ExpressionView> },
    ReturnStatement { token: TokenView, value: Box<ExpressionView> },
}

/// The mathematical value of a `Program`.
#[verifier::ext_equal]
pub struct ProgramView {
    pub statements: Seq<StatementView>,
}

/// The mathematical value of an expression node.
pub open spec fn view_expr(e: Expression) -> ExpressionView
    decreases e, 1int,
{
    match e {
        Expression::IdentifierLiteral { token } => ExpressionView::IdentifierLiteral {
            token: token@,
        },
        Expression::StringLiteral { token } => ExpressionView::StringLiteral { token: token@ },
        Expression::ArrayLiteral { token, elements } => ExpressionView::ArrayLiteral {
            token: token@,
            elements: view_exprs(elements@),
        },
        Expression::BooleanLiteral { token } => ExpressionView::BooleanLiteral { token: token@ },
        Expression::IntegerLiteral { token } => ExpressionView::IntegerLiteral { token: token@ },
        Expression::FloatLiteral { token } => ExpressionView::FloatLiteral { token: token@ },
        Expression::IndexExpression { token, left, index } => ExpressionView::IndexExpression {
            token: token@,
            left: Box::new(view_expr(*left)),
            index: Box::new(view_expr(*index)),
        },
        Expression::MapLiteral { token, pairs } => ExpressionView::MapLiteral {
            token: token@,
            pairs: view_pairs(pairs@),
        },
        Expression::FunctionLiteral { token, parameters, body } => ExpressionView::FunctionLiteral {
            token: token@,
            parameters: view_exprs(parameters@),
            body: Box::new(view_stmt(*body)),
        },
        Expression::PrefixExpression { token, right } => ExpressionView::PrefixExpression {
            token: token@,
            right: Box::new(view_expr(*right)),
        },
        Expression::InfixExpression { token, left, right } => ExpressionView::InfixExpression {
            token: token@,
            left: Box::new(view_expr(*left)),
            right: Box::new(view_expr(*right)),
        },
        Expression::IfExpression { token, condition, consequence, alternative } => ExpressionView::IfExpression {
            token: token@,
            condition: Box::new(view_expr(*condition)),
            consequence: Box::new(view_stmt(*consequence)),
            alternative: match alternative {
                Some(a) => Some(Box::new(view_stmt(*a))),
                None => None,
            },
        },
    }
}

/// The mathematical values of a sequence of expression nodes.
pub open spec fn view_exprs(v: Seq<Expression>) -> Seq<ExpressionView>
    decreases v, 0int,
{
    if v.len() == 0 {
        Seq::empty()
    } else {
        seq![view_expr(v[0])] + view_exprs(v.subrange(1, v.len() as int))
    }
}

/// The mathematical values of a sequence of expression pairs.
pub open spec fn view_pairs(v: Seq<(Expression, Expression)>) -> Seq<
    (ExpressionView, ExpressionView),
>
    decreases v, 0int,
{
    if v.len() == 0 {
        Seq::empty()
    } else {
        seq![(view_expr(v[0].0), view_expr(v[0].1))] + view_pairs(v.subrange(1, v.len() as int))
    }
}

/// The mathematical value of a statement node.
pub open spec fn view_stmt(st: Statement) -> StatementView
    decreases st, 1int,
{
    match st {
        Statement::BlockStatement { token, statements } => StatementView::BlockStatement {
            token: token@,
            statements: view_stmts(statements@),
        },
        Statement::ExpressionStatement { token, expression } => StatementView::ExpressionStatement {
            token: token@,
            expression: Box::new(view_expr(*expression)),
        },
        Statement::ValueStatement { token, name, value } => StatementView::ValueStatement {
            token: token@,
            name: name@,
            value: Box::new(view_expr(*value)),
        },
        Statement::UpdateStatement { token, name, value } => StatementView::UpdateStatement {
            token: token@,
            name: name@,
            value: Box::new(view_expr(*value)),
        },
        Statement::ReturnStatement { token, value } => StatementView::ReturnStatement {
            token: token@,
            value: Box::new(view_expr(*value)),
        },
    }
}

/// The mathematical values of a sequence of statement nodes.
pub open spec fn view_stmts(v: Seq<Statement>) -> Seq<StatementView>
    decreases v, 0int,
{
    if v.len() == 0 {
        Seq::empty()
    } else {
        seq![view_stmt(v[0])] + view_stmts(v.subrange(1, v.len() as int))
    }
}

impl View for Expression {
    type V = ExpressionView;

    open spec fn view(&self) -> ExpressionView {
        view_expr(*self)
    }
}

impl DeepView for Expression {
    type V = ExpressionView;

    open spec fn deep_view(&self) -> ExpressionView {
        self.view()
    }
}

impl View for Statement {
    type V = StatementView;

    open spec fn view(&self) -> StatementView {
        view_stmt(*self)
    }
}

impl DeepView for Statement {
    type V = StatementView;

    open spec fn deep_view(&self) -> StatementView {
        self.view()
    }
}

impl View for Program {
    type V = ProgramView;

    open spec fn view(&self) -> ProgramView {
        ProgramView { statements: self.statements.deep_view() }
    }
}

} // verus!
