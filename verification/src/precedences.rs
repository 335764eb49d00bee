//! The precedence table: a pure mapping from infix-capable token kinds to
//! binding-power levels. This table is the sole determinant of infix
//! eligibility and of how deep a right-hand side binds.

use vstd::prelude::*;
use crate::token::TokenType;
use crate::token::TokenTypeView;

verus! {

/// Binding-power levels, weakest first.
#[derive(Clone, Copy, Debug, PartialEq, Eq, Structural)]
pub enum Precedence {
    LOWEST,
    AND,
    OR,
    EQUALS,
    LESSGREATER,
    SUM,
    PRODUCT,
    PREFIX,
    CALL,
    INDEX,
}

/// The numeric rank of a precedence level.
pub open spec fn spec_int_precedence(precedence: Precedence) -> int {
    match precedence {
        Precedence::LOWEST => 0,
        Precedence::AND => 1,
        Precedence::OR => 2,
        Precedence::EQUALS => 3,
        Precedence::LESSGREATER => 4,
        Precedence::SUM => 5,
        Precedence::PRODUCT => 6,
        Precedence::PREFIX => 7,
        Precedence::CALL => 8,
        Precedence::INDEX => 9,
    }
}

/// The numeric rank of a precedence level.
pub fn int_precedence(precedence: Precedence) -> (r: usize)
    ensures
        r == spec_int_precedence(precedence),
{
    match precedence {
        Precedence::LOWEST => 0,
        Precedence::AND => 1,
        Precedence::OR => 2,
        Precedence::EQUALS => 3,
        Precedence::LESSGREATER => 4,
        Precedence::SUM => 5,
        Precedence::PRODUCT => 6,
        Precedence::PREFIX => 7,
        Precedence::CALL => 8,
        Precedence::INDEX => 9,
    }
}

/// The table entry for a token kind: the level at which the kind binds as
/// an infix operator, or nothing for a kind with no entry.
pub open spec fn spec_get_precedence(kind: TokenTypeView) -> Option<Precedence> {
    match kind {
        TokenTypeView::Equal => Some(Precedence::EQUALS),
        TokenTypeView::NotEqual => Some(Precedence::EQUALS),
        TokenTypeView::LT => Some(Precedence::LESSGREATER),
        TokenTypeView::GT => Some(Precedence::LESSGREATER),
        TokenTypeView::LTEq => Some(Precedence::LESSGREATER),
        TokenTypeView::GTEq => Some(Precedence::LESSGREATER),
        TokenTypeView::Or => Some(Precedence::OR),
        TokenTypeView::And => Some(Precedence::AND),
        TokenTypeView::Plus => Some(Precedence::SUM),
        TokenTypeView::Minus => Some(Precedence::SUM),
        TokenTypeView::Asterisk => Some(Precedence::PRODUCT),
        TokenTypeView::Slash => Some(Precedence::PRODUCT),
        TokenTypeView::LParen => Some(Precedence::CALL),
        TokenTypeView::LBracket => Some(Precedence::INDEX),
        _ => None,
    }
}

/// The rank at which a token kind binds as an infix operator; a kind with
/// no table entry defaults to the rank of `LOWEST`.
pub open spec fn spec_binding_power(kind: TokenTypeView) -> int {
    match spec_get_precedence(kind) {
        Some(p) => spec_int_precedence(p),
        None => 0,
    }
}

/// The table entry for a token kind.
pub fn get_precedence(kind: TokenType) -> (r: Option<Precedence>)
    ensures
        r == spec_get_precedence(kind@),
{
    match kind {
        TokenType::Equal => Some(Precedence::EQUALS),
        TokenType::NotEqual => Some(Precedence::EQUALS),
        TokenType::LT => Some(Precedence::LESSGREATER),
        TokenType::GT => Some(Precedence::LESSGREATER),
        TokenType::LTEq => Some(Precedence::LESSGREATER),
        TokenType::GTEq => Some(Precedence::LESSGREATER),
        TokenType::Or => Some(Precedence::OR),
        TokenType::And => Some(Precedence::AND),
        TokenType::Plus => Some(Precedence::SUM),
        TokenType::Minus => Some(Precedence::SUM),
        TokenType::Asterisk => Some(Precedence::PRODUCT),
        TokenType::Slash => Some(Precedence::PRODUCT),
        TokenType::LParen => Some(Precedence::CALL),
        TokenType::LBracket => Some(Precedence::INDEX),
        _ => None,
    }
}

} // verus!
