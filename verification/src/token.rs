//! The token model: source positions, token kinds, tokens, and the lexical
//! diagnostics that the lexer records.

use vstd::prelude::*;

verus! {

/// A source location. `line` is 1-based. `column` counts the characters
/// consumed so far on the current line: it starts at zero, each consumed
/// character raises it by one, and a newline resets it to zero.
#[derive(Clone, Copy, Debug, PartialEq, Eq, Structural)]
pub struct Position {
    pub column: usize,
    pub line: usize,
}

/// The mathematical value of a `Position`.
#[verifier::ext_equal]
pub struct PosView {
    pub column: int,
    pub line: int,
}

impl View for Position {
    type V = PosView;

    open spec fn view(&self) -> PosView {
        PosView { column: self.column as int, line: self.line as int }
    }
}

impl DeepView for Position {
    type V = PosView;

    open spec fn deep_view(&self) -> PosView {
        self.view()
    }
}

/// The closed set of token kinds.
///
/// A float literal carries its lexeme (a run of digits with embedded
/// decimal points) rather than a machine float: recognizing the lexeme is
/// the front end's task, while turning it into a number is the evaluator's.
#[derive(Debug)]
pub enum TokenType {
    String(String),
    Integer(usize),
    Float(String),
    Identifier(String),
    Boolean(bool),
    LBracket,
    RBracket,
    LParen,
    RParen,
    LBrace,
    RBrace,
    Ampersand,
    And,
    Equal,
    NotEqual,
    Bar,
    Or,
    Assign,
    Function,
    Bang,
    OpenBlock,
    EndBlock,
    Plus,
    Minus,
    DoublePlus,
    DoubleMinus,
    Semicolon,
    Colon,
    Period,
    Comma,
    Asterisk,
    Slash,
    GT,
    LT,
    GTEq,
    LTEq,
    Value,
    Update,
    Constant,
    If,
    Else,
    Return,
}

/// The mathematical value of a `TokenType`: text payloads become
/// sequences of characters.
#[verifier::ext_equal]
pub enum TokenTypeView {
    String(Seq<char>),
    Integer(usize),
    Float(Seq<char>),
    Identifier(Seq<char>),
    Boolean(bool),
    LBracket,
    RBracket,
    LParen,
    RParen,
    LBrace,
    RBrace,
    Ampersand,
    And,
    Equal,
    NotEqual,
    Bar,
    Or,
    Assign,
    Function,
    Bang,
    OpenBlock,
    EndBlock,
    Plus,
    Minus,
    DoublePlus,
    DoubleMinus,
    Semicolon,
    Colon,
    Period,
    Comma,
    Asterisk,
    Slash,
    GT,
    LT,
    GTEq,
    LTEq,
    Value,
    Update,
    Constant,
    If,
    Else,
    Return,
}

impl View for TokenType {
    type V = TokenTypeView;

    open spec fn view(&self) -> TokenTypeView {
        match self {
            TokenType::String(s) => TokenTypeView::String(s@),
            TokenType::Integer(n) => TokenTypeView::Integer(*n),
            TokenType::Float(s) => TokenTypeView::Float(s@),
            TokenType::Identifier(s) => TokenTypeView::Identifier(s@),
            TokenType::Boolean(b) => TokenTypeView::Boolean(*b),
            TokenType::LBracket => TokenTypeView::LBracket,
            TokenType::RBracket => TokenTypeView::RBracket,
            TokenType::LParen => TokenTypeView::LParen,
            TokenType::RParen => TokenTypeView::RParen,
            TokenType::LBrace => TokenTypeView::LBrace,
            TokenType::RBrace => TokenTypeView::RBrace,
            TokenType::Ampersand => TokenTypeView::Ampersand,
            TokenType::And => TokenTypeView::And,
            TokenType::Equal => TokenTypeView::Equal,
            TokenType::NotEqual => TokenTypeView::NotEqual,
            TokenType::Bar => TokenTypeView::Bar,
            TokenType::Or => TokenTypeView::Or,
            TokenType::Assign => TokenTypeView::Assign,
            TokenType::Function => TokenTypeView::Function,
            TokenType::Bang => TokenTypeView::Bang,
            TokenType::OpenBlock => TokenTypeView::OpenBlock,
            TokenType::EndBlock => TokenTypeView::EndBlock,
            TokenType::Plus => TokenTypeView::Plus,
            TokenType::Minus => TokenTypeView::Minus,
            TokenType::DoublePlus => TokenTypeView::DoublePlus,
            TokenType::DoubleMinus => TokenTypeView::DoubleMinus,
            TokenType::Semicolon => TokenTypeView::Semicolon,
            TokenType::Colon => TokenTypeView::Colon,
            TokenType::Period => TokenTypeView::Period,
            TokenType::Comma => TokenTypeView::Comma,
            TokenType::Asterisk => TokenTypeView::Asterisk,
            TokenType::Slash => TokenTypeView::Slash,
            TokenType::GT => TokenTypeView::GT,
            TokenType::LT => TokenTypeView::LT,
            TokenType::GTEq => TokenTypeView::GTEq,
            TokenType::LTEq => TokenTypeView::LTEq,
            TokenType::Value => TokenTypeView::Value,
            TokenType::Update => TokenTypeView::Update,
            TokenType::Constant => TokenTypeView::Constant,
            TokenType::If => TokenTypeView::If,
            TokenType::Else => TokenTypeView::Else,
            TokenType::Return => TokenTypeView::Return,
        }
    }
}

impl DeepView for TokenType {
    type V = TokenTypeView;

    open spec fn deep_view(&self) -> TokenTypeView {
        self.view()
    }
}

impl TokenType {
    /// An owned copy, equal to the original.
    pub fn duplicate(&self) -> (r: TokenType)
        ensures
            r == *self,
    {
        match self {
            TokenType::String(s) => TokenType::String(s.clone()),
            TokenType::Integer(n) => TokenType::Integer(*n),
            TokenType::Float(s) => TokenType::Float(s.clone()),
            TokenType::Identifier(s) => TokenType::Identifier(s.clone()),
            TokenType::Boolean(b) => TokenType::Boolean(*b),
            TokenType::LBracket => TokenType::LBracket,
            TokenType::RBracket => TokenType::RBracket,
            TokenType::LParen => TokenType::LParen,
            TokenType::RParen => TokenType::RParen,
            TokenType::LBrace => TokenType::LBrace,
            TokenType::RBrace => TokenType::RBrace,
            TokenType::Ampersand => TokenType::Ampersand,
            TokenType::And => TokenType::And,
            TokenType::Equal => TokenType::Equal,
            TokenType::NotEqual => TokenType::NotEqual,
            TokenType::Bar => TokenType::Bar,
            TokenType::Or => TokenType::Or,
            TokenType::Assign => TokenType::Assign,
            TokenType::Function => TokenType::Function,
            TokenType::Bang => TokenType::Bang,
            TokenType::OpenBlock => TokenType::OpenBlock,
            TokenType::EndBlock => TokenType::EndBlock,
            TokenType::Plus => TokenType::Plus,
            TokenType::Minus => TokenType::Minus,
            TokenType::DoublePlus => TokenType::DoublePlus,
            TokenType::DoubleMinus => TokenType::DoubleMinus,
            TokenType::Semicolon => TokenType::Semicolon,
            TokenType::Colon => TokenType::Colon,
            TokenType::Period => TokenType::Period,
            TokenType::Comma => TokenType::Comma,
            TokenType::Asterisk => TokenType::Asterisk,
            TokenType::Slash => TokenType::Slash,
            TokenType::GT => TokenType::GT,
            TokenType::LT => TokenType::LT,
            TokenType::GTEq => TokenType::GTEq,
            TokenType::LTEq => TokenType::LTEq,
            TokenType::Value => TokenType::Value,
            TokenType::Update => TokenType::Update,
            TokenType::Constant => TokenType::Constant,
            TokenType::If => TokenType::If,
            TokenType::Else => TokenType::Else,
            TokenType::Return => TokenType::Return,
        }
    }
}

impl PartialEq for TokenType {
    /// Whether two token kinds are equal, payload included.
    #[verifier::rlimit(100)]
    fn eq(&self, other: &TokenType) -> (r: bool) {
        match (self, other) {
            (TokenType::String(a), TokenType::String(b)) => *a == *b,
            (TokenType::Integer(a), TokenType::Integer(b)) => *a == *b,
            (TokenType::Float(a), TokenType::Float(b)) => *a == *b,
            (TokenType::Identifier(a), TokenType::Identifier(b)) => *a == *b,
            (TokenType::Boolean(a), TokenType::Boolean(b)) => *a == *b,
            (TokenType::LBracket, TokenType::LBracket) => true,
            (TokenType::RBracket, TokenType::RBracket) => true,
            (TokenType::LParen, TokenType::LParen) => true,
            (TokenType::RParen, TokenType::RParen) => true,
            (TokenType::LBrace, TokenType::LBrace) => true,
            (TokenType::RBrace, TokenType::RBrace) => true,
            (TokenType::Ampersand, TokenType::Ampersand) => true,
            (TokenType::And, TokenType::And) => true,
            (TokenType::Equal, TokenType::Equal) => true,
            (TokenType::NotEqual, TokenType::NotEqual) => true,
            (TokenType::Bar, TokenType::Bar) => true,
            (TokenType::Or, TokenType::Or) => true,
            (TokenType::Assign, TokenType::Assign) => true,
            (TokenType::Function, TokenType::Function) => true,
            (TokenType::Bang, TokenType::Bang) => true,
            (TokenType::OpenBlock, TokenType::OpenBlock) => true,
            (TokenType::EndBlock, TokenType::EndBlock) => true,
            (TokenType::Plus, TokenType::Plus) => true,
            (TokenType::Minus, TokenType::Minus) => true,
            (TokenType::DoublePlus, TokenType::DoublePlus) => true,
            (TokenType::DoubleMinus, TokenType::DoubleMinus) => true,
            (TokenType::Semicolon, TokenType::Semicolon) => true,
            (TokenType::Colon, TokenType::Colon) => true,
            (TokenType::Period, TokenType::Period) => true,
            (TokenType::Comma, TokenType::Comma) => true,
            (TokenType::Asterisk, TokenType::Asterisk) => true,
            (TokenType::Slash, TokenType::Slash) => true,
            (TokenType::GT, TokenType::GT) => true,
            (TokenType::LT, TokenType::LT) => true,
            (TokenType::GTEq, TokenType::GTEq) => true,
            (TokenType::LTEq, TokenType::LTEq) => true,
            (TokenType::Value, TokenType::Value) => true,
            (TokenType::Update, TokenType::Update) => true,
            (TokenType::Constant, TokenType::Constant) => true,
            (TokenType::If, TokenType::If) => true,
            (TokenType::Else, TokenType::Else) => true,
            (TokenType::Return, TokenType::Return) => true,
            _ => false,
        }
    }
}

impl vstd::std_specs::cmp::PartialEqSpecImpl for TokenType {
    open spec fn obeys_eq_spec() -> bool {
        true
    }

    open spec fn eq_spec(&self, other: &TokenType) -> bool {
        self@ == other@
    }
}

/// Whether two token kinds are the same variant, ignoring any payload.
pub open spec fn same_variant(a: TokenTypeView, b: TokenTypeView) -> bool {
    match (a, b) {
        (TokenTypeView::String(_), TokenTypeView::String(_)) => true,
        (TokenTypeView::Integer(_), TokenTypeView::Integer(_)) => true,
        (TokenTypeView::Float(_), TokenTypeView::Float(_)) => true,
        (TokenTypeView::Identifier(_), TokenTypeView::Identifier(_)) => true,
        (TokenTypeView::Boolean(_), TokenTypeView::Boolean(_)) => true,
        (TokenTypeView::LBracket, TokenTypeView::LBracket) => true,
        (TokenTypeView::RBracket, TokenTypeView::RBracket) => true,
        (TokenTypeView::LParen, TokenTypeView::LParen) => true,
        (TokenTypeView::RParen, TokenTypeView::RParen) => true,
        (TokenTypeView::LBrace, TokenTypeView::LBrace) => true,
        (TokenTypeView::RBrace, TokenTypeView::RBrace) => true,
        (TokenTypeView::Ampersand, TokenTypeView::Ampersand) => true,
        (TokenTypeView::And, TokenTypeView::And) => true,
        (TokenTypeView::Equal, TokenTypeView::Equal) => true,
        (TokenTypeView::NotEqual, TokenTypeView::NotEqual) => true,
        (TokenTypeView::Bar, TokenTypeView::Bar) => true,
        (TokenTypeView::Or, TokenTypeView::Or) => true,
        (TokenTypeView::Assign, TokenTypeView::Assign) => true,
        (TokenTypeView::Function, TokenTypeView::Function) => true,
        (TokenTypeView::Bang, TokenTypeView::Bang) => true,
        (TokenTypeView::OpenBlock, TokenTypeView::OpenBlock) => true,
        (TokenTypeView::EndBlock, TokenTypeView::EndBlock) => true,
        (TokenTypeView::Plus, TokenTypeView::Plus) => true,
        (TokenTypeView::Minus, TokenTypeView::Minus) => true,
        (TokenTypeView::DoublePlus, TokenTypeView::DoublePlus) => true,
        (TokenTypeView::DoubleMinus, TokenTypeView::DoubleMinus) => true,
        (TokenTypeView::Semicolon, TokenTypeView::Semicolon) => true,
        (TokenTypeView::Colon, TokenTypeView::Colon) => true,
        (TokenTypeView::Period, TokenTypeView::Period) => true,
        (TokenTypeView::Comma, TokenTypeView::Comma) => true,
        (TokenTypeView::Asterisk, TokenTypeView::Asterisk) => true,
        (TokenTypeView::Slash, TokenTypeView::Slash) => true,
        (TokenTypeView::GT, TokenTypeView::GT) => true,
        (TokenTypeView::LT, TokenTypeView::LT) => true,
        (TokenTypeView::GTEq, TokenTypeView::GTEq) => true,
        (TokenTypeView::LTEq, TokenTypeView::LTEq) => true,
        (TokenTypeView::Value, TokenTypeView::Value) => true,
        (TokenTypeView::Update, TokenTypeView::Update) => true,
        (TokenTypeView::Constant, TokenTypeView::Constant) => true,
        (TokenTypeView::If, TokenTypeView::If) => true,
        (TokenTypeView::Else, TokenTypeView::Else) => true,
        (TokenTypeView::Return, TokenTypeView::Return) => true,
        _ => false,
    }
}

/// Whether two token kinds are the same variant, ignoring any payload.
pub fn variant_eq(a: &TokenType, b: &TokenType) -> (r: bool)
    ensures
        r == same_variant(a@, b@),
{
    match (a, b) {
        (TokenType::String(_), TokenType::String(_)) => true,
        (TokenType::Integer(_), TokenType::Integer(_)) => true,
        (TokenType::Float(_), TokenType::Float(_)) => true,
        (TokenType::Identifier(_), TokenType::Identifier(_)) => true,
        (TokenType::Boolean(_), TokenType::Boolean(_)) => true,
        (TokenType::LBracket, TokenType::LBracket) => true,
        (TokenType::RBracket, TokenType::RBracket) => true,
        (TokenType::LParen, TokenType::LParen) => true,
        (TokenType::RParen, TokenType::RParen) => true,
        (TokenType::LBrace, TokenType::LBrace) => true,
        (TokenType::RBrace, TokenType::RBrace) => true,
        (TokenType::Ampersand, TokenType::Ampersand) => true,
        (TokenType::And, TokenType::And) => true,
        (TokenType::Equal, TokenType::Equal) => true,
        (TokenType::NotEqual, TokenType::NotEqual) => true,
        (TokenType::Bar, TokenType::Bar) => true,
        (TokenType::Or, TokenType::Or) => true,
        (TokenType::Assign, TokenType::Assign) => true,
        (TokenType::Function, TokenType::Function) => true,
        (TokenType::Bang, TokenType::Bang) => true,
        (TokenType::OpenBlock, TokenType::OpenBlock) => true,
        (TokenType::EndBlock, TokenType::EndBlock) => true,
        (TokenType::Plus, TokenType::Plus) => true,
        (TokenType::Minus, TokenType::Minus) => true,
        (TokenType::DoublePlus, TokenType::DoublePlus) => true,
        (TokenType::DoubleMinus, TokenType::DoubleMinus) => true,
        (TokenType::Semicolon, TokenType::Semicolon) => true,
        (TokenType::Colon, TokenType::Colon) => true,
        (TokenType::Period, TokenType::Period) => true,
        (TokenType::Comma, TokenType::Comma) => true,
        (TokenType::Asterisk, TokenType::Asterisk) => true,
        (TokenType::Slash, TokenType::Slash) => true,
        (TokenType::GT, TokenType::GT) => true,
        (TokenType::LT, TokenType::LT) => true,
        (TokenType::GTEq, TokenType::GTEq) => true,
        (TokenType::LTEq, TokenType::LTEq) => true,
        (TokenType::Value, TokenType::Value) => true,
        (TokenType::Update, TokenType::Update) => true,
        (TokenType::Constant, TokenType::Constant) => true,
        (TokenType::If, TokenType::If) => true,
        (TokenType::Else, TokenType::Else) => true,
        (TokenType::Return, TokenType::Return) => true,
        _ => false,
    }
}

/// A classified lexeme together with the position of its first character.
#[derive(Debug)]
pub struct Token {
    pub position: Position,
    pub kind: TokenType,
}

/// The mathematical value of a `Token`.
#[verifier::ext_equal]
pub struct TokenView {
    pub position: PosView,
    pub kind: TokenTypeView,
}

impl View for Token {
    type V = TokenView;

    open spec fn view(&self) -> TokenView {
        TokenView { position: self.position@, kind: self.kind@ }
    }
}

impl DeepView for Token {
    type V = TokenView;

    open spec fn deep_view(&self) -> TokenView {
        self.view()
    }
}

impl Token {
    /// An owned copy, equal to the original.
    pub fn duplicate(&self) -> (r: Token)
        ensures
            r == *self,
    {
        Token { position: self.position, kind: self.kind.duplicate() }
    }
}

/// A lexical diagnostic. Lexical errors are recoverable: the lexer records
/// one of these, skips the offending lexeme, and goes on with the next
/// character.
#[derive(Clone, Copy, Debug, PartialEq, Eq, Structural)]
pub enum LexerError {
    /// A character that cannot begin or continue any lexeme, or an operator
    /// followed by a character that makes the operator form illegal.
    UnrecognizedCharacter(Position),
    /// A numeric lexeme that does not denote a number: an integer literal
    /// too large for `usize`, or a literal with more than one decimal point.
    MalformedNumericLiteral(Position),
}

/// The mathematical value of a `LexerError`.
#[verifier::ext_equal]
pub enum LexerErrorView {
    UnrecognizedCharacter(PosView),
    MalformedNumericLiteral(PosView),
}

impl View for LexerError {
    type V = LexerErrorView;

    open spec fn view(&self) -> LexerErrorView {
        match self {
            LexerError::UnrecognizedCharacter(p) => LexerErrorView::UnrecognizedCharacter(p@),
            LexerError::MalformedNumericLiteral(p) => LexerErrorView::MalformedNumericLiteral(p@),
        }
    }
}

impl DeepView for LexerError {
    type V = LexerErrorView;

    open spec fn deep_view(&self) -> LexerErrorView {
        self.view()
    }
}

/// Whether two string slices hold the same characters.
pub fn str_eq(a: &str, b: &str) -> (r: bool)
    ensures
        r == (a@ == b@),
{
    let x: String = a.to_owned();
    let y: String = b.to_owned();
    x == y
}

/// The kind that a whole-lexeme keyword match yields, if any. Recognition
/// is exact-match only: no prefix or substring of a lexeme triggers a
/// keyword.
pub open spec fn keyword_kind(s: Seq<char>) -> Option<TokenTypeView> {
    if s == "true"@ {
        Some(TokenTypeView::Boolean(true))
    } else if s == "false"@ {
        Some(TokenTypeView::Boolean(false))
    } else if s == "value"@ {
        Some(TokenTypeView::Value)
    } else if s == "update"@ {
        Some(TokenTypeView::Update)
    } else if s == "constant"@ {
        Some(TokenTypeView::Constant)
    } else if s == "return"@ {
        Some(TokenTypeView::Return)
    } else if s == "if"@ {
        Some(TokenTypeView::If)
    } else if s == "else"@ {
        Some(TokenTypeView::Else)
    } else if s == "f"@ {
        Some(TokenTypeView::Function)
    } else if s == "end"@ {
        Some(TokenTypeView::EndBlock)
    } else {
        None
    }
}

/// The kind of an identifier-shaped lexeme: the keyword kind where the
/// whole lexeme is a keyword, an identifier otherwise.
pub open spec fn ident_kind(s: Seq<char>) -> TokenTypeView {
    match keyword_kind(s) {
        Some(k) => k,
        None => TokenTypeView::Identifier(s),
    }
}

/// Looks a lexeme up in the keyword table.
pub fn lookup_ident(identifier: &str) -> (r: Option<TokenType>)
    ensures
        match r {
            Some(k) => keyword_kind(identifier@) == Some(k@),
            None => keyword_kind(identifier@) is None,
        },
{
    if str_eq(identifier, "true") {
        Some(TokenType::Boolean(true))
    } else if str_eq(identifier, "false") {
        Some(TokenType::Boolean(false))
    } else if str_eq(identifier, "value") {
        Some(TokenType::Value)
    } else if str_eq(identifier, "update") {
        Some(TokenType::Update)
    } else if str_eq(identifier, "constant") {
        Some(TokenType::Constant)
    } else if str_eq(identifier, "return") {
        Some(TokenType::Return)
    } else if str_eq(identifier, "if") {
        Some(TokenType::If)
    } else if str_eq(identifier, "else") {
        Some(TokenType::Else)
    } else if str_eq(identifier, "f") {
        Some(TokenType::Function)
    } else if str_eq(identifier, "end") {
        Some(TokenType::EndBlock)
    } else {
        None
    }
}

} // verus!
