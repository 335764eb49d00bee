//! The lexer: consumes source text and produces a finite, forward-only
//! sequence of position-tracked tokens, recording a diagnostic for each
//! lexeme that denotes no token and continuing with the next character.
//!
//! The whole pass is specified by [`lex_all`]: one step of it, [`lex_step`],
//! says for every cursor index which token or diagnostic the text yields
//! there and where the next lexeme starts.

use vstd::prelude::*;

use crate::token::LexerError;
use crate::token::LexerErrorView;
use crate::token::PosView;
use crate::token::Position;
use crate::token::Token;
use crate::token::TokenType;
use crate::token::TokenTypeView;
use crate::token::TokenView;
use crate::token::ident_kind;
use crate::token::lookup_ident;

verus! {

/// Whitespace that separates lexemes without ending a line.
pub open spec fn is_blank(c: char) -> bool {
    c == ' ' || c == '\t' || c == '\r'
}

/// An ASCII decimal digit.
pub open spec fn is_digit(c: char) -> bool {
    '0' as u32 <= c as u32 && c as u32 <= '9' as u32
}

/// A character that may begin or continue an identifier.
pub open spec fn is_ident_char(c: char) -> bool {
    ||| ('A' as u32 <= c as u32 && c as u32 <= 'Z' as u32)
    ||| ('a' as u32 <= c as u32 && c as u32 <= 'z' as u32)
    ||| c == '_'
}

/// The tracker state at the very start of a text.
pub open spec fn init_pos() -> PosView {
    PosView { column: 0, line: 1 }
}

/// How consuming one character moves the position tracker: a newline
/// advances the line counter and resets the column to zero; every other
/// character advances the column.
pub open spec fn advance_pos(p: PosView, c: char) -> PosView {
    if c == '\n' {
        PosView { column: 0, line: p.line + 1 }
    } else {
        PosView { column: p.column + 1, line: p.line }
    }
}

/// The tracker state after consuming a run of characters.
pub open spec fn advance_pos_seq(p: PosView, s: Seq<char>) -> PosView
    decreases s.len(),
{
    if s.len() == 0 {
        p
    } else {
        advance_pos_seq(advance_pos(p, s[0]), s.skip(1))
    }
}

pub proof fn lemma_advance_pos_seq_push(p: PosView, s: Seq<char>, c: char)
    ensures
        advance_pos_seq(p, s.push(c)) == advance_pos(advance_pos_seq(p, s), c),
    decreases s.len(),
{
    assert(s.push(c)[0] == if s.len() == 0 { c } else { s[0] });
    if s.len() == 0 {
        assert(s.push(c).skip(1) =~= Seq::<char>::empty());
        assert(advance_pos_seq(advance_pos(p, c), Seq::<char>::empty()) == advance_pos(p, c));
    } else {
        assert(s.push(c).skip(1) =~= s.skip(1).push(c));
        lemma_advance_pos_seq_push(advance_pos(p, s[0]), s.skip(1), c);
    }
}

pub proof fn lemma_advance_pos_seq_concat(p: PosView, s1: Seq<char>, s2: Seq<char>)
    ensures
        advance_pos_seq(p, s1 + s2) == advance_pos_seq(advance_pos_seq(p, s1), s2),
    decreases s1.len(),
{
    if s1.len() == 0 {
        assert(s1 + s2 =~= s2);
    } else {
        assert((s1 + s2).skip(1) =~= s1.skip(1) + s2);
        assert((s1 + s2)[0] == s1[0]);
        lemma_advance_pos_seq_concat(advance_pos(p, s1[0]), s1.skip(1), s2);
    }
}

pub proof fn lemma_advance_pos_seq_bounds(p: PosView, s: Seq<char>)
    requires
        p.column >= 0,
        p.line >= 0,
    ensures
        0 <= advance_pos_seq(p, s).column <= p.column + s.len(),
        p.line <= advance_pos_seq(p, s).line <= p.line + s.len(),
    decreases s.len(),
{
    if s.len() > 0 {
        lemma_advance_pos_seq_bounds(advance_pos(p, s[0]), s.skip(1));
    }
}

/// Where the maximal identifier run beginning at `i` ends.
pub open spec fn ident_end(s: Seq<char>, i: int) -> int
    decreases s.len() - i,
{
    if 0 <= i && i < s.len() && is_ident_char(s[i]) {
        ident_end(s, i + 1)
    } else {
        i
    }
}

pub proof fn lemma_ident_end_props(s: Seq<char>, i: int)
    requires
        0 <= i <= s.len(),
    ensures
        i <= ident_end(s, i) <= s.len(),
        forall|k: int| i <= k < ident_end(s, i) ==> is_ident_char(s[k]),
        ident_end(s, i) < s.len() ==> !is_ident_char(s[ident_end(s, i)]),
    decreases s.len() - i,
{
    if 0 <= i && i < s.len() && is_ident_char(s[i]) {
        lemma_ident_end_props(s, i + 1);
    }
}

/// The index of the quote that closes a string literal whose body starts
/// at `i`, or the text's end where no closing quote follows.
pub open spec fn string_end(s: Seq<char>, i: int) -> int
    decreases s.len() - i,
{
    if 0 <= i && i < s.len() {
        if s[i] == '"' {
            i
        } else {
            string_end(s, i + 1)
        }
    } else {
        s.len() as int
    }
}

pub proof fn lemma_string_end_props(s: Seq<char>, i: int)
    requires
        0 <= i <= s.len(),
    ensures
        i <= string_end(s, i) <= s.len(),
        forall|k: int| i <= k < string_end(s, i) ==> s[k] != '"',
        string_end(s, i) < s.len() ==> s[string_end(s, i)] == '"',
    decreases s.len() - i,
{
    if 0 <= i && i < s.len() && s[i] != '"' {
        lemma_string_end_props(s, i + 1);
    }
}

/// Where the maximal numeric run beginning at `i` ends: digits, plus any
/// decimal point that is immediately followed by another digit.
pub open spec fn num_end(s: Seq<char>, i: int) -> int
    decreases s.len() - i,
{
    if 0 <= i && i < s.len() && (is_digit(s[i]) || (s[i] == '.' && i + 1 < s.len() && is_digit(
        s[i + 1],
    ))) {
        num_end(s, i + 1)
    } else {
        i
    }
}

pub proof fn lemma_num_end_props(s: Seq<char>, i: int)
    requires
        0 <= i <= s.len(),
    ensures
        i <= num_end(s, i) <= s.len(),
        forall|k: int| i <= k < num_end(s, i) ==> (is_digit(s[k]) || s[k] == '.'),
    decreases s.len() - i,
{
    if 0 <= i && i < s.len() && (is_digit(s[i]) || (s[i] == '.' && i + 1 < s.len() && is_digit(
        s[i + 1],
    ))) {
        lemma_num_end_props(s, i + 1);
    }
}

/// How many decimal points a lexeme holds.
pub open spec fn dot_count(s: Seq<char>) -> int
    decreases s.len(),
{
    if s.len() == 0 {
        0
    } else {
        dot_count(s.drop_last()) + if s.last() == '.' {
            1int
        } else {
            0int
        }
    }
}

pub proof fn lemma_dot_count_zero(s: Seq<char>)
    requires
        dot_count(s) == 0,
    ensures
        forall|k: int| 0 <= k < s.len() ==> s[k] != '.',
    decreases s.len(),
{
    if s.len() > 0 {
        lemma_dot_count_nonneg(s.drop_last());
        lemma_dot_count_zero(s.drop_last());
        assert(forall|k: int| 0 <= k < s.len() - 1 ==> s[k] == s.drop_last()[k]);
    }
}

pub proof fn lemma_dot_count_nonneg(s: Seq<char>)
    ensures
        dot_count(s) >= 0,
    decreases s.len(),
{
    if s.len() > 0 {
        lemma_dot_count_nonneg(s.drop_last());
    }
}

/// The numeric value of a digit character.
pub open spec fn digit_of(c: char) -> int {
    c as u32 - '0' as u32
}

/// The value that a run of decimal digits denotes.
pub open spec fn digits_val(s: Seq<char>) -> int
    decreases s.len(),
{
    if s.len() == 0 {
        0
    } else {
        digits_val(s.drop_last()) * 10 + digit_of(s.last())
    }
}

pub proof fn lemma_digits_val_nonneg(s: Seq<char>)
    requires
        forall|k: int| 0 <= k < s.len() ==> is_digit(s[k]),
    ensures
        digits_val(s) >= 0,
    decreases s.len(),
{
    if s.len() > 0 {
        assert(forall|k: int| 0 <= k < s.len() - 1 ==> s.drop_last()[k] == s[k]);
        lemma_digits_val_nonneg(s.drop_last());
    }
}

/// A longer run of digits never denotes a smaller value.
pub proof fn lemma_digits_val_prefix_le(s: Seq<char>, a: int, j: int, e: int)
    requires
        0 <= a <= j <= e <= s.len(),
        forall|k: int| a <= k < e ==> is_digit(s[k]),
    ensures
        digits_val(s.subrange(a, j)) <= digits_val(s.subrange(a, e)),
    decreases e - j,
{
    if j < e {
        lemma_digits_val_prefix_le(s, a, j, e - 1);
        let t = s.subrange(a, e);
        assert(t.drop_last() =~= s.subrange(a, e - 1));
        lemma_digits_val_nonneg(s.subrange(a, e - 1));
        assert(digits_val(s.subrange(a, e - 1)) <= digits_val(t));
    }
}

/// What one lexing step at a cursor index yields.
#[verifier::ext_equal]
pub enum LexStep {
    /// A whitespace character or newline: nothing is produced.
    Blank { next: int },
    /// A token whose lexeme ends just before `next`.
    Emit { kind: TokenTypeView, next: int },
    /// A diagnostic: a malformed numeric literal where `malformed` holds,
    /// an unrecognized character otherwise.
    Fault { malformed: bool, next: int },
    /// The input is exhausted.
    Finished,
}

/// Whether the plain single-character form of an operator is legal here:
/// it must be followed by whitespace or the end of the input.
pub open spec fn plain_ok(s: Seq<char>, i: int) -> bool {
    i + 1 >= s.len() || is_blank(s[i + 1])
}

/// Whether the character after `i` is `c`.
pub open spec fn follows(s: Seq<char>, i: int, c: char) -> bool {
    i + 1 < s.len() && s[i + 1] == c
}

/// What the number rule yields for the maximal numeric run at `i`: an
/// integer token for a plain digit run that fits in `usize`, a float token
/// for a run with exactly one decimal point, and a diagnostic otherwise.
pub open spec fn num_step(s: Seq<char>, i: int) -> LexStep {
    let e = num_end(s, i);
    let text = s.subrange(i, e);
    if dot_count(text) == 0 {
        if digits_val(text) <= usize::MAX as int {
            LexStep::Emit { kind: TokenTypeView::Integer(digits_val(text) as usize), next: e }
        } else {
            LexStep::Fault { malformed: true, next: e }
        }
    } else if dot_count(text) == 1 {
        LexStep::Emit { kind: TokenTypeView::Float(text), next: e }
    } else {
        LexStep::Fault { malformed: true, next: e }
    }
}

/// What the string rule yields: the body runs to the closing quote or to
/// the end of the input, and the lexeme includes the quotes present.
pub open spec fn string_step(s: Seq<char>, i: int) -> LexStep {
    let e = string_end(s, i + 1);
    LexStep::Emit {
        kind: TokenTypeView::String(s.subrange(i + 1, e)),
        next: if e < s.len() {
            e + 1
        } else {
            s.len() as int
        },
    }
}

/// One step of lexing: which token, diagnostic, or skip the text yields at
/// cursor index `i`, and where the cursor stands afterwards.
pub open spec fn lex_step(s: Seq<char>, i: int) -> LexStep {
    if i >= s.len() {
        LexStep::Finished
    } else {
        let c = s[i];
        if c == '(' {
            LexStep::Emit { kind: TokenTypeView::LParen, next: i + 1 }
        } else if c == ')' {
            LexStep::Emit { kind: TokenTypeView::RParen, next: i + 1 }
        } else if c == '[' {
            LexStep::Emit { kind: TokenTypeView::LBracket, next: i + 1 }
        } else if c == ']' {
            LexStep::Emit { kind: TokenTypeView::RBracket, next: i + 1 }
        } else if c == '{' {
            LexStep::Emit { kind: TokenTypeView::LBrace, next: i + 1 }
        } else if c == '}' {
            LexStep::Emit { kind: TokenTypeView::RBrace, next: i + 1 }
        } else if c == ';' {
            LexStep::Emit { kind: TokenTypeView::Semicolon, next: i + 1 }
        } else if c == '|' {
            if follows(s, i, '|') {
                LexStep::Emit { kind: TokenTypeView::Or, next: i + 2 }
            } else if plain_ok(s, i) {
                LexStep::Emit { kind: TokenTypeView::Bar, next: i + 1 }
            } else {
                LexStep::Fault { malformed: false, next: i + 1 }
            }
        } else if c == '&' {
            if follows(s, i, '&') {
                LexStep::Emit { kind: TokenTypeView::And, next: i + 2 }
            } else if plain_ok(s, i) {
                LexStep::Emit { kind: TokenTypeView::Ampersand, next: i + 1 }
            } else {
                LexStep::Fault { malformed: false, next: i + 1 }
            }
        } else if c == '+' {
            if follows(s, i, '+') {
                LexStep::Emit { kind: TokenTypeView::DoublePlus, next: i + 2 }
            } else if plain_ok(s, i) {
                LexStep::Emit { kind: TokenTypeView::Plus, next: i + 1 }
            } else {
                LexStep::Fault { malformed: false, next: i + 1 }
            }
        } else if c == '-' {
            if follows(s, i, '-') {
                LexStep::Emit { kind: TokenTypeView::DoubleMinus, next: i + 2 }
            } else if follows(s, i, '>') {
                LexStep::Emit { kind: TokenTypeView::OpenBlock, next: i + 2 }
            } else if plain_ok(s, i) {
                LexStep::Emit { kind: TokenTypeView::Minus, next: i + 1 }
            } else {
                LexStep::Fault { malformed: false, next: i + 1 }
            }
        } else if c == '*' {
            if plain_ok(s, i) {
                LexStep::Emit { kind: TokenTypeView::Asterisk, next: i + 1 }
            } else {
                LexStep::Fault { malformed: false, next: i + 1 }
            }
        } else if c == '/' {
            if plain_ok(s, i) {
                LexStep::Emit { kind: TokenTypeView::Slash, next: i + 1 }
            } else {
                LexStep::Fault { malformed: false, next: i + 1 }
            }
        } else if c == '=' {
            if follows(s, i, '=') {
                LexStep::Emit { kind: TokenTypeView::Equal, next: i + 2 }
            } else if plain_ok(s, i) {
                LexStep::Emit { kind: TokenTypeView::Assign, next: i + 1 }
            } else {
                LexStep::Fault { malformed: false, next: i + 1 }
            }
        } else if c == '!' {
            if follows(s, i, '=') {
                LexStep::Emit { kind: TokenTypeView::NotEqual, next: i + 2 }
            } else if plain_ok(s, i) {
                LexStep::Emit { kind: TokenTypeView::Bang, next: i + 1 }
            } else {
                LexStep::Fault { malformed: false, next: i + 1 }
            }
        } else if c == '>' {
            if follows(s, i, '=') {
                LexStep::Emit { kind: TokenTypeView::GTEq, next: i + 2 }
            } else if plain_ok(s, i) {
                LexStep::Emit { kind: TokenTypeView::GT, next: i + 1 }
            } else {
                LexStep::Fault { malformed: false, next: i + 1 }
            }
        } else if c == '<' {
            if follows(s, i, '=') {
                LexStep::Emit { kind: TokenTypeView::LTEq, next: i + 2 }
            } else if plain_ok(s, i) {
                LexStep::Emit { kind: TokenTypeView::LT, next: i + 1 }
            } else {
                LexStep::Fault { malformed: false, next: i + 1 }
            }
        } else if c == '\n' || is_blank(c) {
            LexStep::Blank { next: i + 1 }
        } else if is_digit(c) {
            num_step(s, i)
        } else if is_ident_char(c) {
            let e = ident_end(s, i);
            LexStep::Emit { kind: ident_kind(s.subrange(i, e)), next: e }
        } else if c == '"' {
            string_step(s, i)
        } else {
            LexStep::Fault { malformed: false, next: i + 1 }
        }
    }
}

/// Every step taken on a live cursor consumes at least one character.
pub proof fn lemma_lex_step_bounds(s: Seq<char>, i: int)
    requires
        0 <= i < s.len(),
    ensures
        match lex_step(s, i) {
            LexStep::Blank { next } => i < next <= s.len(),
            LexStep::Emit { next, .. } => i < next <= s.len(),
            LexStep::Fault { next, .. } => i < next <= s.len(),
            LexStep::Finished => false,
        },
{
    let c = s[i];
    if is_digit(c) {
        lemma_num_end_props(s, i + 1);
        assert(num_end(s, i) == num_end(s, i + 1));
    } else if is_ident_char(c) {
        lemma_ident_end_props(s, i + 1);
        assert(ident_end(s, i) == ident_end(s, i + 1));
    } else if c == '"' {
        lemma_string_end_props(s, i + 1);
    }
}

/// The diagnostic a faulted step records, placed at the position where the
/// offending lexeme began.
pub open spec fn fault_err(malformed: bool, p: PosView) -> LexerErrorView {
    if malformed {
        LexerErrorView::MalformedNumericLiteral(p)
    } else {
        LexerErrorView::UnrecognizedCharacter(p)
    }
}

/// Everything the lexer produces: the token sequence and the diagnostics,
/// each in encounter order.
#[verifier::ext_equal]
pub struct LexOutput {
    pub tokens: Seq<TokenView>,
    pub errors: Seq<LexerErrorView>,
}

/// The remainder of the lexing pass from cursor index `i` with tracker
/// state `p`: all tokens and all diagnostics the rest of the text yields.
pub open spec fn lex_all(s: Seq<char>, i: int, p: PosView) -> LexOutput
    decreases s.len() - i,
{
    match lex_step(s, i) {
        LexStep::Finished => LexOutput { tokens: Seq::empty(), errors: Seq::empty() },
        LexStep::Blank { next } => {
            if i < next <= s.len() {
                lex_all(s, next, advance_pos_seq(p, s.subrange(i, next)))
            } else {
                LexOutput { tokens: Seq::empty(), errors: Seq::empty() }
            }
        },
        LexStep::Emit { kind, next } => {
            if i < next <= s.len() {
                let rest = lex_all(s, next, advance_pos_seq(p, s.subrange(i, next)));
                LexOutput {
                    tokens: seq![TokenView { position: p, kind }] + rest.tokens,
                    errors: rest.errors,
                }
            } else {
                LexOutput { tokens: Seq::empty(), errors: Seq::empty() }
            }
        },
        LexStep::Fault { malformed, next } => {
            if i < next <= s.len() {
                let rest = lex_all(s, next, advance_pos_seq(p, s.subrange(i, next)));
                LexOutput {
                    tokens: rest.tokens,
                    errors: seq![fault_err(malformed, p)] + rest.errors,
                }
            } else {
                LexOutput { tokens: Seq::empty(), errors: Seq::empty() }
            }
        },
    }
}

/// Advancing the tracker over `s.take(j)` is advancing it over `s.take(i)`
/// and then over the characters in between.
pub proof fn lemma_pos_bridge(s: Seq<char>, i: int, j: int)
    requires
        0 <= i <= j <= s.len(),
    ensures
        advance_pos_seq(init_pos(), s.take(j)) == advance_pos_seq(
            advance_pos_seq(init_pos(), s.take(i)),
            s.subrange(i, j),
        ),
{
    assert(s.take(j) =~= s.take(i) + s.subrange(i, j));
    lemma_advance_pos_seq_concat(init_pos(), s.take(i), s.subrange(i, j));
}

/// The lexer: a cursor into the source text, the tracker state for the
/// cursor, and the diagnostics recorded so far.
#[derive(Debug)]
pub struct Lexer<'a> {
    pub input: &'a str,
    pub literal_position: Position,
    pub position: usize,
    pub errors: Vec<LexerError>,
}

impl<'a> Lexer<'a> {
    /// The cursor is inside the text and the tracker state is exactly what
    /// advancing over the consumed prefix gives.
    pub open spec fn wf(&self) -> bool {
        &&& self.position <= self.input@.len()
        &&& self.input@.len() < usize::MAX
        &&& self.literal_position@ == advance_pos_seq(
            init_pos(),
            self.input@.take(self.position as int),
        )
    }

    /// The tokens and diagnostics that the rest of the input yields.
    pub open spec fn lex_rest(&self) -> LexOutput {
        lex_all(self.input@, self.position as int, self.literal_position@)
    }

    /// A lexer over `input`, with the cursor at the start, the tracker at
    /// line one and column zero, and no diagnostics.
    pub fn new(input: &'a str) -> (r: Lexer<'a>)
        requires
            input@.len() < usize::MAX,
        ensures
            r.wf(),
            r.input == input,
            r.position == 0,
            r.literal_position@ == init_pos(),
            r.errors@ == Seq::<LexerError>::empty(),
    {
        let r = Lexer {
            literal_position: Position {
                column: 0,
                line: 1,  // Remember: lines aren't zero-indexed.
            },
            position: 0,
            input,
            errors: Vec::new(),
        };
        proof {
            assert(r.input@.take(0) =~= Seq::<char>::empty());
            assert(r.errors@ =~= Seq::<LexerError>::empty());
        }
        r
    }

    /// Moves the cursor one character forward and advances the tracker
    /// over the consumed character.
    pub fn consume_char(&mut self)
        requires
            old(self).wf(),
            old(self).position < old(self).input@.len(),
        ensures
            final(self).wf(),
            final(self).input == old(self).input,
            final(self).errors == old(self).errors,
            final(self).position == old(self).position + 1,
            final(self).literal_position@ == advance_pos(
                old(self).literal_position@,
                old(self).input@[old(self).position as int],
            ),
    {
        proof {
            lemma_advance_pos_seq_bounds(init_pos(), self.input@.take(self.position as int));
        }
        let c = self.input.get_char(self.position);
        if c == '\n' {
            self.literal_position.line = self.literal_position.line + 1;
            self.literal_position.column = 0;
        } else {
            self.literal_position.column = self.literal_position.column + 1;
        }
        self.position = self.position + 1;
        proof {
            let s = self.input@;
            let i = old(self).position as int;
            assert(s.take(i + 1) =~= s.take(i).push(s[i]));
            lemma_advance_pos_seq_push(init_pos(), s.take(i), s[i]);
        }
    }

    /// The character at the given index, or at the cursor where no index
    /// is given; nothing once the index is past the end.
    pub fn get_nth_char(&self, position: Option<usize>) -> (r: Option<char>)
        ensures
            ({
                let idx = match position {
                    Some(pos) => pos as int,
                    None => self.position as int,
                };
                r == if idx < self.input@.len() {
                    Some(self.input@[idx])
                } else {
                    None::<char>
                }
            }),
    {
        let idx = match position {
            Some(pos) => pos,
            None => self.position,
        };
        if idx < self.input.unicode_len() {
            Some(self.input.get_char(idx))
        } else {
            None
        }
    }

    /// The character just after the cursor, if any.
    pub fn peek_char(&self) -> (r: Option<char>)
        requires
            self.position < usize::MAX,
        ensures
            r == if self.position + 1 < self.input@.len() {
                Some(self.input@[self.position as int + 1])
            } else {
                None::<char>
            },
    {
        self.get_nth_char(Some(self.position + 1))
    }

    /// Records a diagnostic; no token is produced for the lexeme.
    pub fn add_error(&mut self, kind: LexerError) -> (r: Option<Token>)
        ensures
            final(self).input == old(self).input,
            final(self).position == old(self).position,
            final(self).literal_position == old(self).literal_position,
            final(self).errors@ == old(self).errors@.push(kind),
            r is None,
    {
        self.errors.push(kind);

        None
    }

    /// The diagnostics recorded over the whole pass.
    pub fn errors(self) -> (r: Vec<LexerError>)
        ensures
            r == self.errors,
    {
        self.errors
    }

    /// A token of the given kind whose lexeme is the one character at the
    /// cursor.
    pub fn single_char_tok(&mut self, kind: TokenType) -> (r: Option<Token>)
        requires
            old(self).wf(),
            old(self).position < old(self).input@.len(),
        ensures
            final(self).wf(),
            final(self).input == old(self).input,
            final(self).errors == old(self).errors,
            final(self).position == old(self).position + 1,
            r matches Some(t) && t.kind == kind && t.position == old(self).literal_position,
    {
        let current_position = self.literal_position;
        self.consume_char();
        Some(Token { kind, position: current_position })
    }

    /// A token of the given kind whose lexeme is the two characters at the
    /// cursor.
    pub fn double_char_tok(&mut self, kind: TokenType) -> (r: Option<Token>)
        requires
            old(self).wf(),
            old(self).position + 1 < old(self).input@.len(),
        ensures
            final(self).wf(),
            final(self).input == old(self).input,
            final(self).errors == old(self).errors,
            final(self).position == old(self).position + 2,
            r matches Some(t) && t.kind == kind && t.position == old(self).literal_position,
    {
        let current_position = self.literal_position;
        self.consume_char();
        self.consume_char();
        Some(Token { kind, position: current_position })
    }

    /// A string literal: from the opening quote, the body runs to the
    /// closing quote or to the end of the input. An embedded newline stays
    /// in the text and moves the tracker to the next line; reaching the end
    /// of the input without a closing quote still yields a token built
    /// from the accumulated text.
    pub fn string(&mut self) -> (r: Option<Token>)
        requires
            old(self).wf(),
            old(self).position < old(self).input@.len(),
            old(self).input@[old(self).position as int] == '"',
        ensures
            final(self).wf(),
            final(self).input == old(self).input,
            final(self).errors == old(self).errors,
            ({
                let s = old(self).input@;
                let i = old(self).position as int;
                let e = string_end(s, i + 1);
                &&& final(self).position as int == if e < s.len() {
                    e + 1
                } else {
                    s.len() as int
                }
                &&& r matches Some(t) && t@.kind == TokenTypeView::String(s.subrange(i + 1, e))
                    && t.position == old(self).literal_position
            }),
    {
        let ghost s = self.input@;
        let ghost i = self.position as int;
        let ghost e = string_end(s, i + 1);
        proof {
            lemma_string_end_props(s, i + 1);
        }
        let current_position = self.literal_position;
        self.consume_char();
        let start = self.position;
        loop
            invariant
                self.wf(),
                self.input == old(self).input,
                self.errors == old(self).errors,
                s == self.input@,
                e == string_end(s, i + 1),
                i + 1 <= self.position as int <= e,
                e <= s.len(),
                i == old(self).position as int,
                start as int == i + 1,
                start <= self.position,
                current_position == old(self).literal_position,
            ensures
                self.position as int == e,
                e == s.len() as int,
            decreases s.len() - self.position as int,
        {
            let copt = self.get_nth_char(None);
            match copt {
                None => { break; },
                Some(ch) => {
                    if ch == '"' {
                        proof {
                            lemma_string_end_props(s, i + 1);
                            if (self.position as int) < e {
                                assert(s[self.position as int] != '"');
                            }
                            assert(self.position as int == e);
                        }
                        let text = self.input.substring_char(start, self.position).to_owned();
                        self.consume_char();
                        return Some(
                            Token { kind: TokenType::String(text), position: current_position },
                        );
                    } else {
                        proof {
                            lemma_string_end_props(s, i + 1);
                            if self.position as int == e {
                                assert(e < s.len() && s[e] == '"');
                            }
                        }
                        self.consume_char();
                    }
                },
            }
        }
        let text = self.input.substring_char(start, self.position).to_owned();
        Some(Token { kind: TokenType::String(text), position: current_position })
    }

    /// An identifier or keyword: the maximal run of ASCII letters and
    /// underscores, compared whole against the keyword table. Only an
    /// exact whole-lexeme match yields a keyword token.
    pub fn ident(&mut self) -> (r: Option<Token>)
        requires
            old(self).wf(),
            old(self).position < old(self).input@.len(),
            is_ident_char(old(self).input@[old(self).position as int]),
        ensures
            final(self).wf(),
            final(self).input == old(self).input,
            final(self).errors == old(self).errors,
            ({
                let s = old(self).input@;
                let i = old(self).position as int;
                let e = ident_end(s, i);
                &&& final(self).position as int == e
                &&& r matches Some(t) && t@.kind == ident_kind(s.subrange(i, e)) && t.position
                    == old(self).literal_position
            }),
    {
        let ghost s = self.input@;
        let ghost i = self.position as int;
        let ghost e = ident_end(s, i);
        proof {
            lemma_ident_end_props(s, i);
        }
        let current_position = self.literal_position;
        let start = self.position;
        loop
            invariant
                self.wf(),
                self.input == old(self).input,
                self.errors == old(self).errors,
                s == self.input@,
                e == ident_end(s, i),
                0 <= i,
                i <= self.position as int <= e,
                e <= s.len(),
                ident_end(s, self.position as int) == e,
                start as int == i,
            ensures
                self.position as int == e,
            decreases s.len() - self.position as int,
        {
            let copt = self.get_nth_char(None);
            match copt {
                Some(ch) => {
                    if ident_char(ch) {
                        proof {
                            lemma_ident_end_props(s, self.position as int + 1);
                        }
                        self.consume_char();
                    } else {
                        break;
                    }
                },
                None => { break; },
            }
        }
        let text = self.input.substring_char(start, self.position).to_owned();
        let kind = match lookup_ident(text.as_str()) {
            Some(k) => k,
            None => TokenType::Identifier(text),
        };
        Some(Token { kind, position: current_position })
    }

    /// A numeric literal: the maximal run of digits, where a decimal point
    /// joins the run only when a digit follows it immediately. A plain
    /// digit run yields an integer token unless its value exceeds
    /// `usize::MAX`; a run with exactly one decimal point yields a float
    /// token; any other run is malformed and yields no token, recording a
    /// diagnostic at the run's first character.
    pub fn integer(&mut self) -> (r: Option<Token>)
        requires
            old(self).wf(),
            old(self).position < old(self).input@.len(),
            is_digit(old(self).input@[old(self).position as int]),
        ensures
            final(self).wf(),
            final(self).input == old(self).input,
            ({
                let s = old(self).input@;
                let i = old(self).position as int;
                let e = num_end(s, i);
                let text = s.subrange(i, e);
                &&& final(self).position as int == e
                &&& if dot_count(text) == 0 && digits_val(text) <= usize::MAX as int {
                    &&& r matches Some(t) && t@.kind == TokenTypeView::Integer(
                        digits_val(text) as usize,
                    ) && t.position == old(self).literal_position
                    &&& final(self).errors == old(self).errors
                } else if dot_count(text) == 1 {
                    &&& r matches Some(t) && t@.kind == TokenTypeView::Float(text) && t.position
                        == old(self).literal_position
                    &&& final(self).errors == old(self).errors
                } else {
                    &&& r is None
                    &&& final(self).errors@ == old(self).errors@.push(
                        LexerError::MalformedNumericLiteral(old(self).literal_position),
                    )
                }
            }),
    {
        let ghost s = self.input@;
        let ghost i = self.position as int;
        let ghost e = num_end(s, i);
        proof {
            lemma_num_end_props(s, i);
        }
        let current_position = self.literal_position;
        let start = self.position;
        let mut dots: usize = 0;
        loop
            invariant
                self.wf(),
                self.input == old(self).input,
                self.errors == old(self).errors,
                s == self.input@,
                e == num_end(s, i),
                0 <= i,
                i <= self.position as int <= e,
                e <= s.len(),
                num_end(s, self.position as int) == e,
                start as int == i,
                dots as int == dot_count(s.subrange(i, self.position as int)),
                dots as int <= self.position as int - i,
            ensures
                self.position as int == e,
                dots as int == dot_count(s.subrange(i, e)),
            decreases s.len() - self.position as int,
        {
            let copt = self.get_nth_char(None);
            match copt {
                Some(ch) => {
                    if digit_char(ch) {
                        proof {
                            lemma_num_end_props(s, self.position as int + 1);
                            assert(s.subrange(i, self.position as int + 1).drop_last() =~= s
                                .subrange(i, self.position as int));
                        }
                        self.consume_char();
                    } else if ch == '.' {
                        let peeked = self.peek_char();
                        let followed_by_digit = match peeked {
                            Some(c2) => digit_char(c2),
                            None => false,
                        };
                        if followed_by_digit {
                            proof {
                                lemma_num_end_props(s, self.position as int + 1);
                                assert(s.subrange(i, self.position as int + 1).drop_last() =~= s
                                    .subrange(i, self.position as int));
                            }
                            dots = dots + 1;
                            self.consume_char();
                        } else {
                            break;
                        }
                    } else {
                        break;
                    }
                },
                None => { break; },
            }
        }
        let ghost text = s.subrange(i, e);
        if dots == 0 {
            proof {
                lemma_dot_count_zero(text);
                assert forall|k: int| i <= k < e implies is_digit(s[k]) by {
                    assert(text[k - i] != '.');
                }
            }
            let mut acc: usize = 0;
            let mut j = start;
            while j < self.position
                invariant
                    self.wf(),
                    self.input == old(self).input,
                    self.errors == old(self).errors,
                    s == self.input@,
                    e == num_end(s, i),
                    self.position as int == e,
                    0 <= i,
                    start as int == i,
                    i <= j as int <= e,
                    e <= s.len(),
                    forall|k: int| i <= k < e ==> is_digit(s[k]),
                    acc as int == digits_val(s.subrange(i, j as int)),
                    dot_count(s.subrange(i, e)) == 0,
                    i == old(self).position as int,
                    current_position == old(self).literal_position,
                decreases e - j as int,
            {
                let ch = self.input.get_char(j);
                let d: usize = (ch as u32 - '0' as u32) as usize;
                proof {
                    assert(is_digit(s[j as int]));
                    assert(d as int == digit_of(s[j as int]));
                    assert(0 <= d as int <= 9);
                }
                if acc > (usize::MAX - d) / 10 {
                    proof {
                        let m = usize::MAX as int;
                        let dd = d as int;
                        vstd::arithmetic::div_mod::lemma_fundamental_div_mod(m - dd, 10);
                        vstd::arithmetic::div_mod::lemma_mod_bound(m - dd, 10);
                        assert((acc as int) * 10 + dd > m);
                        assert(s.subrange(i, j as int + 1).drop_last() =~= s.subrange(i, j as int));
                        assert(digits_val(s.subrange(i, j as int + 1)) > m);
                        lemma_digits_val_prefix_le(s, i, j as int + 1, e);
                    }
                    return self.add_error(LexerError::MalformedNumericLiteral(current_position));
                }
                proof {
                    let m = usize::MAX as int;
                    let dd = d as int;
                    vstd::arithmetic::div_mod::lemma_fundamental_div_mod(m - dd, 10);
                    vstd::arithmetic::div_mod::lemma_mod_bound(m - dd, 10);
                    assert((acc as int) * 10 + dd <= m);
                    assert(s.subrange(i, j as int + 1).drop_last() =~= s.subrange(i, j as int));
                }
                acc = acc * 10 + d;
                j = j + 1;
            }
            proof {
                assert(s.subrange(i, j as int) =~= text);
                lemma_digits_val_nonneg(text);
            }
            Some(Token { kind: TokenType::Integer(acc), position: current_position })
        } else if dots == 1 {
            let text_str = self.input.substring_char(start, self.position).to_owned();
            Some(Token { kind: TokenType::Float(text_str), position: current_position })
        } else {
            self.add_error(LexerError::MalformedNumericLiteral(current_position))
        }
    }

    /// The next token of the input: whitespace is skipped, and every
    /// lexeme that denotes no token records a diagnostic and is skipped
    /// too. Nothing is returned once the input is exhausted, and only
    /// then. One call peels off the front of [`Lexer::lex_rest`] exactly
    /// the tokens and diagnostics that `lex_all` places there.
    pub fn next(&mut self) -> (r: Option<Token>)
        requires
            old(self).wf(),
        ensures
            final(self).wf(),
            final(self).input == old(self).input,
            final(self).errors@.len() >= old(self).errors@.len(),
            final(self).errors@.subrange(0, old(self).errors@.len() as int) == old(self).errors@,
            ({
                let before = old(self).lex_rest();
                let after = final(self).lex_rest();
                let added = final(self).errors.deep_view().skip(old(self).errors@.len() as int);
                match r {
                    Some(t) => {
                        &&& before.tokens.len() > 0
                        &&& t@ == before.tokens[0]
                        &&& after.tokens == before.tokens.skip(1)
                        &&& before.errors == added + after.errors
                    },
                    None => {
                        &&& before.tokens.len() == 0
                        &&& final(self).position as int == final(self).input@.len()
                        &&& before.errors == added
                    },
                }
            }),
    {
        let ghost s = self.input@;
        let ghost e0 = old(self).errors@.len() as int;
        let ghost before = old(self).lex_rest();
        proof {
            assert(self.errors.deep_view().skip(e0) =~= Seq::<LexerErrorView>::empty());
            assert(Seq::<LexerErrorView>::empty() + self.lex_rest().errors =~= self.lex_rest().errors);
            assert(self.errors@.subrange(0, e0) =~= old(self).errors@);
        }
        loop
            invariant
                self.wf(),
                self.input == old(self).input,
                s == self.input@,
                e0 == old(self).errors@.len() as int,
                before == old(self).lex_rest(),
                0 <= e0 <= self.errors@.len(),
                self.errors@.subrange(0, e0) == old(self).errors@,
                before.tokens == self.lex_rest().tokens,
                before.errors == self.errors.deep_view().skip(e0) + self.lex_rest().errors,
            decreases s.len() - self.position as int,
        {
            let ghost pre = *self;
            let current_character = self.get_nth_char(None);
            let peek_character = self.peek_char();

            match current_character {
                None => {
                    proof {
                        assert(self.position as int == s.len());
                        assert(self.lex_rest().tokens =~= Seq::<TokenView>::empty());
                        assert(before.errors =~= self.errors.deep_view().skip(e0));
                    }
                    return None;
                },
                Some(c) => {
                    if c == '(' {
                        let r = self.single_char_tok(TokenType::LParen);
                        proof {
                            lemma_emit_step(pre, *self, before, e0, TokenTypeView::LParen, pre.position as int + 1);
                        }
                        return r;
                    } else if c == ')' {
                        let r = self.single_char_tok(TokenType::RParen);
                        proof {
                            lemma_emit_step(pre, *self, before, e0, TokenTypeView::RParen, pre.position as int + 1);
                        }
                        return r;
                    } else if c == '[' {
                        let r = self.single_char_tok(TokenType::LBracket);
                        proof {
                            lemma_emit_step(pre, *self, before, e0, TokenTypeView::LBracket, pre.position as int + 1);
                        }
                        return r;
                    } else if c == ']' {
                        let r = self.single_char_tok(TokenType::RBracket);
                        proof {
                            lemma_emit_step(pre, *self, before, e0, TokenTypeView::RBracket, pre.position as int + 1);
                        }
                        return r;
                    } else if c == '{' {
                        let r = self.single_char_tok(TokenType::LBrace);
                        proof {
                            lemma_emit_step(pre, *self, before, e0, TokenTypeView::LBrace, pre.position as int + 1);
                        }
                        return r;
                    } else if c == '}' {
                        let r = self.single_char_tok(TokenType::RBrace);
                        proof {
                            lemma_emit_step(pre, *self, before, e0, TokenTypeView::RBrace, pre.position as int + 1);
                        }
                        return r;
                    } else if c == ';' {
                        let r = self.single_char_tok(TokenType::Semicolon);
                        proof {
                            lemma_emit_step(pre, *self, before, e0, TokenTypeView::Semicolon, pre.position as int + 1);
                        }
                        return r;
                    } else if c == '|' {
                        if follower_is(peek_character, '|') {
                            let r = self.double_char_tok(TokenType::Or);
                            proof {
                                lemma_emit_step(pre, *self, before, e0, TokenTypeView::Or, pre.position as int + 2);
                            }
                            return r;
                        } else if follower_plain(peek_character) {
                            let r = self.single_char_tok(TokenType::Bar);
                            proof {
                                lemma_emit_step(pre, *self, before, e0, TokenTypeView::Bar, pre.position as int + 1);
                            }
                            return r;
                        } else {
                            let here = self.literal_position;
                            self.add_error(LexerError::UnrecognizedCharacter(here));
                            self.consume_char();
                            proof {
                                lemma_fault_step(pre, *self, before, e0, LexerError::UnrecognizedCharacter(here), false, pre.position as int + 1);
                            }
                        }
                    } else if c == '&' {
                        if follower_is(peek_character, '&') {
                            let r = self.double_char_tok(TokenType::And);
                            proof {
                                lemma_emit_step(pre, *self, before, e0, TokenTypeView::And, pre.position as int + 2);
                            }
                            return r;
                        } else if follower_plain(peek_character) {
                            let r = self.single_char_tok(TokenType::Ampersand);
                            proof {
                                lemma_emit_step(pre, *self, before, e0, TokenTypeView::Ampersand, pre.position as int + 1);
                            }
                            return r;
                        } else {
                            let here = self.literal_position;
                            self.add_error(LexerError::UnrecognizedCharacter(here));
                            self.consume_char();
                            proof {
                                lemma_fault_step(pre, *self, before, e0, LexerError::UnrecognizedCharacter(here), false, pre.position as int + 1);
                            }
                        }
                    } else if c == '+' {
                        if follower_is(peek_character, '+') {
                            let r = self.double_char_tok(TokenType::DoublePlus);
                            proof {
                                lemma_emit_step(pre, *self, before, e0, TokenTypeView::DoublePlus, pre.position as int + 2);
                            }
                            return r;
                        } else if follower_plain(peek_character) {
                            let r = self.single_char_tok(TokenType::Plus);
                            proof {
                                lemma_emit_step(pre, *self, before, e0, TokenTypeView::Plus, pre.position as int + 1);
                            }
                            return r;
                        } else {
                            let here = self.literal_position;
                            self.add_error(LexerError::UnrecognizedCharacter(here));
                            self.consume_char();
                            proof {
                                lemma_fault_step(pre, *self, before, e0, LexerError::UnrecognizedCharacter(here), false, pre.position as int + 1);
                            }
                        }
                    } else if c == '-' {
                        if follower_is(peek_character, '-') {
                            let r = self.double_char_tok(TokenType::DoubleMinus);
                            proof {
                                lemma_emit_step(pre, *self, before, e0, TokenTypeView::DoubleMinus, pre.position as int + 2);
                            }
                            return r;
                        } else if follower_is(peek_character, '>') {
                            let r = self.double_char_tok(TokenType::OpenBlock);
                            proof {
                                lemma_emit_step(pre, *self, before, e0, TokenTypeView::OpenBlock, pre.position as int + 2);
                            }
                            return r;
                        } else if follower_plain(peek_character) {
                            let r = self.single_char_tok(TokenType::Minus);
                            proof {
                                lemma_emit_step(pre, *self, before, e0, TokenTypeView::Minus, pre.position as int + 1);
                            }
                            return r;
                        } else {
                            let here = self.literal_position;
                            self.add_error(LexerError::UnrecognizedCharacter(here));
                            self.consume_char();
                            proof {
                                lemma_fault_step(pre, *self, before, e0, LexerError::UnrecognizedCharacter(here), false, pre.position as int + 1);
                            }
                        }
                    } else if c == '*' {
                        if follower_plain(peek_character) {
                            let r = self.single_char_tok(TokenType::Asterisk);
                            proof {
                                lemma_emit_step(pre, *self, before, e0, TokenTypeView::Asterisk, pre.position as int + 1);
                            }
                            return r;
                        } else {
                            let here = self.literal_position;
                            self.add_error(LexerError::UnrecognizedCharacter(here));
                            self.consume_char();
                            proof {
                                lemma_fault_step(pre, *self, before, e0, LexerError::UnrecognizedCharacter(here), false, pre.position as int + 1);
                            }
                        }
                    } else if c == '/' {
                        if follower_plain(peek_character) {
                            let r = self.single_char_tok(TokenType::Slash);
                            proof {
                                lemma_emit_step(pre, *self, before, e0, TokenTypeView::Slash, pre.position as int + 1);
                            }
                            return r;
                        } else {
                            let here = self.literal_position;
                            self.add_error(LexerError::UnrecognizedCharacter(here));
                            self.consume_char();
                            proof {
                                lemma_fault_step(pre, *self, before, e0, LexerError::UnrecognizedCharacter(here), false, pre.position as int + 1);
                            }
                        }
                    } else if c == '=' {
                        if follower_is(peek_character, '=') {
                            let r = self.double_char_tok(TokenType::Equal);
                            proof {
                                lemma_emit_step(pre, *self, before, e0, TokenTypeView::Equal, pre.position as int + 2);
                            }
                            return r;
                        } else if follower_plain(peek_character) {
                            let r = self.single_char_tok(TokenType::Assign);
                            proof {
                                lemma_emit_step(pre, *self, before, e0, TokenTypeView::Assign, pre.position as int + 1);
                            }
                            return r;
                        } else {
                            let here = self.literal_position;
                            self.add_error(LexerError::UnrecognizedCharacter(here));
                            self.consume_char();
                            proof {
                                lemma_fault_step(pre, *self, before, e0, LexerError::UnrecognizedCharacter(here), false, pre.position as int + 1);
                            }
                        }
                    } else if c == '!' {
                        if follower_is(peek_character, '=') {
                            let r = self.double_char_tok(TokenType::NotEqual);
                            proof {
                                lemma_emit_step(pre, *self, before, e0, TokenTypeView::NotEqual, pre.position as int + 2);
                            }
                            return r;
                        } else if follower_plain(peek_character) {
                            let r = self.single_char_tok(TokenType::Bang);
                            proof {
                                lemma_emit_step(pre, *self, before, e0, TokenTypeView::Bang, pre.position as int + 1);
                            }
                            return r;
                        } else {
                            let here = self.literal_position;
                            self.add_error(LexerError::UnrecognizedCharacter(here));
                            self.consume_char();
                            proof {
                                lemma_fault_step(pre, *self, before, e0, LexerError::UnrecognizedCharacter(here), false, pre.position as int + 1);
                            }
                        }
                    } else if c == '>' {
                        if follower_is(peek_character, '=') {
                            let r = self.double_char_tok(TokenType::GTEq);
                            proof {
                                lemma_emit_step(pre, *self, before, e0, TokenTypeView::GTEq, pre.position as int + 2);
                            }
                            return r;
                        } else if follower_plain(peek_character) {
                            let r = self.single_char_tok(TokenType::GT);
                            proof {
                                lemma_emit_step(pre, *self, before, e0, TokenTypeView::GT, pre.position as int + 1);
                            }
                            return r;
                        } else {
                            let here = self.literal_position;
                            self.add_error(LexerError::UnrecognizedCharacter(here));
                            self.consume_char();
                            proof {
                                lemma_fault_step(pre, *self, before, e0, LexerError::UnrecognizedCharacter(here), false, pre.position as int + 1);
                            }
                        }
                    } else if c == '<' {
                        if follower_is(peek_character, '=') {
                            let r = self.double_char_tok(TokenType::LTEq);
                            proof {
                                lemma_emit_step(pre, *self, before, e0, TokenTypeView::LTEq, pre.position as int + 2);
                            }
                            return r;
                        } else if follower_plain(peek_character) {
                            let r = self.single_char_tok(TokenType::LT);
                            proof {
                                lemma_emit_step(pre, *self, before, e0, TokenTypeView::LT, pre.position as int + 1);
                            }
                            return r;
                        } else {
                            let here = self.literal_position;
                            self.add_error(LexerError::UnrecognizedCharacter(here));
                            self.consume_char();
                            proof {
                                lemma_fault_step(pre, *self, before, e0, LexerError::UnrecognizedCharacter(here), false, pre.position as int + 1);
                            }
                        }
                    } else if c == '\n' || blank_char(c) {
                        self.consume_char();
                        proof {
                            lemma_blank_step(pre, *self, pre.position as int + 1);
                        }
                    } else if digit_char(c) {
                        let r = self.integer();
                        match r {
                            Some(t) => {
                                proof {
                                    let i = pre.position as int;
                                    let e = num_end(s, i);
                                    let text = s.subrange(i, e);
                                    if dot_count(text) == 0 && digits_val(text) <= usize::MAX as int {
                                        lemma_emit_step(pre, *self, before, e0, TokenTypeView::Integer(digits_val(text) as usize), e);
                                    } else {
                                        lemma_emit_step(pre, *self, before, e0, TokenTypeView::Float(text), e);
                                    }
                                }
                                return Some(t);
                            },
                            None => {
                                proof {
                                    let i = pre.position as int;
                                    let e = num_end(s, i);
                                    lemma_fault_step(pre, *self, before, e0, LexerError::MalformedNumericLiteral(pre.literal_position), true, e);
                                }
                            },
                        }
                    } else if ident_char(c) {
                        let r = self.ident();
                        proof {
                            let i = pre.position as int;
                            let e = ident_end(s, i);
                            lemma_emit_step(pre, *self, before, e0, ident_kind(s.subrange(i, e)), e);
                        }
                        return r;
                    } else if c == '"' {
                        let r = self.string();
                        proof {
                            let i = pre.position as int;
                            let e = string_end(s, i + 1);
                            let nx: int = if e < s.len() { e + 1 } else { s.len() as int };
                            lemma_emit_step(pre, *self, before, e0, TokenTypeView::String(s.subrange(i + 1, e)), nx);
                        }
                        return r;
                    } else {
                        let here = self.literal_position;
                        self.add_error(LexerError::UnrecognizedCharacter(here));
                        self.consume_char();
                        proof {
                            lemma_fault_step(pre, *self, before, e0, LexerError::UnrecognizedCharacter(here), false, pre.position as int + 1);
                        }
                    }
                },
            }
        }
    }

    /// Runs the lexer to exhaustion: every token of the remaining input in
    /// order, with every diagnostic of the pass recorded in order.
    pub fn lex(&mut self) -> (r: Vec<Token>)
        requires
            old(self).wf(),
        ensures
            final(self).wf(),
            final(self).input == old(self).input,
            final(self).position as int == final(self).input@.len(),
            r.deep_view() == old(self).lex_rest().tokens,
            final(self).errors@.subrange(0, old(self).errors@.len() as int) == old(self).errors@,
            final(self).errors.deep_view().skip(old(self).errors@.len() as int) == old(
                self,
            ).lex_rest().errors,
    {
        let ghost e0 = old(self).errors@.len() as int;
        let ghost before = old(self).lex_rest();
        let mut tokens: Vec<Token> = Vec::new();
        proof {
            assert(self.errors.deep_view().skip(e0) =~= Seq::<LexerErrorView>::empty());
            assert(Seq::<LexerErrorView>::empty() + self.lex_rest().errors =~= self.lex_rest().errors);
            assert(tokens.deep_view() + self.lex_rest().tokens =~= self.lex_rest().tokens);
            assert(self.errors@.subrange(0, e0) =~= old(self).errors@);
        }
        loop
            invariant
                self.wf(),
                self.input == old(self).input,
                e0 == old(self).errors@.len() as int,
                before == old(self).lex_rest(),
                0 <= e0 <= self.errors@.len(),
                self.errors@.subrange(0, e0) == old(self).errors@,
                before.tokens == tokens.deep_view() + self.lex_rest().tokens,
                before.errors == self.errors.deep_view().skip(e0) + self.lex_rest().errors,
            ensures
                self.position as int == self.input@.len(),
                before.tokens == tokens.deep_view(),
                before.errors == self.errors.deep_view().skip(e0),
            decreases self.lex_rest().tokens.len(),
        {
            let ghost pre = *self;
            let ghost tv = tokens.deep_view();
            let t = self.next();
            match t {
                Some(tok) => {
                    proof {
                        lemma_errors_extend(pre.errors, self.errors, pre.errors@.len() as int, e0);
                        assert(pre.lex_rest().tokens =~= seq![tok@] + self.lex_rest().tokens);
                        assert(before.errors =~= self.errors.deep_view().skip(e0)
                            + self.lex_rest().errors);
                    }
                    tokens.push(tok);
                    proof {
                        assert(tokens.deep_view() =~= tv.push(tok@));
                        assert(before.tokens =~= tokens.deep_view() + self.lex_rest().tokens);
                    }
                },
                None => {
                    proof {
                        lemma_errors_extend(pre.errors, self.errors, pre.errors@.len() as int, e0);
                        assert(before.tokens =~= tokens.deep_view());
                        assert(self.lex_rest().tokens =~= Seq::<TokenView>::empty());
                        assert(self.lex_rest().errors =~= Seq::<LexerErrorView>::empty());
                        assert(before.errors =~= self.errors.deep_view().skip(e0));
                    }
                    break;
                },
            }
        }
        tokens
    }
}

/// A diagnostics vector that extends another keeps the old entries' views
/// as a prefix of its own.
proof fn lemma_errors_extend(a: Vec<LexerError>, b: Vec<LexerError>, n: int, e0: int)
    requires
        0 <= e0 <= n,
        n == a@.len(),
        b@.len() >= n,
        b@.subrange(0, n) == a@,
    ensures
        b.deep_view().skip(e0) == a.deep_view().skip(e0) + b.deep_view().skip(n),
{
    assert(b.deep_view().skip(e0) =~= a.deep_view().skip(e0) + b.deep_view().skip(n)) by {
        assert forall|k: int| 0 <= k < n implies b@[k] == a@[k] by {
            assert(b@.subrange(0, n)[k] == b@[k]);
        }
    }
}

/// A step that emits a token peels that token off the front of the
/// remaining output and leaves the diagnostics alone.
proof fn lemma_emit_step(
    pre: Lexer<'_>,
    cur: Lexer<'_>,
    before: LexOutput,
    e0: int,
    kind: TokenTypeView,
    next: int,
)
    requires
        pre.wf(),
        cur.wf(),
        cur.input == pre.input,
        cur.errors == pre.errors,
        pre.position < pre.input@.len(),
        next == cur.position as int,
        lex_step(pre.input@, pre.position as int) == (LexStep::Emit { kind, next }),
        0 <= e0 <= pre.errors@.len(),
        before.tokens == pre.lex_rest().tokens,
        before.errors == pre.errors.deep_view().skip(e0) + pre.lex_rest().errors,
    ensures
        before.tokens.len() > 0,
        before.tokens[0] == (TokenView { position: pre.literal_position@, kind }),
        cur.lex_rest().tokens == before.tokens.skip(1),
        before.errors == cur.errors.deep_view().skip(e0) + cur.lex_rest().errors,
{
    let s = pre.input@;
    let i = pre.position as int;
    let p = pre.literal_position@;
    lemma_lex_step_bounds(s, i);
    lemma_pos_bridge(s, i, next);
    let rest = lex_all(s, next, advance_pos_seq(p, s.subrange(i, next)));
    assert(pre.lex_rest().tokens == seq![TokenView { position: p, kind }] + rest.tokens);
    assert(cur.lex_rest() == rest);
    assert(before.tokens.skip(1) =~= rest.tokens);
}

/// A step that skips whitespace leaves the remaining output unchanged.
proof fn lemma_blank_step(pre: Lexer<'_>, cur: Lexer<'_>, next: int)
    requires
        pre.wf(),
        cur.wf(),
        cur.input == pre.input,
        pre.position < pre.input@.len(),
        next == cur.position as int,
        lex_step(pre.input@, pre.position as int) == (LexStep::Blank { next }),
    ensures
        cur.lex_rest() == pre.lex_rest(),
{
    let s = pre.input@;
    let i = pre.position as int;
    lemma_lex_step_bounds(s, i);
    lemma_pos_bridge(s, i, next);
}

/// A step that records a diagnostic peels that diagnostic off the front
/// of the remaining diagnostics and leaves the tokens alone.
proof fn lemma_fault_step(
    pre: Lexer<'_>,
    cur: Lexer<'_>,
    before: LexOutput,
    e0: int,
    err: LexerError,
    malformed: bool,
    next: int,
)
    requires
        pre.wf(),
        cur.wf(),
        cur.input == pre.input,
        pre.position < pre.input@.len(),
        next == cur.position as int,
        lex_step(pre.input@, pre.position as int) == (LexStep::Fault { malformed, next }),
        cur.errors@ == pre.errors@.push(err),
        err@ == fault_err(malformed, pre.literal_position@),
        0 <= e0 <= pre.errors@.len(),
        before.tokens == pre.lex_rest().tokens,
        before.errors == pre.errors.deep_view().skip(e0) + pre.lex_rest().errors,
    ensures
        cur.lex_rest().tokens == pre.lex_rest().tokens,
        before.errors == cur.errors.deep_view().skip(e0) + cur.lex_rest().errors,
        cur.errors@.subrange(0, e0) == pre.errors@.subrange(0, e0),
        cur.errors@.len() == pre.errors@.len() + 1,
{
    let s = pre.input@;
    let i = pre.position as int;
    let p = pre.literal_position@;
    lemma_lex_step_bounds(s, i);
    lemma_pos_bridge(s, i, next);
    let rest = lex_all(s, next, advance_pos_seq(p, s.subrange(i, next)));
    assert(pre.lex_rest().errors == seq![err@] + rest.errors);
    assert(cur.lex_rest() == rest);
    assert(cur.errors.deep_view() =~= pre.errors.deep_view().push(err@));
    assert(cur.errors.deep_view().skip(e0) =~= pre.errors.deep_view().skip(e0).push(err@));
    assert(pre.errors.deep_view().skip(e0).push(err@) + rest.errors =~= pre.errors.deep_view()
        .skip(e0) + (seq![err@] + rest.errors));
    assert(cur.errors@.subrange(0, e0) =~= pre.errors@.subrange(0, e0));
}

/// Whether `c` is whitespace that does not end a line.
fn blank_char(c: char) -> (r: bool)
    ensures
        r == is_blank(c),
{
    c == ' ' || c == '\t' || c == '\r'
}

/// Whether `c` is an ASCII decimal digit.
fn digit_char(c: char) -> (r: bool)
    ensures
        r == is_digit(c),
{
    let u = c as u32;
    '0' as u32 <= u && u <= '9' as u32
}

/// Whether `c` may begin or continue an identifier.
fn ident_char(c: char) -> (r: bool)
    ensures
        r == is_ident_char(c),
{
    let u = c as u32;
    ('A' as u32 <= u && u <= 'Z' as u32) || ('a' as u32 <= u && u <= 'z' as u32) || c == '_'
}

/// Whether the lookahead holds exactly the character `c`.
fn follower_is(p: Option<char>, c: char) -> (r: bool)
    ensures
        r == (p matches Some(x) && x == c),
{
    match p {
        Some(x) => x == c,
        None => false,
    }
}

/// Whether the lookahead permits an operator's plain single-character
/// form: end of input or whitespace.
fn follower_plain(p: Option<char>) -> (r: bool)
    ensures
        r == match p {
            Some(x) => is_blank(x),
            None => true,
        },
{
    match p {
        Some(x) => blank_char(x),
        None => true,
    }
}

} // verus!
