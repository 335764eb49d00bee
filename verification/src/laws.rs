//! Laws of the front end, stated once over all inputs: how compound
//! operators lex, how keywords are recognized, how string literals treat
//! newlines, and how the parser resolves operator precedence and
//! associativity.

use vstd::prelude::*;

use crate::ast::ExpressionView;
use crate::lexer::LexStep;
use crate::lexer::advance_pos;
use crate::lexer::advance_pos_seq;
use crate::lexer::ident_end;
use crate::lexer::is_ident_char;
use crate::lexer::lemma_advance_pos_seq_push;
use crate::lexer::lemma_ident_end_props;
use crate::lexer::lemma_string_end_props;
use crate::lexer::lex_step;
use crate::lexer::string_end;
use crate::parser::infix_capable;
use crate::parser::spec_infix_loop;
use crate::parser::spec_parse_expr;
use crate::parser::spec_parse_prefix;
use crate::parser::ParserErrorView;
use crate::precedences::spec_binding_power;
use crate::token::PosView;
use crate::token::TokenTypeView;
use crate::token::TokenView;
use crate::token::ident_kind;
use crate::token::keyword_kind;

verus! {

/// The compound token that a two-character operator form denotes, if the
/// two characters form one.
pub open spec fn compound_kind(c1: char, c2: char) -> Option<TokenTypeView> {
    if c1 == '&' && c2 == '&' {
        Some(TokenTypeView::And)
    } else if c1 == '|' && c2 == '|' {
        Some(TokenTypeView::Or)
    } else if c1 == '=' && c2 == '=' {
        Some(TokenTypeView::Equal)
    } else if c1 == '!' && c2 == '=' {
        Some(TokenTypeView::NotEqual)
    } else if c1 == '<' && c2 == '=' {
        Some(TokenTypeView::LTEq)
    } else if c1 == '>' && c2 == '=' {
        Some(TokenTypeView::GTEq)
    } else if c1 == '-' && c2 == '>' {
        Some(TokenTypeView::OpenBlock)
    } else if c1 == '+' && c2 == '+' {
        Some(TokenTypeView::DoublePlus)
    } else if c1 == '-' && c2 == '-' {
        Some(TokenTypeView::DoubleMinus)
    } else {
        None
    }
}

/// For every two-character operator form, the lexer yields one compound
/// token spanning both characters — never two single-character tokens.
pub proof fn lemma_compound_operator(s: Seq<char>, i: int, k: TokenTypeView)
    requires
        0 <= i,
        i + 1 < s.len(),
        compound_kind(s[i], s[i + 1]) == Some(k),
    ensures
        lex_step(s, i) == (LexStep::Emit { kind: k, next: i + 2 }),
{
}

/// Keyword recognition is exact-match only: an identifier lexeme is the
/// whole maximal run of identifier characters, and it yields a keyword
/// token just when the whole run equals that keyword — a lexeme that
/// merely begins with a keyword stays one identifier token.
pub proof fn lemma_keyword_exact_match(s: Seq<char>, i: int)
    requires
        0 <= i < s.len(),
        is_ident_char(s[i]),
    ensures
        ({
            let e = ident_end(s, i);
            let text = s.subrange(i, e);
            &&& lex_step(s, i) == (LexStep::Emit { kind: ident_kind(text), next: e })
            &&& e < s.len() ==> !is_ident_char(s[e])
            &&& (keyword_kind(text) is None ==> ident_kind(text) == TokenTypeView::Identifier(
                text,
            ))
            &&& (text != "true"@ && text != "false"@ && text != "value"@ && text != "update"@
                && text != "constant"@ && text != "return"@ && text != "if"@ && text != "else"@
                && text != "f"@ && text != "end"@ ==> ident_kind(text)
                == TokenTypeView::Identifier(text))
        }),
{
    lemma_ident_end_props(s, i);
}

/// How many newlines a run of characters holds.
pub open spec fn newline_count(s: Seq<char>) -> int
    decreases s.len(),
{
    if s.len() == 0 {
        0
    } else {
        (if s[0] == '\n' {
            1int
        } else {
            0int
        }) + newline_count(s.skip(1))
    }
}

/// Consuming a run of characters advances the line counter by exactly the
/// number of newlines in the run, and a run ending in a newline leaves the
/// column counter at zero.
pub proof fn lemma_newline_tracker(p: PosView, s: Seq<char>)
    ensures
        advance_pos_seq(p, s).line == p.line + newline_count(s),
        s.len() > 0 && s.last() == '\n' ==> advance_pos_seq(p, s).column == 0,
    decreases s.len(),
{
    if s.len() > 0 {
        lemma_newline_tracker(advance_pos(p, s[0]), s.skip(1));
        if s.last() == '\n' {
            lemma_advance_pos_seq_push(p, s.drop_last(), '\n');
            assert(s.drop_last().push('\n') =~= s);
            lemma_newline_tracker(p, s.drop_last());
        }
    }
}

/// A newline inside a string literal is retained in the token's text: the
/// lexeme is one string token whose text is exactly the source characters
/// between the quotes, each newline of the source body included at its
/// offset. Together with [`lemma_newline_tracker`], consuming the lexeme
/// advances the line counter past each such newline and resets the column
/// to zero there.
pub proof fn lemma_string_newline_retained(s: Seq<char>, i: int)
    requires
        0 <= i < s.len(),
        s[i] == '"',
    ensures
        ({
            let e = string_end(s, i + 1);
            let body = s.subrange(i + 1, e);
            &&& lex_step(s, i) == (LexStep::Emit {
                kind: TokenTypeView::String(body),
                next: if e < s.len() {
                    e + 1
                } else {
                    s.len() as int
                },
            })
            &&& forall|k: int| i + 1 <= k < e && s[k] == '\n' ==> body[k - (i + 1)] == '\n'
        }),
{
    lemma_string_end_props(s, i + 1);
}

/// Whether a token kind is a literal: it begins an expression and is the
/// whole of it.
pub open spec fn is_literal(k: TokenTypeView) -> bool {
    match k {
        TokenTypeView::Integer(_) => true,
        TokenTypeView::Float(_) => true,
        TokenTypeView::String(_) => true,
        TokenTypeView::Boolean(_) => true,
        TokenTypeView::Identifier(_) => true,
        _ => false,
    }
}

/// The literal expression node that a literal token parses to.
pub open spec fn lit_view(t: TokenView) -> ExpressionView {
    match t.kind {
        TokenTypeView::Integer(_) => ExpressionView::IntegerLiteral { token: t },
        TokenTypeView::Float(_) => ExpressionView::FloatLiteral { token: t },
        TokenTypeView::String(_) => ExpressionView::StringLiteral { token: t },
        TokenTypeView::Boolean(_) => ExpressionView::BooleanLiteral { token: t },
        _ => ExpressionView::IdentifierLiteral { token: t },
    }
}

/// Every token kind with an infix handler binds more strongly than the
/// weakest level.
pub proof fn lemma_infix_binds(k: TokenTypeView)
    requires
        infix_capable(k),
    ensures
        spec_binding_power(k) > 0,
{
}

/// Of two operators in a row, one that binds more strongly on the right
/// is absorbed into the right-hand side: `a op1 b op2 c` parses as
/// `a op1 (b op2 c)` whenever `op2` binds more strongly than `op1` — in
/// particular, multiplication binds tighter than addition.
pub proof fn lemma_higher_precedence_binds_tighter(
    toks: Seq<TokenView>,
    a: TokenView,
    op1: TokenView,
    b: TokenView,
    op2: TokenView,
    c: TokenView,
)
    requires
        toks == seq![a, op1, b, op2, c],
        is_literal(a.kind),
        is_literal(b.kind),
        is_literal(c.kind),
        infix_capable(op1.kind),
        infix_capable(op2.kind),
        spec_binding_power(op1.kind) < spec_binding_power(op2.kind),
    ensures
        spec_parse_expr(toks, 0, 0) == Ok::<(ExpressionView, int), ParserErrorView>(
            (
                ExpressionView::InfixExpression {
                    token: op1,
                    left: Box::new(lit_view(a)),
                    right: Box::new(
                        ExpressionView::InfixExpression {
                            token: op2,
                            left: Box::new(lit_view(b)),
                            right: Box::new(lit_view(c)),
                        },
                    ),
                },
                4,
            ),
        ),
{
    let bp1 = spec_binding_power(op1.kind);
    let bp2 = spec_binding_power(op2.kind);
    lemma_infix_binds(op1.kind);
    assert(toks[0] == a && toks[1] == op1 && toks[2] == b && toks[3] == op2 && toks[4] == c);
    assert(spec_parse_prefix(toks, 4) == Ok::<(ExpressionView, int), ParserErrorView>(
        (lit_view(c), 4),
    ));
    assert(spec_infix_loop(toks, lit_view(c), 4, bp2) == Ok::<
        (ExpressionView, int),
        ParserErrorView,
    >((lit_view(c), 4)));
    assert(spec_parse_expr(toks, 4, bp2) == Ok::<(ExpressionView, int), ParserErrorView>(
        (lit_view(c), 4),
    ));
    let inner = ExpressionView::InfixExpression {
        token: op2,
        left: Box::new(lit_view(b)),
        right: Box::new(lit_view(c)),
    };
    assert(spec_parse_prefix(toks, 2) == Ok::<(ExpressionView, int), ParserErrorView>(
        (lit_view(b), 2),
    ));
    assert(spec_infix_loop(toks, inner, 4, bp1) == Ok::<(ExpressionView, int), ParserErrorView>(
        (inner, 4),
    ));
    assert(spec_infix_loop(toks, lit_view(b), 2, bp1) == Ok::<
        (ExpressionView, int),
        ParserErrorView,
    >((inner, 4)));
    assert(spec_parse_expr(toks, 2, bp1) == Ok::<(ExpressionView, int), ParserErrorView>(
        (inner, 4),
    ));
    assert(spec_parse_prefix(toks, 0) == Ok::<(ExpressionView, int), ParserErrorView>(
        (lit_view(a), 0),
    ));
    let outer = ExpressionView::InfixExpression {
        token: op1,
        left: Box::new(lit_view(a)),
        right: Box::new(inner),
    };
    assert(spec_infix_loop(toks, outer, 4, 0) == Ok::<(ExpressionView, int), ParserErrorView>(
        (outer, 4),
    ));
    assert(spec_infix_loop(toks, lit_view(a), 0, 0) == Ok::<
        (ExpressionView, int),
        ParserErrorView,
    >((outer, 4)));
}

/// A chain of two operators at the same level nests to the left:
/// `a op1 b op2 c` parses as `(a op1 b) op2 c` whenever `op1` and `op2`
/// bind equally strongly — the right operand of `op1` is parsed at
/// `op1`'s own level, so an operand of equal level is not absorbed.
pub proof fn lemma_same_precedence_left_associative(
    toks: Seq<TokenView>,
    a: TokenView,
    op1: TokenView,
    b: TokenView,
    op2: TokenView,
    c: TokenView,
)
    requires
        toks == seq![a, op1, b, op2, c],
        is_literal(a.kind),
        is_literal(b.kind),
        is_literal(c.kind),
        infix_capable(op1.kind),
        infix_capable(op2.kind),
        spec_binding_power(op1.kind) == spec_binding_power(op2.kind),
    ensures
        spec_parse_expr(toks, 0, 0) == Ok::<(ExpressionView, int), ParserErrorView>(
            (
                ExpressionView::InfixExpression {
                    token: op2,
                    left: Box::new(
                        ExpressionView::InfixExpression {
                            token: op1,
                            left: Box::new(lit_view(a)),
                            right: Box::new(lit_view(b)),
                        },
                    ),
                    right: Box::new(lit_view(c)),
                },
                4,
            ),
        ),
{
    let bp1 = spec_binding_power(op1.kind);
    let bp2 = spec_binding_power(op2.kind);
    lemma_infix_binds(op1.kind);
    assert(toks[0] == a && toks[1] == op1 && toks[2] == b && toks[3] == op2 && toks[4] == c);
    assert(spec_parse_prefix(toks, 2) == Ok::<(ExpressionView, int), ParserErrorView>(
        (lit_view(b), 2),
    ));
    assert(spec_infix_loop(toks, lit_view(b), 2, bp1) == Ok::<
        (ExpressionView, int),
        ParserErrorView,
    >((lit_view(b), 2)));
    assert(spec_parse_expr(toks, 2, bp1) == Ok::<(ExpressionView, int), ParserErrorView>(
        (lit_view(b), 2),
    ));
    let inner = ExpressionView::InfixExpression {
        token: op1,
        left: Box::new(lit_view(a)),
        right: Box::new(lit_view(b)),
    };
    assert(spec_parse_prefix(toks, 4) == Ok::<(ExpressionView, int), ParserErrorView>(
        (lit_view(c), 4),
    ));
    assert(spec_infix_loop(toks, lit_view(c), 4, bp2) == Ok::<
        (ExpressionView, int),
        ParserErrorView,
    >((lit_view(c), 4)));
    assert(spec_parse_expr(toks, 4, bp2) == Ok::<(ExpressionView, int), ParserErrorView>(
        (lit_view(c), 4),
    ));
    let outer = ExpressionView::InfixExpression {
        token: op2,
        left: Box::new(inner),
        right: Box::new(lit_view(c)),
    };
    assert(spec_infix_loop(toks, outer, 4, 0) == Ok::<(ExpressionView, int), ParserErrorView>(
        (outer, 4),
    ));
    assert(spec_infix_loop(toks, inner, 2, 0) == Ok::<(ExpressionView, int), ParserErrorView>(
        (outer, 4),
    ));
    assert(spec_parse_prefix(toks, 0) == Ok::<(ExpressionView, int), ParserErrorView>(
        (lit_view(a), 0),
    ));
    assert(spec_infix_loop(toks, lit_view(a), 0, 0) == Ok::<
        (ExpressionView, int),
        ParserErrorView,
    >((outer, 4)));
}

} // verus!
