//! Recursive-descent parsing: consumes the token stream and builds AST
//! lines. Expression parsing is right-leaning with a one-level precedence
//! repair: after parsing `left op right`, when `right` is itself a binary
//! expression whose operator binds looser than `op`, the tree is rotated so
//! that `op` sits below it; [`root_prec_ok`] states the resulting shape.
//!
//! Expression parsing is fully specified: [`sp_expr`] and [`sp_unary`] give
//! the parse beginning at a position of the text (fuel-based, with
//! [`fuel_for`] always enough), and the executable descent is proved to
//! follow them. Statement parsing is specified by shape: which keyword
//! yields which statement variant, the one-character variable-name rule,
//! and that every line keeps a verbatim slice of the source text.
//!
//! The parser consumes the whole input, skipping blank lines, and raises
//! the first fault it meets; a fault aborts the whole submission and no
//! lines are returned.

use vstd::prelude::*;

use crate::ast::ArithmeticOperator;
use crate::ast::BinaryExpression;
use crate::ast::ExprV;
use crate::ast::Expression;
use crate::ast::Identifier;
use crate::ast::IfCondition;
use crate::ast::Line;
use crate::ast::line_view;
use crate::ast::stmt_view;
use crate::ast::LineV;
use crate::ast::LitV;
use crate::ast::Literal;
use crate::ast::expr_view;
use crate::ast::RelationOperator;
use crate::ast::Statement;
use crate::ast::StmtV;
use crate::ast::UnaryExpression;
use crate::ast::UnaryOperator;
use crate::ast::VarDeclaration;
use crate::errors::SynErrV;
use crate::errors::SyntaxError;
use crate::lexer::Lexer;
use crate::lexer::Token;
use crate::lexer::TokenKind;
use crate::lexer::TokenValue;
use crate::lexer::TokenV;
use crate::lexer::TokenValueV;
use crate::lexer::is_upper_char;
use crate::lexer::lemma_scan_bounds;
use crate::lexer::lemma_scan_token_shape;
use crate::lexer::scan;

verus! {

/// The result of a parsing step.
pub type ParseResult<T> = Result<T, SyntaxError>;

/// The parser over one piece of source text.
pub struct Parser<'a> {
    lexer: Lexer<'a>,
    source: &'a str,
}

/// The binding strength of an arithmetic operator: multiplication and
/// division bind tighter than addition and subtraction.
pub open spec fn prec(op: ArithmeticOperator) -> int {
    match op {
        ArithmeticOperator::Add => 1,
        ArithmeticOperator::Subtract => 1,
        ArithmeticOperator::Multiply => 2,
        ArithmeticOperator::Divide => 2,
    }
}

/// The shape the precedence repair guarantees at the root of a parsed
/// expression: a binary root never binds tighter than the root of its own
/// right subtree.
///
/// The repair is deliberately one level deep and blind to parentheses: a
/// parenthesized right operand whose root binds looser than the outer
/// operator is rotated like any other binary subtree (`8 / (2 + 2)` groups
/// as `(8 / 2) + 2`), and operators of equal strength group to the right
/// (`2 - 3 - 4` is `2 - (3 - 4)`). Both follow from the right-leaning
/// parse with this single repair; [`sp_expr`] states the behavior exactly.
pub open spec fn root_prec_ok(e: ExprV) -> bool {
    match e {
        ExprV::Binary(op, _l, r) => match *r {
            ExprV::Binary(rop, _rl, _rr) => prec(op) <= prec(rop),
            _ => true,
        },
        _ => true,
    }
}


/// The fuel that always suffices for the descent beginning at `pos`: two
/// units per remaining character and two more, since of two nested
/// recursion steps at least one consumes a character.
pub open spec fn fuel_for(s: Seq<char>, pos: int) -> nat {
    (2 * (s.len() - pos) + 2) as nat
}

/// The one-level precedence repair applied after parsing `left op right`
/// right-leaning: when `right` is a binary expression whose root binds
/// looser than `op`, the tree is rotated so that `op` sits below it, taking
/// the right subtree's left operand.
pub open spec fn repair(op: ArithmeticOperator, left: ExprV, right: ExprV) -> ExprV {
    match right {
        ExprV::Binary(rop, rl, rr) => if prec(op) > prec(rop) {
            ExprV::Binary(rop, Box::new(ExprV::Binary(op, Box::new(left), rl)), rr)
        } else {
            ExprV::Binary(op, Box::new(left), Box::new(right))
        },
        _ => ExprV::Binary(op, Box::new(left), Box::new(right)),
    }
}

/// A parsed term under its optional leading sign.
pub open spec fn wrap_sign(sign: Option<UnaryOperator>, arg: ExprV, end: int) -> Option<
    Result<(ExprV, int), SynErrV>,
> {
    match sign {
        Option::Some(op) => Option::Some(
            Result::Ok((ExprV::Unary(Option::Some(op), Box::new(arg)), end)),
        ),
        Option::None => Option::Some(Result::Ok((arg, end))),
    }
}

/// The specification of signed-term parsing at `pos`: the term and the
/// position just after it, the fault met, or nothing when the fuel ran out
/// (which [`fuel_for`] rules out). Mirrors one step of the descent: an
/// optional sign, then a literal, an identifier, or a parenthesized
/// sub-expression.
pub open spec fn sp_unary(s: Seq<char>, pos: int, fuel: nat) -> Option<
    Result<(ExprV, int), SynErrV>,
>
    decreases fuel, 0int,
{
    if fuel == 0 {
        Option::None
    } else {
        match scan(s, pos) {
            Result::Err(e) => Option::Some(Result::Err(e)),
            Result::Ok((t0, p0)) => {
                let sign = match t0.kind {
                    TokenKind::Add => Option::Some(UnaryOperator::Plus),
                    TokenKind::Subtract => Option::Some(UnaryOperator::Minus),
                    _ => Option::None,
                };
                let apos = if sign is Some {
                    p0
                } else {
                    pos
                };
                match scan(s, apos) {
                    Result::Err(e) => Option::Some(Result::Err(e)),
                    Result::Ok((t, p)) => {
                        if t.kind == TokenKind::NumberLiteral {
                            match t.value {
                                TokenValueV::Digit(v) => wrap_sign(sign, ExprV::Lit(LitV::Num(v)), p),
                                _ => Option::Some(Result::Err(SynErrV::UnexpectedToken(t))),
                            }
                        } else if t.kind == TokenKind::StringLiteral {
                            match t.value {
                                TokenValueV::Text(txt) => wrap_sign(
                                    sign,
                                    ExprV::Lit(LitV::Text(txt)),
                                    p,
                                ),
                                _ => Option::Some(Result::Err(SynErrV::UnexpectedToken(t))),
                            }
                        } else if t.kind == TokenKind::Identifier {
                            match t.value {
                                TokenValueV::Text(name) => wrap_sign(sign, ExprV::Ident(name), p),
                                _ => Option::Some(Result::Err(SynErrV::UnexpectedToken(t))),
                            }
                        } else if t.kind == TokenKind::LeftParen {
                            match sp_expr(s, p, (fuel - 1) as nat) {
                                Option::None => Option::None,
                                Option::Some(Result::Err(e)) => Option::Some(Result::Err(e)),
                                Option::Some(Result::Ok((e, p2))) => match scan(s, p2) {
                                    Result::Err(err) => Option::Some(Result::Err(err)),
                                    Result::Ok((t2, p3)) => if t2.kind == TokenKind::RightParen {
                                        wrap_sign(sign, e, p3)
                                    } else {
                                        Option::Some(
                                            Result::Err(SynErrV::UnexpectedToken(t2)),
                                        )
                                    },
                                },
                            }
                        } else {
                            Option::Some(Result::Err(SynErrV::UnexpectedToken(t)))
                        }
                    },
                }
            },
        }
    }
}

/// The specification of expression parsing at `pos`: a signed term,
/// optionally followed by an arithmetic operator and, right-leaning, the
/// rest of the expression, with the one-level precedence repair applied.
pub open spec fn sp_expr(s: Seq<char>, pos: int, fuel: nat) -> Option<
    Result<(ExprV, int), SynErrV>,
>
    decreases fuel, 1int,
{
    if fuel == 0 {
        Option::None
    } else {
        match sp_unary(s, pos, (fuel - 1) as nat) {
            Option::None => Option::None,
            Option::Some(Result::Err(e)) => Option::Some(Result::Err(e)),
            Option::Some(Result::Ok((left, p1))) => match scan(s, p1) {
                Result::Err(e) => Option::Some(Result::Err(e)),
                Result::Ok((t, p2)) => {
                    let op = match t.kind {
                        TokenKind::Add => Option::Some(ArithmeticOperator::Add),
                        TokenKind::Subtract => Option::Some(ArithmeticOperator::Subtract),
                        TokenKind::Multiply => Option::Some(ArithmeticOperator::Multiply),
                        TokenKind::Divide => Option::Some(ArithmeticOperator::Divide),
                        _ => Option::None,
                    };
                    match op {
                        Option::None => Option::Some(Result::Ok((left, p1))),
                        Option::Some(op) => match sp_expr(s, p2, (fuel - 1) as nat) {
                            Option::None => Option::None,
                            Option::Some(Result::Err(e)) => Option::Some(Result::Err(e)),
                            Option::Some(Result::Ok((right, p3))) => Option::Some(
                                Result::Ok((repair(op, left, right), p3)),
                            ),
                        },
                    }
                },
            },
        }
    }
}

/// With fuel as [`fuel_for`] gives it, the signed-term parser always has
/// an answer, and a successful one ends strictly further into the text.
proof fn lemma_sp_unary_some(s: Seq<char>, pos: int, f: nat)
    requires
        0 <= pos <= s.len(),
        f >= 2 * (s.len() - pos) + 1,
    ensures
        sp_unary(s, pos, f) is Some,
        match sp_unary(s, pos, f) {
            Option::Some(Result::Ok((_e, p))) => pos < p <= s.len(),
            _ => true,
        },
    decreases f, 0int,
{
    lemma_scan_bounds(s, pos);
    match scan(s, pos) {
        Result::Err(_e) => {},
        Result::Ok((t0, p0)) => {
            let sign = match t0.kind {
                TokenKind::Add => Option::Some(UnaryOperator::Plus),
                TokenKind::Subtract => Option::Some(UnaryOperator::Minus),
                _ => Option::None,
            };
            let apos = if sign is Some {
                p0
            } else {
                pos
            };
            lemma_scan_bounds(s, apos);
            match scan(s, apos) {
                Result::Err(_e) => {},
                Result::Ok((t, p)) => {
                    if t.kind == TokenKind::LeftParen {
                        lemma_sp_expr_some(s, p, (f - 1) as nat);
                        match sp_expr(s, p, (f - 1) as nat) {
                            Option::Some(Result::Ok((_e, p2))) => {
                                lemma_scan_bounds(s, p2);
                            },
                            _ => {},
                        }
                    }
                },
            }
        },
    }
}

/// With fuel as [`fuel_for`] gives it, the expression parser always has an
/// answer, and a successful one ends strictly further into the text.
proof fn lemma_sp_expr_some(s: Seq<char>, pos: int, f: nat)
    requires
        0 <= pos <= s.len(),
        f >= 2 * (s.len() - pos) + 2,
    ensures
        sp_expr(s, pos, f) is Some,
        match sp_expr(s, pos, f) {
            Option::Some(Result::Ok((_e, p))) => pos < p <= s.len(),
            _ => true,
        },
    decreases f, 1int,
{
    lemma_sp_unary_some(s, pos, (f - 1) as nat);
    match sp_unary(s, pos, (f - 1) as nat) {
        Option::Some(Result::Ok((_left, p1))) => {
            lemma_scan_bounds(s, p1);
            match scan(s, p1) {
                Result::Ok((t, p2)) => {
                    let is_op = t.kind == TokenKind::Add || t.kind == TokenKind::Subtract
                        || t.kind == TokenKind::Multiply || t.kind == TokenKind::Divide;
                    if is_op {
                        lemma_sp_expr_some(s, p2, (f - 1) as nat);
                    }
                },
                _ => {},
            }
        },
        _ => {},
    }
}

/// More fuel never changes an answer the signed-term parser already gives.
proof fn lemma_sp_unary_monotone(s: Seq<char>, pos: int, f1: nat, f2: nat)
    requires
        f1 <= f2,
        sp_unary(s, pos, f1) is Some,
    ensures
        sp_unary(s, pos, f2) == sp_unary(s, pos, f1),
    decreases f1, 0int,
{
    if f1 > 0 {
        match scan(s, pos) {
            Result::Err(_e) => {},
            Result::Ok((t0, p0)) => {
                let sign = match t0.kind {
                    TokenKind::Add => Option::Some(UnaryOperator::Plus),
                    TokenKind::Subtract => Option::Some(UnaryOperator::Minus),
                    _ => Option::None,
                };
                let apos = if sign is Some {
                    p0
                } else {
                    pos
                };
                match scan(s, apos) {
                    Result::Err(_e) => {},
                    Result::Ok((t, p)) => {
                        if t.kind == TokenKind::LeftParen {
                            if sp_expr(s, p, (f1 - 1) as nat) is Some {
                                lemma_sp_expr_monotone(s, p, (f1 - 1) as nat, (f2 - 1) as nat);
                            }
                        }
                    },
                }
            },
        }
    }
}

/// More fuel never changes an answer the expression parser already gives.
proof fn lemma_sp_expr_monotone(s: Seq<char>, pos: int, f1: nat, f2: nat)
    requires
        f1 <= f2,
        sp_expr(s, pos, f1) is Some,
    ensures
        sp_expr(s, pos, f2) == sp_expr(s, pos, f1),
    decreases f1, 1int,
{
    if f1 > 0 {
        if sp_unary(s, pos, (f1 - 1) as nat) is Some {
            lemma_sp_unary_monotone(s, pos, (f1 - 1) as nat, (f2 - 1) as nat);
            match sp_unary(s, pos, (f1 - 1) as nat) {
                Option::Some(Result::Ok((left, p1))) => {
                    match scan(s, p1) {
                        Result::Ok((t, p2)) => {
                            if sp_expr(s, p2, (f1 - 1) as nat) is Some {
                                lemma_sp_expr_monotone(s, p2, (f1 - 1) as nat, (f2 - 1) as nat);
                            }
                        },
                        _ => {},
                    }
                },
                _ => {},
            }
        }
    }
}

/// How an executable signed-term-parsing result at `pos` relates to the
/// specified one.
pub open spec fn unary_result_matches(
    s: Seq<char>,
    pos: int,
    r: ParseResult<Expression>,
    new_pos: int,
) -> bool {
    match r {
        Result::Ok(e) => sp_unary(s, pos, fuel_for(s, pos)) == Option::Some(
            Result::<(ExprV, int), SynErrV>::Ok((expr_view(e), new_pos)),
        ),
        Result::Err(err) => sp_unary(s, pos, fuel_for(s, pos)) == Option::Some(
            Result::<(ExprV, int), SynErrV>::Err(err@),
        ),
    }
}

/// How an executable expression-parsing result at `pos` relates to the
/// specified one.
pub open spec fn expr_result_matches(
    s: Seq<char>,
    pos: int,
    r: ParseResult<Expression>,
    new_pos: int,
) -> bool {
    match r {
        Result::Ok(e) => sp_expr(s, pos, fuel_for(s, pos)) == Option::Some(
            Result::<(ExprV, int), SynErrV>::Ok((expr_view(e), new_pos)),
        ),
        Result::Err(err) => sp_expr(s, pos, fuel_for(s, pos)) == Option::Some(
            Result::<(ExprV, int), SynErrV>::Err(err@),
        ),
    }
}

/// The relational operator a token kind stands for, if any.
pub open spec fn rel_op_of(k: TokenKind) -> Option<RelationOperator> {
    match k {
        TokenKind::Equal => Option::Some(RelationOperator::Equal),
        TokenKind::NotEqual => Option::Some(RelationOperator::NotEqual),
        TokenKind::LessThan => Option::Some(RelationOperator::LessThan),
        TokenKind::LessThanOrEqual => Option::Some(RelationOperator::LessThanOrEqual),
        TokenKind::GreaterThan => Option::Some(RelationOperator::GreaterThan),
        TokenKind::GreaterThanOrEqual => Option::Some(RelationOperator::GreaterThanOrEqual),
        _ => Option::None,
    }
}

/// Which statement variant each keyword parses to.
pub open spec fn stmt_matches_keyword(kw: Seq<char>, st: StmtV) -> bool {
    if kw == "PRINT"@ {
        st is Print
    } else if kw == "INPUT"@ {
        st is Input
    } else if kw == "IF"@ {
        st is If
    } else if kw == "LET"@ {
        st is Assign
    } else if kw == "GOTO"@ {
        st is Goto
    } else if kw == "GOSUB"@ {
        st is Gosub
    } else if kw == "NEW"@ {
        st is New
    } else if kw == "RUN"@ {
        st is Run
    } else if kw == "LIST"@ {
        st is List
    } else if kw == "CLS"@ {
        st is Cls
    } else if kw == "RETURN"@ {
        st is Return
    } else if kw == "END"@ {
        st is End
    } else if kw == "HELP"@ {
        st is Help
    } else if kw == "LOAD"@ {
        st is Load
    } else if kw == "SAVE"@ {
        st is Save
    } else if kw == "REM"@ {
        st is Rem
    } else {
        false
    }
}


/// The fuel that always suffices for statement-level parsing at `pos`: two
/// units per remaining character and four more; expression parsing inside
/// statements runs at its own [`fuel_for`] and costs no statement fuel.
pub open spec fn stmt_fuel_for(s: Seq<char>, pos: int) -> nat {
    (2 * (s.len() - pos) + 4) as nat
}

/// The specification of a REM statement's tail: tokens are consumed and
/// discarded up to (not through) the end of the line or of the input; the
/// result is the position where that terminator's token begins.
pub open spec fn sp_rem_tail(s: Seq<char>, pos: int, fuel: nat) -> Option<Result<int, SynErrV>>
    decreases fuel,
{
    if fuel == 0 {
        Option::None
    } else {
        match scan(s, pos) {
            Result::Err(e) => Option::Some(Result::Err(e)),
            Result::Ok((t, p)) => if t.kind == TokenKind::Eol || t.kind == TokenKind::Eof {
                Option::Some(Result::Ok(pos))
            } else {
                sp_rem_tail(s, p, (fuel - 1) as nat)
            },
        }
    }
}

/// The specification of a PRINT statement's tail: a comma-separated list of
/// expressions, at least one, with the position just after the last.
pub open spec fn sp_print_tail(s: Seq<char>, pos: int, fuel: nat) -> Option<
    Result<(Seq<ExprV>, int), SynErrV>,
>
    decreases fuel,
{
    if fuel == 0 {
        Option::None
    } else {
        match sp_expr(s, pos, fuel_for(s, pos)) {
            Option::None => Option::None,
            Option::Some(Result::Err(e)) => Option::Some(Result::Err(e)),
            Option::Some(Result::Ok((e, p1))) => match scan(s, p1) {
                Result::Err(e2) => Option::Some(Result::Err(e2)),
                Result::Ok((t, p2)) => if t.kind == TokenKind::Comma {
                    match sp_print_tail(s, p2, (fuel - 1) as nat) {
                        Option::None => Option::None,
                        Option::Some(Result::Err(e3)) => Option::Some(Result::Err(e3)),
                        Option::Some(Result::Ok((rest, pe))) => Option::Some(
                            Result::Ok((seq![e] + rest, pe)),
                        ),
                    }
                } else {
                    Option::Some(Result::Ok((seq![e], p1)))
                },
            },
        }
    }
}

/// The specification of an INPUT statement's tail: a comma-separated list
/// of target identifiers, at least one, with the position just after the
/// last.
pub open spec fn sp_input_tail(s: Seq<char>, pos: int, fuel: nat) -> Option<
    Result<(Seq<Seq<char>>, int), SynErrV>,
>
    decreases fuel,
{
    if fuel == 0 {
        Option::None
    } else {
        match scan(s, pos) {
            Result::Err(e) => Option::Some(Result::Err(e)),
            Result::Ok((t, p)) => if t.kind != TokenKind::Identifier {
                Option::Some(Result::Err(SynErrV::UnexpectedToken(t)))
            } else {
                match t.value {
                    TokenValueV::Text(name) => match scan(s, p) {
                        Result::Err(e2) => Option::Some(Result::Err(e2)),
                        Result::Ok((t2, p2)) => if t2.kind == TokenKind::Comma {
                            match sp_input_tail(s, p2, (fuel - 1) as nat) {
                                Option::None => Option::None,
                                Option::Some(Result::Err(e3)) => Option::Some(Result::Err(e3)),
                                Option::Some(Result::Ok((rest, pe))) => Option::Some(
                                    Result::Ok((seq![name] + rest, pe)),
                                ),
                            }
                        } else {
                            Option::Some(Result::Ok((seq![name], p)))
                        },
                    },
                    _ => Option::Some(Result::Err(SynErrV::UnexpectedToken(t))),
                }
            },
        }
    }
}

/// The specification of a LET statement's tail: a one-character variable
/// name (a longer one is the invalid-variable-name fault, and nothing
/// else is), the equals sign, and the bound expression.
pub open spec fn sp_var_tail(s: Seq<char>, pos: int) -> Option<Result<(StmtV, int), SynErrV>> {
    match scan(s, pos) {
        Result::Err(e) => Option::Some(Result::Err(e)),
        Result::Ok((t, p)) => if t.kind != TokenKind::Identifier {
            Option::Some(Result::Err(SynErrV::UnexpectedToken(t)))
        } else {
            match t.value {
                TokenValueV::Text(name) => if name.len() > 1 {
                    Option::Some(Result::Err(SynErrV::InvalidVariableName(name, t.start)))
                } else {
                    match scan(s, p) {
                        Result::Err(e2) => Option::Some(Result::Err(e2)),
                        Result::Ok((t2, p2)) => if t2.kind != TokenKind::Equal {
                            Option::Some(Result::Err(SynErrV::UnexpectedToken(t2)))
                        } else {
                            match sp_expr(s, p2, fuel_for(s, p2)) {
                                Option::None => Option::None,
                                Option::Some(Result::Err(e3)) => Option::Some(Result::Err(e3)),
                                Option::Some(Result::Ok((e, p3))) => Option::Some(
                                    Result::Ok((StmtV::Assign(name, e), p3)),
                                ),
                            }
                        },
                    }
                },
                _ => Option::Some(Result::Err(SynErrV::UnexpectedToken(t))),
            }
        },
    }
}

/// The specification of an IF statement's tail: a condition (expression,
/// relational operator, expression), the mandatory THEN keyword, and
/// exactly one nested statement.
pub open spec fn sp_if_tail(s: Seq<char>, pos: int, fuel: nat) -> Option<
    Result<(StmtV, int), SynErrV>,
>
    decreases fuel, 0int,
{
    if fuel == 0 {
        Option::None
    } else {
        match sp_expr(s, pos, fuel_for(s, pos)) {
            Option::None => Option::None,
            Option::Some(Result::Err(e)) => Option::Some(Result::Err(e)),
            Option::Some(Result::Ok((l, p1))) => match scan(s, p1) {
                Result::Err(e2) => Option::Some(Result::Err(e2)),
                Result::Ok((t, p2)) => match rel_op_of(t.kind) {
                    Option::None => Option::Some(Result::Err(SynErrV::UnexpectedToken(t))),
                    Option::Some(op) => match sp_expr(s, p2, fuel_for(s, p2)) {
                        Option::None => Option::None,
                        Option::Some(Result::Err(e3)) => Option::Some(Result::Err(e3)),
                        Option::Some(Result::Ok((rv, p3))) => match scan(s, p3) {
                            Result::Err(e4) => Option::Some(Result::Err(e4)),
                            Result::Ok((t2, p4)) => if !(t2.kind == TokenKind::Identifier
                                && t2.value == TokenValueV::Text("THEN"@)) {
                                Option::Some(Result::Err(SynErrV::UnexpectedToken(t2)))
                            } else {
                                match sp_statement(s, p4, (fuel - 1) as nat) {
                                    Option::None => Option::None,
                                    Option::Some(Result::Err(e5)) => Option::Some(
                                        Result::Err(e5),
                                    ),
                                    Option::Some(Result::Ok((st, p5))) => Option::Some(
                                        Result::Ok(
                                            (StmtV::If(op, l, rv, Box::new(st)), p5),
                                        ),
                                    ),
                                }
                            },
                        },
                    },
                },
            },
        }
    }
}

/// The specification of statement parsing at `pos`: the keyword token is
/// consumed and decides the statement; an unknown keyword is the
/// unexpected-identifier fault with the keyword and its offset, and a
/// token carrying no name where a keyword belongs is the unexpected-token
/// fault.
pub open spec fn sp_statement(s: Seq<char>, pos: int, fuel: nat) -> Option<
    Result<(StmtV, int), SynErrV>,
>
    decreases fuel, 1int,
{
    if fuel == 0 {
        Option::None
    } else {
        match scan(s, pos) {
            Result::Err(e) => Option::Some(Result::Err(e)),
            Result::Ok((t, p)) => match t.value {
                TokenValueV::Text(kw) => if kw == "PRINT"@ {
                    match sp_print_tail(s, p, stmt_fuel_for(s, p)) {
                        Option::None => Option::None,
                        Option::Some(Result::Err(e)) => Option::Some(Result::Err(e)),
                        Option::Some(Result::Ok((es, pe))) => Option::Some(
                            Result::Ok((StmtV::Print(es), pe)),
                        ),
                    }
                } else if kw == "INPUT"@ {
                    match sp_input_tail(s, p, stmt_fuel_for(s, p)) {
                        Option::None => Option::None,
                        Option::Some(Result::Err(e)) => Option::Some(Result::Err(e)),
                        Option::Some(Result::Ok((names, pe))) => Option::Some(
                            Result::Ok((StmtV::Input(names), pe)),
                        ),
                    }
                } else if kw == "IF"@ {
                    sp_if_tail(s, p, fuel)
                } else if kw == "LET"@ {
                    sp_var_tail(s, p)
                } else if kw == "GOTO"@ {
                    match sp_expr(s, p, fuel_for(s, p)) {
                        Option::None => Option::None,
                        Option::Some(Result::Err(e)) => Option::Some(Result::Err(e)),
                        Option::Some(Result::Ok((e, pe))) => Option::Some(
                            Result::Ok((StmtV::Goto(e), pe)),
                        ),
                    }
                } else if kw == "GOSUB"@ {
                    match sp_expr(s, p, fuel_for(s, p)) {
                        Option::None => Option::None,
                        Option::Some(Result::Err(e)) => Option::Some(Result::Err(e)),
                        Option::Some(Result::Ok((e, pe))) => Option::Some(
                            Result::Ok((StmtV::Gosub(e), pe)),
                        ),
                    }
                } else if kw == "NEW"@ {
                    Option::Some(Result::Ok((StmtV::New, p)))
                } else if kw == "RUN"@ {
                    Option::Some(Result::Ok((StmtV::Run, p)))
                } else if kw == "LIST"@ {
                    Option::Some(Result::Ok((StmtV::List, p)))
                } else if kw == "CLS"@ {
                    Option::Some(Result::Ok((StmtV::Cls, p)))
                } else if kw == "RETURN"@ {
                    Option::Some(Result::Ok((StmtV::Return, p)))
                } else if kw == "END"@ {
                    Option::Some(Result::Ok((StmtV::End, p)))
                } else if kw == "HELP"@ {
                    Option::Some(Result::Ok((StmtV::Help, p)))
                } else if kw == "LOAD"@ {
                    Option::Some(Result::Ok((StmtV::Load, p)))
                } else if kw == "SAVE"@ {
                    Option::Some(Result::Ok((StmtV::Save, p)))
                } else if kw == "REM"@ {
                    match sp_rem_tail(s, p, stmt_fuel_for(s, p)) {
                        Option::None => Option::None,
                        Option::Some(Result::Err(e)) => Option::Some(Result::Err(e)),
                        Option::Some(Result::Ok(pe)) => Option::Some(
                            Result::Ok((StmtV::Rem, pe)),
                        ),
                    }
                } else {
                    Option::Some(Result::Err(SynErrV::UnexpectedIdentifier(kw, t.start)))
                },
                _ => Option::Some(Result::Err(SynErrV::UnexpectedToken(t))),
            },
        }
    }
}

/// The specification of whole-input parsing at `pos`: lines until end of
/// input, blank lines skipped, the first fault aborting everything. A line
/// beginning with a number literal is stored under that number; one
/// beginning with a keyword has none. Each line's text is the verbatim
/// slice from its first token to the end of the one-token lookahead that
/// follows its statement.
pub open spec fn sp_parse(s: Seq<char>, pos: int, fuel: nat) -> Option<
    Result<Seq<LineV>, SynErrV>,
>
    decreases fuel,
{
    if fuel == 0 {
        Option::None
    } else {
        match scan(s, pos) {
            Result::Err(e) => Option::Some(Result::Err(e)),
            Result::Ok((t, p)) => if t.kind == TokenKind::Eof {
                Option::Some(Result::Ok(Seq::empty()))
            } else if t.kind == TokenKind::Eol {
                sp_parse(s, p, (fuel - 1) as nat)
            } else if t.kind == TokenKind::Identifier || t.kind == TokenKind::NumberLiteral {
                let number = if t.kind == TokenKind::NumberLiteral {
                    match t.value {
                        TokenValueV::Digit(d) => Option::Some(d),
                        _ => Option::None,
                    }
                } else {
                    Option::None
                };
                let spos = if t.kind == TokenKind::NumberLiteral {
                    p
                } else {
                    pos
                };
                match sp_statement(s, spos, stmt_fuel_for(s, spos)) {
                    Option::None => Option::None,
                    Option::Some(Result::Err(e)) => Option::Some(Result::Err(e)),
                    Option::Some(Result::Ok((st, p_end))) => match scan(s, p_end) {
                        Result::Err(e2) => Option::Some(Result::Err(e2)),
                        Result::Ok((_t2, p2)) => {
                            let line = LineV {
                                number,
                                statement: st,
                                source: s.subrange(t.start as int, p2),
                            };
                            match sp_parse(s, p_end, (fuel - 1) as nat) {
                                Option::None => Option::None,
                                Option::Some(Result::Err(e3)) => Option::Some(Result::Err(e3)),
                                Option::Some(Result::Ok(rest)) => Option::Some(
                                    Result::Ok(seq![line] + rest),
                                ),
                            }
                        },
                    },
                }
            } else {
                Option::Some(Result::Err(SynErrV::UnexpectedToken(t)))
            },
        }
    }
}


/// With fuel as [`stmt_fuel_for`] gives it, the REM tail always has an
/// answer, ending no earlier than it began and inside the text.
proof fn lemma_sp_rem_tail_some(s: Seq<char>, pos: int, f: nat)
    requires
        0 <= pos <= s.len(),
        f >= 2 * (s.len() - pos) + 4,
    ensures
        sp_rem_tail(s, pos, f) is Some,
        match sp_rem_tail(s, pos, f) {
            Option::Some(Result::Ok(p)) => pos <= p <= s.len(),
            _ => true,
        },
    decreases f,
{
    lemma_scan_bounds(s, pos);
    match scan(s, pos) {
        Result::Ok((t, p)) => {
            if !(t.kind == TokenKind::Eol || t.kind == TokenKind::Eof) {
                lemma_sp_rem_tail_some(s, p, (f - 1) as nat);
            }
        },
        Result::Err(_e) => {},
    }
}

/// With fuel as [`stmt_fuel_for`] gives it, the PRINT tail always has an
/// answer; a successful one holds at least one expression and ends
/// strictly further into the text.
proof fn lemma_sp_print_tail_some(s: Seq<char>, pos: int, f: nat)
    requires
        0 <= pos <= s.len(),
        f >= 2 * (s.len() - pos) + 4,
    ensures
        sp_print_tail(s, pos, f) is Some,
        match sp_print_tail(s, pos, f) {
            Option::Some(Result::Ok((es, p))) => pos < p <= s.len() && es.len() >= 1,
            _ => true,
        },
    decreases f,
{
    lemma_sp_expr_some(s, pos, fuel_for(s, pos));
    match sp_expr(s, pos, fuel_for(s, pos)) {
        Option::Some(Result::Ok((_e, p1))) => {
            lemma_scan_bounds(s, p1);
            match scan(s, p1) {
                Result::Ok((t, p2)) => {
                    if t.kind == TokenKind::Comma {
                        lemma_sp_print_tail_some(s, p2, (f - 1) as nat);
                    }
                },
                _ => {},
            }
        },
        _ => {},
    }
}

/// With fuel as [`stmt_fuel_for`] gives it, the INPUT tail always has an
/// answer; a successful one holds at least one name and ends strictly
/// further into the text.
proof fn lemma_sp_input_tail_some(s: Seq<char>, pos: int, f: nat)
    requires
        0 <= pos <= s.len(),
        f >= 2 * (s.len() - pos) + 4,
    ensures
        sp_input_tail(s, pos, f) is Some,
        match sp_input_tail(s, pos, f) {
            Option::Some(Result::Ok((names, p))) => pos < p <= s.len() && names.len() >= 1,
            _ => true,
        },
    decreases f,
{
    lemma_scan_bounds(s, pos);
    match scan(s, pos) {
        Result::Ok((t, p)) => {
            if t.kind == TokenKind::Identifier {
                lemma_scan_bounds(s, p);
                match scan(s, p) {
                    Result::Ok((t2, p2)) => {
                        if t2.kind == TokenKind::Comma {
                            lemma_sp_input_tail_some(s, p2, (f - 1) as nat);
                        }
                    },
                    _ => {},
                }
            }
        },
        Result::Err(_e) => {},
    }
}

/// The LET tail always has an answer; a successful one ends strictly
/// further into the text.
proof fn lemma_sp_var_tail_some(s: Seq<char>, pos: int)
    requires
        0 <= pos <= s.len(),
    ensures
        sp_var_tail(s, pos) is Some,
        match sp_var_tail(s, pos) {
            Option::Some(Result::Ok((_st, p))) => pos < p <= s.len(),
            _ => true,
        },
{
    lemma_scan_bounds(s, pos);
    match scan(s, pos) {
        Result::Ok((t, p)) => {
            if t.kind == TokenKind::Identifier {
                lemma_scan_bounds(s, p);
                match scan(s, p) {
                    Result::Ok((t2, p2)) => {
                        if t2.kind == TokenKind::Equal {
                            lemma_sp_expr_some(s, p2, fuel_for(s, p2));
                        }
                    },
                    _ => {},
                }
            }
        },
        Result::Err(_e) => {},
    }
}

/// With fuel as [`stmt_fuel_for`] gives it, the IF tail always has an
/// answer; a successful one ends strictly further into the text.
proof fn lemma_sp_if_tail_some(s: Seq<char>, pos: int, f: nat)
    requires
        0 <= pos <= s.len(),
        f >= 2 * (s.len() - pos) + 4,
    ensures
        sp_if_tail(s, pos, f) is Some,
        match sp_if_tail(s, pos, f) {
            Option::Some(Result::Ok((_st, p))) => pos < p <= s.len(),
            _ => true,
        },
    decreases f, 0int,
{
    lemma_sp_expr_some(s, pos, fuel_for(s, pos));
    match sp_expr(s, pos, fuel_for(s, pos)) {
        Option::Some(Result::Ok((_l, p1))) => {
            lemma_scan_bounds(s, p1);
            match scan(s, p1) {
                Result::Ok((t, p2)) => {
                    if rel_op_of(t.kind) is Some {
                        lemma_sp_expr_some(s, p2, fuel_for(s, p2));
                        match sp_expr(s, p2, fuel_for(s, p2)) {
                            Option::Some(Result::Ok((_rv, p3))) => {
                                lemma_scan_bounds(s, p3);
                                match scan(s, p3) {
                                    Result::Ok((t2, p4)) => {
                                        if t2.kind == TokenKind::Identifier && t2.value
                                            == TokenValueV::Text("THEN"@) {
                                            lemma_sp_statement_some(s, p4, (f - 1) as nat);
                                        }
                                    },
                                    _ => {},
                                }
                            },
                            _ => {},
                        }
                    }
                },
                _ => {},
            }
        },
        _ => {},
    }
}

/// With fuel as [`stmt_fuel_for`] gives it, statement parsing always has
/// an answer; a successful one ends strictly further into the text.
proof fn lemma_sp_statement_some(s: Seq<char>, pos: int, f: nat)
    requires
        0 <= pos <= s.len(),
        f >= 2 * (s.len() - pos) + 3,
    ensures
        sp_statement(s, pos, f) is Some,
        match sp_statement(s, pos, f) {
            Option::Some(Result::Ok((_st, p))) => pos < p <= s.len(),
            _ => true,
        },
    decreases f, 1int,
{
    lemma_scan_bounds(s, pos);
    lemma_scan_token_shape(s, pos);
    match scan(s, pos) {
        Result::Ok((t, p)) => {
            match t.value {
                TokenValueV::Text(kw) => {
                    if kw == "PRINT"@ {
                        lemma_sp_print_tail_some(s, p, stmt_fuel_for(s, p));
                    } else if kw == "INPUT"@ {
                        lemma_sp_input_tail_some(s, p, stmt_fuel_for(s, p));
                    } else if kw == "IF"@ {
                        lemma_sp_if_tail_some(s, p, f);
                    } else if kw == "LET"@ {
                        lemma_sp_var_tail_some(s, p);
                    } else if kw == "GOTO"@ || kw == "GOSUB"@ {
                        lemma_sp_expr_some(s, p, fuel_for(s, p));
                    } else if kw == "REM"@ {
                        lemma_sp_rem_tail_some(s, p, stmt_fuel_for(s, p));
                    }
                },
                _ => {},
            }
        },
        Result::Err(_e) => {},
    }
}

/// With fuel as [`stmt_fuel_for`] gives it, whole-input parsing always has
/// an answer.
pub proof fn lemma_sp_parse_some(s: Seq<char>, pos: int, f: nat)
    requires
        0 <= pos <= s.len(),
        f >= 2 * (s.len() - pos) + 4,
    ensures
        sp_parse(s, pos, f) is Some,
    decreases f,
{
    lemma_scan_bounds(s, pos);
    match scan(s, pos) {
        Result::Ok((t, p)) => {
            if t.kind == TokenKind::Eof {
            } else if t.kind == TokenKind::Eol {
                lemma_sp_parse_some(s, p, (f - 1) as nat);
            } else if t.kind == TokenKind::Identifier || t.kind == TokenKind::NumberLiteral {
                let spos = if t.kind == TokenKind::NumberLiteral {
                    p
                } else {
                    pos
                };
                lemma_sp_statement_some(s, spos, stmt_fuel_for(s, spos));
                match sp_statement(s, spos, stmt_fuel_for(s, spos)) {
                    Option::Some(Result::Ok((_st, p_end))) => {
                        lemma_scan_bounds(s, p_end);
                        match scan(s, p_end) {
                            Result::Ok((_t2, _p2)) => {
                                lemma_sp_parse_some(s, p_end, (f - 1) as nat);
                            },
                            _ => {},
                        }
                    },
                    _ => {},
                }
            }
        },
        Result::Err(_e) => {},
    }
}

/// More fuel never changes an answer the REM tail already gives.
proof fn lemma_sp_rem_tail_monotone(s: Seq<char>, pos: int, f1: nat, f2: nat)
    requires
        f1 <= f2,
        sp_rem_tail(s, pos, f1) is Some,
    ensures
        sp_rem_tail(s, pos, f2) == sp_rem_tail(s, pos, f1),
    decreases f1,
{
    if f1 > 0 {
        match scan(s, pos) {
            Result::Ok((t, p)) => {
                if !(t.kind == TokenKind::Eol || t.kind == TokenKind::Eof) {
                    if sp_rem_tail(s, p, (f1 - 1) as nat) is Some {
                        lemma_sp_rem_tail_monotone(s, p, (f1 - 1) as nat, (f2 - 1) as nat);
                    }
                }
            },
            _ => {},
        }
    }
}

/// More fuel never changes an answer the PRINT tail already gives.
proof fn lemma_sp_print_tail_monotone(s: Seq<char>, pos: int, f1: nat, f2: nat)
    requires
        f1 <= f2,
        sp_print_tail(s, pos, f1) is Some,
    ensures
        sp_print_tail(s, pos, f2) == sp_print_tail(s, pos, f1),
    decreases f1,
{
    if f1 > 0 {
        match sp_expr(s, pos, fuel_for(s, pos)) {
            Option::Some(Result::Ok((_e, p1))) => {
                match scan(s, p1) {
                    Result::Ok((t, p2)) => {
                        if t.kind == TokenKind::Comma {
                            if sp_print_tail(s, p2, (f1 - 1) as nat) is Some {
                                lemma_sp_print_tail_monotone(
                                    s,
                                    p2,
                                    (f1 - 1) as nat,
                                    (f2 - 1) as nat,
                                );
                            }
                        }
                    },
                    _ => {},
                }
            },
            _ => {},
        }
    }
}

/// More fuel never changes an answer the INPUT tail already gives.
proof fn lemma_sp_input_tail_monotone(s: Seq<char>, pos: int, f1: nat, f2: nat)
    requires
        f1 <= f2,
        sp_input_tail(s, pos, f1) is Some,
    ensures
        sp_input_tail(s, pos, f2) == sp_input_tail(s, pos, f1),
    decreases f1,
{
    if f1 > 0 {
        match scan(s, pos) {
            Result::Ok((t, p)) => {
                if t.kind == TokenKind::Identifier && t.value is Text {
                    match scan(s, p) {
                        Result::Ok((t2, p2)) => {
                            if t2.kind == TokenKind::Comma {
                                if sp_input_tail(s, p2, (f1 - 1) as nat) is Some {
                                    lemma_sp_input_tail_monotone(
                                        s,
                                        p2,
                                        (f1 - 1) as nat,
                                        (f2 - 1) as nat,
                                    );
                                }
                            }
                        },
                        _ => {},
                    }
                }
            },
            _ => {},
        }
    }
}

/// More fuel never changes an answer the IF tail already gives.
proof fn lemma_sp_if_tail_monotone(s: Seq<char>, pos: int, f1: nat, f2: nat)
    requires
        f1 <= f2,
        sp_if_tail(s, pos, f1) is Some,
    ensures
        sp_if_tail(s, pos, f2) == sp_if_tail(s, pos, f1),
    decreases f1, 0int,
{
    if f1 > 0 {
        match sp_expr(s, pos, fuel_for(s, pos)) {
            Option::Some(Result::Ok((_l, p1))) => {
                match scan(s, p1) {
                    Result::Ok((t, p2)) => {
                        if rel_op_of(t.kind) is Some {
                            match sp_expr(s, p2, fuel_for(s, p2)) {
                                Option::Some(Result::Ok((_rv, p3))) => {
                                    match scan(s, p3) {
                                        Result::Ok((t2, p4)) => {
                                            if t2.kind == TokenKind::Identifier && t2.value
                                                == TokenValueV::Text("THEN"@) {
                                                if sp_statement(s, p4, (f1 - 1) as nat)
                                                    is Some {
                                                    lemma_sp_statement_monotone(
                                                        s,
                                                        p4,
                                                        (f1 - 1) as nat,
                                                        (f2 - 1) as nat,
                                                    );
                                                }
                                            }
                                        },
                                        _ => {},
                                    }
                                },
                                _ => {},
                            }
                        }
                    },
                    _ => {},
                }
            },
            _ => {},
        }
    }
}

/// More fuel never changes an answer statement parsing already gives.
proof fn lemma_sp_statement_monotone(s: Seq<char>, pos: int, f1: nat, f2: nat)
    requires
        f1 <= f2,
        sp_statement(s, pos, f1) is Some,
    ensures
        sp_statement(s, pos, f2) == sp_statement(s, pos, f1),
    decreases f1, 1int,
{
    if f1 > 0 {
        match scan(s, pos) {
            Result::Ok((t, _p)) => {
                match t.value {
                    TokenValueV::Text(kw) => {
                        if kw == "IF"@ {
                            if sp_if_tail(s, _p, f1) is Some {
                                lemma_sp_if_tail_monotone(s, _p, f1, f2);
                            }
                        }
                    },
                    _ => {},
                }
            },
            _ => {},
        }
    }
}

/// More fuel never changes an answer whole-input parsing already gives.
proof fn lemma_sp_parse_monotone(s: Seq<char>, pos: int, f1: nat, f2: nat)
    requires
        f1 <= f2,
        sp_parse(s, pos, f1) is Some,
    ensures
        sp_parse(s, pos, f2) == sp_parse(s, pos, f1),
    decreases f1,
{
    if f1 > 0 {
        match scan(s, pos) {
            Result::Ok((t, p)) => {
                if t.kind == TokenKind::Eol {
                    if sp_parse(s, p, (f1 - 1) as nat) is Some {
                        lemma_sp_parse_monotone(s, p, (f1 - 1) as nat, (f2 - 1) as nat);
                    }
                } else if t.kind == TokenKind::Identifier || t.kind == TokenKind::NumberLiteral {
                    let spos = if t.kind == TokenKind::NumberLiteral {
                        p
                    } else {
                        pos
                    };
                    match sp_statement(s, spos, stmt_fuel_for(s, spos)) {
                        Option::Some(Result::Ok((_st, p_end))) => {
                            match scan(s, p_end) {
                                Result::Ok((_t2, _p2)) => {
                                    if sp_parse(s, p_end, (f1 - 1) as nat) is Some {
                                        lemma_sp_parse_monotone(
                                            s,
                                            p_end,
                                            (f1 - 1) as nat,
                                            (f2 - 1) as nat,
                                        );
                                    }
                                },
                                _ => {},
                            }
                        },
                        _ => {},
                    }
                }
            },
            _ => {},
        }
    }
}

/// How an executable statement-parsing result at `pos` relates to the
/// specified one.
pub open spec fn stmt_result_matches(
    s: Seq<char>,
    pos: int,
    r: ParseResult<Statement>,
    new_pos: int,
) -> bool {
    match r {
        Result::Ok(st) => sp_statement(s, pos, stmt_fuel_for(s, pos)) == Option::Some(
            Result::<(StmtV, int), SynErrV>::Ok((stmt_view(st), new_pos)),
        ),
        Result::Err(err) => sp_statement(s, pos, stmt_fuel_for(s, pos)) == Option::Some(
            Result::<(StmtV, int), SynErrV>::Err(err@),
        ),
    }
}

/// How an executable whole-input parse result relates to the specified
/// one.
pub open spec fn parse_result_matches(s: Seq<char>, pos: int, r: ParseResult<Vec<Line>>) -> bool {
    match r {
        Result::Ok(lines) => sp_parse(s, pos, stmt_fuel_for(s, pos)) == Option::Some(
            Result::<Seq<LineV>, SynErrV>::Ok(lines@.map_values(|l: Line| line_view(l))),
        ),
        Result::Err(err) => sp_parse(s, pos, stmt_fuel_for(s, pos)) == Option::Some(
            Result::<Seq<LineV>, SynErrV>::Err(err@),
        ),
    }
}

/// A line's text is a verbatim slice of the submitted source text.
pub open spec fn line_src_ok(l: LineV, s: Seq<char>) -> bool {
    exists|a: int, b: int| 0 <= a <= b <= s.len() && l.source == s.subrange(a, b)
}

/// Membership of a token kind in a slice of kinds.
fn contains_kind(kinds: &[TokenKind], k: TokenKind) -> (r: bool)
    ensures
        r == kinds@.contains(k),
{
    let mut i: usize = 0;
    while i < kinds.len()
        invariant
            i <= kinds@.len(),
            forall|j: int| 0 <= j < i ==> kinds@[j] != k,
        decreases kinds@.len() - i,
    {
        if kinds[i] == k {
            return true;
        }
        i = i + 1;
    }
    false
}

/// Equality of token values, by view.
fn token_value_eq(a: &TokenValue, b: &TokenValue) -> (r: bool)
    ensures
        r == (a@ == b@),
{
    match (a, b) {
        (TokenValue::Absent, TokenValue::Absent) => true,
        (TokenValue::Digit(x), TokenValue::Digit(y)) => *x == *y,
        (TokenValue::Text(x), TokenValue::Text(y)) => *x == *y,
        _ => false,
    }
}

/// Equality of a name with a keyword.
fn is_keyword(s: &String, kw: &str) -> (r: bool)
    ensures
        r == (s@ == kw@),
{
    *s == kw.to_owned()
}

impl<'a> Parser<'a> {
    /// The text being parsed.
    pub closed spec fn src(&self) -> Seq<char> {
        self.lexer.src()
    }

    /// The position at which the next (peekable) token begins.
    pub closed spec fn pos(&self) -> int {
        self.lexer.start_pos()
    }

    /// The position just after the next token.
    pub closed spec fn cur(&self) -> int {
        self.lexer.cur_pos()
    }

    /// The parser's invariant.
    pub closed spec fn wf(&self) -> bool {
        &&& self.lexer.wf()
        &&& self.lexer.src() == self.source@
    }

    /// What is left to consume, the recursion measure of the descent.
    pub open spec fn remaining(&self) -> int {
        self.src().len() - self.pos()
    }

    /// Starts parsing at the beginning of `source`.
    pub fn new(source: &'a str) -> (r: Self)
        ensures
            r.wf(),
            r.src() == source@,
            r.pos() == 0,
    {
        Parser { lexer: Lexer::new(source), source }
    }

    /// Checks that the next token is one of `kinds` (and, when given, that
    /// its value matches) without consuming it; anything else is an
    /// unexpected-token fault carrying that token.
    fn expect_token(&self, kinds: &[TokenKind], value: Option<TokenValue>) -> (r: ParseResult<()>)
        requires
            self.wf(),
        ensures
            match scan(self.src(), self.pos()) {
                Result::Ok((t, _p)) => match r {
                    Result::Ok(_) => kinds@.contains(t.kind) && (match value {
                        Option::Some(v) => v@ == t.value,
                        Option::None => true,
                    }),
                    Result::Err(e) => e@ == SynErrV::UnexpectedToken(t) && !(kinds@.contains(
                        t.kind,
                    ) && (match value {
                        Option::Some(v) => v@ == t.value,
                        Option::None => true,
                    })),
                },
                Result::Err(e) => (r matches Result::Err(err) && err@ == e),
            },
    {
        let next_token = match self.lexer.peek() {
            Result::Ok(t) => t,
            Result::Err(e) => {
                return Result::Err(e);
            },
        };
        if !contains_kind(kinds, next_token.kind) {
            return Result::Err(SyntaxError::UnexpectedToken(next_token));
        }
        match value {
            Option::Some(expected) => {
                if !token_value_eq(&next_token.value, &expected) {
                    return Result::Err(SyntaxError::UnexpectedToken(next_token));
                }
                Result::Ok(())
            },
            Option::None => Result::Ok(()),
        }
    }

    /// Parses one signed term: an optional `+`/`-` sign, then a literal, an
    /// identifier, or a parenthesized sub-expression.
    fn parse_unary_expression(&mut self) -> (r: ParseResult<Expression>)
        requires
            old(self).wf(),
        ensures
            final(self).wf(),
            final(self).src() == old(self).src(),
            final(self).pos() >= old(self).pos(),
            final(self).cur() >= old(self).cur(),
            r is Ok ==> final(self).pos() > old(self).pos(),
            r matches Result::Ok(e) ==> root_prec_ok(e@),
            unary_result_matches(old(self).src(), old(self).pos(), r, final(self).pos()),
        decreases old(self).remaining(), 0int,
    {
        proof {
            self.lexer.lemma_positions();
            lemma_scan_bounds(self.lexer.src(), self.lexer.start_pos());
        }
        let next_token = match self.lexer.peek() {
            Result::Ok(t) => t,
            Result::Err(e) => {
                return Result::Err(e);
            },
        };
        let operator = match next_token.kind {
            TokenKind::Add => Option::Some(UnaryOperator::Plus),
            TokenKind::Subtract => Option::Some(UnaryOperator::Minus),
            _ => Option::None,
        };
        if operator.is_some() {
            let _ = self.lexer.next();
        }
        let atom_kinds: &[TokenKind] = &[
            TokenKind::StringLiteral,
            TokenKind::NumberLiteral,
            TokenKind::Identifier,
            TokenKind::LeftParen,
        ];
        match self.expect_token(atom_kinds, Option::None) {
            Result::Ok(_) => {},
            Result::Err(e) => {
                proof {
                    match scan(old(self).src(), self.lexer.start_pos()) {
                        Result::Ok((t, _p)) => {
                            assert(t.kind != TokenKind::StringLiteral && t.kind
                                != TokenKind::NumberLiteral && t.kind != TokenKind::Identifier
                                && t.kind != TokenKind::LeftParen) by {
                                if t.kind == TokenKind::StringLiteral {
                                    assert(atom_kinds@[0] == t.kind);
                                    assert(atom_kinds@.contains(t.kind));
                                }
                                if t.kind == TokenKind::NumberLiteral {
                                    assert(atom_kinds@[1] == t.kind);
                                    assert(atom_kinds@.contains(t.kind));
                                }
                                if t.kind == TokenKind::Identifier {
                                    assert(atom_kinds@[2] == t.kind);
                                    assert(atom_kinds@.contains(t.kind));
                                }
                                if t.kind == TokenKind::LeftParen {
                                    assert(atom_kinds@[3] == t.kind);
                                    assert(atom_kinds@.contains(t.kind));
                                }
                            }
                        },
                        Result::Err(_e) => {},
                    }
                }
                return Result::Err(e);
            },
        }
        proof {
            self.lexer.lemma_positions();
            lemma_scan_token_shape(self.lexer.src(), self.lexer.start_pos());
        }
        let next_token = match self.lexer.next() {
            Result::Ok(t) => t,
            Result::Err(e) => {
                return Result::Err(e);
            },
        };
        let argument: Expression = match next_token.kind {
            TokenKind::LeftParen => {
                let ghost inner_pos = self.lexer.start_pos();
                proof {
                    assert(inner_pos > old(self).pos());
                }
                let expression = match self.parse_expression() {
                    Result::Ok(e) => e,
                    Result::Err(e) => {
                        proof {
                            lemma_sp_expr_monotone(
                                old(self).src(),
                                inner_pos,
                                fuel_for(old(self).src(), inner_pos),
                                (fuel_for(old(self).src(), old(self).pos()) - 1) as nat,
                            );
                        }
                        return Result::Err(e);
                    },
                };
                proof {
                    lemma_sp_expr_monotone(
                        old(self).src(),
                        inner_pos,
                        fuel_for(old(self).src(), inner_pos),
                        (fuel_for(old(self).src(), old(self).pos()) - 1) as nat,
                    );
                }
                let close_kinds: &[TokenKind] = &[TokenKind::RightParen];
                match self.expect_token(close_kinds, Option::None) {
                    Result::Ok(_) => {},
                    Result::Err(e) => {
                        proof {
                            match scan(old(self).src(), self.lexer.start_pos()) {
                                Result::Ok((t2, _p2)) => {
                                    assert(t2.kind != TokenKind::RightParen) by {
                                        if t2.kind == TokenKind::RightParen {
                                            assert(close_kinds@[0] == t2.kind);
                                            assert(close_kinds@.contains(t2.kind));
                                        }
                                    }
                                },
                                Result::Err(_e) => {},
                            }
                        }
                        return Result::Err(e);
                    },
                }
                let _ = self.lexer.next();
                expression
            },
            TokenKind::Identifier => {
                match next_token.value {
                    TokenValue::Text(s) => Expression::Identifier(Identifier { name: s }),
                    _ => {
                        return Result::Err(SyntaxError::UnexpectedToken(next_token));
                    },
                }
            },
            TokenKind::NumberLiteral => {
                match next_token.value {
                    TokenValue::Digit(d) => Expression::Literal(Literal::Number { value: d }),
                    _ => {
                        return Result::Err(SyntaxError::UnexpectedToken(next_token));
                    },
                }
            },
            TokenKind::StringLiteral => {
                match next_token.value {
                    TokenValue::Text(s) => Expression::Literal(Literal::Text { value: s }),
                    _ => {
                        return Result::Err(SyntaxError::UnexpectedToken(next_token));
                    },
                }
            },
            _ => {
                return Result::Err(SyntaxError::UnexpectedToken(next_token));
            },
        };
        match operator {
            Option::None => Result::Ok(argument),
            Option::Some(op) => Result::Ok(
                Expression::UnaryExpression(
                    UnaryExpression { operator: Option::Some(op), argument: Box::new(argument) },
                ),
            ),
        }
    }


    /// The binding strength of an arithmetic operator.
    fn get_expression_precedence(&self, operator: &ArithmeticOperator) -> (r: usize)
        ensures
            r as int == prec(*operator),
    {
        match operator {
            ArithmeticOperator::Add | ArithmeticOperator::Subtract => 1,
            ArithmeticOperator::Multiply | ArithmeticOperator::Divide => 2,
        }
    }

    /// Parses one expression: a signed term, optionally followed by an
    /// arithmetic operator and the rest of the expression, with the
    /// one-level precedence repair applied to the result.
    pub fn parse_expression(&mut self) -> (r: ParseResult<Expression>)
        requires
            old(self).wf(),
        ensures
            final(self).wf(),
            final(self).src() == old(self).src(),
            final(self).pos() >= old(self).pos(),
            final(self).cur() >= old(self).cur(),
            r is Ok ==> final(self).pos() > old(self).pos(),
            r matches Result::Ok(e) ==> root_prec_ok(e@),
            expr_result_matches(old(self).src(), old(self).pos(), r, final(self).pos()),
        decreases old(self).remaining(), 1int,
    {
        proof {
            self.lexer.lemma_positions();
            lemma_sp_unary_some(
                old(self).src(),
                old(self).pos(),
                (fuel_for(old(self).src(), old(self).pos()) - 1) as nat,
            );
            lemma_sp_unary_monotone(
                old(self).src(),
                old(self).pos(),
                (fuel_for(old(self).src(), old(self).pos()) - 1) as nat,
                fuel_for(old(self).src(), old(self).pos()),
            );
        }
        let left = match self.parse_unary_expression() {
            Result::Ok(e) => e,
            Result::Err(e) => {
                return Result::Err(e);
            },
        };
        proof {
            self.lexer.lemma_positions();
        }
        let op_token = match self.lexer.peek() {
            Result::Ok(t) => t,
            Result::Err(e) => {
                return Result::Err(e);
            },
        };
        let operator = match op_token.kind {
            TokenKind::Add => Option::Some(ArithmeticOperator::Add),
            TokenKind::Subtract => Option::Some(ArithmeticOperator::Subtract),
            TokenKind::Multiply => Option::Some(ArithmeticOperator::Multiply),
            TokenKind::Divide => Option::Some(ArithmeticOperator::Divide),
            _ => Option::None,
        };
        let operator = match operator {
            Option::Some(op) => op,
            Option::None => {
                return Result::Ok(left);
            },
        };
        // skip the operator
        let _ = self.lexer.next();
        let ghost right_pos = self.lexer.start_pos();
        let right = match self.parse_expression() {
            Result::Ok(e) => e,
            Result::Err(e) => {
                proof {
                    lemma_sp_expr_monotone(
                        old(self).src(),
                        right_pos,
                        fuel_for(old(self).src(), right_pos),
                        (fuel_for(old(self).src(), old(self).pos()) - 1) as nat,
                    );
                }
                return Result::Err(e);
            },
        };
        proof {
            lemma_sp_expr_monotone(
                old(self).src(),
                right_pos,
                fuel_for(old(self).src(), right_pos),
                (fuel_for(old(self).src(), old(self).pos()) - 1) as nat,
            );
        }
        let ghost left_v = expr_view(left);
        let ghost right_v = expr_view(right);
        match right {
            Expression::BinaryExpression(rb) => {
                let left_precedence = self.get_expression_precedence(&operator);
                let right_precedence = self.get_expression_precedence(&rb.operator);
                if left_precedence > right_precedence {
                    // the outer operator binds tighter: rotate it below the
                    // right subtree's root, taking that subtree's left
                    // operand as its other operand
                    let ghost rl_v = expr_view(*rb.left);
                    let ghost rr_v = expr_view(*rb.right);
                    proof {
                        assert(right_v == ExprV::Binary(
                            rb.operator,
                            Box::new(rl_v),
                            Box::new(rr_v),
                        ));
                        assert(prec(operator) > prec(rb.operator));
                    }
                    let inner = Expression::BinaryExpression(
                        BinaryExpression { operator, left: Box::new(left), right: rb.left },
                    );
                    proof {
                        assert(expr_view(inner) == ExprV::Binary(
                            operator,
                            Box::new(left_v),
                            Box::new(rl_v),
                        ));
                    }
                    let rotated = Expression::BinaryExpression(
                        BinaryExpression {
                            operator: rb.operator,
                            left: Box::new(inner),
                            right: rb.right,
                        },
                    );
                    proof {
                        assert(expr_view(rotated) == ExprV::Binary(
                            rb.operator,
                            Box::new(
                                ExprV::Binary(operator, Box::new(left_v), Box::new(rl_v)),
                            ),
                            Box::new(rr_v),
                        ));
                        assert(expr_view(rotated) == repair(operator, left_v, right_v));
                    }
                    Result::Ok(rotated)
                } else {
                    let plain = Expression::BinaryExpression(
                        BinaryExpression {
                            operator,
                            left: Box::new(left),
                            right: Box::new(Expression::BinaryExpression(rb)),
                        },
                    );
                    proof {
                        assert(expr_view(plain) == repair(operator, left_v, right_v));
                    }
                    Result::Ok(plain)
                }
            },
            other => {
                let plain = Expression::BinaryExpression(
                    BinaryExpression { operator, left: Box::new(left), right: Box::new(other) },
                );
                proof {
                    assert(expr_view(plain) == repair(operator, left_v, right_v));
                }
                Result::Ok(plain)
            },
        }
    }

    /// Parses the comma-separated expression list of a PRINT statement:
    /// exactly [`sp_print_tail`].
    fn parse_print_statement(&mut self) -> (r: ParseResult<Statement>)
        requires
            old(self).wf(),
        ensures
            final(self).wf(),
            final(self).src() == old(self).src(),
            final(self).pos() >= old(self).pos(),
            final(self).cur() >= old(self).cur(),
            r is Ok ==> final(self).pos() > old(self).pos(),
            match r {
                Result::Ok(st) => (sp_print_tail(
                    old(self).src(),
                    old(self).pos(),
                    stmt_fuel_for(old(self).src(), old(self).pos()),
                ) matches Option::Some(Result::Ok(pr)) && stmt_view(st) == StmtV::Print(pr.0)
                    && final(self).pos() == pr.1),
                Result::Err(e) => sp_print_tail(
                    old(self).src(),
                    old(self).pos(),
                    stmt_fuel_for(old(self).src(), old(self).pos()),
                ) == Option::Some(Result::<(Seq<ExprV>, int), SynErrV>::Err(e@)),
            },
    {
        let ghost s0 = old(self).src();
        let ghost q0 = old(self).pos();
        let ghost whole = sp_print_tail(s0, q0, stmt_fuel_for(s0, q0));
        proof {
            self.lexer.lemma_positions();
            lemma_sp_print_tail_some(s0, q0, stmt_fuel_for(s0, q0));
        }
        let mut expressions: Vec<Expression> = Vec::new();
        loop
            invariant
                self.wf(),
                self.src() == old(self).src(),
                self.pos() >= old(self).pos(),
                self.cur() >= old(self).cur(),
                s0 == old(self).src(),
                q0 == old(self).pos(),
                whole == sp_print_tail(s0, q0, stmt_fuel_for(s0, q0)),
                0 <= self.pos() <= s0.len(),
                expressions@.len() > 0 ==> self.pos() > old(self).pos(),
                whole == (match sp_print_tail(s0, self.pos(), stmt_fuel_for(s0, self.pos())) {
                    Option::None => Option::<Result<(Seq<ExprV>, int), SynErrV>>::None,
                    Option::Some(Result::Err(e)) => Option::Some(Result::Err(e)),
                    Option::Some(Result::Ok((rest, pe))) => Option::Some(
                        Result::Ok(
                            (expressions@.map_values(|x: Expression| expr_view(x)) + rest, pe),
                        ),
                    ),
                }),
            decreases self.remaining(),
        {
            let ghost pos_i = self.pos();
            let ghost acc = expressions@.map_values(|x: Expression| expr_view(x));
            proof {
                lemma_sp_print_tail_some(s0, pos_i, stmt_fuel_for(s0, pos_i));
            }
            let expression = match self.parse_expression() {
                Result::Ok(e) => e,
                Result::Err(e) => {
                    return Result::Err(e);
                },
            };
            proof {
                self.lexer.lemma_positions();
            }
            let t = match self.lexer.peek() {
                Result::Ok(t) => t,
                Result::Err(e) => {
                    return Result::Err(e);
                },
            };
            let ghost p1 = self.pos();
            expressions.push(expression);
            proof {
                assert(expressions@.map_values(|x: Expression| expr_view(x))
                    =~= acc + seq![expr_view(expressions@.last())]);
            }
            if t.kind != TokenKind::Comma {
                proof {
                    match sp_print_tail(s0, pos_i, stmt_fuel_for(s0, pos_i)) {
                        Option::Some(Result::Ok((rest, pe))) => {
                            assert(acc + (seq![expr_view(expressions@.last())])
                                =~= acc + rest);
                        },
                        _ => {
                            assert(false);
                        },
                    }
                }
                return Result::Ok(Statement::PrintStatement { expressions });
            }
            let _ = self.lexer.next();
            proof {
                let p2 = self.pos();
                lemma_sp_print_tail_some(s0, p2, stmt_fuel_for(s0, p2));
                lemma_sp_print_tail_monotone(
                    s0,
                    p2,
                    stmt_fuel_for(s0, p2),
                    (stmt_fuel_for(s0, pos_i) - 1) as nat,
                );
                match sp_print_tail(s0, p2, stmt_fuel_for(s0, p2)) {
                    Option::Some(Result::Ok((rest2, pe2))) => {
                        assert(acc + (seq![expr_view(expressions@.last())] + rest2)
                            =~= (expressions@.map_values(|x: Expression| expr_view(x)) + rest2));
                    },
                    _ => {},
                }
            }
        }
    }

    /// Parses the comma-separated identifier list of an INPUT statement:
    /// exactly [`sp_input_tail`].
    fn parse_input_statement(&mut self) -> (r: ParseResult<Statement>)
        requires
            old(self).wf(),
        ensures
            final(self).wf(),
            final(self).src() == old(self).src(),
            final(self).pos() >= old(self).pos(),
            final(self).cur() >= old(self).cur(),
            r is Ok ==> final(self).pos() > old(self).pos(),
            match r {
                Result::Ok(st) => (sp_input_tail(
                    old(self).src(),
                    old(self).pos(),
                    stmt_fuel_for(old(self).src(), old(self).pos()),
                ) matches Option::Some(Result::Ok(pr)) && stmt_view(st) == StmtV::Input(pr.0)
                    && final(self).pos() == pr.1),
                Result::Err(e) => sp_input_tail(
                    old(self).src(),
                    old(self).pos(),
                    stmt_fuel_for(old(self).src(), old(self).pos()),
                ) == Option::Some(Result::<(Seq<Seq<char>>, int), SynErrV>::Err(e@)),
            },
    {
        let ghost s0 = old(self).src();
        let ghost q0 = old(self).pos();
        let ghost whole = sp_input_tail(s0, q0, stmt_fuel_for(s0, q0));
        proof {
            self.lexer.lemma_positions();
            lemma_sp_input_tail_some(s0, q0, stmt_fuel_for(s0, q0));
        }
        let mut variables: Vec<Identifier> = Vec::new();
        let id_kinds: &[TokenKind] = &[TokenKind::Identifier];
        loop
            invariant
                self.wf(),
                self.src() == old(self).src(),
                self.pos() >= old(self).pos(),
                self.cur() >= old(self).cur(),
                s0 == old(self).src(),
                q0 == old(self).pos(),
                whole == sp_input_tail(s0, q0, stmt_fuel_for(s0, q0)),
                0 <= self.pos() <= s0.len(),
                id_kinds@ =~= seq![TokenKind::Identifier],
                variables@.len() > 0 ==> self.pos() > old(self).pos(),
                whole == (match sp_input_tail(s0, self.pos(), stmt_fuel_for(s0, self.pos())) {
                    Option::None => Option::<Result<(Seq<Seq<char>>, int), SynErrV>>::None,
                    Option::Some(Result::Err(e)) => Option::Some(Result::Err(e)),
                    Option::Some(Result::Ok((rest, pe))) => Option::Some(
                        Result::Ok(
                            (variables@.map_values(|v: Identifier| v.name@) + rest, pe),
                        ),
                    ),
                }),
            decreases self.remaining(),
        {
            let ghost pos_i = self.pos();
            let ghost acc = variables@.map_values(|v: Identifier| v.name@);
            proof {
                lemma_sp_input_tail_some(s0, pos_i, stmt_fuel_for(s0, pos_i));
            }
            match self.expect_token(id_kinds, Option::None) {
                Result::Ok(_) => {},
                Result::Err(e) => {
                    proof {
                        match scan(s0, pos_i) {
                            Result::Ok((t, _p)) => {
                                assert(t.kind != TokenKind::Identifier) by {
                                    if t.kind == TokenKind::Identifier {
                                        assert(id_kinds@[0] == t.kind);
                                        assert(id_kinds@.contains(t.kind));
                                    }
                                }
                            },
                            Result::Err(_e) => {},
                        }
                    }
                    return Result::Err(e);
                },
            }
            proof {
                lemma_scan_token_shape(s0, pos_i);
            }
            let tok = match self.lexer.next() {
                Result::Ok(t) => t,
                Result::Err(e) => {
                    return Result::Err(e);
                },
            };
            match tok.value {
                TokenValue::Text(name) => {
                    variables.push(Identifier { name });
                },
                other => {
                    return Result::Err(
                        SyntaxError::UnexpectedToken(
                            Token { kind: tok.kind, span: tok.span, value: other },
                        ),
                    );
                },
            }
            proof {
                self.lexer.lemma_positions();
                assert(variables@.map_values(|v: Identifier| v.name@)
                    =~= acc + seq![variables@.last().name@]);
            }
            let t = match self.lexer.peek() {
                Result::Ok(t) => t,
                Result::Err(e) => {
                    return Result::Err(e);
                },
            };
            let ghost p1 = self.pos();
            if t.kind != TokenKind::Comma {
                proof {
                    match sp_input_tail(s0, pos_i, stmt_fuel_for(s0, pos_i)) {
                        Option::Some(Result::Ok((rest, pe))) => {
                            assert(acc + (seq![variables@.last().name@]) =~= acc + rest);
                        },
                        _ => {
                            assert(false);
                        },
                    }
                }
                return Result::Ok(Statement::InputStatement { variables });
            }
            let _ = self.lexer.next();
            proof {
                let p2 = self.pos();
                lemma_sp_input_tail_some(s0, p2, stmt_fuel_for(s0, p2));
                lemma_sp_input_tail_monotone(
                    s0,
                    p2,
                    stmt_fuel_for(s0, p2),
                    (stmt_fuel_for(s0, pos_i) - 1) as nat,
                );
                match sp_input_tail(s0, p2, stmt_fuel_for(s0, p2)) {
                    Option::Some(Result::Ok((rest2, pe2))) => {
                        assert(acc + (seq![variables@.last().name@] + rest2)
                            =~= (variables@.map_values(|v: Identifier| v.name@) + rest2));
                    },
                    _ => {},
                }
            }
        }
    }

    /// Parses an IF condition (expression, relational operator, expression),
    /// the mandatory THEN keyword, and exactly one nested statement.
    /// Exactly [`sp_if_tail`].
    fn parse_if_statement(&mut self) -> (r: ParseResult<Statement>)
        requires
            old(self).wf(),
        ensures
            final(self).wf(),
            final(self).src() == old(self).src(),
            final(self).pos() >= old(self).pos(),
            final(self).cur() >= old(self).cur(),
            r matches Result::Ok(st) ==> stmt_view(st) is If,
            r is Ok ==> final(self).pos() > old(self).pos(),
            match r {
                Result::Ok(st) => sp_if_tail(
                    old(self).src(),
                    old(self).pos(),
                    stmt_fuel_for(old(self).src(), old(self).pos()),
                ) == Option::Some(
                    Result::<(StmtV, int), SynErrV>::Ok((stmt_view(st), final(self).pos())),
                ),
                Result::Err(e) => sp_if_tail(
                    old(self).src(),
                    old(self).pos(),
                    stmt_fuel_for(old(self).src(), old(self).pos()),
                ) == Option::Some(Result::<(StmtV, int), SynErrV>::Err(e@)),
            },
        decreases old(self).remaining(), 0int,
    {
        let ghost s0 = old(self).src();
        let ghost q0 = old(self).pos();
        proof {
            self.lexer.lemma_positions();
        }
        let left = match self.parse_expression() {
            Result::Ok(e) => e,
            Result::Err(e) => {
                return Result::Err(e);
            },
        };
        proof {
            self.lexer.lemma_positions();
        }
        let rel_kinds: &[TokenKind] = &[
            TokenKind::Equal,
            TokenKind::NotEqual,
            TokenKind::LessThan,
            TokenKind::GreaterThan,
            TokenKind::LessThanOrEqual,
            TokenKind::GreaterThanOrEqual,
        ];
        match self.expect_token(rel_kinds, Option::None) {
            Result::Ok(_) => {},
            Result::Err(e) => {
                proof {
                    match scan(s0, self.pos()) {
                        Result::Ok((t, _p)) => {
                            assert(rel_op_of(t.kind) is None) by {
                                if rel_op_of(t.kind) is Some {
                                    assert(rel_kinds@[0] == TokenKind::Equal);
                                    assert(rel_kinds@[1] == TokenKind::NotEqual);
                                    assert(rel_kinds@[2] == TokenKind::LessThan);
                                    assert(rel_kinds@[3] == TokenKind::GreaterThan);
                                    assert(rel_kinds@[4] == TokenKind::LessThanOrEqual);
                                    assert(rel_kinds@[5] == TokenKind::GreaterThanOrEqual);
                                    assert(rel_kinds@.contains(t.kind));
                                }
                            }
                        },
                        Result::Err(_e) => {},
                    }
                }
                return Result::Err(e);
            },
        }
        let next_token = match self.lexer.next() {
            Result::Ok(t) => t,
            Result::Err(e) => {
                return Result::Err(e);
            },
        };
        let relation_operator = match next_token.kind {
            TokenKind::Equal => RelationOperator::Equal,
            TokenKind::NotEqual => RelationOperator::NotEqual,
            TokenKind::LessThan => RelationOperator::LessThan,
            TokenKind::LessThanOrEqual => RelationOperator::LessThanOrEqual,
            TokenKind::GreaterThan => RelationOperator::GreaterThan,
            TokenKind::GreaterThanOrEqual => RelationOperator::GreaterThanOrEqual,
            _ => {
                return Result::Err(SyntaxError::UnexpectedToken(next_token));
            },
        };
        let right = match self.parse_expression() {
            Result::Ok(e) => e,
            Result::Err(e) => {
                return Result::Err(e);
            },
        };
        proof {
            self.lexer.lemma_positions();
        }
        let then_kinds: &[TokenKind] = &[TokenKind::Identifier];
        match self.expect_token(
            then_kinds,
            Option::Some(TokenValue::Text(String::from_str("THEN"))),
        ) {
            Result::Ok(_) => {},
            Result::Err(e) => {
                proof {
                    match scan(s0, self.pos()) {
                        Result::Ok((t2, _p2)) => {
                            assert(!(t2.kind == TokenKind::Identifier && t2.value
                                == TokenValueV::Text("THEN"@))) by {
                                if t2.kind == TokenKind::Identifier {
                                    assert(then_kinds@[0] == t2.kind);
                                    assert(then_kinds@.contains(t2.kind));
                                }
                            }
                        },
                        Result::Err(_e) => {},
                    }
                }
                return Result::Err(e);
            },
        }
        // skip THEN
        let _ = self.lexer.next();
        let ghost p4 = self.pos();
        proof {
            assert(p4 > q0);
        }
        let then = match self.parse_statement() {
            Result::Ok(st) => st,
            Result::Err(e) => {
                proof {
                    lemma_sp_statement_some(s0, p4, stmt_fuel_for(s0, p4));
                    lemma_sp_statement_monotone(
                        s0,
                        p4,
                        stmt_fuel_for(s0, p4),
                        (stmt_fuel_for(s0, q0) - 1) as nat,
                    );
                }
                return Result::Err(e);
            },
        };
        proof {
            lemma_sp_statement_some(s0, p4, stmt_fuel_for(s0, p4));
            lemma_sp_statement_monotone(
                s0,
                p4,
                stmt_fuel_for(s0, p4),
                (stmt_fuel_for(s0, q0) - 1) as nat,
            );
        }
        Result::Ok(
            Statement::IfStatement {
                condition: IfCondition { operator: relation_operator, left, right },
                then_branch: Box::new(then),
            },
        )
    }

    /// Parses a LET assignment: a one-character variable name, `=`, and the
    /// bound expression. A longer name is an invalid-variable-name fault.
    /// Exactly [`sp_var_tail`].
    fn parse_var_statement(&mut self) -> (r: ParseResult<Statement>)
        requires
            old(self).wf(),
        ensures
            final(self).wf(),
            final(self).src() == old(self).src(),
            final(self).pos() >= old(self).pos(),
            final(self).cur() >= old(self).cur(),
            r matches Result::Ok(st) ==> (stmt_view(st) matches StmtV::Assign(name, _e)
                && name.len() == 1 && is_upper_char(name[0])),
            r is Ok ==> final(self).pos() > old(self).pos(),
            match r {
                Result::Ok(st) => sp_var_tail(old(self).src(), old(self).pos())
                    == Option::Some(
                    Result::<(StmtV, int), SynErrV>::Ok((stmt_view(st), final(self).pos())),
                ),
                Result::Err(e) => sp_var_tail(old(self).src(), old(self).pos())
                    == Option::Some(Result::<(StmtV, int), SynErrV>::Err(e@)),
            },
    {
        let ghost s0 = old(self).src();
        let ghost q0 = old(self).pos();
        proof {
            self.lexer.lemma_positions();
        }
        let id_kinds: &[TokenKind] = &[TokenKind::Identifier];
        match self.expect_token(id_kinds, Option::None) {
            Result::Ok(_) => {},
            Result::Err(e) => {
                proof {
                    match scan(s0, q0) {
                        Result::Ok((t, _p)) => {
                            assert(t.kind != TokenKind::Identifier) by {
                                if t.kind == TokenKind::Identifier {
                                    assert(id_kinds@[0] == t.kind);
                                    assert(id_kinds@.contains(t.kind));
                                }
                            }
                        },
                        Result::Err(_e) => {},
                    }
                }
                return Result::Err(e);
            },
        }
        proof {
            lemma_scan_token_shape(s0, q0);
        }
        let next_token = match self.lexer.next() {
            Result::Ok(t) => t,
            Result::Err(e) => {
                return Result::Err(e);
            },
        };
        let name = match next_token.value {
            TokenValue::Text(s) => s,
            other => {
                return Result::Err(
                    SyntaxError::UnexpectedToken(
                        Token { kind: next_token.kind, span: next_token.span, value: other },
                    ),
                );
            },
        };
        if name.unicode_len() > 1 {
            return Result::Err(SyntaxError::InvalidVariableName(name, next_token.span.start));
        }
        proof {
            self.lexer.lemma_positions();
        }
        let eq_kinds: &[TokenKind] = &[TokenKind::Equal];
        match self.expect_token(eq_kinds, Option::None) {
            Result::Ok(_) => {},
            Result::Err(e) => {
                proof {
                    match scan(s0, self.pos()) {
                        Result::Ok((t2, _p2)) => {
                            assert(t2.kind != TokenKind::Equal) by {
                                if t2.kind == TokenKind::Equal {
                                    assert(eq_kinds@[0] == t2.kind);
                                    assert(eq_kinds@.contains(t2.kind));
                                }
                            }
                        },
                        Result::Err(_e) => {},
                    }
                }
                return Result::Err(e);
            },
        }
        let _ = self.lexer.next();
        let value = match self.parse_expression() {
            Result::Ok(e) => e,
            Result::Err(e) => {
                return Result::Err(e);
            },
        };
        Result::Ok(Statement::VarStatement { declaration: VarDeclaration { name, value } })
    }

    /// Parses the target expression of a GOTO statement.
    fn parse_goto_statement(&mut self) -> (r: ParseResult<Statement>)
        requires
            old(self).wf(),
        ensures
            final(self).wf(),
            final(self).src() == old(self).src(),
            final(self).pos() >= old(self).pos(),
            final(self).cur() >= old(self).cur(),
            r matches Result::Ok(st) ==> (stmt_view(st) matches StmtV::Goto(e) && sp_expr(
                old(self).src(),
                old(self).pos(),
                fuel_for(old(self).src(), old(self).pos()),
            ) == Option::Some(Result::<(ExprV, int), SynErrV>::Ok((e, final(self).pos())))),
            r matches Result::Err(err) ==> sp_expr(
                old(self).src(),
                old(self).pos(),
                fuel_for(old(self).src(), old(self).pos()),
            ) == Option::Some(Result::<(ExprV, int), SynErrV>::Err(err@)),
            r is Ok ==> final(self).pos() > old(self).pos(),
    {
        let location = match self.parse_expression() {
            Result::Ok(e) => e,
            Result::Err(e) => {
                return Result::Err(e);
            },
        };
        Result::Ok(Statement::GoToStatement { location })
    }

    /// Parses the target expression of a GOSUB statement.
    fn parse_gosub_statement(&mut self) -> (r: ParseResult<Statement>)
        requires
            old(self).wf(),
        ensures
            final(self).wf(),
            final(self).src() == old(self).src(),
            final(self).pos() >= old(self).pos(),
            final(self).cur() >= old(self).cur(),
            r matches Result::Ok(st) ==> (stmt_view(st) matches StmtV::Gosub(e) && sp_expr(
                old(self).src(),
                old(self).pos(),
                fuel_for(old(self).src(), old(self).pos()),
            ) == Option::Some(Result::<(ExprV, int), SynErrV>::Ok((e, final(self).pos())))),
            r matches Result::Err(err) ==> sp_expr(
                old(self).src(),
                old(self).pos(),
                fuel_for(old(self).src(), old(self).pos()),
            ) == Option::Some(Result::<(ExprV, int), SynErrV>::Err(err@)),
            r is Ok ==> final(self).pos() > old(self).pos(),
    {
        let location = match self.parse_expression() {
            Result::Ok(e) => e,
            Result::Err(e) => {
                return Result::Err(e);
            },
        };
        Result::Ok(Statement::GoSubStatement { location })
    }

    /// Consumes and discards everything to the end of the line: a comment.
    /// Exactly [`sp_rem_tail`].
    fn parse_rem_statement(&mut self) -> (r: ParseResult<Statement>)
        requires
            old(self).wf(),
        ensures
            final(self).wf(),
            final(self).src() == old(self).src(),
            final(self).pos() >= old(self).pos(),
            final(self).cur() >= old(self).cur(),
            match r {
                Result::Ok(st) => stmt_view(st) == StmtV::Rem && sp_rem_tail(
                    old(self).src(),
                    old(self).pos(),
                    stmt_fuel_for(old(self).src(), old(self).pos()),
                ) == Option::Some(Result::<int, SynErrV>::Ok(final(self).pos())),
                Result::Err(e) => sp_rem_tail(
                    old(self).src(),
                    old(self).pos(),
                    stmt_fuel_for(old(self).src(), old(self).pos()),
                ) == Option::Some(Result::<int, SynErrV>::Err(e@)),
            },
    {
        let ghost s0 = old(self).src();
        let ghost q0 = old(self).pos();
        let ghost whole = sp_rem_tail(s0, q0, stmt_fuel_for(s0, q0));
        proof {
            self.lexer.lemma_positions();
        }
        loop
            invariant
                self.wf(),
                self.src() == old(self).src(),
                self.pos() >= old(self).pos(),
                self.cur() >= old(self).cur(),
                s0 == old(self).src(),
                q0 == old(self).pos(),
                whole == sp_rem_tail(s0, q0, stmt_fuel_for(s0, q0)),
                0 <= self.pos() <= s0.len(),
                whole == sp_rem_tail(s0, self.pos(), stmt_fuel_for(s0, self.pos())),
            decreases self.remaining(),
        {
            let ghost pos_i = self.pos();
            let t = match self.lexer.peek() {
                Result::Ok(t) => t,
                Result::Err(e) => {
                    return Result::Err(e);
                },
            };
            if t.kind == TokenKind::Eol || t.kind == TokenKind::Eof {
                return Result::Ok(Statement::RemStatement);
            }
            let _ = self.lexer.next();
            proof {
                self.lexer.lemma_positions();
                let p2 = self.pos();
                lemma_sp_rem_tail_some(s0, p2, stmt_fuel_for(s0, p2));
                lemma_sp_rem_tail_monotone(
                    s0,
                    p2,
                    stmt_fuel_for(s0, p2),
                    (stmt_fuel_for(s0, pos_i) - 1) as nat,
                );
            }
        }
    }

    /// Parses one statement, dispatching on the keyword that begins it: an
    /// unknown keyword is an unexpected-identifier fault, a token carrying
    /// no name where a keyword belongs is an unexpected-token fault, and
    /// the whole behavior, success and fault alike, is exactly
    /// [`sp_statement`].
    fn parse_statement(&mut self) -> (r: ParseResult<Statement>)
        requires
            old(self).wf(),
        ensures
            final(self).wf(),
            final(self).src() == old(self).src(),
            final(self).pos() >= old(self).pos(),
            final(self).cur() >= old(self).cur(),
            r is Ok ==> final(self).pos() > old(self).pos(),
            match scan(old(self).src(), old(self).pos()) {
                Result::Ok((t, _p)) => r matches Result::Ok(st) ==> (t.value
                    matches TokenValueV::Text(kw) && stmt_matches_keyword(kw, stmt_view(st))),
                Result::Err(_) => r is Err,
            },
            stmt_result_matches(old(self).src(), old(self).pos(), r, final(self).pos()),
        decreases old(self).remaining(), 1int,
    {
        let ghost s0 = old(self).src();
        let ghost q0 = old(self).pos();
        proof {
            self.lexer.lemma_positions();
            lemma_scan_token_shape(s0, q0);
            reveal_strlit("PRINT");
            reveal_strlit("INPUT");
            reveal_strlit("IF");
            reveal_strlit("LET");
            reveal_strlit("GOTO");
            reveal_strlit("GOSUB");
            reveal_strlit("NEW");
            reveal_strlit("RUN");
            reveal_strlit("LIST");
            reveal_strlit("CLS");
            reveal_strlit("RETURN");
            reveal_strlit("END");
            reveal_strlit("HELP");
            reveal_strlit("LOAD");
            reveal_strlit("SAVE");
            reveal_strlit("REM");
        }
        let next_token = match self.lexer.next() {
            Result::Ok(t) => t,
            Result::Err(e) => {
                return Result::Err(e);
            },
        };
        let ghost p = self.pos();
        match next_token.value {
            TokenValue::Text(s) => {
                if is_keyword(&s, "PRINT") {
                    self.parse_print_statement()
                } else if is_keyword(&s, "INPUT") {
                    self.parse_input_statement()
                } else if is_keyword(&s, "IF") {
                    let r = self.parse_if_statement();
                    proof {
                        if r is Ok || r is Err {
                            lemma_sp_if_tail_some(s0, p, stmt_fuel_for(s0, p));
                            lemma_sp_if_tail_monotone(
                                s0,
                                p,
                                stmt_fuel_for(s0, p),
                                stmt_fuel_for(s0, q0),
                            );
                        }
                    }
                    r
                } else if is_keyword(&s, "LET") {
                    self.parse_var_statement()
                } else if is_keyword(&s, "GOTO") {
                    self.parse_goto_statement()
                } else if is_keyword(&s, "GOSUB") {
                    self.parse_gosub_statement()
                } else if is_keyword(&s, "NEW") {
                    Result::Ok(Statement::NewStatement)
                } else if is_keyword(&s, "RUN") {
                    Result::Ok(Statement::RunStatement)
                } else if is_keyword(&s, "LIST") {
                    Result::Ok(Statement::ListStatement)
                } else if is_keyword(&s, "CLS") {
                    Result::Ok(Statement::ClsStatement)
                } else if is_keyword(&s, "RETURN") {
                    Result::Ok(Statement::ReturnStatement)
                } else if is_keyword(&s, "END") {
                    Result::Ok(Statement::EndStatement)
                } else if is_keyword(&s, "HELP") {
                    Result::Ok(Statement::HelpStatement)
                } else if is_keyword(&s, "LOAD") {
                    Result::Ok(Statement::LoadStatement)
                } else if is_keyword(&s, "SAVE") {
                    Result::Ok(Statement::SaveStatement)
                } else if is_keyword(&s, "REM") {
                    self.parse_rem_statement()
                } else {
                    Result::Err(SyntaxError::UnexpectedIdentifier(s, next_token.span.start))
                }
            },
            other => Result::Err(
                SyntaxError::UnexpectedToken(
                    Token { kind: next_token.kind, span: next_token.span, value: other },
                ),
            ),
        }
    }

    /// Consumes the whole input and produces the ordered lines it holds,
    /// skipping blank lines. A line beginning with a number is a stored
    /// line; one beginning with a keyword is a direct command. Each line
    /// keeps the verbatim text it was parsed from. The first fault aborts
    /// the whole submission: no lines are returned. The whole behavior,
    /// success and fault alike, is exactly [`sp_parse`].
    pub fn parse(&mut self) -> (r: ParseResult<Vec<Line>>)
        requires
            old(self).wf(),
        ensures
            final(self).wf(),
            final(self).src() == old(self).src(),
            r matches Result::Ok(lines) ==> forall|i: int|
                0 <= i < lines@.len() ==> line_src_ok(#[trigger] line_view(lines@[i]),
                old(self).src()),
            parse_result_matches(old(self).src(), old(self).pos(), r),
    {
        let ghost s0 = old(self).src();
        let ghost q0 = old(self).pos();
        let ghost whole = sp_parse(s0, q0, stmt_fuel_for(s0, q0));
        proof {
            self.lexer.lemma_positions();
            lemma_sp_parse_some(s0, q0, stmt_fuel_for(s0, q0));
        }
        let mut lines: Vec<Line> = Vec::new();
        let line_kinds: &[TokenKind] = &[
            TokenKind::Eol,
            TokenKind::Identifier,
            TokenKind::NumberLiteral,
        ];
        loop
            invariant
                self.wf(),
                self.src() == old(self).src(),
                s0 == old(self).src(),
                q0 == old(self).pos(),
                whole == sp_parse(s0, q0, stmt_fuel_for(s0, q0)),
                0 <= self.pos() <= s0.len(),
                line_kinds@ =~= seq![TokenKind::Eol, TokenKind::Identifier,
                    TokenKind::NumberLiteral],
                forall|i: int|
                    0 <= i < lines@.len() ==> line_src_ok(#[trigger] line_view(lines@[i]), s0),
                whole == (match sp_parse(s0, self.pos(), stmt_fuel_for(s0, self.pos())) {
                    Option::None => Option::<Result<Seq<LineV>, SynErrV>>::None,
                    Option::Some(Result::Err(e)) => Option::Some(Result::Err(e)),
                    Option::Some(Result::Ok(rest)) => Option::Some(
                        Result::Ok(lines@.map_values(|l: Line| line_view(l)) + rest),
                    ),
                }),
            decreases self.remaining(),
        {
            let ghost pos_i = self.pos();
            let ghost acc = lines@.map_values(|l: Line| line_view(l));
            proof {
                lemma_sp_parse_some(s0, pos_i, stmt_fuel_for(s0, pos_i));
            }
            let t = match self.lexer.peek() {
                Result::Ok(t) => t,
                Result::Err(e) => {
                    return Result::Err(e);
                },
            };
            if t.kind == TokenKind::Eof {
                proof {
                    assert(acc + Seq::<LineV>::empty() =~= acc);
                }
                return Result::Ok(lines);
            }
            match self.expect_token(line_kinds, Option::None) {
                Result::Ok(_) => {},
                Result::Err(e) => {
                    proof {
                        assert(t.kind != TokenKind::Eol && t.kind != TokenKind::Identifier
                            && t.kind != TokenKind::NumberLiteral) by {
                            if t.kind == TokenKind::Eol {
                                assert(line_kinds@[0] == t@.kind);
                                assert(line_kinds@.contains(t@.kind));
                            }
                            if t.kind == TokenKind::Identifier {
                                assert(line_kinds@[1] == t@.kind);
                                assert(line_kinds@.contains(t@.kind));
                            }
                            if t.kind == TokenKind::NumberLiteral {
                                assert(line_kinds@[2] == t@.kind);
                                assert(line_kinds@.contains(t@.kind));
                            }
                        }
                    }
                    return Result::Err(e);
                },
            }
            if t.kind == TokenKind::Eol {
                let _ = self.lexer.next();
                proof {
                    self.lexer.lemma_positions();
                    let p2 = self.pos();
                    lemma_sp_parse_some(s0, p2, stmt_fuel_for(s0, p2));
                    lemma_sp_parse_monotone(
                        s0,
                        p2,
                        stmt_fuel_for(s0, p2),
                        (stmt_fuel_for(s0, pos_i) - 1) as nat,
                    );
                }
                continue ;
            }
            proof {
                self.lexer.lemma_positions();
                lemma_scan_bounds(s0, pos_i);
            }
            let start = t.span.start;
            let ghost start_cur = self.cur();
            let number = if t.kind == TokenKind::NumberLiteral {
                let n = match t.value {
                    TokenValue::Digit(d) => Option::Some(d),
                    _ => Option::None,
                };
                let _ = self.lexer.next();
                n
            } else {
                Option::None
            };
            let ghost spos = self.pos();
            let statement = match self.parse_statement() {
                Result::Ok(st) => st,
                Result::Err(e) => {
                    return Result::Err(e);
                },
            };
            let ghost p_end = self.pos();
            let end = self.lexer.offset();
            proof {
                self.lexer.lemma_positions();
                self.lexer.lemma_buffered();
                assert(start as int <= start_cur);
                assert(start_cur <= end as int);
            }
            let source_text = self.source.substring_char(start, end).to_owned();
            let line = Line { number, statement, source: source_text };
            proof {
                assert(line_view(line).source == s0.subrange(start as int, end as int));
                assert(line_src_ok(line_view(line), s0));
            }
            lines.push(line);
            proof {
                assert(lines@.map_values(|l: Line| line_view(l))
                    =~= acc + seq![line_view(lines@.last())]);
                lemma_sp_parse_some(s0, p_end, stmt_fuel_for(s0, p_end));
                lemma_sp_parse_monotone(
                    s0,
                    p_end,
                    stmt_fuel_for(s0, p_end),
                    (stmt_fuel_for(s0, pos_i) - 1) as nat,
                );
                match sp_parse(s0, p_end, stmt_fuel_for(s0, p_end)) {
                    Option::Some(Result::Ok(rest2)) => {
                        assert(acc + (seq![line_view(lines@.last())] + rest2)
                            =~= (lines@.map_values(|l: Line| line_view(l)) + rest2));
                    },
                    _ => {},
                }
            }
        }
    }
}

} // verus!
