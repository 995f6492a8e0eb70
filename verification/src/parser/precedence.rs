//! How binding powers decide the shape of an expression with two infix
//! operators.

use crate::error::CompileError;
use crate::lexer::scan::LexemeModel;
use crate::lexer::tokens::Token;
use crate::parser::ast::{ExprModel, LitModel};
use crate::parser::expressions::{
    apply_infix, climb, infix_power, is_stop, literal_body, parse_expr, parse_expression,
    parse_primary, postfix_power,
};
use crate::parser::{peek_token, Parsed};
use vstd::prelude::*;

verus! {

/// The expression that a single token stands for, if it stands for one: a
/// literal, a name or a placeholder.
pub open spec fn atom(l: LexemeModel) -> Option<ExprModel> {
    match l.token {
        Token::Number(n) => Some(ExprModel::Literal(LitModel::Int(n as nat))),
        Token::String => if l.text.len() >= 2 {
            Some(ExprModel::Literal(LitModel::Str(literal_body(l.text))))
        } else {
            None
        },
        Token::Byte => if l.text.len() >= 2 {
            Some(ExprModel::Literal(LitModel::Byt(literal_body(l.text))))
        } else {
            None
        },
        Token::Ident => Some(ExprModel::Ident(l.text)),
        Token::Underscore => Some(ExprModel::Placeholder),
        _ => None,
    }
}

/// An application of the infix operator `op`.
pub open spec fn infix(op: Token, lhs: ExprModel, rhs: ExprModel) -> ExprModel {
    ExprModel::InfixOp { op, lhs: Box::new(lhs), rhs: Box::new(rhs) }
}

/// The left binding power of an infix operator.
pub open spec fn left_power(op: Token) -> u8
    recommends
        infix_power(op) is Some,
{
    let p = infix_power(op)->0;
    p.0
}

/// The right binding power of an infix operator.
pub open spec fn right_power(op: Token) -> u8
    recommends
        infix_power(op) is Some,
{
    let p = infix_power(op)->0;
    p.1
}

/// Whether `op` is an infix operator that associates to the left.
pub open spec fn left_associative(op: Token) -> bool {
    infix_power(op) matches Some(p) && p.0 < p.1
}

/// Whether `op` is an infix operator that associates to the right.
pub open spec fn right_associative(op: Token) -> bool {
    infix_power(op) matches Some(p) && p.0 > p.1
}

/// Whether `op` applied to a right operand that is the single token `rhs`
/// builds a plain application. Every infix operator but `->` does; `->`
/// does so into a name.
pub open spec fn applies_plainly(op: Token, rhs: LexemeModel) -> bool {
    infix_power(op) is Some && (op == Token::RightArrow ==> rhs.token == Token::Ident)
}

/// An atom in front of an operator or a stop token is a primary expression.
proof fn lemma_atom_primary(s: Seq<LexemeModel>)
    requires
        s.len() > 0,
        atom(s[0]) is Some,
        peek_token(s.drop_first()) != Token::LeftParen,
    ensures
        parse_primary(s) == Ok::<Parsed<ExprModel>, CompileError>(
            Parsed { value: atom(s[0])->0, rest: s.drop_first() },
        ),
{
}

/// An atom in front of a stop token is a whole expression, whatever the
/// binding power asked for.
proof fn lemma_atom_expr(s: Seq<LexemeModel>, bp: u8)
    requires
        s.len() > 0,
        atom(s[0]) is Some,
        is_stop(peek_token(s.drop_first())),
    ensures
        parse_expr(s, bp) == Ok::<Parsed<ExprModel>, CompileError>(
            Parsed { value: atom(s[0])->0, rest: s.drop_first() },
        ),
{
    lemma_atom_primary(s);
}

/// `y op z` in front of a stop token is the application of `op`, if `op`
/// binds at least as strongly as asked for.
proof fn lemma_one_operator(s: Seq<LexemeModel>, bp: u8)
    requires
        s.len() >= 3,
        atom(s[0]) is Some,
        atom(s[2]) is Some,
        applies_plainly(s[1].token, s[2]),
        left_power(s[1].token) >= bp,
        is_stop(peek_token(s.skip(3))),
    ensures
        parse_expr(s, bp) == Ok::<Parsed<ExprModel>, CompileError>(
            Parsed { value: infix(s[1].token, atom(s[0])->0, atom(s[2])->0), rest: s.skip(3) },
        ),
{
    let op = s[1].token;
    let s1 = s.drop_first();
    let s2 = s1.drop_first();
    assert(s2.drop_first() =~= s.skip(3));
    assert(s1[0] == s[1]);
    assert(s2[0] == s[2]);
    lemma_atom_primary(s);
    lemma_atom_expr(s2, right_power(op));
    assert(postfix_power(op) is None);
    assert(apply_infix(op, atom(s[0])->0, atom(s[2])->0) == Ok::<ExprModel, CompileError>(
        infix(op, atom(s[0])->0, atom(s[2])->0),
    ));
    let whole = infix(op, atom(s[0])->0, atom(s[2])->0);
    assert(climb(s.skip(3), whole, bp) == Ok::<Parsed<ExprModel>, CompileError>(
        Parsed { value: whole, rest: s.skip(3) },
    ));
    assert(climb(s1, atom(s[0])->0, bp) == climb(s.skip(3), whole, bp));
}

/// `x first y second z` in front of a stop token is `x first (y second z)`
/// if `second` binds on its left at least as strongly as `first` does on
/// its right.
proof fn lemma_second_binds_tighter(s: Seq<LexemeModel>)
    requires
        s.len() >= 5,
        atom(s[0]) is Some,
        atom(s[2]) is Some,
        atom(s[4]) is Some,
        infix_power(s[1].token) is Some,
        s[1].token != Token::RightArrow,
        applies_plainly(s[3].token, s[4]),
        left_power(s[3].token) >= right_power(s[1].token),
        is_stop(peek_token(s.skip(5))),
    ensures
        parse_expression(s) == Ok::<Parsed<ExprModel>, CompileError>(
            Parsed {
                value: infix(
                    s[1].token,
                    atom(s[0])->0,
                    infix(s[3].token, atom(s[2])->0, atom(s[4])->0),
                ),
                rest: s.skip(5),
            },
        ),
{
    let first = s[1].token;
    let s1 = s.drop_first();
    let s2 = s1.drop_first();
    assert(s1[0] == s[1]);
    assert(s2[0] == s[2]);
    assert(s2[1] == s[3]);
    assert(s2[2] == s[4]);
    assert(s2.skip(3) =~= s.skip(5));
    lemma_atom_primary(s);
    lemma_one_operator(s2, right_power(first));
    assert(postfix_power(first) is None);
    let inner = infix(s[3].token, atom(s[2])->0, atom(s[4])->0);
    let whole = infix(first, atom(s[0])->0, inner);
    assert(apply_infix(first, atom(s[0])->0, inner) == Ok::<ExprModel, CompileError>(whole));
    assert(climb(s.skip(5), whole, 0u8) == Ok::<Parsed<ExprModel>, CompileError>(
        Parsed { value: whole, rest: s.skip(5) },
    ));
    assert(climb(s1, atom(s[0])->0, 0u8) == climb(s.skip(5), whole, 0u8));
}

/// Of two left-associative operators the one that binds more strongly
/// takes its operands first: with `stronger` binding more strongly than
/// `weaker`, the input `x weaker y stronger z` is `x weaker (y stronger z)`.
///
/// The operands are single tokens. The weaker operator is not `->`, whose
/// right-hand side has to end in a call; the stronger one may be `->` if
/// `z` is a name. The input ends behind `z` or goes on with a token at
/// which an expression ends.
pub proof fn law_precedence(
    x: LexemeModel,
    weaker: LexemeModel,
    y: LexemeModel,
    stronger: LexemeModel,
    z: LexemeModel,
    rest: Seq<LexemeModel>,
)
    requires
        atom(x) is Some,
        atom(y) is Some,
        atom(z) is Some,
        left_associative(weaker.token),
        left_associative(stronger.token),
        left_power(stronger.token) > left_power(weaker.token),
        weaker.token != Token::RightArrow,
        stronger.token == Token::RightArrow ==> z.token == Token::Ident,
        is_stop(peek_token(rest)),
    ensures
        parse_expression(seq![x, weaker, y, stronger, z] + rest) == Ok::<
            Parsed<ExprModel>,
            CompileError,
        >(
            Parsed {
                value: infix(
                    weaker.token,
                    atom(x)->0,
                    infix(stronger.token, atom(y)->0, atom(z)->0),
                ),
                rest,
            },
        ),
{
    let s = seq![x, weaker, y, stronger, z] + rest;
    assert(s.skip(5) =~= rest);
    lemma_second_binds_tighter(s);
}

/// An operator that associates to the right takes the operands on its
/// right first: for `^`, `.` and `::` the input `x op y op z` is
/// `x op (y op z)`, and so it is for `.` and `::` mixed.
///
/// The operands are single tokens. The input ends behind `z` or goes on
/// with a token at which an expression ends.
pub proof fn law_right_associativity(
    x: LexemeModel,
    first: LexemeModel,
    y: LexemeModel,
    second: LexemeModel,
    z: LexemeModel,
    rest: Seq<LexemeModel>,
)
    requires
        atom(x) is Some,
        atom(y) is Some,
        atom(z) is Some,
        right_associative(first.token),
        infix_power(second.token) == infix_power(first.token),
        is_stop(peek_token(rest)),
    ensures
        parse_expression(seq![x, first, y, second, z] + rest) == Ok::<
            Parsed<ExprModel>,
            CompileError,
        >(
            Parsed {
                value: infix(
                    first.token,
                    atom(x)->0,
                    infix(second.token, atom(y)->0, atom(z)->0),
                ),
                rest,
            },
        ),
{
    let s = seq![x, first, y, second, z] + rest;
    assert(s.skip(5) =~= rest);
    lemma_second_binds_tighter(s);
}

/// The operators that associate to the right are `^`, `.` and `::`.
pub proof fn law_right_associative_operators(op: Token)
    ensures
        right_associative(op) <==> op == Token::Caret || op == Token::Dot || op
            == Token::DoubleColon,
{
}

} // verus!
