//! Tuples in parsed expressions: none of them holds exactly one item.

use crate::lexer::scan::LexemeModel;
use crate::lexer::tokens::Token;
use crate::parser::ast::ExprModel;
use crate::parser::expressions::{
    apply_infix, climb, infix_power, parse_expr, parse_expression, parse_list, parse_primary,
    postfix_power,
};
use crate::parser::peek_token;
use crate::parser::pipeline::{
    is_path_op, lemma_placeholder_index, passed_values, pipeline, placeholder_index, splice_all,
    splice_one, splice_target,
};
use vstd::prelude::*;

verus! {

/// Whether no tuple within `e`, `e` itself included, holds exactly one
/// item.
pub open spec fn no_single_tuple(e: ExprModel) -> bool
    decreases e,
{
    match e {
        ExprModel::Tuple(items) => items.len() != 1 && forall|i: int|
            0 <= i < items.len() ==> no_single_tuple(#[trigger] items[i]),
        ExprModel::FnCall { fn_name, args } => forall|i: int|
            0 <= i < args.len() ==> no_single_tuple(#[trigger] args[i]),
        ExprModel::PrefixOp { op, expr } => no_single_tuple(*expr),
        ExprModel::InfixOp { op, lhs, rhs } => no_single_tuple(*lhs) && no_single_tuple(*rhs),
        ExprModel::PostfixOp { op, expr } => no_single_tuple(*expr),
        _ => true,
    }
}

/// Whether none of `items` holds a tuple of exactly one item.
pub open spec fn no_single_tuples(items: Seq<ExprModel>) -> bool {
    forall|i: int| 0 <= i < items.len() ==> no_single_tuple(#[trigger] items[i])
}

/// Passing values into an argument list brings in no tuple of one item.
proof fn lemma_splice_keeps(args: Seq<ExprModel>, xs: Seq<ExprModel>)
    requires
        no_single_tuples(args),
        no_single_tuples(xs),
    ensures
        no_single_tuples(splice_all(args, xs)),
    decreases xs.len(),
{
    if xs.len() > 0 {
        let front = xs.drop_last();
        assert forall|i: int| 0 <= i < front.len() implies no_single_tuple(
            #[trigger] front[i],
        ) by {
            assert(front[i] == xs[i]);
        }
        lemma_splice_keeps(args, front);
        let before = splice_all(args, front);
        lemma_placeholder_index(before, 0);
        let after = splice_one(before, xs.last());
        assert forall|i: int| 0 <= i < after.len() implies no_single_tuple(
            #[trigger] after[i],
        ) by {
            if i != placeholder_index(before, 0) {
                assert(after[i] == before[i]);
            }
        }
    }
}

/// Passing values into the call at the end of an expression brings in no
/// tuple of one item.
proof fn lemma_target_keeps(rhs: ExprModel, xs: Seq<ExprModel>)
    requires
        no_single_tuple(rhs),
        no_single_tuples(xs),
    ensures
        splice_target(rhs, xs) matches Ok(e) ==> no_single_tuple(e),
    decreases rhs,
{
    match rhs {
        ExprModel::FnCall { fn_name, args } => {
            lemma_splice_keeps(args, xs);
        },
        ExprModel::InfixOp { op, lhs, rhs: inner } => {
            if is_path_op(op) {
                lemma_target_keeps(*inner, xs);
            }
        },
        _ => {},
    }
}

/// The pipeline rewrite brings in no tuple of one item.
pub proof fn lemma_pipeline_keeps(lhs: ExprModel, rhs: ExprModel)
    requires
        no_single_tuple(lhs),
        no_single_tuple(rhs),
    ensures
        pipeline(lhs, rhs) matches Ok(e) ==> no_single_tuple(e),
{
    if !(rhs is Ident) {
        lemma_target_keeps(rhs, passed_values(lhs));
    }
}

/// No expression holds a tuple of exactly one item: a parenthesized list
/// of one item is the item itself.
pub proof fn law_no_single_tuple(s: Seq<LexemeModel>)
    ensures
        parse_expression(s) matches Ok(p) ==> no_single_tuple(p.value),
{
    lemma_expr_keeps(s, 0u8);
}

/// An expression of any binding power holds no tuple of one item.
proof fn lemma_expr_keeps(s: Seq<LexemeModel>, bp: u8)
    ensures
        parse_expr(s, bp) matches Ok(p) ==> no_single_tuple(p.value),
    decreases s.len(), 1nat,
{
    lemma_primary_keeps(s);
    if let Ok(p) = parse_primary(s) {
        if p.rest.len() < s.len() {
            lemma_climb_keeps(p.rest, p.value, bp);
        }
    }
}

/// A primary expression holds no tuple of one item.
proof fn lemma_primary_keeps(s: Seq<LexemeModel>)
    ensures
        parse_primary(s) matches Ok(p) ==> no_single_tuple(p.value),
    decreases s.len(), 0nat,
{
    if s.len() > 0 {
        let rest = s.drop_first();
        match s[0].token {
            Token::Ident => {
                if peek_token(rest) == Token::LeftParen {
                    lemma_list_keeps(rest.drop_first(), Seq::empty());
                }
            },
            Token::LeftParen => {
                lemma_list_keeps(rest, Seq::empty());
            },
            Token::Plus | Token::Minus | Token::Bang => {
                lemma_expr_keeps(rest, 51u8);
            },
            _ => {},
        }
    }
}

/// The items of a parenthesized list hold no tuple of one item.
proof fn lemma_list_keeps(s: Seq<LexemeModel>, acc: Seq<ExprModel>)
    requires
        no_single_tuples(acc),
    ensures
        parse_list(s, acc) matches Ok(p) ==> no_single_tuples(p.value),
    decreases s.len(), 2nat,
{
    if peek_token(s) != Token::RightParen {
        lemma_expr_keeps(s, 0u8);
        if let Ok(p) = parse_expr(s, 0u8) {
            let all = acc.push(p.value);
            assert forall|i: int| 0 <= i < all.len() implies no_single_tuple(
                #[trigger] all[i],
            ) by {
                if i < acc.len() {
                    assert(all[i] == acc[i]);
                }
            }
            if p.rest.len() < s.len() && peek_token(p.rest) == Token::Comma {
                lemma_list_keeps(p.rest.drop_first(), all);
            }
        }
    }
}

/// A climb brings in no tuple of one item.
proof fn lemma_climb_keeps(s: Seq<LexemeModel>, lhs: ExprModel, bp: u8)
    requires
        no_single_tuple(lhs),
    ensures
        climb(s, lhs, bp) matches Ok(p) ==> no_single_tuple(p.value),
    decreases s.len(), 0nat,
{
    let op = peek_token(s);
    if postfix_power(op) is Some {
        if postfix_power(op)->0 >= bp {
            lemma_climb_keeps(s.drop_first(), ExprModel::PostfixOp { op, expr: Box::new(lhs) }, bp);
        }
    } else if infix_power(op) is Some {
        let (left, right) = infix_power(op)->0;
        if left >= bp {
            lemma_expr_keeps(s.drop_first(), right);
            if let Ok(p) = parse_expr(s.drop_first(), right) {
                lemma_pipeline_keeps(lhs, p.value);
                if let Ok(e) = apply_infix(op, lhs, p.value) {
                    if p.rest.len() < s.drop_first().len() {
                        lemma_climb_keeps(p.rest, e, bp);
                    }
                }
            }
        }
    }
}

} // verus!
