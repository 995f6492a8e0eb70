//! Expressions: a precedence climber over prefix, infix and postfix
//! operators, with calls, tuples and the pipeline rewrite.

use crate::error::CompileError;
use crate::lexer::scan::LexemeModel;
use crate::lexer::tokens::Token;
use crate::parser::ast::{expr_models, lemma_expr_children, Expr, ExprModel, Lit, LitModel};
use crate::parser::pipeline::{
    filled, law_pipeline_appends, law_placeholder_fill, pipeline, pipeline_expr,
};
use crate::parser::{shorter, parsed_as, peek_token, rejection, Parsed, Parser};
use vstd::prelude::*;

verus! {

/// How strongly a prefix operator binds the expression on its right.
pub open spec fn prefix_power(op: Token) -> Option<u8> {
    match op {
        Token::Plus | Token::Minus | Token::Bang => Some(51u8),
        _ => None,
    }
}

/// How strongly an infix operator binds the expressions on its left and on
/// its right. An operator whose left power is the greater one associates to
/// the right.
pub open spec fn infix_power(op: Token) -> Option<(u8, u8)> {
    match op {
        Token::Or => Some((1u8, 2u8)),
        Token::And => Some((3u8, 4u8)),
        Token::Equal | Token::NotEqual => Some((5u8, 6u8)),
        Token::LeftAngleBracket
        | Token::RightAngleBracket
        | Token::LessOrEqual
        | Token::GreaterOrEqual => Some((7u8, 8u8)),
        Token::RightArrow => Some((9u8, 10u8)),
        Token::Plus | Token::Minus => Some((11u8, 12u8)),
        Token::Asterisk | Token::Slash => Some((13u8, 14u8)),
        Token::Caret => Some((22u8, 21u8)),
        Token::Dot | Token::DoubleColon => Some((24u8, 23u8)),
        _ => None,
    }
}

/// How strongly a postfix operator binds the expression on its left.
pub open spec fn postfix_power(op: Token) -> Option<u8> {
    match op {
        Token::Bang => Some(101u8),
        _ => None,
    }
}

/// The tokens at which an expression ends without error.
pub open spec fn is_stop(t: Token) -> bool {
    match t {
        Token::EOF
        | Token::RightParen
        | Token::RightCurlyBracket
        | Token::LeftCurlyBracket
        | Token::Comma
        | Token::Semicolon => true,
        _ => false,
    }
}

/// The text of a string or byte literal between its delimiters.
pub open spec fn literal_body(text: Seq<char>) -> Seq<char> {
    text.subrange(1, text.len() - 1)
}

/// Wraps a single parsed item as itself and any other number of items as a
/// tuple.
pub open spec fn tuple_or_item(items: Seq<ExprModel>) -> ExprModel {
    if items.len() == 1 {
        items[0]
    } else {
        ExprModel::Tuple(items)
    }
}

/// An expression whose operators all bind at least as strongly as `bp`: a
/// primary expression, then as many operators as may follow it.
pub open spec fn parse_expr(s: Seq<LexemeModel>, bp: u8) -> Result<
    Parsed<ExprModel>,
    CompileError,
>
    decreases s.len(), 1nat,
{
    match parse_primary(s) {
        Ok(p) => if shorter(p.rest, s) {
            climb(p.rest, p.value, bp)
        } else {
            Err(CompileError::UnexpectedToken)
        },
        Err(e) => Err(e),
    }
}

/// A primary expression, told by its first token: a literal; a name, which
/// is a call if a `(` follows; a parenthesized list, which is its item if
/// it has exactly one and a tuple otherwise; a prefix operator with its
/// operand; a placeholder.
pub open spec fn parse_primary(s: Seq<LexemeModel>) -> Result<Parsed<ExprModel>, CompileError>
    decreases s.len(), 0nat,
{
    if s.len() == 0 {
        Err(CompileError::UnexpectedToken)
    } else {
        let first = s[0];
        let rest = s.drop_first();
        match first.token {
            Token::Number(n) => Ok(
                Parsed { value: ExprModel::Literal(LitModel::Int(n as nat)), rest },
            ),
            Token::String => if first.text.len() >= 2 {
                Ok(
                    Parsed {
                        value: ExprModel::Literal(LitModel::Str(literal_body(first.text))),
                        rest,
                    },
                )
            } else {
                Err(CompileError::UnexpectedToken)
            },
            Token::Byte => if first.text.len() >= 2 {
                Ok(
                    Parsed {
                        value: ExprModel::Literal(LitModel::Byt(literal_body(first.text))),
                        rest,
                    },
                )
            } else {
                Err(CompileError::UnexpectedToken)
            },
            Token::Ident => if peek_token(rest) == Token::LeftParen {
                match parse_list(rest.drop_first(), Seq::empty()) {
                    Ok(p) => Ok(
                        Parsed {
                            value: ExprModel::FnCall { fn_name: first.text, args: p.value },
                            rest: p.rest,
                        },
                    ),
                    Err(e) => Err(e),
                }
            } else {
                Ok(Parsed { value: ExprModel::Ident(first.text), rest })
            },
            Token::LeftParen => match parse_list(rest, Seq::empty()) {
                Ok(p) => Ok(Parsed { value: tuple_or_item(p.value), rest: p.rest }),
                Err(e) => Err(e),
            },
            Token::Plus | Token::Minus | Token::Bang => match parse_expr(rest, 51u8) {
                Ok(p) => Ok(
                    Parsed {
                        value: ExprModel::PrefixOp { op: first.token, expr: Box::new(p.value) },
                        rest: p.rest,
                    },
                ),
                Err(e) => Err(e),
            },
            Token::Underscore => Ok(Parsed { value: ExprModel::Placeholder, rest }),
            other => Err(rejection(other)),
        }
    }
}

/// The rest of a parenthesized list of expressions, up to and with its
/// `)`, behind the items `acc` that were read already. Items are separated
/// by commas; the `)` may follow an item or a comma.
pub open spec fn parse_list(s: Seq<LexemeModel>, acc: Seq<ExprModel>) -> Result<
    Parsed<Seq<ExprModel>>,
    CompileError,
>
    decreases s.len(), 2nat,
{
    if peek_token(s) == Token::RightParen {
        Ok(Parsed { value: acc, rest: s.drop_first() })
    } else {
        match parse_expr(s, 0u8) {
            Ok(p) => if !shorter(p.rest, s) {
                Err(CompileError::UnexpectedToken)
            } else if peek_token(p.rest) == Token::Comma {
                parse_list(p.rest.drop_first(), acc.push(p.value))
            } else if peek_token(p.rest) == Token::RightParen {
                Ok(Parsed { value: acc.push(p.value), rest: p.rest.drop_first() })
            } else {
                Err(rejection(peek_token(p.rest)))
            },
            Err(e) => Err(e),
        }
    }
}

/// What an infix operator builds from its operands: the pipeline rewrite
/// for `->`, a plain application for every other operator.
pub open spec fn apply_infix(op: Token, lhs: ExprModel, rhs: ExprModel) -> Result<
    ExprModel,
    CompileError,
> {
    if op == Token::RightArrow {
        pipeline(lhs, rhs)
    } else {
        Ok(ExprModel::InfixOp { op, lhs: Box::new(lhs), rhs: Box::new(rhs) })
    }
}

/// The operators that follow the expression `lhs`, as far as they bind at
/// least as strongly as `bp`. A postfix operator wraps `lhs`. An infix
/// operator reads its right operand with its right binding power, and the
/// two operands become the new `lhs`. The climb ends without error in front
/// of a weaker operator and in front of a stop token; any other token is
/// an error.
pub open spec fn climb(s: Seq<LexemeModel>, lhs: ExprModel, bp: u8) -> Result<
    Parsed<ExprModel>,
    CompileError,
>
    decreases s.len(), 0nat,
{
    let op = peek_token(s);
    if postfix_power(op) is Some {
        if postfix_power(op)->0 < bp {
            Ok(Parsed { value: lhs, rest: s })
        } else {
            climb(s.drop_first(), ExprModel::PostfixOp { op, expr: Box::new(lhs) }, bp)
        }
    } else if infix_power(op) is Some {
        let (left, right) = infix_power(op)->0;
        if left < bp {
            Ok(Parsed { value: lhs, rest: s })
        } else {
            match parse_expr(s.drop_first(), right) {
                Ok(p) => if shorter(p.rest, s.drop_first()) {
                    match apply_infix(op, lhs, p.value) {
                        Ok(e) => climb(p.rest, e, bp),
                        Err(e) => Err(e),
                    }
                } else {
                    Err(CompileError::UnexpectedToken)
                },
                Err(e) => Err(e),
            }
        }
    } else if is_stop(op) {
        Ok(Parsed { value: lhs, rest: s })
    } else {
        Err(rejection(op))
    }
}

/// A whole expression.
pub open spec fn parse_expression(s: Seq<LexemeModel>) -> Result<
    Parsed<ExprModel>,
    CompileError,
> {
    parse_expr(s, 0u8)
}

/// An expression holds at least one token.
pub proof fn lemma_expr_progress(s: Seq<LexemeModel>, bp: u8)
    ensures
        parse_expr(s, bp) matches Ok(p) ==> p.rest.len() < s.len(),
    decreases s.len(), 1nat,
{
    lemma_primary_progress(s);
    if let Ok(p) = parse_primary(s) {
        lemma_climb_progress(p.rest, p.value, bp);
    }
}

/// A primary expression holds at least one token.
pub proof fn lemma_primary_progress(s: Seq<LexemeModel>)
    ensures
        parse_primary(s) matches Ok(p) ==> p.rest.len() < s.len(),
    decreases s.len(), 0nat,
{
    if s.len() > 0 {
        let rest = s.drop_first();
        match s[0].token {
            Token::Ident => {
                if peek_token(rest) == Token::LeftParen {
                    lemma_list_progress(rest.drop_first(), Seq::empty());
                }
            },
            Token::LeftParen => {
                lemma_list_progress(rest, Seq::empty());
            },
            Token::Plus | Token::Minus | Token::Bang => {
                lemma_expr_progress(rest, 51u8);
            },
            _ => {},
        }
    }
}

/// The rest of a list holds at least its `)`.
pub proof fn lemma_list_progress(s: Seq<LexemeModel>, acc: Seq<ExprModel>)
    ensures
        parse_list(s, acc) matches Ok(p) ==> p.rest.len() < s.len(),
    decreases s.len(), 2nat,
{
    if peek_token(s) != Token::RightParen {
        lemma_expr_progress(s, 0u8);
        if let Ok(p) = parse_expr(s, 0u8) {
            if peek_token(p.rest) == Token::Comma {
                lemma_list_progress(p.rest.drop_first(), acc.push(p.value));
            }
        }
    }
}

/// A climb never leaves more tokens than it found.
pub proof fn lemma_climb_progress(s: Seq<LexemeModel>, lhs: ExprModel, bp: u8)
    ensures
        climb(s, lhs, bp) matches Ok(p) ==> p.rest.len() <= s.len(),
    decreases s.len(), 0nat,
{
    let op = peek_token(s);
    if postfix_power(op) is Some {
        if postfix_power(op)->0 >= bp {
            lemma_climb_progress(
                s.drop_first(),
                ExprModel::PostfixOp { op, expr: Box::new(lhs) },
                bp,
            );
        }
    } else if infix_power(op) is Some {
        let (left, right) = infix_power(op)->0;
        if left >= bp {
            lemma_expr_progress(s.drop_first(), right);
            if let Ok(p) = parse_expr(s.drop_first(), right) {
                if let Ok(e) = apply_infix(op, lhs, p.value) {
                    lemma_climb_progress(p.rest, e, bp);
                }
            }
        }
    }
}


/// Where a climb meets `->` and the call `f(a, b)` behind it, with a single
/// value `lhs` in hand and no placeholder in the call, it goes on as if it
/// had `f(a, b, lhs)` in hand: `lhs -> f(a, b)` parses as `f(a, b, lhs)`.
pub proof fn law_arrow_appends(
    s: Seq<LexemeModel>,
    lhs: ExprModel,
    bp: u8,
    fn_name: Seq<char>,
    args: Seq<ExprModel>,
    rest: Seq<LexemeModel>,
)
    requires
        peek_token(s) == Token::RightArrow,
        bp <= 9,
        parse_expr(s.drop_first(), 10u8) == Ok::<Parsed<ExprModel>, CompileError>(
            Parsed { value: ExprModel::FnCall { fn_name, args }, rest },
        ),
        !(lhs is Tuple),
        forall|i: int| 0 <= i < args.len() ==> !(#[trigger] args[i] is Placeholder),
    ensures
        climb(s, lhs, bp) == climb(rest, ExprModel::FnCall { fn_name, args: args.push(lhs) }, bp),
{
    lemma_expr_progress(s.drop_first(), 10u8);
    law_pipeline_appends(lhs, fn_name, args);
}

/// Where a climb meets `->` and the call `f(..)` behind it, with a tuple
/// in hand, it goes on with the call in hand whose placeholders the items
/// of the tuple have filled from left to right, what is left over of them
/// standing behind the arguments. None of the items but the last may
/// itself be a placeholder.
pub proof fn law_arrow_fills(
    s: Seq<LexemeModel>,
    items: Seq<ExprModel>,
    bp: u8,
    fn_name: Seq<char>,
    args: Seq<ExprModel>,
    rest: Seq<LexemeModel>,
)
    requires
        peek_token(s) == Token::RightArrow,
        bp <= 9,
        parse_expr(s.drop_first(), 10u8) == Ok::<Parsed<ExprModel>, CompileError>(
            Parsed { value: ExprModel::FnCall { fn_name, args }, rest },
        ),
        forall|i: int| 0 <= i < items.len() - 1 ==> !(#[trigger] items[i] is Placeholder),
    ensures
        climb(s, ExprModel::Tuple(items), bp) == climb(
            rest,
            ExprModel::FnCall { fn_name, args: filled(args, items) },
            bp,
        ),
{
    lemma_expr_progress(s.drop_first(), 10u8);
    law_placeholder_fill(items, fn_name, args);
}

impl Token {
    /// The binding power of the token as a prefix operator.
    pub fn prefix_binding_power(&self) -> (r: Option<u8>)
        ensures
            r == prefix_power(*self),
    {
        match self {
            Token::Plus | Token::Minus | Token::Bang => Some(51),
            _ => None,
        }
    }

    /// The left and right binding powers of the token as an infix operator.
    pub fn infix_binding_power(&self) -> (r: Option<(u8, u8)>)
        ensures
            r == infix_power(*self),
    {
        match self {
            Token::Or => Some((1, 2)),
            Token::And => Some((3, 4)),
            Token::Equal | Token::NotEqual => Some((5, 6)),
            Token::LeftAngleBracket
            | Token::RightAngleBracket
            | Token::LessOrEqual
            | Token::GreaterOrEqual => Some((7, 8)),
            Token::RightArrow => Some((9, 10)),
            Token::Plus | Token::Minus => Some((11, 12)),
            Token::Asterisk | Token::Slash => Some((13, 14)),
            Token::Caret => Some((22, 21)),
            Token::Dot | Token::DoubleColon => Some((24, 23)),
            _ => None,
        }
    }

    /// The binding power of the token as a postfix operator.
    pub fn postfix_binding_power(&self) -> (r: Option<u8>)
        ensures
            r == postfix_power(*self),
    {
        match self {
            Token::Bang => Some(101),
            _ => None,
        }
    }

    /// Whether an expression ends in front of the token.
    pub fn ends_expression(&self) -> (b: bool)
        ensures
            b == is_stop(*self),
    {
        match self {
            Token::EOF
            | Token::RightParen
            | Token::RightCurlyBracket
            | Token::LeftCurlyBracket
            | Token::Comma
            | Token::Semicolon => true,
            _ => false,
        }
    }

    /// The error for meeting the token where it does not fit.
    pub fn rejected(&self) -> (e: CompileError)
        ensures
            e == rejection(*self),
    {
        match self {
            Token::Error => CompileError::LexError,
            _ => CompileError::UnexpectedToken,
        }
    }
}

/// Cuts the delimiters off the text of a string or byte literal.
fn body_of(text: &String) -> (r: Option<String>)
    ensures
        text@.len() >= 2 ==> r is Some && r->0@ == literal_body(text@),
        text@.len() < 2 ==> r is None,
{
    let n = text.as_str().unicode_len();
    if n < 2 {
        None
    } else {
        Some(String::from_str(text.as_str().substring_char(1, n - 1)))
    }
}

impl Parser {
    /// Parses one expression.
    ///
    /// On success the expression is the one that the grammar gives for the
    /// tokens that were left to read, and the parser stands behind it. On
    /// failure the error is the grammar's, and where the parser stands is
    /// not told.
    pub fn expression(&mut self) -> (r: Result<Expr, CompileError>)
        ensures
            parsed_as(r, final(self).stream(), parse_expression(old(self).stream())),
    {
        self.parse_expression(0)
    }

    /// Parses an expression whose operators bind at least as strongly as
    /// `binding_power`.
    pub fn parse_expression(&mut self, binding_power: u8) -> (r: Result<Expr, CompileError>)
        ensures
            parsed_as(r, final(self).stream(), parse_expr(old(self).stream(), binding_power)),
        decreases old(self).stream().len(), 1nat,
    {
        let ghost start = self.stream();
        let mut lhs = match self.parse_primary() {
            Ok(e) => e,
            Err(err) => {
                return Err(err);
            },
        };
        proof {
            lemma_primary_progress(start);
        }
        loop
            invariant
                start == old(self).stream(),
                self.stream().len() < start.len(),
                climb(self.stream(), lhs@, binding_power) == parse_expr(start, binding_power),
            decreases self.stream().len(),
        {
            let ghost here = self.stream();
            let op = self.peek();
            match op.postfix_binding_power() {
                Some(left) => {
                    if left < binding_power {
                        return Ok(lhs);
                    }
                    let _ = self.next();
                    lhs = Expr::PostfixOp { op, expr: Box::new(lhs) };
                },
                None => match op.infix_binding_power() {
                    Some((left, right)) => {
                        if left < binding_power {
                            return Ok(lhs);
                        }
                        let _ = self.next();
                        let rhs = match self.parse_expression(right) {
                            Ok(e) => e,
                            Err(err) => {
                                return Err(err);
                            },
                        };
                        proof {
                            lemma_expr_progress(here.drop_first(), right);
                        }
                        if op == Token::RightArrow {
                            lhs = match pipeline_expr(lhs, rhs) {
                                Ok(e) => e,
                                Err(err) => {
                                    return Err(err);
                                },
                            };
                        } else {
                            lhs = Expr::InfixOp { op, lhs: Box::new(lhs), rhs: Box::new(rhs) };
                        }
                    },
                    None => {
                        if op.ends_expression() {
                            return Ok(lhs);
                        } else {
                            return Err(op.rejected());
                        }
                    },
                },
            }
        }
    }

    /// Parses a primary expression.
    fn parse_primary(&mut self) -> (r: Result<Expr, CompileError>)
        ensures
            parsed_as(r, final(self).stream(), parse_primary(old(self).stream())),
        decreases old(self).stream().len(), 0nat,
    {
        let (token, text) = match self.next() {
            Some(pair) => pair,
            None => {
                return Err(CompileError::UnexpectedToken);
            },
        };
        match token {
            Token::Number(n) => Ok(Expr::Literal(Lit::Int(n))),
            Token::String => match body_of(&text) {
                Some(body) => Ok(Expr::Literal(Lit::Str(body))),
                None => Err(CompileError::UnexpectedToken),
            },
            Token::Byte => match body_of(&text) {
                Some(body) => Ok(Expr::Literal(Lit::Byt(body))),
                None => Err(CompileError::UnexpectedToken),
            },
            Token::Ident => {
                if self.at(Token::LeftParen) {
                    let _ = self.next();
                    match self.parse_list() {
                        Ok(args) => {
                            let e = Expr::FnCall { fn_name: text, args };
                            proof {
                                lemma_expr_children(e);
                            }
                            Ok(e)
                        },
                        Err(err) => Err(err),
                    }
                } else {
                    Ok(Expr::Ident(text))
                }
            },
            Token::LeftParen => match self.parse_list() {
                Ok(items) => {
                    let mut items = items;
                    if items.len() == 1 {
                        let ghost models = expr_models(items@);
                        match items.pop() {
                            Some(e) => {
                                assert(e@ == models[0]);
                                Ok(e)
                            },
                            None => Err(CompileError::UnexpectedToken),
                        }
                    } else {
                        let e = Expr::Tuple(items);
                        proof {
                            lemma_expr_children(e);
                        }
                        Ok(e)
                    }
                },
                Err(err) => Err(err),
            },
            Token::Underscore => Ok(Expr::Placeholder),
            other => match other.prefix_binding_power() {
                Some(power) => match self.parse_expression(power) {
                    Ok(e) => Ok(Expr::PrefixOp { op: other, expr: Box::new(e) }),
                    Err(err) => Err(err),
                },
                None => Err(other.rejected()),
            },
        }
    }

    /// Parses the rest of a parenthesized list, up to and with its `)`.
    fn parse_list(&mut self) -> (r: Result<Vec<Expr>, CompileError>)
        ensures
            match r {
                Ok(items) => parse_list(old(self).stream(), Seq::empty()) == Ok::<
                    Parsed<Seq<ExprModel>>,
                    CompileError,
                >(Parsed { value: expr_models(items@), rest: final(self).stream() }),
                Err(err) => parse_list(old(self).stream(), Seq::empty()) == Err::<
                    Parsed<Seq<ExprModel>>,
                    CompileError,
                >(err),
            },
        decreases old(self).stream().len(), 2nat,
    {
        let ghost start = self.stream();
        let mut items: Vec<Expr> = Vec::new();
        assert(expr_models(items@) =~= Seq::empty());
        loop
            invariant
                start == old(self).stream(),
                self.stream().len() <= start.len(),
                parse_list(self.stream(), expr_models(items@)) == parse_list(start, Seq::empty()),
            decreases self.stream().len(),
        {
            let ghost here = self.stream();
            let ghost acc = expr_models(items@);
            if self.at(Token::RightParen) {
                let _ = self.next();
                return Ok(items);
            }
            let item = match self.parse_expression(0) {
                Ok(e) => e,
                Err(err) => {
                    return Err(err);
                },
            };
            proof {
                lemma_expr_progress(here, 0u8);
            }
            items.push(item);
            assert(expr_models(items@) =~= acc.push(item@));
            let found = self.peek();
            if found == Token::Comma {
                let _ = self.next();
            } else if found == Token::RightParen {
                let _ = self.next();
                return Ok(items);
            } else {
                return Err(found.rejected());
            }
        }
    }
}

} // verus!
