//! Statements, types, functions and whole files.

use crate::error::CompileError;
use crate::lexer::scan::LexemeModel;
use crate::lexer::tokens::Token;
use crate::parser::ast::{
    item_models, Expr, lemma_stmt_children, lemma_type_children, name_models, param_model,
    param_models, stmt_models, type_models, ExprModel, Item, ItemModel, ParamModel, Stmt,
    StmtModel, Type, TypeModel,
};
use crate::parser::expressions::{lemma_expr_progress, parse_expression};
use crate::parser::{expect, parsed_as, peek_token, rejection, shorter, Parsed, Parser};
use vstd::prelude::*;

verus! {

/// An expression and the `;` behind it.
pub open spec fn parse_terminated(s: Seq<LexemeModel>) -> Result<
    Parsed<ExprModel>,
    CompileError,
> {
    match parse_expression(s) {
        Ok(p) => match expect(p.rest, Token::Semicolon) {
            Ok(rest) => Ok(Parsed { value: p.value, rest }),
            Err(e) => Err(e),
        },
        Err(e) => Err(e),
    }
}

/// The names that follow a first name, each behind a comma, added to `acc`.
pub open spec fn parse_names(s: Seq<LexemeModel>, acc: Seq<Seq<char>>) -> Result<
    Parsed<Seq<Seq<char>>>,
    CompileError,
>
    decreases s.len(),
{
    if peek_token(s) == Token::Comma {
        let rest = s.drop_first();
        if peek_token(rest) == Token::Ident {
            parse_names(rest.drop_first(), acc.push(rest[0].text))
        } else {
            Err(rejection(peek_token(rest)))
        }
    } else {
        Ok(Parsed { value: acc, rest: s })
    }
}

/// A declaration or an assignment: one or more names separated by commas,
/// then `:=` or `=`, an expression and `;`. The tokens `s` are those behind
/// the first name, `first`.
pub open spec fn parse_binding(s: Seq<LexemeModel>, first: Seq<char>) -> Result<
    Parsed<StmtModel>,
    CompileError,
> {
    match parse_names(s, seq![first]) {
        Ok(names) => {
            let op = peek_token(names.rest);
            if op == Token::Declare || op == Token::Assign {
                match parse_terminated(names.rest.drop_first()) {
                    Ok(p) => Ok(
                        Parsed {
                            value: if op == Token::Declare {
                                StmtModel::Declaration { var_names: names.value, value: p.value }
                            } else {
                                StmtModel::Assignment { var_names: names.value, value: p.value }
                            },
                            rest: p.rest,
                        },
                    ),
                    Err(e) => Err(e),
                }
            } else {
                Err(rejection(op))
            }
        },
        Err(e) => Err(e),
    }
}

/// Whether a statement that starts with a name and goes on with `after` is
/// a declaration or an assignment.
pub open spec fn starts_binding(after: Token) -> bool {
    after == Token::Comma || after == Token::Declare || after == Token::Assign
}

/// An expression statement: an expression and `;`.
pub open spec fn parse_expr_stmt(s: Seq<LexemeModel>) -> Result<Parsed<StmtModel>, CompileError> {
    match parse_terminated(s) {
        Ok(p) => Ok(Parsed { value: StmtModel::Expr(p.value), rest: p.rest }),
        Err(e) => Err(e),
    }
}

/// A `return` statement behind its keyword: `;` alone, or an expression
/// and `;`.
pub open spec fn parse_return(s: Seq<LexemeModel>) -> Result<Parsed<StmtModel>, CompileError> {
    if peek_token(s) == Token::Semicolon {
        Ok(Parsed { value: StmtModel::ReturnStmt { value: None }, rest: s.drop_first() })
    } else {
        match parse_terminated(s) {
            Ok(p) => Ok(
                Parsed { value: StmtModel::ReturnStmt { value: Some(p.value) }, rest: p.rest },
            ),
            Err(e) => Err(e),
        }
    }
}

/// One statement, told by its first token: a declaration or assignment, an
/// `if`, a block, a `return`, a `continue`, a `for`; anything else is an
/// expression statement.
pub open spec fn parse_statement(s: Seq<LexemeModel>) -> Result<Parsed<StmtModel>, CompileError>
    decreases s.len(), 1nat,
{
    let first = peek_token(s);
    if first == Token::Ident {
        if starts_binding(peek_token(s.drop_first())) {
            parse_binding(s.drop_first(), s[0].text)
        } else {
            parse_expr_stmt(s)
        }
    } else if first == Token::KeywordIf {
        parse_if(s)
    } else if first == Token::LeftCurlyBracket {
        match parse_block(s.drop_first(), Seq::empty()) {
            Ok(p) => Ok(Parsed { value: StmtModel::Block { stmts: p.value }, rest: p.rest }),
            Err(e) => Err(e),
        }
    } else if first == Token::KeywordReturn {
        parse_return(s.drop_first())
    } else if first == Token::KeywordContinue {
        match expect(s.drop_first(), Token::Semicolon) {
            Ok(rest) => Ok(Parsed { value: StmtModel::ContinueStmt, rest }),
            Err(e) => Err(e),
        }
    } else if first == Token::KeywordFor {
        parse_for(s)
    } else {
        parse_expr_stmt(s)
    }
}

/// The rest of a block, up to and with its `}`, behind the statements `acc`
/// that were read already.
pub open spec fn parse_block(s: Seq<LexemeModel>, acc: Seq<StmtModel>) -> Result<
    Parsed<Seq<StmtModel>>,
    CompileError,
>
    decreases s.len(), 2nat,
{
    if peek_token(s) == Token::RightCurlyBracket {
        Ok(Parsed { value: acc, rest: s.drop_first() })
    } else {
        match parse_statement(s) {
            Ok(p) => if shorter(p.rest, s) {
                parse_block(p.rest, acc.push(p.value))
            } else {
                Err(CompileError::UnexpectedToken)
            },
            Err(e) => Err(e),
        }
    }
}

/// A block in braces: `{`, statements, `}`.
pub open spec fn parse_body(s: Seq<LexemeModel>) -> Result<Parsed<Seq<StmtModel>>, CompileError>
    decreases s.len(), 3nat,
{
    if peek_token(s) == Token::LeftCurlyBracket {
        parse_block(s.drop_first(), Seq::empty())
    } else {
        Err(rejection(peek_token(s)))
    }
}

/// An `if` statement: `if`, a condition, a block, and then nothing more, or
/// `else` with another `if` statement or a block. The first token of `s` is
/// the `if`.
pub open spec fn parse_if(s: Seq<LexemeModel>) -> Result<Parsed<StmtModel>, CompileError>
    decreases s.len(), 0nat,
{
    if s.len() == 0 {
        Err(CompileError::UnexpectedToken)
    } else {
        match parse_expression(s.drop_first()) {
            Ok(cond) => if !shorter(cond.rest, s) {
                Err(CompileError::UnexpectedToken)
            } else {
                match parse_body(cond.rest) {
                    Ok(body) => if !shorter(body.rest, s) {
                        Err(CompileError::UnexpectedToken)
                    } else if peek_token(body.rest) == Token::KeywordElse {
                        let after = body.rest.drop_first();
                        if peek_token(after) == Token::KeywordIf || peek_token(after)
                            == Token::LeftCurlyBracket {
                            match parse_statement(after) {
                                Ok(other) => Ok(
                                    Parsed {
                                        value: StmtModel::IfStmt {
                                            condition: cond.value,
                                            body: body.value,
                                            else_stmt: Some(Box::new(other.value)),
                                        },
                                        rest: other.rest,
                                    },
                                ),
                                Err(e) => Err(e),
                            }
                        } else {
                            Err(rejection(peek_token(after)))
                        }
                    } else {
                        Ok(
                            Parsed {
                                value: StmtModel::IfStmt {
                                    condition: cond.value,
                                    body: body.value,
                                    else_stmt: None,
                                },
                                rest: body.rest,
                            },
                        )
                    },
                    Err(e) => Err(e),
                }
            },
            Err(e) => Err(e),
        }
    }
}

/// A `for` loop: `for`, a name, `in`, an expression, a block. The first
/// token of `s` is the `for`.
pub open spec fn parse_for(s: Seq<LexemeModel>) -> Result<Parsed<StmtModel>, CompileError>
    decreases s.len(), 0nat,
{
    if s.len() == 0 {
        Err(CompileError::UnexpectedToken)
    } else {
        let rest = s.drop_first();
        if peek_token(rest) == Token::Ident {
            match expect(rest.drop_first(), Token::KeywordIn) {
                Ok(behind) => match parse_expression(behind) {
                    Ok(stream) => if shorter(stream.rest, s) {
                        match parse_body(stream.rest) {
                            Ok(body) => Ok(
                                Parsed {
                                    value: StmtModel::ForLoop {
                                        var_name: rest[0].text,
                                        stream: stream.value,
                                        stmts: body.value,
                                    },
                                    rest: body.rest,
                                },
                            ),
                            Err(e) => Err(e),
                        }
                    } else {
                        Err(CompileError::UnexpectedToken)
                    },
                    Err(e) => Err(e),
                },
                Err(e) => Err(e),
            }
        } else {
            Err(rejection(peek_token(rest)))
        }
    }
}

/// A type: a name, and behind it, if a `<` follows, one or more types
/// separated by commas and closed by `>`.
pub open spec fn parse_type(s: Seq<LexemeModel>) -> Result<Parsed<TypeModel>, CompileError>
    decreases s.len(), 0nat,
{
    if peek_token(s) == Token::Ident {
        let rest = s.drop_first();
        if peek_token(rest) == Token::LeftAngleBracket {
            match parse_type_args(rest.drop_first(), Seq::empty()) {
                Ok(p) => Ok(
                    Parsed {
                        value: TypeModel { name: s[0].text, generics: p.value },
                        rest: p.rest,
                    },
                ),
                Err(e) => Err(e),
            }
        } else {
            Ok(Parsed { value: TypeModel { name: s[0].text, generics: Seq::empty() }, rest })
        }
    } else {
        Err(rejection(peek_token(s)))
    }
}

/// The type arguments behind a `<` or a comma, up to and with the `>`,
/// added to `acc`.
pub open spec fn parse_type_args(s: Seq<LexemeModel>, acc: Seq<TypeModel>) -> Result<
    Parsed<Seq<TypeModel>>,
    CompileError,
>
    decreases s.len(), 1nat,
{
    match parse_type(s) {
        Ok(p) => if !shorter(p.rest, s) {
            Err(CompileError::UnexpectedToken)
        } else if peek_token(p.rest) == Token::Comma {
            parse_type_args(p.rest.drop_first(), acc.push(p.value))
        } else if peek_token(p.rest) == Token::RightAngleBracket {
            Ok(Parsed { value: acc.push(p.value), rest: p.rest.drop_first() })
        } else {
            Err(rejection(peek_token(p.rest)))
        },
        Err(e) => Err(e),
    }
}

/// A type holds at least one token.
pub proof fn lemma_type_progress(s: Seq<LexemeModel>)
    ensures
        parse_type(s) matches Ok(p) ==> p.rest.len() < s.len(),
    decreases s.len(), 0nat,
{
    if peek_token(s) == Token::Ident && peek_token(s.drop_first()) == Token::LeftAngleBracket {
        lemma_type_args_progress(s.drop_first().drop_first(), Seq::empty());
    }
}

/// Type arguments hold at least one token.
pub proof fn lemma_type_args_progress(s: Seq<LexemeModel>, acc: Seq<TypeModel>)
    ensures
        parse_type_args(s, acc) matches Ok(p) ==> p.rest.len() < s.len(),
    decreases s.len(), 1nat,
{
    lemma_type_progress(s);
    if let Ok(p) = parse_type(s) {
        if shorter(p.rest, s) && peek_token(p.rest) == Token::Comma {
            lemma_type_args_progress(p.rest.drop_first(), acc.push(p.value));
        }
    }
}

/// The named parameters behind a `(` or a comma, up to and with the `)`,
/// added to `acc`: each a name and a type.
pub open spec fn parse_param_list(s: Seq<LexemeModel>, acc: Seq<ParamModel>) -> Result<
    Parsed<Seq<ParamModel>>,
    CompileError,
>
    decreases s.len(),
    via parse_param_list_decreases
{
    if peek_token(s) == Token::Ident {
        match parse_type(s.drop_first()) {
            Ok(p) => {
                let all = acc.push(ParamModel { name: s[0].text, typ: p.value });
                if peek_token(p.rest) == Token::Comma {
                    parse_param_list(p.rest.drop_first(), all)
                } else if peek_token(p.rest) == Token::RightParen {
                    Ok(Parsed { value: all, rest: p.rest.drop_first() })
                } else {
                    Err(rejection(peek_token(p.rest)))
                }
            },
            Err(e) => Err(e),
        }
    } else {
        Err(rejection(peek_token(s)))
    }
}

#[via_fn]
proof fn parse_param_list_decreases(s: Seq<LexemeModel>, acc: Seq<ParamModel>) {
    if peek_token(s) == Token::Ident {
        lemma_type_progress(s.drop_first());
    }
}

/// A list of named parameters in parentheses: nothing, or one or more
/// parameters separated by commas.
pub open spec fn parse_params(s: Seq<LexemeModel>) -> Result<
    Parsed<Seq<ParamModel>>,
    CompileError,
> {
    match expect(s, Token::LeftParen) {
        Ok(rest) => if peek_token(rest) == Token::RightParen {
            Ok(Parsed { value: Seq::empty(), rest: rest.drop_first() })
        } else {
            parse_param_list(rest, Seq::empty())
        },
        Err(e) => Err(e),
    }
}

/// The return parameters of a function: those behind a `->`, or none.
pub open spec fn parse_return_params(s: Seq<LexemeModel>) -> Result<
    Parsed<Seq<ParamModel>>,
    CompileError,
> {
    if peek_token(s) == Token::RightArrow {
        parse_params(s.drop_first())
    } else {
        Ok(Parsed { value: Seq::empty(), rest: s })
    }
}

/// A function: `fn`, a name, the parameters, the return parameters if
/// there are any, and a block.
pub open spec fn parse_function(s: Seq<LexemeModel>) -> Result<Parsed<ItemModel>, CompileError> {
    match expect(s, Token::KeywordFn) {
        Ok(rest) => if peek_token(rest) == Token::Ident {
            match parse_params(rest.drop_first()) {
                Ok(params) => match parse_return_params(params.rest) {
                    Ok(outputs) => match parse_body(outputs.rest) {
                        Ok(body) => Ok(
                            Parsed {
                                value: ItemModel::Function {
                                    name: rest[0].text,
                                    parameters: params.value,
                                    body: body.value,
                                    return_params: outputs.value,
                                },
                                rest: body.rest,
                            },
                        ),
                        Err(e) => Err(e),
                    },
                    Err(e) => Err(e),
                },
                Err(e) => Err(e),
            }
        } else {
            Err(rejection(peek_token(rest)))
        },
        Err(e) => Err(e),
    }
}

/// A top-level item. Only functions are items.
pub open spec fn parse_item(s: Seq<LexemeModel>) -> Result<Parsed<ItemModel>, CompileError> {
    if peek_token(s) == Token::KeywordFn {
        parse_function(s)
    } else {
        Err(rejection(peek_token(s)))
    }
}

/// The items up to the end of the input, added to `acc`.
pub open spec fn parse_items(s: Seq<LexemeModel>, acc: Seq<ItemModel>) -> Result<
    Parsed<Seq<ItemModel>>,
    CompileError,
>
    decreases s.len(),
    via parse_items_decreases
{
    if peek_token(s) == Token::EOF {
        Ok(Parsed { value: acc, rest: s })
    } else {
        match parse_item(s) {
            Ok(p) => parse_items(p.rest, acc.push(p.value)),
            Err(e) => Err(e),
        }
    }
}

#[via_fn]
proof fn parse_items_decreases(s: Seq<LexemeModel>, acc: Seq<ItemModel>) {
    lemma_item_progress(s);
}

/// A whole file: items up to the end of the input.
pub open spec fn parse_file(s: Seq<LexemeModel>) -> Result<Parsed<Seq<ItemModel>>, CompileError> {
    parse_items(s, Seq::empty())
}

/// Further names take nothing back.
pub proof fn lemma_names_progress(s: Seq<LexemeModel>, acc: Seq<Seq<char>>)
    ensures
        parse_names(s, acc) matches Ok(p) ==> p.rest.len() <= s.len(),
    decreases s.len(),
{
    if peek_token(s) == Token::Comma && peek_token(s.drop_first()) == Token::Ident {
        lemma_names_progress(s.drop_first().drop_first(), acc.push(s.drop_first()[0].text));
    }
}

/// An expression with its `;` holds at least two tokens.
pub proof fn lemma_terminated_progress(s: Seq<LexemeModel>)
    ensures
        parse_terminated(s) matches Ok(p) ==> p.rest.len() < s.len(),
{
    lemma_expr_progress(s, 0u8);
}

/// A statement holds at least one token.
pub proof fn lemma_statement_progress(s: Seq<LexemeModel>)
    ensures
        parse_statement(s) matches Ok(p) ==> p.rest.len() < s.len(),
    decreases s.len(), 1nat,
{
    let first = peek_token(s);
    if first == Token::Ident {
        if starts_binding(peek_token(s.drop_first())) {
            lemma_names_progress(s.drop_first(), seq![s[0].text]);
            if let Ok(names) = parse_names(s.drop_first(), seq![s[0].text]) {
                lemma_terminated_progress(names.rest.drop_first());
            }
        } else {
            lemma_terminated_progress(s);
        }
    } else if first == Token::KeywordIf {
        lemma_if_progress(s);
    } else if first == Token::LeftCurlyBracket {
        lemma_block_progress(s.drop_first(), Seq::empty());
    } else if first == Token::KeywordReturn {
        lemma_terminated_progress(s.drop_first());
    } else if first == Token::KeywordContinue {
    } else if first == Token::KeywordFor {
        lemma_for_progress(s);
    } else {
        lemma_terminated_progress(s);
    }
}

/// The rest of a block holds at least its `}`.
pub proof fn lemma_block_progress(s: Seq<LexemeModel>, acc: Seq<StmtModel>)
    ensures
        parse_block(s, acc) matches Ok(p) ==> p.rest.len() < s.len(),
    decreases s.len(), 2nat,
{
    if peek_token(s) != Token::RightCurlyBracket {
        lemma_statement_progress(s);
        if let Ok(p) = parse_statement(s) {
            lemma_block_progress(p.rest, acc.push(p.value));
        }
    }
}

/// A block in braces holds at least two tokens.
pub proof fn lemma_body_progress(s: Seq<LexemeModel>)
    ensures
        parse_body(s) matches Ok(p) ==> p.rest.len() < s.len(),
    decreases s.len(), 3nat,
{
    if peek_token(s) == Token::LeftCurlyBracket {
        lemma_block_progress(s.drop_first(), Seq::empty());
    }
}

/// An `if` statement holds at least one token.
pub proof fn lemma_if_progress(s: Seq<LexemeModel>)
    ensures
        parse_if(s) matches Ok(p) ==> p.rest.len() < s.len(),
    decreases s.len(), 0nat,
{
    if s.len() > 0 {
        lemma_expr_progress(s.drop_first(), 0u8);
        if let Ok(cond) = parse_expression(s.drop_first()) {
            lemma_body_progress(cond.rest);
            if let Ok(body) = parse_body(cond.rest) {
                if peek_token(body.rest) == Token::KeywordElse {
                    lemma_statement_progress(body.rest.drop_first());
                }
            }
        }
    }
}

/// A `for` loop holds at least one token.
pub proof fn lemma_for_progress(s: Seq<LexemeModel>)
    ensures
        parse_for(s) matches Ok(p) ==> p.rest.len() < s.len(),
    decreases s.len(), 0nat,
{
    if s.len() > 0 {
        let rest = s.drop_first();
        if peek_token(rest) == Token::Ident {
            if let Ok(behind) = expect(rest.drop_first(), Token::KeywordIn) {
                lemma_expr_progress(behind, 0u8);
                if let Ok(stream) = parse_expression(behind) {
                    lemma_body_progress(stream.rest);
                }
            }
        }
    }
}

/// A list of named parameters takes nothing back.
pub proof fn lemma_param_list_progress(s: Seq<LexemeModel>, acc: Seq<ParamModel>)
    ensures
        parse_param_list(s, acc) matches Ok(p) ==> p.rest.len() < s.len(),
    decreases s.len(),
{
    if peek_token(s) == Token::Ident {
        lemma_type_progress(s.drop_first());
        if let Ok(p) = parse_type(s.drop_first()) {
            if peek_token(p.rest) == Token::Comma {
                lemma_param_list_progress(
                    p.rest.drop_first(),
                    acc.push(ParamModel { name: s[0].text, typ: p.value }),
                );
            }
        }
    }
}

/// An item holds at least one token.
pub proof fn lemma_item_progress(s: Seq<LexemeModel>)
    ensures
        parse_item(s) matches Ok(p) ==> p.rest.len() < s.len(),
{
    if peek_token(s) == Token::KeywordFn {
        let rest = s.drop_first();
        if peek_token(rest) == Token::Ident {
            let behind = rest.drop_first();
            if peek_token(behind) == Token::LeftParen && peek_token(behind.drop_first())
                != Token::RightParen {
                lemma_param_list_progress(behind.drop_first(), Seq::empty());
            }
            if let Ok(params) = parse_params(behind) {
                if peek_token(params.rest) == Token::RightArrow {
                    let r = params.rest.drop_first();
                    if peek_token(r) == Token::LeftParen && peek_token(r.drop_first())
                        != Token::RightParen {
                        lemma_param_list_progress(r.drop_first(), Seq::empty());
                    }
                }
                if let Ok(outputs) = parse_return_params(params.rest) {
                    lemma_body_progress(outputs.rest);
                }
            }
        }
    }
}


impl Parser {
    /// Parses an expression and the `;` behind it.
    fn terminated(&mut self) -> (r: Result<Expr, CompileError>)
        ensures
            parsed_as(r, final(self).stream(), parse_terminated(old(self).stream())),
    {
        let value = match self.expression() {
            Ok(e) => e,
            Err(err) => {
                return Err(err);
            },
        };
        match self.consume(Token::Semicolon) {
            Ok(()) => Ok(value),
            Err(err) => Err(err),
        }
    }

    /// Parses an expression statement.
    fn expression_statement(&mut self) -> (r: Result<Stmt, CompileError>)
        ensures
            parsed_as(r, final(self).stream(), parse_expr_stmt(old(self).stream())),
    {
        match self.terminated() {
            Ok(e) => Ok(Stmt::Expr(e)),
            Err(err) => Err(err),
        }
    }

    /// Parses the names that follow a first name.
    fn more_names(&mut self, first: String) -> (r: Result<Vec<String>, CompileError>)
        ensures
            match r {
                Ok(names) => parse_names(old(self).stream(), seq![first@]) == Ok::<
                    Parsed<Seq<Seq<char>>>,
                    CompileError,
                >(Parsed { value: name_models(names@), rest: final(self).stream() }),
                Err(err) => parse_names(old(self).stream(), seq![first@]) == Err::<
                    Parsed<Seq<Seq<char>>>,
                    CompileError,
                >(err),
            },
    {
        let ghost start = self.stream();
        let mut names: Vec<String> = Vec::new();
        names.push(first);
        assert(name_models(names@) =~= seq![first@]);
        while self.at(Token::Comma)
            invariant
                start == old(self).stream(),
                parse_names(self.stream(), name_models(names@)) == parse_names(
                    start,
                    seq![first@],
                ),
            decreases self.stream().len(),
        {
            let ghost acc = name_models(names@);
            let _ = self.next();
            match self.next() {
                Some((Token::Ident, name)) => {
                    names.push(name);
                    assert(name_models(names@) =~= acc.push(name@));
                },
                Some((other, _)) => {
                    return Err(other.rejected());
                },
                None => {
                    return Err(CompileError::UnexpectedToken);
                },
            }
        }
        Ok(names)
    }

    /// Parses a declaration or an assignment behind its first name.
    fn binding(&mut self, first: String) -> (r: Result<Stmt, CompileError>)
        ensures
            parsed_as(r, final(self).stream(), parse_binding(old(self).stream(), first@)),
    {
        let var_names = match self.more_names(first) {
            Ok(names) => names,
            Err(err) => {
                return Err(err);
            },
        };
        let op = self.peek();
        if op == Token::Declare || op == Token::Assign {
            let _ = self.next();
            match self.terminated() {
                Ok(value) => if op == Token::Declare {
                    Ok(Stmt::Declaration { var_names, value })
                } else {
                    Ok(Stmt::Assignment { var_names, value })
                },
                Err(err) => Err(err),
            }
        } else {
            Err(op.rejected())
        }
    }

    /// Parses one statement.
    ///
    /// On success the statement is the one that the grammar gives for the
    /// tokens that were left to read, and the parser stands behind it. On
    /// failure the error is the grammar's, and where the parser stands is
    /// not told.
    pub fn statement(&mut self) -> (r: Result<Stmt, CompileError>)
        ensures
            parsed_as(r, final(self).stream(), parse_statement(old(self).stream())),
        decreases old(self).stream().len(), 1nat,
    {
        let ghost start = self.stream();
        match self.peek() {
            Token::Ident => {
                let name = match self.next() {
                    Some((_, name)) => name,
                    None => {
                        return Err(CompileError::UnexpectedToken);
                    },
                };
                let after = self.peek();
                if after == Token::Comma || after == Token::Declare || after == Token::Assign {
                    self.binding(name)
                } else {
                    match self.push((Token::Ident, name)) {
                        Ok(()) => {},
                        Err(err) => {
                            return Err(err);
                        },
                    }
                    assert(self.stream() =~= start);
                    self.expression_statement()
                }
            },
            Token::KeywordIf => self.if_statement(),
            Token::LeftCurlyBracket => {
                let _ = self.next();
                match self.block_rest() {
                    Ok(stmts) => {
                        let st = Stmt::Block { stmts };
                        proof {
                            lemma_stmt_children(st);
                        }
                        Ok(st)
                    },
                    Err(err) => Err(err),
                }
            },
            Token::KeywordReturn => {
                let _ = self.next();
                if self.at(Token::Semicolon) {
                    let _ = self.next();
                    Ok(Stmt::ReturnStmt { value: None })
                } else {
                    match self.terminated() {
                        Ok(e) => Ok(Stmt::ReturnStmt { value: Some(e) }),
                        Err(err) => Err(err),
                    }
                }
            },
            Token::KeywordContinue => {
                let _ = self.next();
                match self.consume(Token::Semicolon) {
                    Ok(()) => Ok(Stmt::ContinueStmt),
                    Err(err) => Err(err),
                }
            },
            Token::KeywordFor => self.for_statement(),
            _ => self.expression_statement(),
        }
    }

    /// Parses the rest of a block, up to and with its `}`.
    fn block_rest(&mut self) -> (r: Result<Vec<Stmt>, CompileError>)
        ensures
            match r {
                Ok(stmts) => parse_block(old(self).stream(), Seq::empty()) == Ok::<
                    Parsed<Seq<StmtModel>>,
                    CompileError,
                >(Parsed { value: stmt_models(stmts@), rest: final(self).stream() }),
                Err(err) => parse_block(old(self).stream(), Seq::empty()) == Err::<
                    Parsed<Seq<StmtModel>>,
                    CompileError,
                >(err),
            },
        decreases old(self).stream().len(), 2nat,
    {
        let ghost start = self.stream();
        let mut stmts: Vec<Stmt> = Vec::new();
        assert(stmt_models(stmts@) =~= Seq::empty());
        loop
            invariant
                start == old(self).stream(),
                self.stream().len() <= start.len(),
                parse_block(self.stream(), stmt_models(stmts@)) == parse_block(
                    start,
                    Seq::empty(),
                ),
            decreases self.stream().len(),
        {
            let ghost here = self.stream();
            let ghost acc = stmt_models(stmts@);
            if self.at(Token::RightCurlyBracket) {
                let _ = self.next();
                return Ok(stmts);
            }
            let st = match self.statement() {
                Ok(st) => st,
                Err(err) => {
                    return Err(err);
                },
            };
            proof {
                lemma_statement_progress(here);
            }
            stmts.push(st);
            assert(stmt_models(stmts@) =~= acc.push(st@));
        }
    }

    /// Parses a block in braces.
    fn body(&mut self) -> (r: Result<Vec<Stmt>, CompileError>)
        ensures
            match r {
                Ok(stmts) => parse_body(old(self).stream()) == Ok::<
                    Parsed<Seq<StmtModel>>,
                    CompileError,
                >(Parsed { value: stmt_models(stmts@), rest: final(self).stream() }),
                Err(err) => parse_body(old(self).stream()) == Err::<
                    Parsed<Seq<StmtModel>>,
                    CompileError,
                >(err),
            },
        decreases old(self).stream().len(), 3nat,
    {
        let found = self.peek();
        if found == Token::LeftCurlyBracket {
            let _ = self.next();
            self.block_rest()
        } else {
            Err(found.rejected())
        }
    }

    /// Parses an `if` statement, which starts at the next token.
    fn if_statement(&mut self) -> (r: Result<Stmt, CompileError>)
        ensures
            parsed_as(r, final(self).stream(), parse_if(old(self).stream())),
        decreases old(self).stream().len(), 0nat,
    {
        let ghost start = self.stream();
        if self.next().is_none() {
            return Err(CompileError::UnexpectedToken);
        }
        let condition = match self.expression() {
            Ok(e) => e,
            Err(err) => {
                return Err(err);
            },
        };
        proof {
            lemma_expr_progress(start.drop_first(), 0u8);
        }
        let ghost behind_condition = self.stream();
        let body = match self.body() {
            Ok(stmts) => stmts,
            Err(err) => {
                return Err(err);
            },
        };
        proof {
            lemma_body_progress(behind_condition);
        }
        if self.at(Token::KeywordElse) {
            let _ = self.next();
            let found = self.peek();
            if found == Token::KeywordIf || found == Token::LeftCurlyBracket {
                match self.statement() {
                    Ok(other) => {
                        let st = Stmt::IfStmt {
                            condition,
                            body,
                            else_stmt: Some(Box::new(other)),
                        };
                        proof {
                            lemma_stmt_children(st);
                        }
                        Ok(st)
                    },
                    Err(err) => Err(err),
                }
            } else {
                Err(found.rejected())
            }
        } else {
            let st = Stmt::IfStmt { condition, body, else_stmt: None };
            proof {
                lemma_stmt_children(st);
            }
            Ok(st)
        }
    }

    /// Parses a `for` loop, which starts at the next token.
    fn for_statement(&mut self) -> (r: Result<Stmt, CompileError>)
        ensures
            parsed_as(r, final(self).stream(), parse_for(old(self).stream())),
        decreases old(self).stream().len(), 0nat,
    {
        let ghost start = self.stream();
        if self.next().is_none() {
            return Err(CompileError::UnexpectedToken);
        }
        let var_name = match self.next() {
            Some((Token::Ident, name)) => name,
            Some((other, _)) => {
                return Err(other.rejected());
            },
            None => {
                return Err(CompileError::UnexpectedToken);
            },
        };
        match self.consume(Token::KeywordIn) {
            Ok(()) => {},
            Err(err) => {
                return Err(err);
            },
        }
        let ghost behind_in = self.stream();
        let stream = match self.expression() {
            Ok(e) => e,
            Err(err) => {
                return Err(err);
            },
        };
        proof {
            lemma_expr_progress(behind_in, 0u8);
        }
        match self.body() {
            Ok(stmts) => {
                let st = Stmt::ForLoop { var_name, stream, stmts };
                proof {
                    lemma_stmt_children(st);
                }
                Ok(st)
            },
            Err(err) => Err(err),
        }
    }

    /// Parses a type.
    ///
    /// On success the type is the one that the grammar gives for the tokens
    /// that were left to read, and the parser stands behind it. On failure
    /// the error is the grammar's, and where the parser stands is not told.
    pub fn type_(&mut self) -> (r: Result<Type, CompileError>)
        ensures
            parsed_as(r, final(self).stream(), parse_type(old(self).stream())),
        decreases old(self).stream().len(), 0nat,
    {
        let name = match self.next() {
            Some((Token::Ident, name)) => name,
            Some((other, _)) => {
                return Err(other.rejected());
            },
            None => {
                return Err(CompileError::UnexpectedToken);
            },
        };
        let generics = if self.at(Token::LeftAngleBracket) {
            let _ = self.next();
            match self.type_args() {
                Ok(args) => args,
                Err(err) => {
                    return Err(err);
                },
            }
        } else {
            Vec::new()
        };
        let t = Type { name, generics };
        proof {
            lemma_type_children(t);
            assert(type_models(Seq::<Type>::empty()) =~= Seq::<TypeModel>::empty());
        }
        Ok(t)
    }

    /// Parses type arguments, up to and with their `>`.
    fn type_args(&mut self) -> (r: Result<Vec<Type>, CompileError>)
        ensures
            match r {
                Ok(args) => parse_type_args(old(self).stream(), Seq::empty()) == Ok::<
                    Parsed<Seq<TypeModel>>,
                    CompileError,
                >(Parsed { value: type_models(args@), rest: final(self).stream() }),
                Err(err) => parse_type_args(old(self).stream(), Seq::empty()) == Err::<
                    Parsed<Seq<TypeModel>>,
                    CompileError,
                >(err),
            },
        decreases old(self).stream().len(), 1nat,
    {
        let ghost start = self.stream();
        let mut args: Vec<Type> = Vec::new();
        assert(type_models(args@) =~= Seq::empty());
        loop
            invariant
                start == old(self).stream(),
                self.stream().len() <= start.len(),
                parse_type_args(self.stream(), type_models(args@)) == parse_type_args(
                    start,
                    Seq::empty(),
                ),
            decreases self.stream().len(),
        {
            let ghost here = self.stream();
            let ghost acc = type_models(args@);
            let t = match self.type_() {
                Ok(t) => t,
                Err(err) => {
                    return Err(err);
                },
            };
            proof {
                lemma_type_progress(here);
            }
            args.push(t);
            assert(type_models(args@) =~= acc.push(t@));
            let found = self.peek();
            if found == Token::Comma {
                let _ = self.next();
            } else if found == Token::RightAngleBracket {
                let _ = self.next();
                return Ok(args);
            } else {
                return Err(found.rejected());
            }
        }
    }

    /// Parses a list of named parameters in parentheses.
    pub fn named_params(&mut self) -> (r: Result<Vec<(String, Type)>, CompileError>)
        ensures
            match r {
                Ok(params) => parse_params(old(self).stream()) == Ok::<
                    Parsed<Seq<ParamModel>>,
                    CompileError,
                >(Parsed { value: param_models(params@), rest: final(self).stream() }),
                Err(err) => parse_params(old(self).stream()) == Err::<
                    Parsed<Seq<ParamModel>>,
                    CompileError,
                >(err),
            },
    {
        let mut params: Vec<(String, Type)> = Vec::new();
        assert(param_models(params@) =~= Seq::empty());
        match self.consume(Token::LeftParen) {
            Ok(()) => {},
            Err(err) => {
                return Err(err);
            },
        }
        if self.at(Token::RightParen) {
            let _ = self.next();
            return Ok(params);
        }
        let ghost start = self.stream();
        loop
            invariant
                self.stream().len() <= start.len(),
                parse_param_list(self.stream(), param_models(params@)) == parse_param_list(
                    start,
                    Seq::empty(),
                ),
                parse_params(old(self).stream()) == parse_param_list(start, Seq::empty()),
            decreases self.stream().len(),
        {
            let ghost here = self.stream();
            let ghost acc = param_models(params@);
            let name = match self.next() {
                Some((Token::Ident, name)) => name,
                Some((other, _)) => {
                    return Err(other.rejected());
                },
                None => {
                    return Err(CompileError::UnexpectedToken);
                },
            };
            let typ = match self.type_() {
                Ok(t) => t,
                Err(err) => {
                    return Err(err);
                },
            };
            proof {
                lemma_type_progress(here.drop_first());
            }
            let ghost added = ParamModel { name: name@, typ: typ@ };
            params.push((name, typ));
            assert(param_models(params@) =~= acc.push(added));
            let found = self.peek();
            if found == Token::Comma {
                let _ = self.next();
            } else if found == Token::RightParen {
                let _ = self.next();
                return Ok(params);
            } else {
                return Err(found.rejected());
            }
        }
    }

    /// Parses a function definition.
    pub fn fn_definition(&mut self) -> (r: Result<Item, CompileError>)
        ensures
            parsed_as(r, final(self).stream(), parse_function(old(self).stream())),
    {
        match self.consume(Token::KeywordFn) {
            Ok(()) => {},
            Err(err) => {
                return Err(err);
            },
        }
        let name = match self.next() {
            Some((Token::Ident, name)) => name,
            Some((other, _)) => {
                return Err(other.rejected());
            },
            None => {
                return Err(CompileError::UnexpectedToken);
            },
        };
        let parameters = match self.named_params() {
            Ok(params) => params,
            Err(err) => {
                return Err(err);
            },
        };
        let return_params = if self.at(Token::RightArrow) {
            let _ = self.next();
            match self.named_params() {
                Ok(params) => params,
                Err(err) => {
                    return Err(err);
                },
            }
        } else {
            let none: Vec<(String, Type)> = Vec::new();
            assert(param_models(none@) =~= Seq::empty());
            none
        };
        match self.body() {
            Ok(body) => Ok(Item::Function { name, parameters, body, return_params }),
            Err(err) => Err(err),
        }
    }

    /// Parses one top-level item.
    ///
    /// On success the item is the one that the grammar gives for the tokens
    /// that were left to read, and the parser stands behind it. On failure
    /// the error is the grammar's, and where the parser stands is not told.
    pub fn item(&mut self) -> (r: Result<Item, CompileError>)
        ensures
            parsed_as(r, final(self).stream(), parse_item(old(self).stream())),
    {
        let found = self.peek();
        if found == Token::KeywordFn {
            self.fn_definition()
        } else {
            Err(found.rejected())
        }
    }

    /// Parses items up to the end of the input.
    ///
    /// On success the items are those that the grammar gives for the tokens
    /// that were left to read, and nothing is left but, at most, an
    /// end-of-input token that was pushed back. On failure the error is the
    /// grammar's.
    pub fn file(&mut self) -> (r: Result<Vec<Item>, CompileError>)
        ensures
            match r {
                Ok(items) => parse_file(old(self).stream()) == Ok::<
                    Parsed<Seq<ItemModel>>,
                    CompileError,
                >(Parsed { value: item_models(items@), rest: final(self).stream() }),
                Err(err) => parse_file(old(self).stream()) == Err::<
                    Parsed<Seq<ItemModel>>,
                    CompileError,
                >(err),
            },
    {
        let ghost start = self.stream();
        let mut items: Vec<Item> = Vec::new();
        assert(item_models(items@) =~= Seq::empty());
        while !self.at(Token::EOF)
            invariant
                start == old(self).stream(),
                parse_items(self.stream(), item_models(items@)) == parse_items(
                    start,
                    Seq::empty(),
                ),
            decreases self.stream().len(),
        {
            let ghost here = self.stream();
            let ghost acc = item_models(items@);
            let item = match self.item() {
                Ok(item) => item,
                Err(err) => {
                    return Err(err);
                },
            };
            proof {
                lemma_item_progress(here);
            }
            items.push(item);
            assert(item_models(items@) =~= acc.push(item@));
        }
        Ok(items)
    }
}

} // verus!
