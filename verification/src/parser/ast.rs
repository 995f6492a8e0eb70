//! The syntax tree, its mathematical model, and how expressions are printed.

use crate::lexer::tokens::{token_text, Token};
use crate::text::{decimal, decimal_string};
use vstd::prelude::*;

verus! {

/// A literal value.
#[derive(Debug, PartialEq)]
pub enum Lit {
    Int(usize),
    /// The text between the quotes.
    Str(String),
    /// The text between the backticks.
    Byt(String),
}

/// An expression. Children are owned by their parent.
#[derive(Debug, PartialEq)]
pub enum Expr {
    Literal(Lit),
    Ident(String),
    FnCall { fn_name: String, args: Vec<Expr> },
    PrefixOp { op: Token, expr: Box<Expr> },
    InfixOp { op: Token, lhs: Box<Expr>, rhs: Box<Expr> },
    PostfixOp { op: Token, expr: Box<Expr> },
    /// The `_` that a pipeline fills.
    Placeholder,
    /// The left-hand side of a pipeline that passes several values.
    Tuple(Vec<Expr>),
}

/// A type: a name applied to zero or more types.
#[derive(Debug, PartialEq)]
pub struct Type {
    pub name: String,
    pub generics: Vec<Type>,
}

/// A statement.
#[derive(Debug, PartialEq)]
#[allow(inconsistent_fields)]
pub enum Stmt {
    Declaration { var_names: Vec<String>, value: Expr },
    Assignment { var_names: Vec<String>, value: Expr },
    IfStmt { condition: Expr, body: Vec<Stmt>, else_stmt: Option<Box<Stmt>> },
    ReturnStmt { value: Option<Expr> },
    ContinueStmt,
    ForLoop { var_name: String, stream: Expr, stmts: Vec<Stmt> },
    Block { stmts: Vec<Stmt> },
    Expr(Expr),
}

/// A top-level declaration.
#[derive(Debug, PartialEq)]
pub enum Item {
    Function {
        name: String,
        parameters: Vec<(String, Type)>,
        body: Vec<Stmt>,
        return_params: Vec<(String, Type)>,
    },
}

/// What a [`Lit`] stands for.
pub ghost enum LitModel {
    Int(nat),
    Str(Seq<char>),
    Byt(Seq<char>),
}

/// What an [`Expr`] stands for.
pub ghost enum ExprModel {
    Literal(LitModel),
    Ident(Seq<char>),
    FnCall { fn_name: Seq<char>, args: Seq<ExprModel> },
    PrefixOp { op: Token, expr: Box<ExprModel> },
    InfixOp { op: Token, lhs: Box<ExprModel>, rhs: Box<ExprModel> },
    PostfixOp { op: Token, expr: Box<ExprModel> },
    Placeholder,
    Tuple(Seq<ExprModel>),
}

/// What a [`Type`] stands for.
pub ghost struct TypeModel {
    pub name: Seq<char>,
    pub generics: Seq<TypeModel>,
}

/// A named parameter: its name and its type.
pub ghost struct ParamModel {
    pub name: Seq<char>,
    pub typ: TypeModel,
}

/// What a [`Stmt`] stands for.
#[allow(inconsistent_fields)]
pub ghost enum StmtModel {
    Declaration { var_names: Seq<Seq<char>>, value: ExprModel },
    Assignment { var_names: Seq<Seq<char>>, value: ExprModel },
    IfStmt { condition: ExprModel, body: Seq<StmtModel>, else_stmt: Option<Box<StmtModel>> },
    ReturnStmt { value: Option<ExprModel> },
    ContinueStmt,
    ForLoop { var_name: Seq<char>, stream: ExprModel, stmts: Seq<StmtModel> },
    Block { stmts: Seq<StmtModel> },
    Expr(ExprModel),
}

/// What an [`Item`] stands for.
pub ghost enum ItemModel {
    Function {
        name: Seq<char>,
        parameters: Seq<ParamModel>,
        body: Seq<StmtModel>,
        return_params: Seq<ParamModel>,
    },
}

impl Lit {
    /// What the literal stands for: its strings as sequences of characters,
    /// its vectors as sequences.
    pub open spec fn model(self) -> LitModel {
        match self {
            Lit::Int(n) => LitModel::Int(n as nat),
            Lit::Str(s) => LitModel::Str(s@),
            Lit::Byt(s) => LitModel::Byt(s@),
        }
    }
}

impl View for Lit {
    type V = LitModel;

    open spec fn view(&self) -> LitModel {
        self.model()
    }
}

impl Expr {
    /// What the expression stands for: its strings as sequences of characters,
    /// its vectors as sequences.
    pub open spec fn model(self) -> ExprModel
        decreases self,
    {
        match self {
            Expr::Literal(lit) => ExprModel::Literal(lit.model()),
            Expr::Ident(name) => ExprModel::Ident(name@),
            Expr::FnCall { fn_name, args } => ExprModel::FnCall {
                fn_name: fn_name@,
                args: Seq::new(
                    args@.len(),
                    |i: int|
                        if 0 <= i < args@.len() {
                            args@[i].model()
                        } else {
                            ExprModel::Placeholder
                        },
                ),
            },
            Expr::PrefixOp { op, expr } => ExprModel::PrefixOp {
                op,
                expr: Box::new((*expr).model()),
            },
            Expr::InfixOp { op, lhs, rhs } => ExprModel::InfixOp {
                op,
                lhs: Box::new((*lhs).model()),
                rhs: Box::new((*rhs).model()),
            },
            Expr::PostfixOp { op, expr } => ExprModel::PostfixOp {
                op,
                expr: Box::new((*expr).model()),
            },
            Expr::Placeholder => ExprModel::Placeholder,
            Expr::Tuple(items) => ExprModel::Tuple(
                Seq::new(
                    items@.len(),
                    |i: int|
                        if 0 <= i < items@.len() {
                            items@[i].model()
                        } else {
                            ExprModel::Placeholder
                        },
                ),
            ),
        }
    }
}

impl View for Expr {
    type V = ExprModel;

    open spec fn view(&self) -> ExprModel {
        self.model()
    }
}

/// The models of a sequence of expressions, in order.
pub open spec fn expr_models(v: Seq<Expr>) -> Seq<ExprModel> {
    Seq::new(v.len(), |i: int| v[i].model())
}

/// The model of a call or a tuple is built from the models of its children.
pub proof fn lemma_expr_children(e: Expr)
    ensures
        e matches Expr::FnCall { fn_name, args } ==> e@ == (ExprModel::FnCall {
            fn_name: fn_name@,
            args: expr_models(args@),
        }),
        e matches Expr::Tuple(items) ==> e@ == ExprModel::Tuple(expr_models(items@)),
{
    match e {
        Expr::FnCall { fn_name, args } => {
            assert(e@->FnCall_args =~= expr_models(args@));
        },
        Expr::Tuple(items) => {
            assert(e@->Tuple_0 =~= expr_models(items@));
        },
        _ => {},
    }
}

impl Type {
    /// What the type stands for: its strings as sequences of characters,
    /// its vectors as sequences.
    pub open spec fn model(self) -> TypeModel
        decreases self,
    {
        TypeModel {
            name: self.name@,
            generics: Seq::new(
                self.generics@.len(),
                |i: int|
                    if 0 <= i < self.generics@.len() {
                        self.generics@[i].model()
                    } else {
                        TypeModel { name: Seq::empty(), generics: Seq::empty() }
                    },
            ),
        }
    }
}

impl View for Type {
    type V = TypeModel;

    open spec fn view(&self) -> TypeModel {
        self.model()
    }
}

/// The models of a sequence of types, in order.
pub open spec fn type_models(v: Seq<Type>) -> Seq<TypeModel> {
    Seq::new(v.len(), |i: int| v[i].model())
}

/// The model of a type is built from the models of its arguments.
pub proof fn lemma_type_children(t: Type)
    ensures
        t@ == (TypeModel { name: t.name@, generics: type_models(t.generics@) }),
{
    assert(t@.generics =~= type_models(t.generics@));
}

/// The model of a named parameter.
pub open spec fn param_model(p: (String, Type)) -> ParamModel {
    ParamModel { name: p.0@, typ: p.1.model() }
}

/// The models of a sequence of named parameters, in order.
pub open spec fn param_models(v: Seq<(String, Type)>) -> Seq<ParamModel> {
    Seq::new(v.len(), |i: int| param_model(v[i]))
}

/// The names that a sequence of strings holds, in order.
pub open spec fn name_models(v: Seq<String>) -> Seq<Seq<char>> {
    Seq::new(v.len(), |i: int| v[i]@)
}

impl Stmt {
    /// What the statement stands for: its strings as sequences of characters,
    /// its vectors as sequences.
    pub open spec fn model(self) -> StmtModel
        decreases self,
    {
        match self {
            Stmt::Declaration { var_names, value } => StmtModel::Declaration {
                var_names: name_models(var_names@),
                value: value.model(),
            },
            Stmt::Assignment { var_names, value } => StmtModel::Assignment {
                var_names: name_models(var_names@),
                value: value.model(),
            },
            Stmt::IfStmt { condition, body, else_stmt } => StmtModel::IfStmt {
                condition: condition.model(),
                body: Seq::new(
                    body@.len(),
                    |i: int|
                        if 0 <= i < body@.len() {
                            body@[i].model()
                        } else {
                            StmtModel::ContinueStmt
                        },
                ),
                else_stmt: match else_stmt {
                    Some(other) => Some(Box::new((*other).model())),
                    None => None,
                },
            },
            Stmt::ReturnStmt { value } => StmtModel::ReturnStmt {
                value: match value {
                    Some(e) => Some(e.model()),
                    None => None,
                },
            },
            Stmt::ContinueStmt => StmtModel::ContinueStmt,
            Stmt::ForLoop { var_name, stream, stmts } => StmtModel::ForLoop {
                var_name: var_name@,
                stream: stream.model(),
                stmts: Seq::new(
                    stmts@.len(),
                    |i: int|
                        if 0 <= i < stmts@.len() {
                            stmts@[i].model()
                        } else {
                            StmtModel::ContinueStmt
                        },
                ),
            },
            Stmt::Block { stmts } => StmtModel::Block {
                stmts: Seq::new(
                    stmts@.len(),
                    |i: int|
                        if 0 <= i < stmts@.len() {
                            stmts@[i].model()
                        } else {
                            StmtModel::ContinueStmt
                        },
                ),
            },
            Stmt::Expr(e) => StmtModel::Expr(e.model()),
        }
    }
}

impl View for Stmt {
    type V = StmtModel;

    open spec fn view(&self) -> StmtModel {
        self.model()
    }
}

/// The models of a sequence of statements, in order.
pub open spec fn stmt_models(v: Seq<Stmt>) -> Seq<StmtModel> {
    Seq::new(v.len(), |i: int| v[i].model())
}

/// The model of a statement that holds statements is built from their
/// models.
pub proof fn lemma_stmt_children(st: Stmt)
    ensures
        st matches Stmt::IfStmt { condition, body, else_stmt } ==> st@->IfStmt_body
            == stmt_models(body@),
        st matches Stmt::ForLoop { var_name, stream, stmts } ==> st@->ForLoop_stmts
            == stmt_models(stmts@),
        st matches Stmt::Block { stmts } ==> st@ == (StmtModel::Block {
            stmts: stmt_models(stmts@),
        }),
{
    match st {
        Stmt::IfStmt { condition, body, else_stmt } => {
            assert(st@->IfStmt_body =~= stmt_models(body@));
        },
        Stmt::ForLoop { var_name, stream, stmts } => {
            assert(st@->ForLoop_stmts =~= stmt_models(stmts@));
        },
        Stmt::Block { stmts } => {
            assert(st@->Block_stmts =~= stmt_models(stmts@));
        },
        _ => {},
    }
}

impl Item {
    /// What the item stands for: its strings as sequences of characters,
    /// its vectors as sequences.
    pub open spec fn model(self) -> ItemModel {
        match self {
            Item::Function { name, parameters, body, return_params } => ItemModel::Function {
                name: name@,
                parameters: param_models(parameters@),
                body: stmt_models(body@),
                return_params: param_models(return_params@),
            },
        }
    }
}

impl View for Item {
    type V = ItemModel;

    open spec fn view(&self) -> ItemModel {
        self.model()
    }
}

/// The models of a sequence of items, in order.
pub open spec fn item_models(v: Seq<Item>) -> Seq<ItemModel> {
    Seq::new(v.len(), |i: int| v[i].model())
}

/// How a literal is printed: a number in decimal, a string in double quotes,
/// a byte in backticks.
pub open spec fn lit_text(l: LitModel) -> Seq<char> {
    match l {
        LitModel::Int(n) => decimal(n),
        LitModel::Str(s) => "\""@ + s + "\""@,
        LitModel::Byt(s) => "`"@ + s + "`"@,
    }
}

/// How an expression is printed, with every operator application in
/// parentheses: `(lhs op rhs)`, `(op expr)`, `(expr op)`; a call as
/// `name(a1, a2)`; a placeholder as `_`; a tuple as its items in parentheses.
pub open spec fn expr_text(e: ExprModel) -> Seq<char>
    decreases e, 0nat,
{
    match e {
        ExprModel::Literal(l) => lit_text(l),
        ExprModel::Ident(name) => name,
        ExprModel::FnCall { fn_name, args } => fn_name + "("@ + joined_text(
            args,
            args.len(),
            ", "@,
        ) + ")"@,
        ExprModel::PrefixOp { op, expr } => "("@ + token_text(op) + expr_text(*expr) + ")"@,
        ExprModel::InfixOp { op, lhs, rhs } => "("@ + expr_text(*lhs) + " "@ + token_text(op)
            + " "@ + expr_text(*rhs) + ")"@,
        ExprModel::PostfixOp { op, expr } => "("@ + expr_text(*expr) + token_text(op) + ")"@,
        ExprModel::Placeholder => "_"@,
        ExprModel::Tuple(items) => "("@ + joined_text(items, items.len(), ""@) + ")"@,
    }
}

/// The printed forms of the first `n` of `items`, with `sep` between neighbours.
pub open spec fn joined_text(items: Seq<ExprModel>, n: nat, sep: Seq<char>) -> Seq<char>
    decreases items, n,
{
    if n == 0 || n > items.len() {
        Seq::empty()
    } else if n == 1 {
        expr_text(items[0])
    } else {
        joined_text(items, (n - 1) as nat, sep) + sep + expr_text(items[n - 1])
    }
}

impl Lit {
    /// Prints the literal.
    pub fn to_string(&self) -> (r: String)
        ensures
            r@ == lit_text(self@),
    {
        match self {
            Lit::Int(n) => decimal_string(*n),
            Lit::Str(s) => {
                let mut out = String::from_str("\"");
                out.append(s.as_str());
                out.append("\"");
                out
            },
            Lit::Byt(s) => {
                let mut out = String::from_str("`");
                out.append(s.as_str());
                out.append("`");
                out
            },
        }
    }
}

/// Prints the items of `items` one after another, with `sep` between neighbours.
fn join_exprs(items: &Vec<Expr>, sep: &str) -> (r: String)
    ensures
        r@ == joined_text(expr_models(items@), items@.len(), sep@),
    decreases items, 0nat,
{
    let mut out = String::new();
    let mut i: usize = 0;
    while i < items.len()
        invariant
            i <= items@.len(),
            out@ == joined_text(expr_models(items@), i as nat, sep@),
        decreases items@.len() - i,
    {
        if i > 0 {
            out.append(sep);
        }
        let piece = items[i].to_string();
        out.append(piece.as_str());
        assert(out@ =~= joined_text(expr_models(items@), (i + 1) as nat, sep@));
        i = i + 1;
    }
    out
}

impl Expr {
    /// Prints the expression in fully parenthesized form.
    pub fn to_string(&self) -> (r: String)
        ensures
            r@ == expr_text(self@),
        decreases self, 1nat,
    {
        proof {
            lemma_expr_children(*self);
        }
        match self {
            Expr::Literal(lit) => lit.to_string(),
            Expr::Ident(name) => name.clone(),
            Expr::FnCall { fn_name, args } => {
                let mut out = fn_name.clone();
                out.append("(");
                out.append(join_exprs(args, ", ").as_str());
                out.append(")");
                assert(out@ =~= expr_text(self@));
                out
            },
            Expr::PrefixOp { op, expr } => {
                let mut out = String::from_str("(");
                out.append(op.to_string().as_str());
                out.append(expr.to_string().as_str());
                out.append(")");
                assert(out@ =~= expr_text(self@));
                out
            },
            Expr::InfixOp { op, lhs, rhs } => {
                let mut out = String::from_str("(");
                out.append(lhs.to_string().as_str());
                out.append(" ");
                out.append(op.to_string().as_str());
                out.append(" ");
                out.append(rhs.to_string().as_str());
                out.append(")");
                assert(out@ =~= expr_text(self@));
                out
            },
            Expr::PostfixOp { op, expr } => {
                let mut out = String::from_str("(");
                out.append(expr.to_string().as_str());
                out.append(op.to_string().as_str());
                out.append(")");
                assert(out@ =~= expr_text(self@));
                out
            },
            Expr::Placeholder => String::from_str("_"),
            Expr::Tuple(items) => {
                let mut out = String::from_str("(");
                out.append(join_exprs(items, "").as_str());
                out.append(")");
                assert(out@ =~= expr_text(self@));
                out
            },
        }
    }
}


impl Clone for Lit {
    fn clone(&self) -> (r: Self)
        ensures
            r@ == self@,
    {
        match self {
            Lit::Int(n) => Lit::Int(*n),
            Lit::Str(s) => Lit::Str(s.clone()),
            Lit::Byt(s) => Lit::Byt(s.clone()),
        }
    }
}

/// Copies a sequence of expressions.
fn clone_exprs(items: &Vec<Expr>) -> (r: Vec<Expr>)
    ensures
        expr_models(r@) == expr_models(items@),
    decreases items, 0nat,
{
    let mut out: Vec<Expr> = Vec::new();
    let mut i: usize = 0;
    while i < items.len()
        invariant
            i <= items@.len(),
            out@.len() == i,
            forall|k: int| 0 <= k < i ==> out@[k]@ == items@[k]@,
        decreases items@.len() - i,
    {
        out.push(items[i].clone());
        i = i + 1;
    }
    assert(expr_models(out@) =~= expr_models(items@));
    out
}

impl Clone for Expr {
    fn clone(&self) -> (r: Self)
        ensures
            r@ == self@,
        decreases self, 1nat,
    {
        proof {
            lemma_expr_children(*self);
        }
        match self {
            Expr::Literal(lit) => Expr::Literal(lit.clone()),
            Expr::Ident(name) => Expr::Ident(name.clone()),
            Expr::FnCall { fn_name, args } => {
                let r = Expr::FnCall { fn_name: fn_name.clone(), args: clone_exprs(args) };
                proof {
                    lemma_expr_children(r);
                }
                r
            },
            Expr::PrefixOp { op, expr } => Expr::PrefixOp {
                op: *op,
                expr: Box::new((**expr).clone()),
            },
            Expr::InfixOp { op, lhs, rhs } => Expr::InfixOp {
                op: *op,
                lhs: Box::new((**lhs).clone()),
                rhs: Box::new((**rhs).clone()),
            },
            Expr::PostfixOp { op, expr } => Expr::PostfixOp {
                op: *op,
                expr: Box::new((**expr).clone()),
            },
            Expr::Placeholder => Expr::Placeholder,
            Expr::Tuple(items) => {
                let r = Expr::Tuple(clone_exprs(items));
                proof {
                    lemma_expr_children(r);
                }
                r
            },
        }
    }
}


/// Copies a sequence of types.
fn clone_types(items: &Vec<Type>) -> (r: Vec<Type>)
    ensures
        type_models(r@) == type_models(items@),
    decreases items, 0nat,
{
    let mut out: Vec<Type> = Vec::new();
    let mut i: usize = 0;
    while i < items.len()
        invariant
            i <= items@.len(),
            out@.len() == i,
            forall|k: int| 0 <= k < i ==> out@[k]@ == items@[k]@,
        decreases items@.len() - i,
    {
        out.push(items[i].clone());
        i = i + 1;
    }
    assert(type_models(out@) =~= type_models(items@));
    out
}

impl Clone for Type {
    fn clone(&self) -> (r: Self)
        ensures
            r@ == self@,
        decreases self, 1nat,
    {
        let r = Type { name: self.name.clone(), generics: clone_types(&self.generics) };
        proof {
            lemma_type_children(*self);
            lemma_type_children(r);
        }
        r
    }
}

/// Copies a sequence of named parameters.
fn clone_params(items: &Vec<(String, Type)>) -> (r: Vec<(String, Type)>)
    ensures
        param_models(r@) == param_models(items@),
{
    let mut out: Vec<(String, Type)> = Vec::new();
    let mut i: usize = 0;
    while i < items.len()
        invariant
            i <= items@.len(),
            out@.len() == i,
            forall|k: int| 0 <= k < i ==> param_model(out@[k]) == param_model(items@[k]),
        decreases items@.len() - i,
    {
        out.push((items[i].0.clone(), items[i].1.clone()));
        i = i + 1;
    }
    assert(param_models(out@) =~= param_models(items@));
    out
}

/// Copies a sequence of names.
fn clone_names(items: &Vec<String>) -> (r: Vec<String>)
    ensures
        name_models(r@) == name_models(items@),
{
    let mut out: Vec<String> = Vec::new();
    let mut i: usize = 0;
    while i < items.len()
        invariant
            i <= items@.len(),
            out@.len() == i,
            forall|k: int| 0 <= k < i ==> out@[k]@ == items@[k]@,
        decreases items@.len() - i,
    {
        out.push(items[i].clone());
        i = i + 1;
    }
    assert(name_models(out@) =~= name_models(items@));
    out
}

/// Copies a sequence of statements.
fn clone_stmts(items: &Vec<Stmt>) -> (r: Vec<Stmt>)
    ensures
        stmt_models(r@) == stmt_models(items@),
    decreases items, 0nat,
{
    let mut out: Vec<Stmt> = Vec::new();
    let mut i: usize = 0;
    while i < items.len()
        invariant
            i <= items@.len(),
            out@.len() == i,
            forall|k: int| 0 <= k < i ==> out@[k]@ == items@[k]@,
        decreases items@.len() - i,
    {
        out.push(items[i].clone());
        i = i + 1;
    }
    assert(stmt_models(out@) =~= stmt_models(items@));
    out
}

impl Clone for Stmt {
    fn clone(&self) -> (r: Self)
        ensures
            r@ == self@,
        decreases self, 1nat,
    {
        proof {
            lemma_stmt_children(*self);
        }
        match self {
            Stmt::Declaration { var_names, value } => Stmt::Declaration {
                var_names: clone_names(var_names),
                value: value.clone(),
            },
            Stmt::Assignment { var_names, value } => Stmt::Assignment {
                var_names: clone_names(var_names),
                value: value.clone(),
            },
            Stmt::IfStmt { condition, body, else_stmt } => {
                let other = match else_stmt {
                    Some(st) => Some(Box::new((**st).clone())),
                    None => None,
                };
                let r = Stmt::IfStmt {
                    condition: condition.clone(),
                    body: clone_stmts(body),
                    else_stmt: other,
                };
                proof {
                    lemma_stmt_children(r);
                }
                r
            },
            Stmt::ReturnStmt { value } => Stmt::ReturnStmt {
                value: match value {
                    Some(e) => Some(e.clone()),
                    None => None,
                },
            },
            Stmt::ContinueStmt => Stmt::ContinueStmt,
            Stmt::ForLoop { var_name, stream, stmts } => {
                let r = Stmt::ForLoop {
                    var_name: var_name.clone(),
                    stream: stream.clone(),
                    stmts: clone_stmts(stmts),
                };
                proof {
                    lemma_stmt_children(r);
                }
                r
            },
            Stmt::Block { stmts } => {
                let r = Stmt::Block { stmts: clone_stmts(stmts) };
                proof {
                    lemma_stmt_children(r);
                }
                r
            },
            Stmt::Expr(e) => Stmt::Expr(e.clone()),
        }
    }
}

impl Clone for Item {
    fn clone(&self) -> (r: Self)
        ensures
            r@ == self@,
    {
        match self {
            Item::Function { name, parameters, body, return_params } => Item::Function {
                name: name.clone(),
                parameters: clone_params(parameters),
                body: clone_stmts(body),
                return_params: clone_params(return_params),
            },
        }
    }
}

} // verus!
