use burn::error::CompileError;
use burn::lexer::Token;
use burn::parser::ast::{Expr, Item, Lit, Stmt, Type};
use burn::parser::pipeline::pipeline_expr;
use burn::parser::Parser;

fn shown(input: &str) -> String {
    let mut parser = Parser::new(input);
    parser.expression().unwrap().to_string()
}

fn expr(input: &str) -> Result<Expr, CompileError> {
    let mut parser = Parser::new(input);
    parser.expression()
}

fn stmt(input: &str) -> Result<Stmt, CompileError> {
    let mut parser = Parser::new(input);
    parser.statement()
}

fn typ(input: &str) -> Result<Type, CompileError> {
    let mut parser = Parser::new(input);
    parser.type_()
}

fn item(input: &str) -> Result<Item, CompileError> {
    let mut parser = Parser::new(input);
    parser.item()
}

fn id(name: &str) -> Expr {
    Expr::Ident(name.to_string())
}

fn num(n: usize) -> Expr {
    Expr::Literal(Lit::Int(n))
}

fn call(name: &str, args: Vec<Expr>) -> Expr {
    Expr::FnCall { fn_name: name.to_string(), args }
}

fn plain(name: &str) -> Type {
    Type { name: name.to_string(), generics: Vec::new() }
}

#[test]
fn printed_form_has_every_operator_in_parentheses() {
    assert_eq!(shown("a + b"), "(a + b)");
    assert_eq!(shown("-a"), "(-a)");
    assert_eq!(shown("!a"), "(!a)");
    assert_eq!(shown("+a"), "(+a)");
    assert_eq!(shown("a!"), "(a!)");
    assert_eq!(shown("f(a, 'b', `c`, _)"), "f(a, \"b\", `c`, _)");
    assert_eq!(shown("_"), "_");
    assert_eq!(shown("\"s\""), "\"s\"");
    assert_eq!(shown("`\\n`"), "`\\n`");
}

#[test]
fn stronger_operator_takes_its_operands_first() {
    assert_eq!(shown("x + y * z"), "(x + (y * z))");
    assert_eq!(shown("x || y && z"), "(x || (y && z))");
    assert_eq!(shown("x && y == z"), "(x && (y == z))");
    assert_eq!(shown("x == y < z"), "(x == (y < z))");
    assert_eq!(shown("x != y >= z"), "(x != (y >= z))");
    assert_eq!(shown("x < y + z"), "(x < (y + z))");
    assert_eq!(shown("x - y / z"), "(x - (y / z))");
    assert_eq!(shown("x || y -> z"), "(x || (y -> z))");
    assert_eq!(shown("1 <= 2 - 3;"), "(1 <= (2 - 3))");
    // the other way round the weaker operator comes last
    assert_eq!(shown("x * y + z"), "((x * y) + z)");
    assert_eq!(shown("x - y - z"), "((x - y) - z)");
}

#[test]
fn power_and_paths_associate_to_the_right() {
    assert_eq!(shown("x ^ y ^ z"), "(x ^ (y ^ z))");
    assert_eq!(shown("x . y . z"), "(x . (y . z))");
    assert_eq!(shown("x :: y :: z"), "(x :: (y :: z))");
    assert_eq!(shown("x :: y . z"), "(x :: (y . z))");
    assert_eq!(shown("x . y :: z"), "(x . (y :: z))");
    assert_eq!(shown("2 ^ 3 ^ 4 ^ 5"), "(2 ^ (3 ^ (4 ^ 5)))");
    assert_eq!(shown("a.b ^ c"), "((a . b) ^ c)");
    assert_eq!(shown("a ^ b * c"), "((a ^ b) * c)");
}

#[test]
fn prefix_and_postfix_operators() {
    assert_eq!(shown("-a!"), "(-(a!))");
    assert_eq!(shown("-a.b"), "((-a) . b)");
    assert_eq!(shown("!!a"), "(!(!a))");
    assert_eq!(shown("a!!"), "((a!)!)");
    assert_eq!(shown("a! + b!"), "((a!) + (b!))");
    assert_eq!(shown("-1 - -1"), "((-1) - (-1))");
    assert_eq!(shown("a.b!"), "(a . (b!))");
}

#[test]
fn a_single_value_goes_to_the_end_of_the_call() {
    assert_eq!(shown("x -> f()"), "f(x)");
    assert_eq!(shown("x -> f(a, b)"), "f(a, b, x)");
    assert_eq!(shown("1 + 2 -> f(a)"), "f(a, (1 + 2))");
    assert_eq!(expr("x -> f(a, b)"), expr("f(a, b, x)"));
    assert_eq!(expr("g(y) -> f(1, 2, 3)"), expr("f(1, 2, 3, g(y))"));
    assert_eq!(
        pipeline_expr(id("x"), call("f", vec![num(1), num(2)])),
        Ok(call("f", vec![num(1), num(2), id("x")]))
    );
}

#[test]
fn a_tuple_fills_placeholders_from_the_left() {
    assert_eq!(shown("('hello', 'world') -> mix(_, foo, _)"), "mix(\"hello\", foo, \"world\")");
    assert_eq!(shown("(a, b, c) -> f(_, x, _)"), "f(a, x, b, c)");
    assert_eq!(shown("(a, b) -> f(_, _, _)"), "f(a, b, _)");
    assert_eq!(shown("(a, b) -> f()"), "f(a, b)");
    assert_eq!(shown("(a, b) -> f(x)"), "f(x, a, b)");
    assert_eq!(shown("a -> f(x, _, y)"), "f(x, a, y)");
    assert_eq!(shown("() -> f(x)"), "f(x)");
    assert_eq!(shown("(a, b) -> m.f(_, 1)"), "(m . f(a, 1, b))");
    assert_eq!(
        pipeline_expr(
            Expr::Tuple(vec![id("a"), id("b"), id("c")]),
            call("f", vec![Expr::Placeholder, num(1), Expr::Placeholder])
        ),
        Ok(call("f", vec![id("a"), num(1), id("b"), id("c")]))
    );
    // a placeholder that is passed in is the next to be filled
    assert_eq!(shown("(_, x) -> f(_, _)"), "f(x, _)");
    // a placeholder inside an argument is not one of the call
    assert_eq!(shown("a -> f(g(_))"), "f(g(_), a)");
}

#[test]
fn a_pipeline_finds_its_call_behind_paths() {
    assert_eq!(shown("1 -> foo::bar.baz()"), "(foo :: (bar . baz(1)))");
    assert_eq!(shown("x -> a.b(_, y)"), "(a . b(x, y))");
    assert_eq!(shown("x -> f() -> g()"), "g(f(x))");
    assert_eq!(shown("x -> y"), "(x -> y)");
    assert_eq!(shown("(a, b) -> y"), "((ab) -> y)");
    assert_eq!(shown("x -> y -> f()"), "f((x -> y))");
}

#[test]
fn a_pipeline_needs_a_call() {
    assert_eq!(expr("x -> 1"), Err(CompileError::ArrowTargetNotCall));
    assert_eq!(expr("x -> a.b"), Err(CompileError::ArrowTargetNotCall));
    assert_eq!(expr("x -> a + f()"), Err(CompileError::ArrowTargetNotCall));
    assert_eq!(expr("x -> f().g"), Err(CompileError::ArrowTargetNotCall));
    assert_eq!(expr("x -> (a, b)"), Err(CompileError::ArrowTargetNotCall));
    assert_eq!(expr("x -> -f()"), Err(CompileError::ArrowTargetNotCall));
    assert_eq!(expr("x -> _"), Err(CompileError::ArrowTargetNotCall));
    assert_eq!(expr("x -> a ^ f()"), Err(CompileError::ArrowTargetNotCall));
    assert_eq!(
        pipeline_expr(id("x"), num(1)),
        Err(CompileError::ArrowTargetNotCall)
    );
}

#[test]
fn parenthesized_lists() {
    assert_eq!(expr("()"), Ok(Expr::Tuple(Vec::new())));
    assert_eq!(expr("(a)"), Ok(id("a")));
    assert_eq!(expr("((a))"), Ok(id("a")));
    assert_eq!(expr("(a,)"), Ok(id("a")));
    assert_eq!(expr("(a, b)"), Ok(Expr::Tuple(vec![id("a"), id("b")])));
    assert_eq!(expr("(a, b,)"), Ok(Expr::Tuple(vec![id("a"), id("b")])));
    assert_eq!(expr("(a, (b, c))"), Ok(Expr::Tuple(vec![id("a"), Expr::Tuple(vec![id("b"), id("c")])])));
    assert_eq!(expr("f(a,)"), Ok(call("f", vec![id("a")])));
    assert_eq!(expr("f(())"), Ok(call("f", vec![Expr::Tuple(Vec::new())])));
    assert_eq!(shown("(a, b) + 1"), "((ab) + 1)");
}

#[test]
fn expressions_that_are_refused() {
    assert_eq!(expr(""), Err(CompileError::UnexpectedToken));
    assert_eq!(expr("+"), Err(CompileError::UnexpectedToken));
    assert_eq!(expr("1 +"), Err(CompileError::UnexpectedToken));
    assert_eq!(expr("* 1"), Err(CompileError::UnexpectedToken));
    assert_eq!(expr("a b"), Err(CompileError::UnexpectedToken));
    assert_eq!(expr("1 2"), Err(CompileError::UnexpectedToken));
    assert_eq!(expr("a % b"), Err(CompileError::UnexpectedToken));
    assert_eq!(expr("a = b"), Err(CompileError::UnexpectedToken));
    assert_eq!(expr("(a"), Err(CompileError::UnexpectedToken));
    assert_eq!(expr("(a b)"), Err(CompileError::UnexpectedToken));
    assert_eq!(expr("(,a)"), Err(CompileError::UnexpectedToken));
    assert_eq!(expr("(a,,b)"), Err(CompileError::UnexpectedToken));
    assert_eq!(expr("f(a"), Err(CompileError::UnexpectedToken));
    assert_eq!(expr("f(a;"), Err(CompileError::UnexpectedToken));
    assert_eq!(expr("f("), Err(CompileError::UnexpectedToken));
    assert_eq!(expr("if"), Err(CompileError::UnexpectedToken));
    assert_eq!(expr("true"), Err(CompileError::UnexpectedToken));
    assert_eq!(expr("a [ 1 ]"), Err(CompileError::UnexpectedToken));
}

#[test]
fn lexical_errors_surface_where_the_parser_meets_them() {
    assert_eq!(expr("#"), Err(CompileError::LexError));
    assert_eq!(expr("1 + #"), Err(CompileError::LexError));
    assert_eq!(expr("1 # 2"), Err(CompileError::LexError));
    assert_eq!(expr("f(a #)"), Err(CompileError::LexError));
    assert_eq!(expr("\"open"), Err(CompileError::LexError));
    assert_eq!(expr("__"), Err(CompileError::LexError));
    assert_eq!(expr("99999999999999999999999999999999"), Err(CompileError::LexError));
    assert_eq!(stmt("x = 1 #"), Err(CompileError::LexError));
    assert_eq!(stmt("x, # = 1;"), Err(CompileError::LexError));
    assert_eq!(typ("stream<#>"), Err(CompileError::LexError));
    assert_eq!(item("# fn f() {}"), Err(CompileError::LexError));
    // behind the end of the expression nothing is looked at
    assert_eq!(expr("1 ; #"), Ok(num(1)));
}

#[test]
fn expressions_end_at_stop_tokens() {
    assert_eq!(expr("a ) b"), Ok(id("a")));
    assert_eq!(expr("a } b"), Ok(id("a")));
    assert_eq!(expr("a { b"), Ok(id("a")));
    assert_eq!(expr("a , b"), Ok(id("a")));
    assert_eq!(expr("a ; b"), Ok(id("a")));
}

#[test]
fn declarations_and_assignments_take_several_names() {
    assert_eq!(
        stmt("x := 1;"),
        Ok(Stmt::Declaration { var_names: vec!["x".to_string()], value: num(1) })
    );
    assert_eq!(
        stmt("x, y, z := f();"),
        Ok(Stmt::Declaration {
            var_names: vec!["x".to_string(), "y".to_string(), "z".to_string()],
            value: call("f", Vec::new()),
        })
    );
    assert_eq!(
        stmt("a, b = b;"),
        Ok(Stmt::Assignment { var_names: vec!["a".to_string(), "b".to_string()], value: id("b") })
    );
    assert_eq!(stmt("a, = b;"), Err(CompileError::UnexpectedToken));
    assert_eq!(stmt("a, 1 = b;"), Err(CompileError::UnexpectedToken));
    assert_eq!(stmt("a, b;"), Err(CompileError::UnexpectedToken));
    assert_eq!(stmt("a, b + 1;"), Err(CompileError::UnexpectedToken));
    assert_eq!(stmt("a = ;"), Err(CompileError::UnexpectedToken));
    assert_eq!(stmt("a = 1"), Err(CompileError::UnexpectedToken));
    assert_eq!(stmt("a := 1 2;"), Err(CompileError::UnexpectedToken));
}

#[test]
fn statements_of_every_kind() {
    assert_eq!(stmt("continue;"), Ok(Stmt::ContinueStmt));
    assert_eq!(stmt("return;"), Ok(Stmt::ReturnStmt { value: None }));
    assert_eq!(stmt("return 1;"), Ok(Stmt::ReturnStmt { value: Some(num(1)) }));
    assert_eq!(stmt("{}"), Ok(Stmt::Block { stmts: Vec::new() }));
    assert_eq!(
        stmt("{ {} continue; }"),
        Ok(Stmt::Block { stmts: vec![Stmt::Block { stmts: Vec::new() }, Stmt::ContinueStmt] })
    );
    assert_eq!(stmt("a;"), Ok(Stmt::Expr(id("a"))));
    assert_eq!(stmt("a + 1;"), Ok(Stmt::Expr(Expr::InfixOp {
        op: Token::Plus,
        lhs: Box::new(id("a")),
        rhs: Box::new(num(1)),
    })));
    assert_eq!(stmt("f(x);"), Ok(Stmt::Expr(call("f", vec![id("x")]))));
    assert_eq!(stmt("1;"), Ok(Stmt::Expr(num(1))));
    assert_eq!(stmt("(a, b) -> f();"), Ok(Stmt::Expr(call("f", vec![id("a"), id("b")]))));
    assert_eq!(
        stmt("if a {}"),
        Ok(Stmt::IfStmt { condition: id("a"), body: Vec::new(), else_stmt: None })
    );
    assert_eq!(
        stmt("if a { x; } else { y; }"),
        Ok(Stmt::IfStmt {
            condition: id("a"),
            body: vec![Stmt::Expr(id("x"))],
            else_stmt: Some(Box::new(Stmt::Block { stmts: vec![Stmt::Expr(id("y"))] })),
        })
    );
    assert_eq!(
        stmt("if a {} else if b {}"),
        Ok(Stmt::IfStmt {
            condition: id("a"),
            body: Vec::new(),
            else_stmt: Some(Box::new(Stmt::IfStmt {
                condition: id("b"),
                body: Vec::new(),
                else_stmt: None,
            })),
        })
    );
    assert_eq!(
        stmt("for x in xs { continue; }"),
        Ok(Stmt::ForLoop {
            var_name: "x".to_string(),
            stream: id("xs"),
            stmts: vec![Stmt::ContinueStmt],
        })
    );
}

#[test]
fn statements_that_are_refused() {
    assert_eq!(stmt(""), Err(CompileError::UnexpectedToken));
    assert_eq!(stmt("continue"), Err(CompileError::UnexpectedToken));
    assert_eq!(stmt("continue 1;"), Err(CompileError::UnexpectedToken));
    assert_eq!(stmt("return 1"), Err(CompileError::UnexpectedToken));
    assert_eq!(stmt("{"), Err(CompileError::UnexpectedToken));
    assert_eq!(stmt("{ a; "), Err(CompileError::UnexpectedToken));
    assert_eq!(stmt("}"), Err(CompileError::UnexpectedToken));
    assert_eq!(stmt("if a x;"), Err(CompileError::UnexpectedToken));
    assert_eq!(stmt("if a {} else x;"), Err(CompileError::UnexpectedToken));
    assert_eq!(stmt("if a {} else"), Err(CompileError::UnexpectedToken));
    assert_eq!(stmt("if {}"), Err(CompileError::UnexpectedToken));
    assert_eq!(stmt("for in xs {}"), Err(CompileError::UnexpectedToken));
    assert_eq!(stmt("for 1 in xs {}"), Err(CompileError::UnexpectedToken));
    assert_eq!(stmt("for x xs {}"), Err(CompileError::UnexpectedToken));
    assert_eq!(stmt("for x in xs;"), Err(CompileError::UnexpectedToken));
    assert_eq!(stmt("for x in {}"), Err(CompileError::UnexpectedToken));
    assert_eq!(stmt("for x in xs { a -> 1; }"), Err(CompileError::ArrowTargetNotCall));
    assert_eq!(stmt("while a {}"), Err(CompileError::UnexpectedToken));
    assert_eq!(stmt("break;"), Err(CompileError::UnexpectedToken));
}

#[test]
fn types_and_their_arguments() {
    assert_eq!(typ("u8"), Ok(plain("u8")));
    assert_eq!(typ("anything"), Ok(plain("anything")));
    assert_eq!(
        typ("stream<u8>"),
        Ok(Type { name: "stream".to_string(), generics: vec![plain("u8")] })
    );
    assert_eq!(
        typ("map<k, list<v>>"),
        Ok(Type {
            name: "map".to_string(),
            generics: vec![
                plain("k"),
                Type { name: "list".to_string(), generics: vec![plain("v")] }
            ],
        })
    );
    assert_eq!(typ(""), Err(CompileError::UnexpectedToken));
    assert_eq!(typ("1"), Err(CompileError::UnexpectedToken));
    assert_eq!(typ("fn"), Err(CompileError::UnexpectedToken));
    assert_eq!(typ("stream<>"), Err(CompileError::UnexpectedToken));
    assert_eq!(typ("stream<u8"), Err(CompileError::UnexpectedToken));
    assert_eq!(typ("stream<u8,>"), Err(CompileError::UnexpectedToken));
    assert_eq!(typ("stream<u8 u8>"), Err(CompileError::UnexpectedToken));
    assert_eq!(typ("stream<u8>=x"), Err(CompileError::UnexpectedToken));
}

#[test]
fn functions_and_their_parameters() {
    assert_eq!(
        item("fn main() {}"),
        Ok(Item::Function {
            name: "main".to_string(),
            parameters: Vec::new(),
            body: Vec::new(),
            return_params: Vec::new(),
        })
    );
    assert_eq!(
        item("fn f(a u8, b stream<u8>) -> (c bool) { return; }"),
        Ok(Item::Function {
            name: "f".to_string(),
            parameters: vec![
                ("a".to_string(), plain("u8")),
                ("b".to_string(), Type { name: "stream".to_string(), generics: vec![plain("u8")] }),
            ],
            body: vec![Stmt::ReturnStmt { value: None }],
            return_params: vec![("c".to_string(), plain("bool"))],
        })
    );
    assert_eq!(
        item("fn f() -> () {}"),
        Ok(Item::Function {
            name: "f".to_string(),
            parameters: Vec::new(),
            body: Vec::new(),
            return_params: Vec::new(),
        })
    );
    assert_eq!(item(""), Err(CompileError::UnexpectedToken));
    assert_eq!(item("x := 1;"), Err(CompileError::UnexpectedToken));
    assert_eq!(item("fn"), Err(CompileError::UnexpectedToken));
    assert_eq!(item("fn 1() {}"), Err(CompileError::UnexpectedToken));
    assert_eq!(item("fn f {}"), Err(CompileError::UnexpectedToken));
    assert_eq!(item("fn f()"), Err(CompileError::UnexpectedToken));
    assert_eq!(item("fn f() ;"), Err(CompileError::UnexpectedToken));
    assert_eq!(item("fn f() -> {}"), Err(CompileError::UnexpectedToken));
    assert_eq!(item("fn f() -> u8 {}"), Err(CompileError::UnexpectedToken));
    assert_eq!(item("fn f(a) {}"), Err(CompileError::UnexpectedToken));
    assert_eq!(item("fn f(a u8 b u8) {}"), Err(CompileError::UnexpectedToken));
    assert_eq!(item("fn f(a u8,) {}"), Err(CompileError::UnexpectedToken));
    assert_eq!(item("fn f(, a u8) {}"), Err(CompileError::UnexpectedToken));
    assert_eq!(item("fn f(a u8 {}"), Err(CompileError::UnexpectedToken));
    assert_eq!(item("fn f() { x }"), Err(CompileError::UnexpectedToken));
}

#[test]
fn files_are_items_up_to_the_end() {
    let mut parser = Parser::new("");
    assert_eq!(parser.file(), Ok(Vec::new()));
    let mut parser = Parser::new("fn a() {} fn b() {} fn c() {}");
    assert_eq!(parser.file().unwrap().len(), 3);
    let mut parser = Parser::new("fn a() {} x");
    assert_eq!(parser.file(), Err(CompileError::UnexpectedToken));
    let mut parser = Parser::new("fn a() {} }");
    assert_eq!(parser.file(), Err(CompileError::UnexpectedToken));
    let mut parser = Parser::new("fn a() { # }");
    assert_eq!(parser.file(), Err(CompileError::LexError));
}
