use burn::error::CompileError;
use burn::lexer::Token;
use burn::parser::ast::{Expr, Item, Lit, Stmt, Type};
use burn::parser::Parser;

fn parse(input: &str) -> Expr {
    let mut parser = Parser::new(input);
    parser.expression().unwrap()
}

fn parse_stmt(input: &str) -> Stmt {
    let mut parser = Parser::new(input);
    parser.statement().unwrap()
}

fn parse_item(input: &str) -> Result<Item, CompileError> {
    let mut parser = Parser::new(input);
    parser.item()
}

fn parse_items(input: &str) -> Result<Vec<Item>, CompileError> {
    let mut parser = Parser::new(input);
    parser.file()
}

fn names(list: &[&str]) -> Vec<String> {
    list.iter().map(|s| s.to_string()).collect()
}

#[test]
fn parse_literals() {
    assert_eq!(parse("1  ").to_string(), "1");
    assert_eq!(parse("  \"string\"").to_string(), "\"string\"");
    assert_eq!(
        parse("'string with spaces'").to_string(),
        "\"string with spaces\""
    );
}

#[test]
fn parse_idents() {
    assert_eq!(parse("foo"), Expr::Ident("foo".to_string()));
    assert_eq!(parse("   Bar"), Expr::Ident("Bar".to_string()));
    assert_eq!(parse("baz123"), Expr::Ident("baz123".to_string()));
}

#[test]
fn parse_comparisons() {
    assert_eq!(
        parse("byte >= `A` && byte <= `Z`"),
        Expr::InfixOp {
            op: Token::And,
            lhs: Box::new(Expr::InfixOp {
                op: Token::GreaterOrEqual,
                lhs: Box::new(Expr::Ident("byte".to_string())),
                rhs: Box::new(Expr::Literal(Lit::Byt("A".to_string()))),
            }),
            rhs: Box::new(Expr::InfixOp {
                op: Token::LessOrEqual,
                lhs: Box::new(Expr::Ident("byte".to_string())),
                rhs: Box::new(Expr::Literal(Lit::Byt("Z".to_string()))),
            }),
        }
    );
}

#[test]
fn parse_fn_calls() {
    assert_eq!(
        parse("foo(bar, 0)"),
        Expr::FnCall {
            fn_name: "foo".to_string(),
            args: vec![Expr::Ident("bar".to_string()), Expr::Literal(Lit::Int(0))],
        }
    );

    assert_eq!(
        parse("foo(bar(baz))"),
        Expr::FnCall {
            fn_name: "foo".to_string(),
            args: vec![Expr::FnCall {
                fn_name: "bar".to_string(),
                args: vec![Expr::Ident("baz".to_string())],
            }]
        },
    );

    assert_eq!(
        parse("foo( )"),
        Expr::FnCall {
            fn_name: "foo".to_string(),
            args: Vec::new(),
        }
    );

    assert_eq!(
        parse("foo -> bar()"),
        Expr::FnCall {
            fn_name: "bar".to_string(),
            args: vec![Expr::Ident("foo".to_string())],
        }
    );

    assert_eq!(
        parse("foo() -> bar(\"baz\")"),
        Expr::FnCall {
            fn_name: "bar".to_string(),
            args: vec![
                Expr::Literal(Lit::Str("baz".to_string())),
                Expr::FnCall {
                    fn_name: "foo".to_string(),
                    args: Vec::new(),
                }
            ],
        }
    );

    assert_eq!(parse("1+2*3 -> foo()").to_string(), "foo((1 + (2 * 3)))");
    assert_eq!(
        parse("foo() -> bar() -> baz()").to_string(),
        "baz(bar(foo()))"
    );
    assert_eq!(
        parse("foo() -> bar() -> baz() -> buzz()").to_string(),
        "buzz(baz(bar(foo())))"
    );
    assert_eq!(parse("foo::bar()").to_string(), "(foo :: bar())");
}

#[test]
fn parse_method_calls() {
    assert_eq!(
        parse("foo.bar()"),
        Expr::InfixOp {
            op: Token::Dot,
            lhs: Box::new(Expr::Ident("foo".to_string())),
            rhs: Box::new(Expr::FnCall {
                fn_name: "bar".to_string(),
                args: Vec::new(),
            }),
        }
    );

    assert_eq!(
        parse("1 -> foo.bar.baz()"),
        Expr::InfixOp {
            op: Token::Dot,
            lhs: Box::new(Expr::Ident("foo".to_string())),
            rhs: Box::new(Expr::InfixOp {
                op: Token::Dot,
                lhs: Box::new(Expr::Ident("bar".to_string())),
                rhs: Box::new(Expr::FnCall {
                    fn_name: "baz".to_string(),
                    args: vec![Expr::Literal(Lit::Int(1))],
                }),
            }),
        },
    );

    assert_eq!(
        parse("1 -> foo::bar.baz()"),
        Expr::InfixOp {
            op: Token::DoubleColon,
            lhs: Box::new(Expr::Ident("foo".to_string())),
            rhs: Box::new(Expr::InfixOp {
                op: Token::Dot,
                lhs: Box::new(Expr::Ident("bar".to_string())),
                rhs: Box::new(Expr::FnCall {
                    fn_name: "baz".to_string(),
                    args: vec![Expr::Literal(Lit::Int(1))],
                }),
            }),
        },
    );
}

#[test]
fn parse_dot_operator() {
    assert_eq!(parse("foo.bar").to_string(), "(foo . bar)");
    assert_eq!(parse("foo.bar.baz").to_string(), "(foo . (bar . baz))");
    assert_eq!(parse("1.2").to_string(), "(1 . 2)");
    assert_eq!(parse("foo.bar + baz").to_string(), "((foo . bar) + baz)");
    assert_eq!(
        parse("1 + foo.bar + baz").to_string(),
        "((1 + (foo . bar)) + baz)"
    );
    assert_eq!(
        parse("1 ^ foo.bar ^ 2").to_string(),
        "(1 ^ ((foo . bar) ^ 2))"
    );
}

#[test]
fn parse_arithmetic() {
    assert_eq!(parse("1 + 2").to_string(), "(1 + 2)");
    assert_eq!(parse("1 + 2 + 3").to_string(), "((1 + 2) + 3)");
    assert_eq!(parse("1 + 2 * 3").to_string(), "(1 + (2 * 3))");
    assert_eq!(parse("1 * 2 - 3").to_string(), "((1 * 2) - 3)");
    assert_eq!(parse("1*(2-3)").to_string(), "(1 * (2 - 3))");
    assert_eq!(parse("-10 + 4").to_string(), "((-10) + 4)");
    assert_eq!(parse("4 * -10").to_string(), "(4 * (-10))");
    assert_eq!(parse("1 + 2!").to_string(), "(1 + (2!))");
    assert_eq!(parse("- -1 * 2").to_string(), "((-(-1)) * 2)");
}

#[test]
fn parse_binary_expressions() {
    assert_eq!(
        parse(r#"45 + 3 + 5 * 4^8^9 / 6 > 4 && test - 7 / 4 == "Hallo""#).to_string(),
        r#"((((45 + 3) + ((5 * (4 ^ (8 ^ 9))) / 6)) > 4) && ((test - (7 / 4)) == "Hallo"))"#
    );
    assert_eq!(parse("1 + 2 == 3 + 4").to_string(), "((1 + 2) == (3 + 4))");
    assert_eq!(parse("1 < 2 == 3 > 4").to_string(), "((1 < 2) == (3 > 4))");
    assert_eq!(parse("1 -> foo() < -10").to_string(), "(foo(1) < (-10))");
    assert_eq!(
        parse("1 -> foo() == 2 -> bar()").to_string(),
        "(foo(1) == bar(2))"
    );
}

#[test]
fn parse_statements() {
    let stmt = parse_stmt(
        r#"
        {
            x := 7 + sin(y);
            {
                x = 3;
                if bar < 3 {
                    x = x + 1;
                    y = 3 * x;
                } else if bar < 2 {
                    i := 2!;
                    x = x + i;
                } else {
                    x = 1;
                }
            }
        }
    "#,
    );

    let stmts = match stmt {
        Stmt::Block { stmts } => stmts,
        _ => unreachable!(),
    };
    assert_eq!(stmts.len(), 2);

    let let_stmt = &stmts[0];
    match let_stmt {
        Stmt::Declaration { var_names, .. } => assert_eq!(var_names, &names(&["x"])),
        _ => unreachable!(),
    }

    let stmts = match &stmts[1] {
        Stmt::Block { stmts } => stmts,
        _ => unreachable!(),
    };
    assert_eq!(stmts.len(), 2);

    let assignment_stmt = &stmts[0];
    match assignment_stmt {
        Stmt::Assignment { var_names, .. } => assert_eq!(var_names, &names(&["x"])),
        _ => unreachable!(),
    }

    let if_stmt = &stmts[1];
    match if_stmt {
        Stmt::IfStmt {
            condition,
            body,
            else_stmt,
        } => {
            assert!(matches!(
                condition,
                Expr::InfixOp {
                    op: Token::LeftAngleBracket,
                    lhs: _lhs,
                    rhs: _rhs,
                }
            ));
            assert_eq!(body.len(), 2);
            let x_assignment = &body[0];
            match x_assignment {
                Stmt::Assignment { var_names, .. } => assert_eq!(var_names, &names(&["x"])),
                _ => unreachable!(),
            }
            let y_assignment = &body[1];
            match y_assignment {
                Stmt::Assignment { var_names, .. } => assert_eq!(var_names, &names(&["y"])),
                _ => unreachable!(),
            }

            let else_stmt = match else_stmt {
                Some(stmt) => &**stmt,
                None => unreachable!(),
            };

            match else_stmt {
                Stmt::IfStmt {
                    condition,
                    body,
                    else_stmt,
                } => {
                    assert!(matches!(
                        condition,
                        Expr::InfixOp {
                            op: Token::LeftAngleBracket,
                            lhs: _lhs,
                            rhs: _rhs,
                        }
                    ));
                    assert_eq!(body.len(), 2);
                    let let_i = &body[0];
                    match let_i {
                        Stmt::Declaration { var_names, .. } => {
                            assert_eq!(var_names, &names(&["i"]))
                        }
                        _ => unreachable!(),
                    }
                    let x_assignment = &body[1];
                    match x_assignment {
                        Stmt::Assignment { var_names, .. } => {
                            assert_eq!(var_names, &names(&["x"]))
                        }
                        _ => unreachable!(),
                    }

                    let else_stmt = match else_stmt {
                        Some(stmt) => &**stmt,
                        None => unreachable!(),
                    };

                    let stmts = match else_stmt {
                        Stmt::Block { stmts } => stmts,
                        _ => unreachable!(),
                    };
                    assert_eq!(stmts.len(), 1);

                    let x_assignment = &stmts[0];
                    match x_assignment {
                        Stmt::Assignment { var_names, .. } => {
                            assert_eq!(var_names, &names(&["x"]))
                        }
                        _ => unreachable!(),
                    }
                }
                _ => unreachable!(),
            };
        }
        _ => unreachable!(),
    }

    assert_eq!(
        parse_stmt("foo::bar();"),
        Stmt::Expr(Expr::InfixOp {
            op: Token::DoubleColon,
            lhs: Box::new(Expr::Ident("foo".to_string())),
            rhs: Box::new(Expr::FnCall {
                fn_name: "bar".to_string(),
                args: Vec::new(),
            }),
        })
    );
}

#[test]
fn parse_fns() {
    // a return type without `->` and a `yield` statement are not of this grammar
    assert_eq!(
        parse_item(
            r#"
        fn foo(a int, b stream<u8>) stream<u8> {
            x := 1 + 2;
            yield x;
            return b;
        }
    "#,
        ),
        Err(CompileError::UnexpectedToken)
    );

    let func = parse_item(
        r#"
        fn foo(a int, b stream<u8>) -> (out stream<u8>) {
            x := 1 + 2;
            x -> out;
            return b;
        }
    "#,
    )
    .unwrap();

    match func {
        Item::Function {
            name,
            parameters,
            body,
            return_params,
        } => {
            assert_eq!(name, "foo");
            assert_eq!(parameters.len(), 2);
            assert_eq!(
                parameters[0],
                (
                    "a".to_string(),
                    Type {
                        name: "int".to_string(),
                        generics: Vec::new(),
                    }
                )
            );
            assert_eq!(
                parameters[1],
                (
                    "b".to_string(),
                    Type {
                        name: "stream".to_string(),
                        generics: vec![Type {
                            name: "u8".to_string(),
                            generics: Vec::new(),
                        }],
                    }
                )
            );
            assert_eq!(
                return_params,
                vec![(
                    "out".to_string(),
                    Type {
                        name: "stream".to_string(),
                        generics: vec![Type {
                            name: "u8".to_string(),
                            generics: Vec::new(),
                        }],
                    }
                )]
            );
            assert_eq!(body.len(), 3);
            assert_eq!(
                body[1],
                Stmt::Expr(Expr::InfixOp {
                    op: Token::RightArrow,
                    lhs: Box::new(Expr::Ident("x".to_string())),
                    rhs: Box::new(Expr::Ident("out".to_string())),
                })
            );
            assert_eq!(
                body[2],
                Stmt::ReturnStmt {
                    value: Some(Expr::Ident("b".to_string())),
                }
            );
        }
    }
}

#[test]
fn parse_import() {
    // only functions are items
    assert_eq!(parse_item("import foo;"), Err(CompileError::UnexpectedToken));
    assert_eq!(parse_item("import foo::bar;"), Err(CompileError::UnexpectedToken));
}

#[test]
fn parse_for() {
    // `yield foo;` is a name followed by a name, which no statement is
    let mut parser = Parser::new("for foo in bar { yield foo; }");
    assert_eq!(parser.statement(), Err(CompileError::UnexpectedToken));
    assert_eq!(
        parse_stmt("for foo in bar { foo -> out; }"),
        Stmt::ForLoop {
            var_name: "foo".to_string(),
            stream: Expr::Ident("bar".to_string()),
            stmts: vec![Stmt::Expr(Expr::InfixOp {
                op: Token::RightArrow,
                lhs: Box::new(Expr::Ident("foo".to_string())),
                rhs: Box::new(Expr::Ident("out".to_string())),
            })],
        }
    );
    assert_eq!(
        parse_stmt("for foo in bar() {}"),
        Stmt::ForLoop {
            var_name: "foo".to_string(),
            stream: Expr::FnCall {
                fn_name: "bar".to_string(),
                args: Vec::new(),
            },
            stmts: Vec::new(),
        }
    );
}

#[test]
fn parse_file() {
    // a file that starts with an import is refused
    assert_eq!(
        parse_items(
            r#"
    import sinks;

    fn main() {
        'Hello, world!' -> sinks::stdout();
    }
    "#,
        ),
        Err(CompileError::UnexpectedToken)
    );

    let items = parse_items(
        r#"
    fn hello() {}

    fn main() {
        'Hello, world!' -> sinks::stdout();
    }
    "#,
    )
    .unwrap();

    assert_eq!(items.len(), 2);
    assert!(matches!(items[0], Item::Function { .. }));
    assert!(matches!(items[1], Item::Function { .. }));

    let items = parse_items(
        r#"
        // Rotates each byte by 13
        fn rot13(input stream<u8>) -> (out stream<u8>) {
            for byte in input {
                // the result goes to the output stream
                if byte >= `a` && byte <= `m` || byte >= `A` && byte <= `M` {
                    byte + 13 -> out;
                } else if byte >= `n` && byte <= `z` || byte >= `N` && byte <= `Z` {
                    byte - 13 -> out;
                } else {
                    byte -> out;
                }
            }
        }

        fn first() {}

        fn second() {}

        fn main() {
            // syntactic sugar for sinks::stdout(rot13(sources::stdin()))
            sources::stdin() -> rot13() -> sinks::stdout();
        }
    "#,
    )
    .unwrap();
    assert_eq!(items.len(), 4);
}
