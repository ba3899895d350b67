use gello::ast::{BinaryOp, Expr, Stmt, UnaryOp};
use gello::lexer::Lexer;
use gello::parser::{Expectation, ParseError, Parser};
use gello::token::{Token, TokenKind};

fn parse(src: &str) -> Result<Vec<Stmt>, ParseError> {
    let tokens = Lexer::new(src).tokenize().unwrap();
    Parser::new(tokens).parse()
}

fn expr(src: &str) -> Expr {
    match parse(src).unwrap().remove(0) {
        Stmt::Expression(e) => e,
        other => panic!("not an expression statement: {:?}", other),
    }
}

fn num(e: &Expr) -> &str {
    match e {
        Expr::Number(t) => t,
        other => panic!("not a number: {:?}", other),
    }
}

#[test]
fn multiplication_binds_tighter_than_addition() {
    match expr("1 + 2 * 3") {
        Expr::Binary { left, op: BinaryOp::Add, right } => {
            assert_eq!(num(&left), "1");
            match *right {
                Expr::Binary { left, op: BinaryOp::Mul, right } => {
                    assert_eq!(num(&left), "2");
                    assert_eq!(num(&right), "3");
                }
                other => panic!("{:?}", other),
            }
        }
        other => panic!("{:?}", other),
    }
}

#[test]
fn subtraction_is_left_associative() {
    match expr("5 - 2 - 1") {
        Expr::Binary { left, op: BinaryOp::Sub, right } => {
            assert_eq!(num(&right), "1");
            assert!(matches!(*left, Expr::Binary { op: BinaryOp::Sub, .. }));
        }
        other => panic!("{:?}", other),
    }
}

#[test]
fn precedence_of_logic_and_comparison() {
    // a || b && c == d < e  parses as  a || (b && (c == (d < e)))
    match expr("a || b && c == d < e") {
        Expr::Binary { op: BinaryOp::Or, right, .. } => match *right {
            Expr::Binary { op: BinaryOp::And, right, .. } => match *right {
                Expr::Binary { op: BinaryOp::Eq, right, .. } => {
                    assert!(matches!(*right, Expr::Binary { op: BinaryOp::Lt, .. }))
                }
                other => panic!("{:?}", other),
            },
            other => panic!("{:?}", other),
        },
        other => panic!("{:?}", other),
    }
}

#[test]
fn assignment_is_right_associative() {
    match expr("a = b = 1") {
        Expr::Assign { name, value } => {
            assert_eq!(name, "a");
            assert!(matches!(*value, Expr::Assign { .. }));
        }
        other => panic!("{:?}", other),
    }
}

#[test]
fn unary_calls_and_indexing() {
    assert!(matches!(expr("-!x"), Expr::Unary { op: UnaryOp::Neg, .. }));
    match expr("f(1, 2)[0](x)") {
        Expr::Call { callee, args } => {
            assert_eq!(args.len(), 1);
            match *callee {
                Expr::Index { array, .. } => {
                    assert!(matches!(*array, Expr::Call { ref args, .. } if args.len() == 2))
                }
                other => panic!("{:?}", other),
            }
        }
        other => panic!("{:?}", other),
    }
}

#[test]
fn statements() {
    let stmts = parse("let x = [1, 2] fn f(a, b) { return a } if x { print 1 } else { print 2 } while false { }").unwrap();
    assert_eq!(stmts.len(), 4);
    assert!(matches!(&stmts[0], Stmt::Let { name, value: Expr::Array(es) } if name == "x" && es.len() == 2));
    assert!(matches!(&stmts[1], Stmt::Fn { name, params, body } if name == "f" && params.len() == 2 && body.len() == 1));
    assert!(matches!(&stmts[2], Stmt::If { else_block: Some(_), .. }));
    assert!(matches!(&stmts[3], Stmt::While { body, .. } if body.is_empty()));
}

#[test]
fn fn_without_name_is_a_lambda_expression() {
    let stmts = parse("fn(x) { return x }(1)").unwrap();
    match &stmts[0] {
        Stmt::Expression(Expr::Call { callee, .. }) => {
            assert!(matches!(**callee, Expr::Lambda { .. }))
        }
        other => panic!("{:?}", other),
    }
}

#[test]
fn invalid_assignment_target() {
    assert!(matches!(
        parse("1 = 2"),
        Err(ParseError::InvalidAssignmentTarget { line: 1, col: 5 })
    ));
}

#[test]
fn unexpected_token() {
    match parse("let x = )") {
        Err(ParseError::UnexpectedToken(t)) => {
            assert!(matches!(t.kind, TokenKind::RightParen));
            assert_eq!((t.line, t.col), (1, 9));
        }
        other => panic!("{:?}", other),
    }
    match parse("print") {
        Err(ParseError::UnexpectedToken(t)) => assert!(matches!(t.kind, TokenKind::Eof)),
        other => panic!("{:?}", other),
    }
}

#[test]
fn missing_tokens() {
    let expect = |src: &str, what: Expectation| match parse(src) {
        Err(ParseError::Expected { what: w, .. }) => assert_eq!(w, what),
        other => panic!("{}: {:?}", src, other),
    };
    expect("let = 1", Expectation::VariableName);
    expect("let x 1", Expectation::EqualsAfterName);
    expect("fn f { }", Expectation::ParenAfterFunctionName);
    expect("fn f(1) { }", Expectation::ParameterName);
    expect("fn f(a { }", Expectation::ParenAfterParameters);
    expect("fn f(a) print", Expectation::BraceBeforeFunctionBody);
    expect("if x print 1", Expectation::BraceAfterIfCondition);
    expect("if x { } else print 1", Expectation::BraceAfterElse);
    expect("while x print 1", Expectation::BraceBeforeWhileBody);
    expect("if x { print 1", Expectation::BraceAfterBlock);
    expect("f(1", Expectation::ParenAfterArguments);
    expect("a[1", Expectation::BracketAfterIndex);
    expect("(1", Expectation::ParenAfterExpression);
    expect("[1, 2", Expectation::BracketAfterElements);
    expect("fn { }", Expectation::ParenAfterFn);
}

#[test]
fn parsing_stops_at_the_first_eof() {
    let tokens = vec![
        Token::new(TokenKind::Number("1".to_string()), 1, 1),
        Token::new(TokenKind::Eof, 1, 2),
        Token::new(TokenKind::Number("2".to_string()), 1, 3),
    ];
    let stmts = Parser::new(tokens).parse().unwrap();
    assert_eq!(stmts.len(), 1);
}
