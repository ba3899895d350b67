use gello::ast::BinaryOp;
use gello::interpreter::{Answer, Interpreter, NumQuery, Piece, RuntimeError, Step};
use gello::lexer::LexError;
use gello::parser::{Expectation, ParseError};
use gello::token::{Token, TokenKind};
use gello::session::{compile_line, output_lines, LineResult, Session, SessionStep};
use gello::source::source_lines;

fn answer(q: &NumQuery) -> Answer {
    match q {
        NumQuery::Literal(text) => Answer::Number(text.parse::<f64>().unwrap().to_bits()),
        NumQuery::Negate(x) => Answer::Number((-f64::from_bits(*x)).to_bits()),
        NumQuery::Arith { op, left, right } => {
            let (a, b) = (f64::from_bits(*left), f64::from_bits(*right));
            let r = match op {
                BinaryOp::Add => a + b,
                BinaryOp::Sub => a - b,
                BinaryOp::Mul => a * b,
                BinaryOp::Div => a / b,
                _ => a % b,
            };
            Answer::Number(r.to_bits())
        }
        NumQuery::IsZero(x) => Answer::Truth(f64::from_bits(*x) == 0.0),
        NumQuery::Compare { op, left, right } => {
            let (a, b) = (f64::from_bits(*left), f64::from_bits(*right));
            Answer::Truth(match op {
                BinaryOp::Lt => a < b,
                BinaryOp::Le => a <= b,
                BinaryOp::Gt => a > b,
                _ => a >= b,
            })
        }
        NumQuery::Equal { left, right } => {
            Answer::Truth((f64::from_bits(*left) - f64::from_bits(*right)).abs() < f64::EPSILON)
        }
        NumQuery::ToIndex(x) => Answer::Index(f64::from_bits(*x) as usize),
    }
}

fn line_text(pieces: &[Piece]) -> String {
    let mut out = String::new();
    for p in pieces {
        match p {
            Piece::Text(t) => out.push_str(t),
            Piece::Literal(t) => out.push_str(&format!("{:?}", t.parse::<f64>().unwrap())),
            Piece::Number(bits) => {
                let n = f64::from_bits(*bits);
                if n.fract() == 0.0 && n.is_finite() {
                    out.push_str(&format!("{}", n as i64))
                } else {
                    out.push_str(&format!("{}", n))
                }
            }
        }
    }
    out
}

/// Runs a whole source text; each line gives its printed lines, or one line
/// naming the kind of error.
fn run(source: &str) -> Vec<String> {
    let mut session = Session::new(source);
    let mut ans = None;
    let mut steps = 0;
    loop {
        steps += 1;
        assert!(steps < 1_000_000);
        match session.step(ans.take()) {
            SessionStep::Running => {}
            SessionStep::Query(q) => ans = Some(answer(&q)),
            SessionStep::Done => break,
        }
    }
    let mut out = Vec::new();
    for r in session.results() {
        match r {
            LineResult::Printed(lines) => out.extend(lines.iter().map(|l| line_text(l))),
            LineResult::Lex(e) => out.push(format!("LEX {:?}", e)),
            LineResult::Parse(e) => out.push(format!("PARSE {:?}", e)),
            LineResult::Runtime { printed, error } => {
                out.extend(printed.iter().map(|l| line_text(l)));
                out.push(format!("RUNTIME {:?}", error))
            }
        }
    }
    out
}

fn runtime_error(source: &str) -> String {
    run(source).pop().unwrap()
}

#[test]
fn arithmetic_and_printing_numbers() {
    assert_eq!(run("print 1 + 2 * 3"), vec!["7"]);
    assert_eq!(run("print 7 / 2"), vec!["3.5"]);
    assert_eq!(run("print 7 % 4"), vec!["3"]);
    assert_eq!(run("print -(2 - 5)"), vec!["3"]);
    assert_eq!(run("print 0.1 + 0.2"), vec!["0.30000000000000004"]);
}

#[test]
fn strings_booleans_and_null() {
    assert_eq!(run("print \"ab\" + \"cd\""), vec!["abcd"]);
    assert_eq!(run("print true"), vec!["true"]);
    assert_eq!(run("print !1"), vec!["false"]);
    assert_eq!(run("print null"), vec!["null"]);
    assert_eq!(run("print !\"\""), vec!["true"]);
}

#[test]
fn comparison_and_equality() {
    assert_eq!(run("print 1 < 2"), vec!["true"]);
    assert_eq!(run("print 2 <= 1"), vec!["false"]);
    assert_eq!(run("print 0.1 + 0.2 == 0.3"), vec!["true"]);
    assert_eq!(run("print \"a\" == \"a\""), vec!["true"]);
    assert_eq!(run("print \"a\" != \"b\""), vec!["true"]);
    assert_eq!(run("print null == null"), vec!["true"]);
    assert_eq!(run("print 1 == \"1\""), vec!["false"]);
    assert_eq!(run("print [1] == [1]"), vec!["false"]);
}

#[test]
fn logic_evaluates_both_sides() {
    assert_eq!(run("print 1 && 0"), vec!["false"]);
    assert_eq!(run("print 0 || \"x\""), vec!["true"]);
    assert_eq!(run("let n = 0\nlet f = fn() { n = n + 1 return true }\nprint false && f()\nprint n"), vec!["false", "1"]);
}

#[test]
fn variables_and_assignment() {
    assert_eq!(run("let x = 1\nx = x + 41\nprint x"), vec!["42"]);
    assert!(runtime_error("y = 1").contains("UndefinedVariable(\"y\")"));
    assert!(runtime_error("print z").contains("UndefinedVariable(\"z\")"));
}

#[test]
fn if_and_while_make_scopes() {
    assert_eq!(
        run("let i = 0\nlet s = 0\nwhile i < 5 { let t = i * 2 s = s + t i = i + 1 }\nprint s"),
        vec!["20"]
    );
    assert_eq!(run("if 0 { print 1 } else { print 2 }"), vec!["2"]);
    assert_eq!(run("if 1 { let inner = 3 }\nprint inner").last().unwrap(), "RUNTIME UndefinedVariable(\"inner\")");
}

#[test]
fn functions_closures_and_recursion() {
    assert_eq!(
        run("fn fib(n) { if n < 2 { return n } return fib(n - 1) + fib(n - 2) }\nprint fib(15)"),
        vec!["610"]
    );
    assert_eq!(
        run("fn counter() { let c = 0 return fn() { c = c + 1 return c } }\nlet k = counter()\nk()\nprint k()"),
        vec!["2"]
    );
    assert_eq!(run("fn f() { }\nprint f()"), vec!["null"]);
    assert_eq!(run("fn add(a, b) { return a + b }\nprint add"), vec!["<fn(a, b)>"]);
    assert_eq!(run("print fn() { }"), vec!["<fn()>"]);
}

#[test]
fn return_at_top_level_only_ends_the_statement() {
    assert_eq!(run("return 1 print 2"), vec!["2"]);
    assert_eq!(run("while true { return 1 } print 3"), vec!["3"]);
}

#[test]
fn arrays_are_shared() {
    assert_eq!(run("let a = [1, \"two\", [3]]\nprint a"), vec!["[1, two, [3]]"]);
    assert_eq!(run("let a = []\nlet b = a\npush(b, 4)\nprint a\nprint a[0]"), vec!["[4]", "4"]);
    assert_eq!(run("print [][0]").last().unwrap(), "RUNTIME IndexOutOfBounds(0)");
    assert_eq!(run("print [1, 2][1.9]"), vec!["2"]);
    // An array reached twice is not a cycle.
    assert_eq!(run("let a = []\nlet b = [a]\npush(a, 1)\nlet c = [b, b]\nprint c"), vec!["[[[1]], [[1]]]"]);
}

#[test]
fn push_is_recognised_by_name() {
    // A binding named `push` does not hide the built-in.
    assert_eq!(run("let push = 1\nlet a = []\npush(a, 1)\nprint a"), vec!["[1]"]);
    assert_eq!(run("fn push(x, y) { return 7 }\nlet a = [0]\nprint push(a, 2)\nprint a"), vec!["null", "[0, 2]"]);
}

#[test]
fn runtime_errors() {
    assert_eq!(runtime_error("print 1 / 0"), "RUNTIME DivisionByZero");
    assert_eq!(runtime_error("print 1 % 0"), "RUNTIME ModuloByZero");
    assert_eq!(runtime_error("print -\"a\""), "RUNTIME CannotNegate");
    assert_eq!(runtime_error("print 1 + \"a\""), "RUNTIME CannotAdd");
    assert_eq!(runtime_error("print \"a\" - 1"), "RUNTIME CannotSubtract");
    assert_eq!(runtime_error("print \"a\" * 1"), "RUNTIME CannotMultiply");
    assert_eq!(runtime_error("print \"a\" / 1"), "RUNTIME CannotDivide");
    assert_eq!(runtime_error("print \"a\" % 1"), "RUNTIME CannotModulo");
    assert_eq!(runtime_error("print 1 < \"a\""), "RUNTIME CannotCompare(Lt)");
    assert_eq!(runtime_error("print [1][\"a\"]"), "RUNTIME IndexNotNumber");
    assert_eq!(runtime_error("print 1[0]"), "RUNTIME CannotIndex");
    assert_eq!(runtime_error("fn f(a) { }\nf()"), "RUNTIME ArityMismatch { expected: 1, got: 0 }");
    assert_eq!(runtime_error("1()"), "RUNTIME NotAFunction");
    assert_eq!(runtime_error("push(1)"), "RUNTIME PushArity(1)");
    assert_eq!(runtime_error("push(1, 2)"), "RUNTIME PushTarget");
    assert_eq!(runtime_error("let a = []\npush(a, a)\nprint a"), "RUNTIME CyclicValue");
}

#[test]
fn output_before_an_error_is_kept() {
    assert_eq!(run("print 1 print x"), vec!["1", "RUNTIME UndefinedVariable(\"x\")"]);
    assert_eq!(run("print 1\nprint 2"), vec!["1", "2"]);
}

#[test]
fn a_failed_block_leaves_its_scope() {
    // The scope of a block that fails is left, so what it bound is gone.
    assert_eq!(
        run("if true { let y = 1 print z }\nprint y"),
        vec!["RUNTIME UndefinedVariable(\"z\")", "RUNTIME UndefinedVariable(\"y\")"]
    );
    assert_eq!(
        run("let i = 0\nwhile true { let t = 1 i = i + 1 if i > 2 { print nope } }\nprint t\nprint i"),
        vec!["RUNTIME UndefinedVariable(\"nope\")", "RUNTIME UndefinedVariable(\"t\")", "3"]
    );
    // A call gives the caller's scope back even when the body fails.
    assert_eq!(run("fn f() { let inner = 1 print nope }\nf()\nprint inner"), vec!["RUNTIME UndefinedVariable(\"nope\")", "RUNTIME UndefinedVariable(\"inner\")"]);
}

#[test]
fn lex_and_parse_errors_per_line() {
    let out = run("print 1\nprint @\nprint (1\nprint 2");
    assert_eq!(out[0], "1");
    assert!(out[1].starts_with("LEX UnexpectedChar"));
    assert!(out[2].starts_with("PARSE Expected"));
    assert_eq!(out[3], "2");
    assert!(matches!(compile_line("\"x"), Err(gello::session::LineError::Lex(LexError::UnterminatedString { .. }))));
    assert!(matches!(compile_line("1 = 2"), Err(gello::session::LineError::Parse(ParseError::InvalidAssignmentTarget { .. }))));
}

#[test]
fn interpreter_output_buffer() {
    let mut interp = Interpreter::new();
    let stmts = compile_line("print 1 print \"a\"").unwrap();
    interp.start(stmts);
    let mut ans = None;
    let result = loop {
        match interp.step(ans.take()) {
            Step::Running => {}
            Step::Query(q) => ans = Some(answer(&q)),
            Step::Finished(r) => break r,
        }
    };
    assert!(result.is_ok());
    assert!(!interp.is_running());
    assert_eq!(interp.get_output().len(), 2);
    assert_eq!(line_text(&interp.get_output()[1]), "a");
    let out = interp.take_output();
    assert_eq!(out.len(), 2);
    assert!(interp.get_output().is_empty());
    interp.start(compile_line("print 3").unwrap());
    while !matches!(interp.step(None), Step::Query(_)) {}
    assert!(interp.is_running());
    interp.clear_output();
    assert!(interp.get_output().is_empty());
}

#[test]
fn waiting_machine_repeats_its_query() {
    let mut interp = Interpreter::new();
    interp.start(compile_line("print 5").unwrap());
    let q = loop {
        if let Step::Query(q) = interp.step(None) {
            break q;
        }
    };
    assert!(matches!(q, NumQuery::Literal(ref t) if t == "5"));
    assert!(matches!(interp.step(None), Step::Query(NumQuery::Literal(_))));
    // An answer of the wrong kind leaves it waiting.
    assert!(matches!(interp.step(Some(Answer::Truth(true))), Step::Query(NumQuery::Literal(_))));
    assert!(matches!(interp.step(Some(Answer::Number(5.0f64.to_bits()))), Step::Running));
}

#[test]
fn source_lines_are_trimmed_and_blank_ones_dropped() {
    assert_eq!(source_lines("  a \n\n\t b\r\n \n"), vec!["a", "b"]);
    assert_eq!(source_lines(""), Vec::<String>::new());
    assert_eq!(source_lines("x"), vec!["x"]);
}

#[test]
fn arguments_are_evaluated_in_the_callers_scope() {
    assert_eq!(run("let x = 5\nfn f(a) { let x = 9 return a }\nprint f(x)"), vec!["5"]);
    assert_eq!(run("fn f(a, b) { return a - b }\nlet i = 1\nprint f(i = i + 1, i)"), vec!["0"]);
}

#[test]
fn return_skips_the_rest_of_its_block() {
    assert_eq!(run("fn f() { return 1 print 2 }\nprint f()"), vec!["1"]);
    assert_eq!(run("fn f() { while true { if true { return 3 } print 4 } }\nprint f()"), vec!["3"]);
}

#[test]
fn let_rebinds_in_the_same_scope() {
    assert_eq!(run("let a = 1\nlet a = 2\nprint a"), vec!["2"]);
    assert_eq!(run("let a = 1\nif true { let a = 2 print a }\nprint a"), vec!["2", "1"]);
}

#[test]
fn scopes_and_arrays_stay_consistent_over_long_runs() {
    let program = "let fs = []\nlet i = 0\nwhile i < 20 { let j = i push(fs, fn() { return j }) i = i + 1 }\nlet s = 0\nlet k = 0\nwhile k < 20 { s = s + fs[k]() k = k + 1 }\nprint s";
    assert_eq!(run(program), vec!["190"]);
}

#[test]
fn messages_are_worded_by_the_library() {
    assert_eq!(
        LexError::UnexpectedChar { ch: '@', line: 12, col: 3 }.message(),
        "Unexpected character '@' at line 12, column 3"
    );
    assert_eq!(LexError::InvalidEscape { line: 1, col: 105 }.message(), "Invalid escape sequence at line 1, column 105");
    assert_eq!(
        LexError::UnterminatedString { line: 2, col: 0 }.message(),
        "Unterminated string starting at line 2, column 0"
    );
    assert_eq!(
        ParseError::Expected { what: Expectation::BraceAfterElse, line: 1, col: 10 }.message(""),
        "Expected '{' after 'else' at line 1, column 10"
    );
    assert_eq!(
        ParseError::InvalidAssignmentTarget { line: 1, col: 5 }.message(""),
        "Invalid assignment target at line 1, column 5"
    );
    assert_eq!(
        ParseError::UnexpectedToken(Token::new(TokenKind::Identifier("a\"b".to_string()), 1, 4)).message(""),
        "Unexpected token 'Identifier(\"a\\\"b\")' at line 1, column 4"
    );
    assert_eq!(
        ParseError::UnexpectedToken(Token::new(TokenKind::Number("3".to_string()), 1, 1)).message("3.0"),
        "Unexpected token 'Number(3.0)' at line 1, column 1"
    );
    assert_eq!(
        ParseError::UnexpectedToken(Token::new(TokenKind::RightParen, 7, 9)).message(""),
        "Unexpected token 'RightParen' at line 7, column 9"
    );
    assert_eq!(RuntimeError::UndefinedVariable("zz".to_string()).message(), "Undefined variable 'zz'");
    assert_eq!(RuntimeError::CannotCompare(BinaryOp::Ge).message(), "Cannot compare non-numbers with '>='");
    assert_eq!(RuntimeError::ArityMismatch { expected: 10, got: 0 }.message(), "Expected 10 arguments but got 0");
    assert_eq!(RuntimeError::IndexOutOfBounds(4096).message(), "Index 4096 out of bounds");
    assert_eq!(RuntimeError::PushArity(1).message(), "push expects 2 arguments, got 1");
    assert_eq!(RuntimeError::ModuloByZero.message(), "Modulo by zero");
}

#[test]
fn operator_and_truth_laws_on_values() {
    assert_eq!(runtime_error("print \"a\" < \"b\""), "RUNTIME CannotCompare(Lt)");
    assert_eq!(run("print 1 && \"x\""), vec!["true"]);
    assert_eq!(run("print null || [] "), vec!["true"]);
    assert_eq!(run("print !\"0\"\nprint ![]\nprint !0\nprint !null"), vec!["false", "false", "true", "true"]);
    assert_eq!(run("print \"b\" == \"b\"\nprint null != false"), vec!["true", "true"]);
    assert_eq!(run("let f = fn() { }\nprint f == f"), vec!["false"]);
}

#[test]
fn assignment_reaches_the_scope_that_binds() {
    assert_eq!(run("let a = 1\nif true { a = 2 }\nprint a"), vec!["2"]);
    assert_eq!(run("let a = 1\nfn f() { a = a + 1 }\nf()\nf()\nprint a"), vec!["3"]);
}

/// Runs a whole source text and gives the lines the playground shows.
fn shown(source: &str) -> String {
    let mut session = Session::new(source);
    let mut ans = None;
    loop {
        match session.step(ans.take()) {
            SessionStep::Running => {}
            SessionStep::Query(q) => ans = Some(answer(&q)),
            SessionStep::Done => break,
        }
    }
    let lines: Vec<String> = output_lines(session.results()).iter().map(|l| line_text(l)).collect();
    lines.join("\n")
}

#[test]
fn playground_output_labels_each_error() {
    assert_eq!(
        shown("print 0\nprint @\nprint (1"),
        "0\nERROR: Unexpected character '@' at line 1, column 7\nERROR: Parse error: Expected ')' after expression at line 1, column 9"
    );
    assert_eq!(shown("print 1 print y"), "1\nERROR: Runtime error: Undefined variable 'y'");
    assert_eq!(shown("print )"), "ERROR: Parse error: Unexpected token 'RightParen' at line 1, column 7");
    assert_eq!(shown("\n  \n"), "");
}
