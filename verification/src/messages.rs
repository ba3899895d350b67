//! The wording of the language's messages: lexical, syntax and runtime
//! errors, as the REPL and the playground show them.
use vstd::prelude::*;
use vstd::string::StringExecFns;
use crate::ast::BinaryOp;
use crate::interpreter::{RuntimeError, RuntimeErrorV};
use crate::lexer::LexError;
use crate::parser::{Expectation, ParseError, ParseErrorV};
use crate::text::push_char;
use crate::token::{TokenKind, TokenKindV};

verus! {

broadcast use vstd::string::group_string_axioms;

/// The character of the decimal digit `d` (below 10).
pub open spec fn digit_char(d: nat) -> char {
    if d == 0 {
        '0'
    } else if d == 1 {
        '1'
    } else if d == 2 {
        '2'
    } else if d == 3 {
        '3'
    } else if d == 4 {
        '4'
    } else if d == 5 {
        '5'
    } else if d == 6 {
        '6'
    } else if d == 7 {
        '7'
    } else if d == 8 {
        '8'
    } else {
        '9'
    }
}

/// The decimal text of `n`, without leading zeros.
pub open spec fn decimal(n: nat) -> Seq<char>
    decreases n,
{
    if n < 10 {
        seq![digit_char(n)]
    } else {
        decimal(n / 10).push(digit_char(n % 10))
    }
}

/// Appends the decimal text of `n` to `s`.
pub fn push_decimal(s: &mut String, n: usize)
    ensures
        final(s)@ == old(s)@ + decimal(n as nat),
    decreases n,
{
    if n >= 10 {
        push_decimal(s, n / 10);
    }
    let d = n % 10;
    let c = if d == 0 {
        '0'
    } else if d == 1 {
        '1'
    } else if d == 2 {
        '2'
    } else if d == 3 {
        '3'
    } else if d == 4 {
        '4'
    } else if d == 5 {
        '5'
    } else if d == 6 {
        '6'
    } else if d == 7 {
        '7'
    } else if d == 8 {
        '8'
    } else {
        '9'
    };
    push_char(s, c);
    assert(s@ =~= old(s)@ + decimal(n as nat));
}

/// Name for what `<str as Debug>::fmt` writes for a string: the string in
/// double quotes, with its special characters escaped.
pub uninterp spec fn debug_quoted(s: Seq<char>) -> Seq<char>;

/// Writes `s` as `{:?}` does.
#[verifier::external_body]
fn quoted(s: &String) -> (r: String)
    ensures
        r@ == debug_quoted(s@),
{
    format!("{:?}", s)
}

// ---------------------------------------------------------------------------
// Lexical errors
// ---------------------------------------------------------------------------

/// The message of a lexical error.
pub open spec fn lex_message(e: LexError) -> Seq<char> {
    match e {
        LexError::UnexpectedChar { ch, line, col } => "Unexpected character '"@ + seq![ch] + "' at line "@ + decimal(
            line as nat,
        ) + ", column "@ + decimal(col as nat),
        LexError::InvalidEscape { line, col } => "Invalid escape sequence at line "@ + decimal(line as nat)
            + ", column "@ + decimal(col as nat),
        LexError::UnterminatedString { line, col } => "Unterminated string starting at line "@ + decimal(
            line as nat,
        ) + ", column "@ + decimal(col as nat),
    }
}

impl LexError {
    /// The message of this error.
    pub fn message(&self) -> (r: String)
        ensures
            r@ == lex_message(*self),
    {
        match self {
            LexError::UnexpectedChar { ch, line, col } => {
                let mut s = String::from_str("Unexpected character '");
                push_char(&mut s, *ch);
                s.append("' at line ");
                push_decimal(&mut s, *line);
                s.append(", column ");
                push_decimal(&mut s, *col);
                s
            },
            LexError::InvalidEscape { line, col } => {
                let mut s = String::from_str("Invalid escape sequence at line ");
                push_decimal(&mut s, *line);
                s.append(", column ");
                push_decimal(&mut s, *col);
                s
            },
            LexError::UnterminatedString { line, col } => {
                let mut s = String::from_str("Unterminated string starting at line ");
                push_decimal(&mut s, *line);
                s.append(", column ");
                push_decimal(&mut s, *col);
                s
            },
        }
    }
}

// ---------------------------------------------------------------------------
// Syntax errors
// ---------------------------------------------------------------------------

/// What the parser says it expected.
pub open spec fn expectation_text(what: Expectation) -> Seq<char> {
    match what {
        Expectation::VariableName => "Expected variable name after 'let'"@,
        Expectation::EqualsAfterName => "Expected '=' after variable name"@,
        Expectation::FunctionName => "Expected function name after 'fn'"@,
        Expectation::ParenAfterFunctionName => "Expected '(' after function name"@,
        Expectation::ParameterName => "Expected parameter name"@,
        Expectation::ParenAfterParameters => "Expected ')' after parameters"@,
        Expectation::BraceBeforeFunctionBody => "Expected '{' before function body"@,
        Expectation::BraceAfterIfCondition => "Expected '{' after if condition"@,
        Expectation::BraceAfterElse => "Expected '{' after 'else'"@,
        Expectation::BraceBeforeWhileBody => "Expected '{' before while body"@,
        Expectation::BraceAfterBlock => "Expected '}' after block"@,
        Expectation::ParenAfterArguments => "Expected ')' after arguments"@,
        Expectation::BracketAfterIndex => "Expected ']' after index"@,
        Expectation::ParenAfterExpression => "Expected ')' after expression"@,
        Expectation::BracketAfterElements => "Expected ']' after array elements"@,
        Expectation::ParenAfterFn => "Expected '(' after 'fn'"@,
    }
}

fn expectation_string(what: Expectation) -> (r: String)
    ensures
        r@ == expectation_text(what),
{
    match what {
        Expectation::VariableName => String::from_str("Expected variable name after 'let'"),
        Expectation::EqualsAfterName => String::from_str("Expected '=' after variable name"),
        Expectation::FunctionName => String::from_str("Expected function name after 'fn'"),
        Expectation::ParenAfterFunctionName => String::from_str("Expected '(' after function name"),
        Expectation::ParameterName => String::from_str("Expected parameter name"),
        Expectation::ParenAfterParameters => String::from_str("Expected ')' after parameters"),
        Expectation::BraceBeforeFunctionBody => String::from_str("Expected '{' before function body"),
        Expectation::BraceAfterIfCondition => String::from_str("Expected '{' after if condition"),
        Expectation::BraceAfterElse => String::from_str("Expected '{' after 'else'"),
        Expectation::BraceBeforeWhileBody => String::from_str("Expected '{' before while body"),
        Expectation::BraceAfterBlock => String::from_str("Expected '}' after block"),
        Expectation::ParenAfterArguments => String::from_str("Expected ')' after arguments"),
        Expectation::BracketAfterIndex => String::from_str("Expected ']' after index"),
        Expectation::ParenAfterExpression => String::from_str("Expected ')' after expression"),
        Expectation::BracketAfterElements => String::from_str("Expected ']' after array elements"),
        Expectation::ParenAfterFn => String::from_str("Expected '(' after 'fn'"),
    }
}

/// How a token kind shows in a message, as `{:?}` writes it; a number shows as
/// `number_value`, which is `{:?}` of its value.
pub open spec fn kind_text(k: TokenKindV, number_value: Seq<char>) -> Seq<char> {
    match k {
        TokenKindV::Number(_) => "Number("@ + number_value + ")"@,
        TokenKindV::Str(t) => "String("@ + debug_quoted(t) + ")"@,
        TokenKindV::Identifier(t) => "Identifier("@ + debug_quoted(t) + ")"@,
        TokenKindV::Let => "Let"@,
        TokenKindV::Fn => "Fn"@,
        TokenKindV::Return => "Return"@,
        TokenKindV::If => "If"@,
        TokenKindV::Else => "Else"@,
        TokenKindV::While => "While"@,
        TokenKindV::Print => "Print"@,
        TokenKindV::True => "True"@,
        TokenKindV::False => "False"@,
        TokenKindV::Null => "Null"@,
        TokenKindV::Plus => "Plus"@,
        TokenKindV::Minus => "Minus"@,
        TokenKindV::Star => "Star"@,
        TokenKindV::Slash => "Slash"@,
        TokenKindV::Percent => "Percent"@,
        TokenKindV::Bang => "Bang"@,
        TokenKindV::BangEqual => "BangEqual"@,
        TokenKindV::Equal => "Equal"@,
        TokenKindV::EqualEqual => "EqualEqual"@,
        TokenKindV::Less => "Less"@,
        TokenKindV::LessEqual => "LessEqual"@,
        TokenKindV::Greater => "Greater"@,
        TokenKindV::GreaterEqual => "GreaterEqual"@,
        TokenKindV::AmpAmp => "AmpAmp"@,
        TokenKindV::PipePipe => "PipePipe"@,
        TokenKindV::LeftParen => "LeftParen"@,
        TokenKindV::RightParen => "RightParen"@,
        TokenKindV::LeftBrace => "LeftBrace"@,
        TokenKindV::RightBrace => "RightBrace"@,
        TokenKindV::LeftBracket => "LeftBracket"@,
        TokenKindV::RightBracket => "RightBracket"@,
        TokenKindV::Comma => "Comma"@,
        TokenKindV::Eof => "Eof"@,
    }
}

fn kind_string(k: &TokenKind, number_value: &str) -> (r: String)
    ensures
        r@ == kind_text(k@, number_value@),
{
    match k {
        TokenKind::Number(_) => {
            let mut s = String::from_str("Number(");
            s.append(number_value);
            s.append(")");
            s
        },
        TokenKind::String(t) => {
            let mut s = String::from_str("String(");
            let q = quoted(t);
            s.append(q.as_str());
            s.append(")");
            s
        },
        TokenKind::Identifier(t) => {
            let mut s = String::from_str("Identifier(");
            let q = quoted(t);
            s.append(q.as_str());
            s.append(")");
            s
        },
        TokenKind::Let => String::from_str("Let"),
        TokenKind::Fn => String::from_str("Fn"),
        TokenKind::Return => String::from_str("Return"),
        TokenKind::If => String::from_str("If"),
        TokenKind::Else => String::from_str("Else"),
        TokenKind::While => String::from_str("While"),
        TokenKind::Print => String::from_str("Print"),
        TokenKind::True => String::from_str("True"),
        TokenKind::False => String::from_str("False"),
        TokenKind::Null => String::from_str("Null"),
        TokenKind::Plus => String::from_str("Plus"),
        TokenKind::Minus => String::from_str("Minus"),
        TokenKind::Star => String::from_str("Star"),
        TokenKind::Slash => String::from_str("Slash"),
        TokenKind::Percent => String::from_str("Percent"),
        TokenKind::Bang => String::from_str("Bang"),
        TokenKind::BangEqual => String::from_str("BangEqual"),
        TokenKind::Equal => String::from_str("Equal"),
        TokenKind::EqualEqual => String::from_str("EqualEqual"),
        TokenKind::Less => String::from_str("Less"),
        TokenKind::LessEqual => String::from_str("LessEqual"),
        TokenKind::Greater => String::from_str("Greater"),
        TokenKind::GreaterEqual => String::from_str("GreaterEqual"),
        TokenKind::AmpAmp => String::from_str("AmpAmp"),
        TokenKind::PipePipe => String::from_str("PipePipe"),
        TokenKind::LeftParen => String::from_str("LeftParen"),
        TokenKind::RightParen => String::from_str("RightParen"),
        TokenKind::LeftBrace => String::from_str("LeftBrace"),
        TokenKind::RightBrace => String::from_str("RightBrace"),
        TokenKind::LeftBracket => String::from_str("LeftBracket"),
        TokenKind::RightBracket => String::from_str("RightBracket"),
        TokenKind::Comma => String::from_str("Comma"),
        TokenKind::Eof => String::from_str("Eof"),
    }
}

/// The message of a syntax error. A number token shows as `number_value`.
pub open spec fn parse_message(e: ParseErrorV, number_value: Seq<char>) -> Seq<char> {
    match e {
        ParseErrorV::Expected { what, line, col } => expectation_text(what) + " at line "@ + decimal(line)
            + ", column "@ + decimal(col),
        ParseErrorV::InvalidAssignmentTarget { line, col } => "Invalid assignment target at line "@ + decimal(
            line,
        ) + ", column "@ + decimal(col),
        ParseErrorV::UnexpectedToken(t) => "Unexpected token '"@ + kind_text(t.kind, number_value)
            + "' at line "@ + decimal(t.line) + ", column "@ + decimal(t.col),
    }
}

impl ParseError {
    /// The message of this error. When the unexpected token is a number,
    /// `number_value` is how its value prints with `{:?}` (the library holds
    /// no floating-point code); otherwise it is not used.
    pub fn message(&self, number_value: &str) -> (r: String)
        ensures
            r@ == parse_message(self@, number_value@),
    {
        match self {
            ParseError::Expected { what, line, col } => {
                let mut s = expectation_string(*what);
                s.append(" at line ");
                push_decimal(&mut s, *line);
                s.append(", column ");
                push_decimal(&mut s, *col);
                s
            },
            ParseError::InvalidAssignmentTarget { line, col } => {
                let mut s = String::from_str("Invalid assignment target at line ");
                push_decimal(&mut s, *line);
                s.append(", column ");
                push_decimal(&mut s, *col);
                s
            },
            ParseError::UnexpectedToken(t) => {
                let mut s = String::from_str("Unexpected token '");
                let k = kind_string(&t.kind, number_value);
                s.append(k.as_str());
                s.append("' at line ");
                push_decimal(&mut s, t.line);
                s.append(", column ");
                push_decimal(&mut s, t.col);
                s
            },
        }
    }
}

// ---------------------------------------------------------------------------
// Runtime errors
// ---------------------------------------------------------------------------

/// The symbol of an ordering comparison.
pub open spec fn comparison_symbol(op: BinaryOp) -> Seq<char> {
    match op {
        BinaryOp::Lt => "<"@,
        BinaryOp::Le => "<="@,
        BinaryOp::Gt => ">"@,
        _ => ">="@,
    }
}

/// The message of a runtime error.
pub open spec fn runtime_message(e: RuntimeErrorV) -> Seq<char> {
    match e {
        RuntimeErrorV::UndefinedVariable(name) => "Undefined variable '"@ + name + "'"@,
        RuntimeErrorV::CannotCompare(op) => "Cannot compare non-numbers with '"@ + comparison_symbol(op) + "'"@,
        RuntimeErrorV::IndexOutOfBounds(i) => "Index "@ + decimal(i) + " out of bounds"@,
        RuntimeErrorV::ArityMismatch { expected, got } => "Expected "@ + decimal(expected) + " arguments but got "@
            + decimal(got),
        RuntimeErrorV::PushArity(n) => "push expects 2 arguments, got "@ + decimal(n),
        RuntimeErrorV::CannotNegate => "Cannot negate non-number"@,
        RuntimeErrorV::CannotAdd => "Cannot add these types"@,
        RuntimeErrorV::CannotSubtract => "Cannot subtract non-numbers"@,
        RuntimeErrorV::CannotMultiply => "Cannot multiply non-numbers"@,
        RuntimeErrorV::CannotDivide => "Cannot divide non-numbers"@,
        RuntimeErrorV::CannotModulo => "Cannot modulo non-numbers"@,
        RuntimeErrorV::DivisionByZero => "Division by zero"@,
        RuntimeErrorV::ModuloByZero => "Modulo by zero"@,
        RuntimeErrorV::IndexNotNumber => "Array index must be a number"@,
        RuntimeErrorV::CannotIndex => "Cannot index non-array"@,
        RuntimeErrorV::NotAFunction => "Cannot call non-function"@,
        RuntimeErrorV::PushTarget => "First argument to push must be an array"@,
        RuntimeErrorV::CyclicValue => "Cannot print an array that contains itself"@,
    }
}

impl RuntimeError {
    /// The message of this error.
    pub fn message(&self) -> (r: String)
        ensures
            r@ == runtime_message(self@),
    {
        match self {
            RuntimeError::UndefinedVariable(name) => {
                let mut s = String::from_str("Undefined variable '");
                s.append(name.as_str());
                s.append("'");
                s
            },
            RuntimeError::CannotCompare(op) => {
                let mut s = String::from_str("Cannot compare non-numbers with '");
                s.append(
                    match op {
                        BinaryOp::Lt => "<",
                        BinaryOp::Le => "<=",
                        BinaryOp::Gt => ">",
                        _ => ">=",
                    },
                );
                s.append("'");
                s
            },
            RuntimeError::IndexOutOfBounds(i) => {
                let mut s = String::from_str("Index ");
                push_decimal(&mut s, *i);
                s.append(" out of bounds");
                s
            },
            RuntimeError::ArityMismatch { expected, got } => {
                let mut s = String::from_str("Expected ");
                push_decimal(&mut s, *expected);
                s.append(" arguments but got ");
                push_decimal(&mut s, *got);
                s
            },
            RuntimeError::PushArity(n) => {
                let mut s = String::from_str("push expects 2 arguments, got ");
                push_decimal(&mut s, *n);
                s
            },
            RuntimeError::CannotNegate => String::from_str("Cannot negate non-number"),
            RuntimeError::CannotAdd => String::from_str("Cannot add these types"),
            RuntimeError::CannotSubtract => String::from_str("Cannot subtract non-numbers"),
            RuntimeError::CannotMultiply => String::from_str("Cannot multiply non-numbers"),
            RuntimeError::CannotDivide => String::from_str("Cannot divide non-numbers"),
            RuntimeError::CannotModulo => String::from_str("Cannot modulo non-numbers"),
            RuntimeError::DivisionByZero => String::from_str("Division by zero"),
            RuntimeError::ModuloByZero => String::from_str("Modulo by zero"),
            RuntimeError::IndexNotNumber => String::from_str("Array index must be a number"),
            RuntimeError::CannotIndex => String::from_str("Cannot index non-array"),
            RuntimeError::NotAFunction => String::from_str("Cannot call non-function"),
            RuntimeError::PushTarget => String::from_str("First argument to push must be an array"),
            RuntimeError::CyclicValue => String::from_str("Cannot print an array that contains itself"),
        }
    }
}

} // verus!
