//! Recursive descent parser for the Gello language: tokens to statements.
use vstd::prelude::*;
use crate::ast::{
    exprs_view, lemma_exprs_view_push, lemma_stmts_view_push, names_view, stmts_view, BinaryOp,
    Expr, ExprV, Stmt, StmtV, UnaryOp,
};
use crate::token::{tokens_view, Token, TokenKind, TokenKindV, TokenTag, TokenV};

verus! {

/// What the parser expected where it found something else.
#[derive(Clone, Copy, Debug, PartialEq, Eq, Structural)]
pub enum Expectation {
    /// "Expected variable name after 'let'"
    VariableName,
    /// "Expected '=' after variable name"
    EqualsAfterName,
    /// "Expected function name after 'fn'"
    FunctionName,
    /// "Expected '(' after function name"
    ParenAfterFunctionName,
    /// "Expected parameter name"
    ParameterName,
    /// "Expected ')' after parameters"
    ParenAfterParameters,
    /// "Expected '{' before function body"
    BraceBeforeFunctionBody,
    /// "Expected '{' after if condition"
    BraceAfterIfCondition,
    /// "Expected '{' after 'else'"
    BraceAfterElse,
    /// "Expected '{' before while body"
    BraceBeforeWhileBody,
    /// "Expected '}' after block"
    BraceAfterBlock,
    /// "Expected ')' after arguments"
    ParenAfterArguments,
    /// "Expected ']' after index"
    BracketAfterIndex,
    /// "Expected ')' after expression"
    ParenAfterExpression,
    /// "Expected ']' after array elements"
    BracketAfterElements,
    /// "Expected '(' after 'fn'"
    ParenAfterFn,
}

/// Why a token sequence is not a program. Lines and columns are those of the
/// offending token.
#[derive(Debug)]
pub enum ParseError {
    /// A required token or name is missing.
    Expected { what: Expectation, line: usize, col: usize },
    /// The left side of `=` is not a variable name; the position is that of
    /// the last token of the right side.
    InvalidAssignmentTarget { line: usize, col: usize },
    /// A token that cannot start an expression.
    UnexpectedToken(Token),
}

/// The model of a parse error.
pub enum ParseErrorV {
    Expected { what: Expectation, line: nat, col: nat },
    InvalidAssignmentTarget { line: nat, col: nat },
    UnexpectedToken(TokenV),
}

impl View for ParseError {
    type V = ParseErrorV;

    open spec fn view(&self) -> ParseErrorV {
        match self {
            ParseError::Expected { what, line, col } => ParseErrorV::Expected {
                what: *what,
                line: *line as nat,
                col: *col as nat,
            },
            ParseError::InvalidAssignmentTarget { line, col } => ParseErrorV::InvalidAssignmentTarget {
                line: *line as nat,
                col: *col as nat,
            },
            ParseError::UnexpectedToken(t) => ParseErrorV::UnexpectedToken(t@),
        }
    }
}

// ---------------------------------------------------------------------------
// The grammar, over token models. Every function takes the position of the
// next token and, on success, gives back what it read and the position after
// it. Checks of the form `pos <= p < ts.len()` always hold on programs that
// hold an `Eof` at or after `pos`; they make termination evident.
// ---------------------------------------------------------------------------

/// A parse result: a value and the position after it, or an error.
pub type PR<T> = Result<(T, int), ParseErrorV>;

/// The parser is at the end: at an `Eof` (or at the last token).
pub open spec fn at_end(ts: Seq<TokenV>, pos: int) -> bool {
    pos + 1 >= ts.len() || ts[pos].kind is Eof
}

/// The next token has the variant `tag` (never true at the end).
pub open spec fn check(ts: Seq<TokenV>, pos: int, tag: TokenTag) -> bool {
    !at_end(ts, pos) && ts[pos].kind.tag() == tag
}

/// The error for a missing `what` at `pos`.
pub open spec fn expected(ts: Seq<TokenV>, pos: int, what: Expectation) -> ParseErrorV {
    ParseErrorV::Expected { what, line: ts[pos].line, col: ts[pos].col }
}

/// Consumes a token of variant `tag`, or fails with `what`.
pub open spec fn expect(ts: Seq<TokenV>, pos: int, tag: TokenTag, what: Expectation) -> Result<
    int,
    ParseErrorV,
> {
    if check(ts, pos, tag) {
        Ok(pos + 1)
    } else {
        Err(expected(ts, pos, what))
    }
}

/// Consumes an identifier and gives its name, or fails with `what`.
pub open spec fn expect_ident(ts: Seq<TokenV>, pos: int, what: Expectation) -> PR<Seq<char>> {
    if !at_end(ts, pos) && ts[pos].kind is Identifier {
        Ok((ts[pos].kind->Identifier_0, pos + 1))
    } else {
        Err(expected(ts, pos, what))
    }
}

/// `to` is a position at or after `from`, before the last token.
pub open spec fn fine(ts: Seq<TokenV>, from: int, to: int) -> bool {
    from <= to < ts.len()
}

/// The error given where a position check fails (which does not happen).
pub open spec fn stuck(ts: Seq<TokenV>, pos: int) -> ParseErrorV {
    ParseErrorV::UnexpectedToken(ts[pos])
}

/// The infix operator of precedence `level` (1: `* / %`, 2: `+ -`,
/// 3: `< <= > >=`, 4: `== !=`, 5: `&&`, 6: `||`) that the next token spells.
pub open spec fn level_op(ts: Seq<TokenV>, pos: int, level: nat) -> Option<BinaryOp> {
    if at_end(ts, pos) {
        None
    } else {
        let t = ts[pos].kind.tag();
        if level == 6 && t == TokenTag::PipePipe {
            Some(BinaryOp::Or)
        } else if level == 5 && t == TokenTag::AmpAmp {
            Some(BinaryOp::And)
        } else if level == 4 && t == TokenTag::EqualEqual {
            Some(BinaryOp::Eq)
        } else if level == 4 && t == TokenTag::BangEqual {
            Some(BinaryOp::Ne)
        } else if level == 3 && t == TokenTag::Less {
            Some(BinaryOp::Lt)
        } else if level == 3 && t == TokenTag::LessEqual {
            Some(BinaryOp::Le)
        } else if level == 3 && t == TokenTag::Greater {
            Some(BinaryOp::Gt)
        } else if level == 3 && t == TokenTag::GreaterEqual {
            Some(BinaryOp::Ge)
        } else if level == 2 && t == TokenTag::Plus {
            Some(BinaryOp::Add)
        } else if level == 2 && t == TokenTag::Minus {
            Some(BinaryOp::Sub)
        } else if level == 1 && t == TokenTag::Star {
            Some(BinaryOp::Mul)
        } else if level == 1 && t == TokenTag::Slash {
            Some(BinaryOp::Div)
        } else if level == 1 && t == TokenTag::Percent {
            Some(BinaryOp::Mod)
        } else {
            None
        }
    }
}

/// Law: each operator token spells its own operator, at its own precedence
/// level and no other: `||` is `Or` (6); `&&` is `And` (5); `==` is `Eq` and
/// `!=` is `Ne` (4); `<` is `Lt`, `<=` is `Le`, `>` is `Gt` and `>=` is `Ge`
/// (3); `+` is `Add` and `-` is `Sub` (2); `*` is `Mul`, `/` is `Div` and `%`
/// is `Mod` (1).
pub proof fn law_operator_tokens(ts: Seq<TokenV>, pos: int, level: nat)
    requires
        !at_end(ts, pos),
        0 <= pos,
    ensures
        ts[pos].kind == TokenKindV::PipePipe ==> level_op(ts, pos, level) == if level == 6 {
            Some(BinaryOp::Or)
        } else {
            None::<BinaryOp>
        },
        ts[pos].kind == TokenKindV::AmpAmp ==> level_op(ts, pos, level) == if level == 5 {
            Some(BinaryOp::And)
        } else {
            None::<BinaryOp>
        },
        ts[pos].kind == TokenKindV::EqualEqual ==> level_op(ts, pos, level) == if level == 4 {
            Some(BinaryOp::Eq)
        } else {
            None::<BinaryOp>
        },
        ts[pos].kind == TokenKindV::BangEqual ==> level_op(ts, pos, level) == if level == 4 {
            Some(BinaryOp::Ne)
        } else {
            None::<BinaryOp>
        },
        ts[pos].kind == TokenKindV::Less ==> level_op(ts, pos, level) == if level == 3 {
            Some(BinaryOp::Lt)
        } else {
            None::<BinaryOp>
        },
        ts[pos].kind == TokenKindV::LessEqual ==> level_op(ts, pos, level) == if level == 3 {
            Some(BinaryOp::Le)
        } else {
            None::<BinaryOp>
        },
        ts[pos].kind == TokenKindV::Greater ==> level_op(ts, pos, level) == if level == 3 {
            Some(BinaryOp::Gt)
        } else {
            None::<BinaryOp>
        },
        ts[pos].kind == TokenKindV::GreaterEqual ==> level_op(ts, pos, level) == if level == 3 {
            Some(BinaryOp::Ge)
        } else {
            None::<BinaryOp>
        },
        ts[pos].kind == TokenKindV::Plus ==> level_op(ts, pos, level) == if level == 2 {
            Some(BinaryOp::Add)
        } else {
            None::<BinaryOp>
        },
        ts[pos].kind == TokenKindV::Minus ==> level_op(ts, pos, level) == if level == 2 {
            Some(BinaryOp::Sub)
        } else {
            None::<BinaryOp>
        },
        ts[pos].kind == TokenKindV::Star ==> level_op(ts, pos, level) == if level == 1 {
            Some(BinaryOp::Mul)
        } else {
            None::<BinaryOp>
        },
        ts[pos].kind == TokenKindV::Slash ==> level_op(ts, pos, level) == if level == 1 {
            Some(BinaryOp::Div)
        } else {
            None::<BinaryOp>
        },
        ts[pos].kind == TokenKindV::Percent ==> level_op(ts, pos, level) == if level == 1 {
            Some(BinaryOp::Mod)
        } else {
            None::<BinaryOp>
        },
{
}

/// expression := assignment
pub open spec fn expr_p(ts: Seq<TokenV>, pos: int) -> PR<ExprV>
    decreases ts.len() - pos, 25nat,
{
    assign_p(ts, pos)
}

/// assignment := or ( "=" assignment )?   -- the left side must be a name
pub open spec fn assign_p(ts: Seq<TokenV>, pos: int) -> PR<ExprV>
    decreases ts.len() - pos, 24nat,
{
    match binary_p(ts, pos, 6) {
        Err(e) => Err(e),
        Ok((target, p)) => if !fine(ts, pos, p) {
            Err(stuck(ts, pos))
        } else if check(ts, p, TokenTag::Equal) {
            match assign_p(ts, p + 1) {
                Err(e) => Err(e),
                Ok((value, q)) => match target {
                    ExprV::Identifier(name) => Ok(
                        (ExprV::Assign { name, value: Box::new(value) }, q),
                    ),
                    _ => Err(
                        ParseErrorV::InvalidAssignmentTarget {
                            line: ts[q - 1].line,
                            col: ts[q - 1].col,
                        },
                    ),
                },
            }
        } else {
            Ok((target, p))
        },
    }
}

/// Operators of precedence `level`, left-associative, over operands of the
/// next level (level 0: unary).
pub open spec fn binary_p(ts: Seq<TokenV>, pos: int, level: nat) -> PR<ExprV>
    decreases ts.len() - pos, 2 * level + 11,
{
    if level == 0 {
        unary_p(ts, pos)
    } else {
        match binary_p(ts, pos, (level - 1) as nat) {
            Err(e) => Err(e),
            Ok((left, p)) => if !fine(ts, pos, p) {
                Err(stuck(ts, pos))
            } else {
                binary_rest_p(ts, left, p, level)
            },
        }
    }
}

/// The rest of a chain of operators of precedence `level` after `left`.
pub open spec fn binary_rest_p(ts: Seq<TokenV>, left: ExprV, pos: int, level: nat) -> PR<ExprV>
    decreases ts.len() - pos, 2 * level + 10,
{
    if level == 0 {
        Ok((left, pos))
    } else {
        match level_op(ts, pos, level) {
            None => Ok((left, pos)),
            Some(op) => match binary_p(ts, pos + 1, (level - 1) as nat) {
                Err(e) => Err(e),
                Ok((right, q)) => if !fine(ts, pos + 1, q) {
                    Err(stuck(ts, pos))
                } else {
                    binary_rest_p(
                        ts,
                        ExprV::Binary { left: Box::new(left), op, right: Box::new(right) },
                        q,
                        level,
                    )
                },
            },
        }
    }
}

/// unary := ( "!" | "-" ) unary | call
pub open spec fn unary_p(ts: Seq<TokenV>, pos: int) -> PR<ExprV>
    decreases ts.len() - pos, 10nat,
{
    if check(ts, pos, TokenTag::Bang) || check(ts, pos, TokenTag::Minus) {
        let op = if check(ts, pos, TokenTag::Bang) { UnaryOp::Not } else { UnaryOp::Neg };
        match unary_p(ts, pos + 1) {
            Err(e) => Err(e),
            Ok((right, p)) => Ok((ExprV::Unary { op, right: Box::new(right) }, p)),
        }
    } else {
        call_p(ts, pos)
    }
}

/// call := primary ( "(" arguments? ")" | "[" expression "]" )*
pub open spec fn call_p(ts: Seq<TokenV>, pos: int) -> PR<ExprV>
    decreases ts.len() - pos, 9nat,
{
    match primary_p(ts, pos) {
        Err(e) => Err(e),
        Ok((e, p)) => if !fine(ts, pos, p) {
            Err(stuck(ts, pos))
        } else {
            call_rest_p(ts, e, p)
        },
    }
}

/// The calls and indexings that follow `callee`.
pub open spec fn call_rest_p(ts: Seq<TokenV>, callee: ExprV, pos: int) -> PR<ExprV>
    decreases ts.len() - pos, 8nat,
{
    if check(ts, pos, TokenTag::LeftParen) {
        let args = if check(ts, pos + 1, TokenTag::RightParen) {
            Ok((Seq::empty(), pos + 1))
        } else {
            expr_list_p(ts, pos + 1, Seq::empty())
        };
        match args {
            Err(e) => Err(e),
            Ok((args, q)) => match expect(ts, q, TokenTag::RightParen, Expectation::ParenAfterArguments) {
                Err(e) => Err(e),
                Ok(r) => if !fine(ts, pos + 1, r) {
                    Err(stuck(ts, pos))
                } else {
                    call_rest_p(ts, ExprV::Call { callee: Box::new(callee), args }, r)
                },
            },
        }
    } else if check(ts, pos, TokenTag::LeftBracket) {
        match expr_p(ts, pos + 1) {
            Err(e) => Err(e),
            Ok((index, q)) => match expect(ts, q, TokenTag::RightBracket, Expectation::BracketAfterIndex) {
                Err(e) => Err(e),
                Ok(r) => if !fine(ts, pos + 1, r) {
                    Err(stuck(ts, pos))
                } else {
                    call_rest_p(
                        ts,
                        ExprV::Index { array: Box::new(callee), index: Box::new(index) },
                        r,
                    )
                },
            },
        }
    } else {
        Ok((callee, pos))
    }
}

/// A comma-separated, non-empty list of expressions, after `acc`.
pub open spec fn expr_list_p(ts: Seq<TokenV>, pos: int, acc: Seq<ExprV>) -> PR<Seq<ExprV>>
    decreases ts.len() - pos, 31nat,
{
    match expr_p(ts, pos) {
        Err(e) => Err(e),
        Ok((e, p)) => if !fine(ts, pos, p) {
            Err(stuck(ts, pos))
        } else if check(ts, p, TokenTag::Comma) {
            expr_list_p(ts, p + 1, acc.push(e))
        } else {
            Ok((acc.push(e), p))
        },
    }
}

/// A comma-separated, non-empty list of parameter names, after `acc`.
pub open spec fn params_list_p(ts: Seq<TokenV>, pos: int, acc: Seq<Seq<char>>) -> PR<
    Seq<Seq<char>>,
>
    decreases ts.len() - pos,
{
    match expect_ident(ts, pos, Expectation::ParameterName) {
        Err(e) => Err(e),
        Ok((name, p)) => if !fine(ts, pos, p) {
            Err(stuck(ts, pos))
        } else if check(ts, p, TokenTag::Comma) {
            params_list_p(ts, p + 1, acc.push(name))
        } else {
            Ok((acc.push(name), p))
        },
    }
}

/// A possibly empty parameter list, up to (not including) the `)`.
pub open spec fn params_p(ts: Seq<TokenV>, pos: int) -> PR<Seq<Seq<char>>> {
    if check(ts, pos, TokenTag::RightParen) {
        Ok((Seq::empty(), pos))
    } else {
        params_list_p(ts, pos, Seq::empty())
    }
}

/// primary := number | string | true | false | null | name | "(" expression ")"
///          | "[" elements? "]" | "fn" "(" parameters? ")" block
pub open spec fn primary_p(ts: Seq<TokenV>, pos: int) -> PR<ExprV>
    decreases ts.len() - pos, 7nat,
{
    if !(0 <= pos < ts.len()) {
        Err(stuck(ts, pos))
    } else {
        match ts[pos].kind {
            TokenKindV::Number(n) => Ok((ExprV::Number(n), pos + 1)),
            TokenKindV::Str(s) => Ok((ExprV::StringLit(s), pos + 1)),
            TokenKindV::True => Ok((ExprV::Bool(true), pos + 1)),
            TokenKindV::False => Ok((ExprV::Bool(false), pos + 1)),
            TokenKindV::Null => Ok((ExprV::Null, pos + 1)),
            TokenKindV::Identifier(name) => Ok((ExprV::Identifier(name), pos + 1)),
            TokenKindV::LeftParen => match expr_p(ts, pos + 1) {
                Err(e) => Err(e),
                Ok((e, p)) => match expect(ts, p, TokenTag::RightParen, Expectation::ParenAfterExpression) {
                    Err(x) => Err(x),
                    Ok(q) => Ok((e, q)),
                },
            },
            TokenKindV::LeftBracket => {
                let elems = if check(ts, pos + 1, TokenTag::RightBracket) {
                    Ok((Seq::empty(), pos + 1))
                } else {
                    expr_list_p(ts, pos + 1, Seq::empty())
                };
                match elems {
                    Err(e) => Err(e),
                    Ok((elems, p)) => match expect(ts, p, TokenTag::RightBracket, Expectation::BracketAfterElements) {
                        Err(e) => Err(e),
                        Ok(q) => Ok((ExprV::Array(elems), q)),
                    },
                }
            },
            TokenKindV::Fn => match expect(ts, pos + 1, TokenTag::LeftParen, Expectation::ParenAfterFn) {
                Err(e) => Err(e),
                Ok(p1) => match params_p(ts, p1) {
                    Err(e) => Err(e),
                    Ok((params, p2)) => match expect(ts, p2, TokenTag::RightParen, Expectation::ParenAfterParameters) {
                        Err(e) => Err(e),
                        Ok(p3) => match expect(ts, p3, TokenTag::LeftBrace, Expectation::BraceBeforeFunctionBody) {
                            Err(e) => Err(e),
                            Ok(p4) => if !fine(ts, pos + 1, p4) {
                                Err(stuck(ts, pos))
                            } else {
                                match block_p(ts, p4) {
                                    Err(e) => Err(e),
                                    Ok((body, p5)) => Ok((ExprV::Lambda { params, body }, p5)),
                                }
                            },
                        },
                    },
                },
            },
            _ => Err(ParseErrorV::UnexpectedToken(ts[pos])),
        }
    }
}

/// block := declaration* "}"   (the `{` is already consumed)
pub open spec fn block_p(ts: Seq<TokenV>, pos: int) -> PR<Seq<StmtV>>
    decreases ts.len() - pos, 30nat,
{
    block_rest_p(ts, pos, Seq::empty())
}

/// The rest of a block after the statements `acc`.
pub open spec fn block_rest_p(ts: Seq<TokenV>, pos: int, acc: Seq<StmtV>) -> PR<Seq<StmtV>>
    decreases ts.len() - pos, 29nat,
{
    if !check(ts, pos, TokenTag::RightBrace) && !at_end(ts, pos) {
        match declaration_p(ts, pos) {
            Err(e) => Err(e),
            Ok((s, p)) => if !(pos < p < ts.len()) {
                Err(stuck(ts, pos))
            } else {
                block_rest_p(ts, p, acc.push(s))
            },
        }
    } else {
        match expect(ts, pos, TokenTag::RightBrace, Expectation::BraceAfterBlock) {
            Err(e) => Err(e),
            Ok(q) => Ok((acc, q)),
        }
    }
}

/// declaration := "let" let_statement | "fn" NAME fn_statement | statement
pub open spec fn declaration_p(ts: Seq<TokenV>, pos: int) -> PR<StmtV>
    decreases ts.len() - pos, 28nat,
{
    if check(ts, pos, TokenTag::Let) {
        let_p(ts, pos + 1)
    } else if check(ts, pos, TokenTag::Fn) && pos + 1 < ts.len() && ts[pos + 1].kind is Identifier {
        fn_p(ts, pos + 1)
    } else {
        statement_p(ts, pos)
    }
}

/// let_statement := NAME "=" expression
pub open spec fn let_p(ts: Seq<TokenV>, pos: int) -> PR<StmtV>
    decreases ts.len() - pos, 27nat,
{
    match expect_ident(ts, pos, Expectation::VariableName) {
        Err(e) => Err(e),
        Ok((name, p1)) => match expect(ts, p1, TokenTag::Equal, Expectation::EqualsAfterName) {
            Err(e) => Err(e),
            Ok(p2) => if !fine(ts, pos, p2) {
                Err(stuck(ts, pos))
            } else {
                match expr_p(ts, p2) {
                    Err(e) => Err(e),
                    Ok((value, p3)) => Ok((StmtV::Let { name, value }, p3)),
                }
            },
        },
    }
}

/// fn_statement := NAME "(" parameters? ")" "{" block
pub open spec fn fn_p(ts: Seq<TokenV>, pos: int) -> PR<StmtV>
    decreases ts.len() - pos, 27nat,
{
    match expect_ident(ts, pos, Expectation::FunctionName) {
        Err(e) => Err(e),
        Ok((name, p1)) => match expect(ts, p1, TokenTag::LeftParen, Expectation::ParenAfterFunctionName) {
            Err(e) => Err(e),
            Ok(p2) => match params_p(ts, p2) {
                Err(e) => Err(e),
                Ok((params, p3)) => match expect(ts, p3, TokenTag::RightParen, Expectation::ParenAfterParameters) {
                    Err(e) => Err(e),
                    Ok(p4) => match expect(ts, p4, TokenTag::LeftBrace, Expectation::BraceBeforeFunctionBody) {
                        Err(e) => Err(e),
                        Ok(p5) => if !fine(ts, pos + 1, p5) {
                            Err(stuck(ts, pos))
                        } else {
                            match block_p(ts, p5) {
                                Err(e) => Err(e),
                                Ok((body, p6)) => Ok((StmtV::Fn { name, params, body }, p6)),
                            }
                        },
                    },
                },
            },
        },
    }
}

/// statement := "print" expression | "if" if_statement | "while" while_statement
///            | "return" expression | expression
pub open spec fn statement_p(ts: Seq<TokenV>, pos: int) -> PR<StmtV>
    decreases ts.len() - pos, 27nat,
{
    if check(ts, pos, TokenTag::Print) {
        match expr_p(ts, pos + 1) {
            Err(e) => Err(e),
            Ok((e, p)) => Ok((StmtV::Print(e), p)),
        }
    } else if check(ts, pos, TokenTag::If) {
        if_p(ts, pos + 1)
    } else if check(ts, pos, TokenTag::While) {
        while_p(ts, pos + 1)
    } else if check(ts, pos, TokenTag::Return) {
        match expr_p(ts, pos + 1) {
            Err(e) => Err(e),
            Ok((e, p)) => Ok((StmtV::Return(e), p)),
        }
    } else {
        match expr_p(ts, pos) {
            Err(e) => Err(e),
            Ok((e, p)) => Ok((StmtV::Expression(e), p)),
        }
    }
}

/// if_statement := expression "{" block ( "else" "{" block )?
pub open spec fn if_p(ts: Seq<TokenV>, pos: int) -> PR<StmtV>
    decreases ts.len() - pos, 26nat,
{
    match expr_p(ts, pos) {
        Err(e) => Err(e),
        Ok((condition, p1)) => match expect(ts, p1, TokenTag::LeftBrace, Expectation::BraceAfterIfCondition) {
            Err(e) => Err(e),
            Ok(p2) => if !fine(ts, pos + 1, p2) {
                Err(stuck(ts, pos))
            } else {
                match block_p(ts, p2) {
                    Err(e) => Err(e),
                    Ok((then_block, p3)) => if !fine(ts, p2, p3) {
                        Err(stuck(ts, pos))
                    } else if check(ts, p3, TokenTag::Else) {
                        match expect(ts, p3 + 1, TokenTag::LeftBrace, Expectation::BraceAfterElse) {
                            Err(e) => Err(e),
                            Ok(p4) => if !fine(ts, p3, p4) {
                                Err(stuck(ts, pos))
                            } else {
                                match block_p(ts, p4) {
                                    Err(e) => Err(e),
                                    Ok((else_block, p5)) => Ok(
                                        (
                                            StmtV::If {
                                                condition,
                                                then_block,
                                                else_block: Some(else_block),
                                            },
                                            p5,
                                        ),
                                    ),
                                }
                            },
                        }
                    } else {
                        Ok((StmtV::If { condition, then_block, else_block: None }, p3))
                    },
                }
            },
        },
    }
}

/// while_statement := expression "{" block
pub open spec fn while_p(ts: Seq<TokenV>, pos: int) -> PR<StmtV>
    decreases ts.len() - pos, 26nat,
{
    match expr_p(ts, pos) {
        Err(e) => Err(e),
        Ok((condition, p1)) => match expect(ts, p1, TokenTag::LeftBrace, Expectation::BraceBeforeWhileBody) {
            Err(e) => Err(e),
            Ok(p2) => if !fine(ts, pos + 1, p2) {
                Err(stuck(ts, pos))
            } else {
                match block_p(ts, p2) {
                    Err(e) => Err(e),
                    Ok((body, p3)) => Ok((StmtV::While { condition, body }, p3)),
                }
            },
        },
    }
}

/// program := declaration* EOF, from `pos` after the statements `acc`.
pub open spec fn program_p(ts: Seq<TokenV>, pos: int, acc: Seq<StmtV>) -> Result<
    Seq<StmtV>,
    ParseErrorV,
>
    decreases ts.len() - pos,
{
    if at_end(ts, pos) {
        Ok(acc)
    } else {
        match declaration_p(ts, pos) {
            Err(e) => Err(e),
            Ok((s, p)) => if !(pos < p < ts.len()) {
                Err(stuck(ts, pos))
            } else {
                program_p(ts, p, acc.push(s))
            },
        }
    }
}

/// The statements of a whole token sequence.
pub open spec fn parse_spec(ts: Seq<TokenV>) -> Result<Seq<StmtV>, ParseErrorV> {
    program_p(ts, 0, Seq::empty())
}


// ---------------------------------------------------------------------------
// The parser
// ---------------------------------------------------------------------------

/// Some token at or after `pos` is an `Eof`.
pub open spec fn eof_ahead(ts: Seq<TokenV>, pos: int) -> bool {
    exists|e: int| pos <= e < ts.len() && (#[trigger] ts[e]).kind is Eof
}

/// `r`, read up to `p`, is what the grammar gives as `s`.
pub open spec fn res<T: View>(r: Result<T, ParseError>, p: usize, s: PR<T::V>) -> bool {
    match r {
        Ok(v) => s == Ok::<(T::V, int), ParseErrorV>((v@, p as int)),
        Err(x) => s == Err::<(T::V, int), ParseErrorV>(x@),
    }
}

pub open spec fn exprs_res(r: Result<Vec<Expr>, ParseError>, p: usize, s: PR<Seq<ExprV>>) -> bool {
    match r {
        Ok(v) => s == Ok::<(Seq<ExprV>, int), ParseErrorV>((exprs_view(v@), p as int)),
        Err(x) => s == Err::<(Seq<ExprV>, int), ParseErrorV>(x@),
    }
}

pub open spec fn stmts_res(r: Result<Vec<Stmt>, ParseError>, p: usize, s: PR<Seq<StmtV>>) -> bool {
    match r {
        Ok(v) => s == Ok::<(Seq<StmtV>, int), ParseErrorV>((stmts_view(v@), p as int)),
        Err(x) => s == Err::<(Seq<StmtV>, int), ParseErrorV>(x@),
    }
}

pub open spec fn names_res(r: Result<Vec<String>, ParseError>, p: usize, s: PR<Seq<Seq<char>>>) -> bool {
    match r {
        Ok(v) => s == Ok::<(Seq<Seq<char>>, int), ParseErrorV>((names_view(v@), p as int)),
        Err(x) => s == Err::<(Seq<Seq<char>>, int), ParseErrorV>(x@),
    }
}

/// Recursive descent parser for the Gello language.
pub struct Parser {
    tokens: Vec<Token>,
    current: usize,
}

impl Parser {
    /// The models of the tokens being parsed.
    pub closed spec fn tokens_model(&self) -> Seq<TokenV> {
        tokens_view(self.tokens@)
    }

    /// The position of the next token.
    pub closed spec fn position(&self) -> int {
        self.current as int
    }

    /// The next token exists and an `Eof` lies at or after it.
    pub closed spec fn wf(&self) -> bool {
        &&& self.current < self.tokens@.len()
        &&& eof_ahead(self.tokens_model(), self.current as int)
    }

    spec fn advanced(old: Parser, new: Parser) -> bool {
        &&& new.wf()
        &&& new.tokens == old.tokens
        &&& old.current <= new.current
    }

    pub fn new(tokens: Vec<Token>) -> (r: Self)
        ensures
            r.tokens_model() == tokens_view(tokens@),
            r.position() == 0,
            eof_ahead(tokens_view(tokens@), 0) ==> r.wf(),
    {
        Self { tokens, current: 0 }
    }

    /// Parse the token stream into a list of statements.
    pub fn parse(&mut self) -> (r: Result<Vec<Stmt>, ParseError>)
        requires
            old(self).wf(),
        ensures
            match r {
                Ok(v) => program_p(old(self).tokens_model(), old(self).position(), Seq::empty())
                    == Ok::<Seq<StmtV>, ParseErrorV>(stmts_view(v@)),
                Err(e) => program_p(old(self).tokens_model(), old(self).position(), Seq::empty())
                    == Err::<Seq<StmtV>, ParseErrorV>(e@),
            },
    {
        let ghost ts = self.tokens_model();
        let ghost pos0 = self.current as int;
        let mut statements: Vec<Stmt> = Vec::new();
        assert(stmts_view(statements@) =~= Seq::<StmtV>::empty());
        while !self.is_at_end()
            invariant
                self.wf(),
                self.tokens_model() == ts,
                ts == old(self).tokens_model(),
                pos0 == old(self).position(),
                program_p(ts, pos0, Seq::empty()) == program_p(
                    ts,
                    self.current as int,
                    stmts_view(statements@),
                ),
            decreases ts.len() - self.current,
        {
            let ghost before = statements@;
            let s = match self.declaration() {
                Ok(s) => s,
                Err(e) => return Err(e),
            };
            proof {
                lemma_stmts_view_push(before, s);
            }
            statements.push(s);
        }
        Ok(statements)
    }

    // --- Helper methods ---

    proof fn lemma_token(&self, i: int)
        requires
            0 <= i < self.tokens@.len(),
        ensures
            self.tokens_model()[i] == self.tokens@[i]@,
            self.tokens_model().len() == self.tokens@.len(),
    {
    }

    fn peek(&self) -> (r: &Token)
        requires
            self.wf(),
        ensures
            *r == self.tokens@[self.current as int],
            r@ == self.tokens_model()[self.current as int],
    {
        &self.tokens[self.current]
    }

    fn is_at_end(&self) -> (r: bool)
        requires
            self.wf(),
        ensures
            r == at_end(self.tokens_model(), self.current as int),
    {
        let r = matches!(self.peek().kind, TokenKind::Eof);
        proof {
            let ts = self.tokens_model();
            let e = choose|e: int| self.current <= e < ts.len() && (#[trigger] ts[e]).kind is Eof;
            assert(ts[e].kind is Eof);
        }
        r
    }

    fn advance(&mut self)
        requires
            old(self).wf(),
        ensures
            Self::advanced(*old(self), *final(self)),
            final(self).current == if at_end(old(self).tokens_model(), old(self).current as int) {
                old(self).current as int
            } else {
                old(self).current + 1
            },
    {
        if !self.is_at_end() {
            let len = self.tokens.len();
            proof {
                let ts = self.tokens_model();
                let e = choose|e: int| self.current <= e < ts.len() && (#[trigger] ts[e]).kind is Eof;
                assert(ts[e].kind is Eof);
                assert(self.current < e);
                assert(ts.len() == len);
            }
            self.current = self.current + 1;
        }
    }

    fn check(&self, tag: TokenTag) -> (r: bool)
        requires
            self.wf(),
        ensures
            r == check(self.tokens_model(), self.current as int, tag),
    {
        if self.is_at_end() {
            return false;
        }
        self.peek().kind.tag() == tag
    }

    fn match_token(&mut self, tag: TokenTag) -> (r: bool)
        requires
            old(self).wf(),
        ensures
            Self::advanced(*old(self), *final(self)),
            r == check(old(self).tokens_model(), old(self).current as int, tag),
            final(self).current == old(self).current + if r { 1int } else { 0 },
    {
        if self.check(tag) {
            self.advance();
            true
        } else {
            false
        }
    }

    fn expect(&mut self, tag: TokenTag, what: Expectation) -> (r: Result<(), ParseError>)
        requires
            old(self).wf(),
        ensures
            Self::advanced(*old(self), *final(self)),
            match expect(old(self).tokens_model(), old(self).current as int, tag, what) {
                Ok(q) => r is Ok && final(self).current == q,
                Err(e) => r matches Err(x) && x@ == e,
            },
    {
        if self.check(tag) {
            self.advance();
            Ok(())
        } else {
            let token = self.peek();
            Err(ParseError::Expected { what, line: token.line, col: token.col })
        }
    }

    fn expect_identifier(&mut self, what: Expectation) -> (r: Result<String, ParseError>)
        requires
            old(self).wf(),
        ensures
            Self::advanced(*old(self), *final(self)),
            res(r, final(self).current, expect_ident(old(self).tokens_model(), old(self).current as int, what)),
            r is Ok ==> old(self).current < final(self).current,
    {
        let at_end = self.is_at_end();
        let token = self.peek();
        match &token.kind {
            TokenKind::Identifier(name) => {
                if !at_end {
                    let name = name.clone();
                    self.advance();
                    return Ok(name);
                }
            },
            _ => {},
        }
        let token = self.peek();
        Err(ParseError::Expected { what, line: token.line, col: token.col })
    }

    /// The infix operator of precedence `level` at the next token, if any.
    fn level_op(&self, level: u8) -> (r: Option<BinaryOp>)
        requires
            self.wf(),
        ensures
            r == level_op(self.tokens_model(), self.current as int, level as nat),
    {
        if self.is_at_end() {
            return None;
        }
        let t = self.peek().kind.tag();
        if level == 6 && t == TokenTag::PipePipe {
            Some(BinaryOp::Or)
        } else if level == 5 && t == TokenTag::AmpAmp {
            Some(BinaryOp::And)
        } else if level == 4 && t == TokenTag::EqualEqual {
            Some(BinaryOp::Eq)
        } else if level == 4 && t == TokenTag::BangEqual {
            Some(BinaryOp::Ne)
        } else if level == 3 && t == TokenTag::Less {
            Some(BinaryOp::Lt)
        } else if level == 3 && t == TokenTag::LessEqual {
            Some(BinaryOp::Le)
        } else if level == 3 && t == TokenTag::Greater {
            Some(BinaryOp::Gt)
        } else if level == 3 && t == TokenTag::GreaterEqual {
            Some(BinaryOp::Ge)
        } else if level == 2 && t == TokenTag::Plus {
            Some(BinaryOp::Add)
        } else if level == 2 && t == TokenTag::Minus {
            Some(BinaryOp::Sub)
        } else if level == 1 && t == TokenTag::Star {
            Some(BinaryOp::Mul)
        } else if level == 1 && t == TokenTag::Slash {
            Some(BinaryOp::Div)
        } else if level == 1 && t == TokenTag::Percent {
            Some(BinaryOp::Mod)
        } else {
            None
        }
    }

    // --- Expression parsing (precedence climbing) ---

    fn expression(&mut self) -> (r: Result<Expr, ParseError>)
        requires
            old(self).wf(),
        ensures
            Self::advanced(*old(self), *final(self)),
            res(r, final(self).current, expr_p(old(self).tokens_model(), old(self).current as int)),
            r is Ok ==> old(self).current < final(self).current,
        decreases old(self).tokens@.len() - old(self).current, 25nat,
    {
        self.assignment()
    }

    fn assignment(&mut self) -> (r: Result<Expr, ParseError>)
        requires
            old(self).wf(),
        ensures
            Self::advanced(*old(self), *final(self)),
            res(r, final(self).current, assign_p(old(self).tokens_model(), old(self).current as int)),
            r is Ok ==> old(self).current < final(self).current,
        decreases old(self).tokens@.len() - old(self).current, 24nat,
    {
        let target = self.binary(6)?;
        if self.match_token(TokenTag::Equal) {
            let value = self.assignment()?;
            match target {
                Expr::Identifier(name) => Ok(Expr::Assign { name, value: Box::new(value) }),
                _ => {
                    let token = &self.tokens[self.current - 1];
                    Err(ParseError::InvalidAssignmentTarget { line: token.line, col: token.col })
                },
            }
        } else {
            Ok(target)
        }
    }

    /// Operators of precedence `level` (see `level_op`), left-associative.
    fn binary(&mut self, level: u8) -> (r: Result<Expr, ParseError>)
        requires
            old(self).wf(),
            level <= 6,
        ensures
            Self::advanced(*old(self), *final(self)),
            res(r, final(self).current, binary_p(old(self).tokens_model(), old(self).current as int, level as nat)),
            r is Ok ==> old(self).current < final(self).current,
        decreases old(self).tokens@.len() - old(self).current, 2 * level + 11,
    {
        if level == 0 {
            return self.unary();
        }
        let ghost ts = self.tokens_model();
        let ghost pos0 = self.current as int;
        let mut expr = self.binary(level - 1)?;
        loop
            invariant_except_break
                self.wf(),
                self.tokens == old(self).tokens,
                ts == self.tokens_model(),
                pos0 == old(self).current,
                pos0 < self.current,
                1 <= level <= 6,
                binary_p(ts, pos0, level as nat) == binary_rest_p(ts, expr@, self.current as int, level as nat),
            ensures
                self.wf(),
                self.tokens == old(self).tokens,
                pos0 < self.current,
                binary_p(ts, pos0, level as nat) == Ok::<(ExprV, int), ParseErrorV>((expr@, self.current as int)),
            decreases ts.len() - self.current,
        {
            match self.level_op(level) {
                None => {
                    break;
                },
                Some(op) => {
                    self.advance();
                    let right = self.binary(level - 1)?;
                    expr = Expr::Binary { left: Box::new(expr), op, right: Box::new(right) };
                },
            }
        }
        Ok(expr)
    }

    fn unary(&mut self) -> (r: Result<Expr, ParseError>)
        requires
            old(self).wf(),
        ensures
            Self::advanced(*old(self), *final(self)),
            res(r, final(self).current, unary_p(old(self).tokens_model(), old(self).current as int)),
            r is Ok ==> old(self).current < final(self).current,
        decreases old(self).tokens@.len() - old(self).current, 10nat,
    {
        if self.check(TokenTag::Bang) || self.check(TokenTag::Minus) {
            let op = if self.check(TokenTag::Bang) { UnaryOp::Not } else { UnaryOp::Neg };
            self.advance();
            let right = self.unary()?;
            return Ok(Expr::Unary { op, right: Box::new(right) });
        }
        self.call()
    }

    fn call(&mut self) -> (r: Result<Expr, ParseError>)
        requires
            old(self).wf(),
        ensures
            Self::advanced(*old(self), *final(self)),
            res(r, final(self).current, call_p(old(self).tokens_model(), old(self).current as int)),
            r is Ok ==> old(self).current < final(self).current,
        decreases old(self).tokens@.len() - old(self).current, 9nat,
    {
        let ghost ts = self.tokens_model();
        let ghost pos0 = self.current as int;
        let mut expr = self.primary()?;
        loop
            invariant_except_break
                self.wf(),
                self.tokens == old(self).tokens,
                ts == self.tokens_model(),
                pos0 == old(self).current,
                pos0 < self.current,
                call_p(ts, pos0) == call_rest_p(ts, expr@, self.current as int),
            ensures
                self.wf(),
                self.tokens == old(self).tokens,
                pos0 < self.current,
                call_p(ts, pos0) == Ok::<(ExprV, int), ParseErrorV>((expr@, self.current as int)),
            decreases ts.len() - self.current,
        {
            if self.match_token(TokenTag::LeftParen) {
                // Function call
                let mut args: Vec<Expr> = Vec::new();
                if !self.check(TokenTag::RightParen) {
                    args = self.expr_list()?;
                } else {
                    assert(exprs_view(args@) =~= Seq::<ExprV>::empty());
                }
                self.expect(TokenTag::RightParen, Expectation::ParenAfterArguments)?;
                expr = Expr::Call { callee: Box::new(expr), args };
            } else if self.match_token(TokenTag::LeftBracket) {
                // Array indexing
                let index = self.expression()?;
                self.expect(TokenTag::RightBracket, Expectation::BracketAfterIndex)?;
                expr = Expr::Index { array: Box::new(expr), index: Box::new(index) };
            } else {
                break;
            }
        }
        Ok(expr)
    }

    /// A comma-separated, non-empty list of expressions.
    fn expr_list(&mut self) -> (r: Result<Vec<Expr>, ParseError>)
        requires
            old(self).wf(),
        ensures
            Self::advanced(*old(self), *final(self)),
            exprs_res(r, final(self).current, expr_list_p(old(self).tokens_model(), old(self).current as int, Seq::empty())),
        decreases old(self).tokens@.len() - old(self).current, 31nat,
    {
        let ghost ts = self.tokens_model();
        let ghost pos0 = self.current as int;
        let mut items: Vec<Expr> = Vec::new();
        assert(exprs_view(items@) =~= Seq::<ExprV>::empty());
        loop
            invariant_except_break
                self.wf(),
                self.tokens == old(self).tokens,
                ts == self.tokens_model(),
                pos0 == old(self).current,
                pos0 <= self.current,
                expr_list_p(ts, pos0, Seq::empty()) == expr_list_p(ts, self.current as int, exprs_view(items@)),
            ensures
                self.wf(),
                self.tokens == old(self).tokens,
                pos0 <= self.current,
                expr_list_p(ts, pos0, Seq::empty()) == Ok::<(Seq<ExprV>, int), ParseErrorV>(
                    (exprs_view(items@), self.current as int),
                ),
            decreases ts.len() - self.current,
        {
            let e = self.expression()?;
            let ghost before = items@;
            proof {
                lemma_exprs_view_push(before, e);
            }
            items.push(e);
            if !self.match_token(TokenTag::Comma) {
                break;
            }
        }
        Ok(items)
    }

    /// A possibly empty list of parameter names, up to the `)`.
    fn params(&mut self) -> (r: Result<Vec<String>, ParseError>)
        requires
            old(self).wf(),
        ensures
            Self::advanced(*old(self), *final(self)),
            names_res(r, final(self).current, params_p(old(self).tokens_model(), old(self).current as int)),
    {
        let ghost ts = self.tokens_model();
        let ghost pos0 = self.current as int;
        let mut params: Vec<String> = Vec::new();
        assert(names_view(params@) =~= Seq::<Seq<char>>::empty());
        if self.check(TokenTag::RightParen) {
            return Ok(params);
        }
        loop
            invariant_except_break
                self.wf(),
                self.tokens == old(self).tokens,
                ts == self.tokens_model(),
                pos0 == old(self).current,
                pos0 <= self.current,
                params_p(ts, pos0) == params_list_p(ts, self.current as int, names_view(params@)),
            ensures
                self.wf(),
                self.tokens == old(self).tokens,
                pos0 <= self.current,
                params_p(ts, pos0) == Ok::<(Seq<Seq<char>>, int), ParseErrorV>(
                    (names_view(params@), self.current as int),
                ),
            decreases ts.len() - self.current,
        {
            let name = self.expect_identifier(Expectation::ParameterName)?;
            let ghost before = params@;
            params.push(name);
            assert(names_view(params@) =~= names_view(before).push(name@));
            if !self.match_token(TokenTag::Comma) {
                break;
            }
        }
        Ok(params)
    }

    fn primary(&mut self) -> (r: Result<Expr, ParseError>)
        requires
            old(self).wf(),
        ensures
            Self::advanced(*old(self), *final(self)),
            res(r, final(self).current, primary_p(old(self).tokens_model(), old(self).current as int)),
            r is Ok ==> old(self).current < final(self).current,
        decreases old(self).tokens@.len() - old(self).current, 7nat,
    {
        let token = self.peek().duplicate();
        proof {
            self.lemma_token(self.current as int);
        }
        match &token.kind {
            TokenKind::Number(n) => {
                let value = n.clone();
                self.advance();
                Ok(Expr::Number(value))
            },
            TokenKind::String(s) => {
                let value = s.clone();
                self.advance();
                Ok(Expr::StringLit(value))
            },
            TokenKind::True => {
                self.advance();
                Ok(Expr::Bool(true))
            },
            TokenKind::False => {
                self.advance();
                Ok(Expr::Bool(false))
            },
            TokenKind::Null => {
                self.advance();
                Ok(Expr::Null)
            },
            TokenKind::Identifier(name) => {
                let name = name.clone();
                self.advance();
                Ok(Expr::Identifier(name))
            },
            TokenKind::LeftParen => {
                self.advance();
                let expr = self.expression()?;
                self.expect(TokenTag::RightParen, Expectation::ParenAfterExpression)?;
                Ok(expr)
            },
            TokenKind::LeftBracket => {
                // Array literal
                self.advance();
                let mut elements: Vec<Expr> = Vec::new();
                if !self.check(TokenTag::RightBracket) {
                    elements = self.expr_list()?;
                } else {
                    assert(exprs_view(elements@) =~= Seq::<ExprV>::empty());
                }
                self.expect(TokenTag::RightBracket, Expectation::BracketAfterElements)?;
                Ok(Expr::Array(elements))
            },
            TokenKind::Fn => {
                // Anonymous function (lambda): fn(params) { body }
                self.advance();
                self.expect(TokenTag::LeftParen, Expectation::ParenAfterFn)?;
                let params = self.params()?;
                self.expect(TokenTag::RightParen, Expectation::ParenAfterParameters)?;
                self.expect(TokenTag::LeftBrace, Expectation::BraceBeforeFunctionBody)?;
                let body = self.block()?;
                Ok(Expr::Lambda { params, body })
            },
            _ => Err(ParseError::UnexpectedToken(token)),
        }
    }

    // --- Statement parsing ---

    fn block(&mut self) -> (r: Result<Vec<Stmt>, ParseError>)
        requires
            old(self).wf(),
        ensures
            Self::advanced(*old(self), *final(self)),
            stmts_res(r, final(self).current, block_p(old(self).tokens_model(), old(self).current as int)),
            r is Ok ==> old(self).current < final(self).current,
        decreases old(self).tokens@.len() - old(self).current, 30nat,
    {
        let ghost ts = self.tokens_model();
        let ghost pos0 = self.current as int;
        let mut statements: Vec<Stmt> = Vec::new();
        assert(stmts_view(statements@) =~= Seq::<StmtV>::empty());
        while !self.check(TokenTag::RightBrace) && !self.is_at_end()
            invariant
                self.wf(),
                self.tokens == old(self).tokens,
                ts == self.tokens_model(),
                pos0 == old(self).current,
                pos0 <= self.current,
                block_p(ts, pos0) == block_rest_p(ts, self.current as int, stmts_view(statements@)),
            decreases ts.len() - self.current,
        {
            let ghost before = statements@;
            let s = self.declaration()?;
            proof {
                lemma_stmts_view_push(before, s);
            }
            statements.push(s);
        }
        self.expect(TokenTag::RightBrace, Expectation::BraceAfterBlock)?;
        Ok(statements)
    }

    fn declaration(&mut self) -> (r: Result<Stmt, ParseError>)
        requires
            old(self).wf(),
        ensures
            Self::advanced(*old(self), *final(self)),
            res(r, final(self).current, declaration_p(old(self).tokens_model(), old(self).current as int)),
            r is Ok ==> old(self).current < final(self).current,
        decreases old(self).tokens@.len() - old(self).current, 28nat,
    {
        if self.check(TokenTag::Let) {
            self.advance();
            self.let_statement()
        } else if self.check(TokenTag::Fn) {
            // Check if this is a named function statement or anonymous lambda
            if self.peek_next_is_identifier() {
                self.advance();
                self.fn_statement()
            } else {
                self.statement()
            }
        } else {
            self.statement()
        }
    }

    fn peek_next_is_identifier(&self) -> (r: bool)
        requires
            self.wf(),
        ensures
            r == (self.current + 1 < self.tokens_model().len() && self.tokens_model()[self.current
                + 1].kind is Identifier),
    {
        if self.current < self.tokens.len() - 1 {
            proof {
                self.lemma_token(self.current + 1);
            }
            matches!(self.tokens[self.current + 1].kind, TokenKind::Identifier(_))
        } else {
            false
        }
    }

    fn let_statement(&mut self) -> (r: Result<Stmt, ParseError>)
        requires
            old(self).wf(),
        ensures
            Self::advanced(*old(self), *final(self)),
            res(r, final(self).current, let_p(old(self).tokens_model(), old(self).current as int)),
            r is Ok ==> old(self).current < final(self).current,
        decreases old(self).tokens@.len() - old(self).current, 27nat,
    {
        let name = self.expect_identifier(Expectation::VariableName)?;
        self.expect(TokenTag::Equal, Expectation::EqualsAfterName)?;
        let value = self.expression()?;
        Ok(Stmt::Let { name, value })
    }

    fn fn_statement(&mut self) -> (r: Result<Stmt, ParseError>)
        requires
            old(self).wf(),
        ensures
            Self::advanced(*old(self), *final(self)),
            res(r, final(self).current, fn_p(old(self).tokens_model(), old(self).current as int)),
            r is Ok ==> old(self).current < final(self).current,
        decreases old(self).tokens@.len() - old(self).current, 27nat,
    {
        let name = self.expect_identifier(Expectation::FunctionName)?;
        self.expect(TokenTag::LeftParen, Expectation::ParenAfterFunctionName)?;
        let params = self.params()?;
        self.expect(TokenTag::RightParen, Expectation::ParenAfterParameters)?;
        self.expect(TokenTag::LeftBrace, Expectation::BraceBeforeFunctionBody)?;
        let body = self.block()?;
        Ok(Stmt::Fn { name, params, body })
    }

    fn statement(&mut self) -> (r: Result<Stmt, ParseError>)
        requires
            old(self).wf(),
        ensures
            Self::advanced(*old(self), *final(self)),
            res(r, final(self).current, statement_p(old(self).tokens_model(), old(self).current as int)),
            r is Ok ==> old(self).current < final(self).current,
        decreases old(self).tokens@.len() - old(self).current, 27nat,
    {
        if self.check(TokenTag::Print) {
            self.advance();
            let expr = self.expression()?;
            Ok(Stmt::Print(expr))
        } else if self.check(TokenTag::If) {
            self.advance();
            self.if_statement()
        } else if self.check(TokenTag::While) {
            self.advance();
            self.while_statement()
        } else if self.check(TokenTag::Return) {
            self.advance();
            let value = self.expression()?;
            Ok(Stmt::Return(value))
        } else {
            let expr = self.expression()?;
            Ok(Stmt::Expression(expr))
        }
    }

    fn if_statement(&mut self) -> (r: Result<Stmt, ParseError>)
        requires
            old(self).wf(),
        ensures
            Self::advanced(*old(self), *final(self)),
            res(r, final(self).current, if_p(old(self).tokens_model(), old(self).current as int)),
            r is Ok ==> old(self).current < final(self).current,
        decreases old(self).tokens@.len() - old(self).current, 26nat,
    {
        let condition = self.expression()?;
        self.expect(TokenTag::LeftBrace, Expectation::BraceAfterIfCondition)?;
        let then_block = self.block()?;
        let else_block = if self.check(TokenTag::Else) {
            self.advance();
            self.expect(TokenTag::LeftBrace, Expectation::BraceAfterElse)?;
            Some(self.block()?)
        } else {
            None
        };
        Ok(Stmt::If { condition, then_block, else_block })
    }

    fn while_statement(&mut self) -> (r: Result<Stmt, ParseError>)
        requires
            old(self).wf(),
        ensures
            Self::advanced(*old(self), *final(self)),
            res(r, final(self).current, while_p(old(self).tokens_model(), old(self).current as int)),
            r is Ok ==> old(self).current < final(self).current,
        decreases old(self).tokens@.len() - old(self).current, 26nat,
    {
        let condition = self.expression()?;
        self.expect(TokenTag::LeftBrace, Expectation::BraceBeforeWhileBody)?;
        let body = self.block()?;
        Ok(Stmt::While { condition, body })
    }
}

} // verus!
