//! The Gello lexer: source text to tokens.
use vstd::prelude::*;
use crate::text::{
    char_is_alphabetic, char_is_digit, char_is_numeric, chars_of, is_digit, is_letter, is_numeral,
    same_chars, string_of, string_of_range,
};
use crate::token::{tokens_view, Token, TokenKind, TokenKindV, TokenV};

verus! {

/// Why a source text could not be tokenized. Lines and columns are 1-based.
#[derive(Debug)]
pub enum LexError {
    /// A character that starts no token (`&` and `|` not doubled among them).
    UnexpectedChar { ch: char, line: usize, col: usize },
    /// A backslash in a string literal followed by something other than
    /// `n`, `t`, `r`, `\` or `"`.
    InvalidEscape { line: usize, col: usize },
    /// A string literal with no closing quote; the position is its opening quote.
    UnterminatedString { line: usize, col: usize },
}

// ---------------------------------------------------------------------------
// The lexical grammar
// ---------------------------------------------------------------------------

/// Characters that may start an identifier.
pub open spec fn is_ident_start(c: char) -> bool {
    is_letter(c) || c == '_'
}

/// Characters that may continue an identifier.
pub open spec fn is_ident_char(c: char) -> bool {
    is_letter(c) || is_numeral(c) || c == '_'
}

/// The end of the run of identifier characters that starts at `i`.
pub open spec fn ident_end(src: Seq<char>, i: nat) -> nat
    decreases src.len() - i,
{
    if i < src.len() && is_ident_char(src[i as int]) {
        ident_end(src, i + 1)
    } else {
        i
    }
}

/// The end of the run of ASCII digits that starts at `i`.
pub open spec fn digits_end(src: Seq<char>, i: nat) -> nat
    decreases src.len() - i,
{
    if i < src.len() && is_digit(src[i as int]) {
        digits_end(src, i + 1)
    } else {
        i
    }
}

/// The position of the first newline at or after `i`, or the end of input.
pub open spec fn line_end(src: Seq<char>, i: nat) -> nat
    decreases src.len() - i,
{
    if i < src.len() && src[i as int] != '\n' {
        line_end(src, i + 1)
    } else {
        i
    }
}

/// The end of a number literal whose first digit is at `start`: digits, then
/// optionally `.` and at least one more digit.
pub open spec fn number_end(src: Seq<char>, start: nat) -> nat {
    let a = digits_end(src, start + 1);
    if a + 1 < src.len() && src[a as int] == '.' && is_digit(src[a + 1int]) {
        digits_end(src, a + 1)
    } else {
        a
    }
}

/// The keyword spelled by `text`, if it is one, else an identifier.
pub open spec fn word_kind(text: Seq<char>) -> TokenKindV {
    if text == seq!['l', 'e', 't'] {
        TokenKindV::Let
    } else if text == seq!['f', 'n'] {
        TokenKindV::Fn
    } else if text == seq!['r', 'e', 't', 'u', 'r', 'n'] {
        TokenKindV::Return
    } else if text == seq!['i', 'f'] {
        TokenKindV::If
    } else if text == seq!['e', 'l', 's', 'e'] {
        TokenKindV::Else
    } else if text == seq!['w', 'h', 'i', 'l', 'e'] {
        TokenKindV::While
    } else if text == seq!['p', 'r', 'i', 'n', 't'] {
        TokenKindV::Print
    } else if text == seq!['t', 'r', 'u', 'e'] {
        TokenKindV::True
    } else if text == seq!['f', 'a', 'l', 's', 'e'] {
        TokenKindV::False
    } else if text == seq!['n', 'u', 'l', 'l'] {
        TokenKindV::Null
    } else {
        TokenKindV::Identifier(text)
    }
}

/// The character that the escape `\c` stands for in a string literal.
pub open spec fn escaped(c: char) -> Option<char> {
    if c == 'n' {
        Some('\n')
    } else if c == 't' {
        Some('\t')
    } else if c == 'r' {
        Some('\r')
    } else if c == '\\' {
        Some('\\')
    } else if c == '"' {
        Some('"')
    } else {
        None
    }
}

/// The token kind of a character that is a token on its own.
pub open spec fn single_char_kind(c: char) -> Option<TokenKindV> {
    if c == '(' {
        Some(TokenKindV::LeftParen)
    } else if c == ')' {
        Some(TokenKindV::RightParen)
    } else if c == '{' {
        Some(TokenKindV::LeftBrace)
    } else if c == '}' {
        Some(TokenKindV::RightBrace)
    } else if c == '[' {
        Some(TokenKindV::LeftBracket)
    } else if c == ']' {
        Some(TokenKindV::RightBracket)
    } else if c == ',' {
        Some(TokenKindV::Comma)
    } else if c == '+' {
        Some(TokenKindV::Plus)
    } else if c == '*' {
        Some(TokenKindV::Star)
    } else if c == '/' {
        Some(TokenKindV::Slash)
    } else if c == '%' {
        Some(TokenKindV::Percent)
    } else {
        None
    }
}

/// For an operator character that may be followed by `=`: the kinds without
/// and with the `=`.
pub open spec fn eq_pair_kinds(c: char) -> Option<(TokenKindV, TokenKindV)> {
    if c == '!' {
        Some((TokenKindV::Bang, TokenKindV::BangEqual))
    } else if c == '=' {
        Some((TokenKindV::Equal, TokenKindV::EqualEqual))
    } else if c == '<' {
        Some((TokenKindV::Less, TokenKindV::LessEqual))
    } else if c == '>' {
        Some((TokenKindV::Greater, TokenKindV::GreaterEqual))
    } else {
        None
    }
}

/// The body of a string literal from position `i` (just after the opening
/// quote, or after the characters read so far, `acc`), at line `line` and
/// column `col`. The literal opened at (`sl`, `sc`). On success: the value,
/// the position after the closing quote, and the line and column there.
pub open spec fn string_body(
    src: Seq<char>,
    i: nat,
    line: nat,
    col: nat,
    acc: Seq<char>,
    sl: nat,
    sc: nat,
) -> Result<(Seq<char>, nat, nat, nat), LexError>
    decreases src.len() - i,
{
    if i >= src.len() {
        Err(LexError::UnterminatedString { line: sl as usize, col: sc as usize })
    } else if src[i as int] == '"' {
        Ok((acc, i + 1, line, col + 1))
    } else if src[i as int] == '\n' {
        string_body(src, i + 1, line + 1, 1, acc.push('\n'), sl, sc)
    } else if src[i as int] == '\\' {
        if i + 1 < src.len() && escaped(src[i + 1int]) is Some {
            string_body(src, i + 2, line, col + 2, acc.push(escaped(src[i + 1int])->0), sl, sc)
        } else {
            Err(LexError::InvalidEscape { line: line as usize, col: (col + 1) as usize })
        }
    } else {
        string_body(src, i + 1, line, col + 1, acc.push(src[i as int]), sl, sc)
    }
}

/// A token at `line`, `col`.
pub open spec fn tok(kind: TokenKindV, line: nat, col: nat) -> TokenV {
    TokenV { kind, line, col }
}

/// One step of the lexer at `pos` (which is before the end of `src`), at
/// `line` and `col`: the token read, if any, and the position, line and
/// column after it.
pub open spec fn scan(src: Seq<char>, pos: nat, line: nat, col: nat) -> Result<
    (Option<TokenV>, nat, nat, nat),
    LexError,
> {
    let c = src[pos as int];
    let p = pos + 1;
    let next_is = |d: char| p < src.len() && src[p as int] == d;
    if c == ' ' || c == '\r' || c == '\t' {
        Ok((None, p, line, col + 1))
    } else if c == '\n' {
        Ok((None, p, line + 1, 1))
    } else if single_char_kind(c) is Some {
        Ok((Some(tok(single_char_kind(c)->0, line, col)), p, line, col + 1))
    } else if c == '-' {
        if next_is('-') {
            let end = line_end(src, p + 1);
            Ok((None, end, line, col + 2 + (end - (p + 1)) as nat))
        } else {
            Ok((Some(tok(TokenKindV::Minus, line, col)), p, line, col + 1))
        }
    } else if eq_pair_kinds(c) is Some {
        let (one, two) = eq_pair_kinds(c)->0;
        if next_is('=') {
            Ok((Some(tok(two, line, col)), p + 1, line, col + 2))
        } else {
            Ok((Some(tok(one, line, col)), p, line, col + 1))
        }
    } else if c == '&' || c == '|' {
        if next_is(c) {
            let kind = if c == '&' { TokenKindV::AmpAmp } else { TokenKindV::PipePipe };
            Ok((Some(tok(kind, line, col)), p + 1, line, col + 2))
        } else {
            Err(LexError::UnexpectedChar { ch: c, line: line as usize, col: col as usize })
        }
    } else if c == '"' {
        match string_body(src, p, line, col + 1, Seq::empty(), line, col) {
            Ok((value, q, l, k)) => Ok((Some(tok(TokenKindV::Str(value), l, col)), q, l, k)),
            Err(e) => Err(e),
        }
    } else if is_digit(c) {
        let end = number_end(src, pos);
        Ok((
            Some(tok(TokenKindV::Number(src.subrange(pos as int, end as int)), line, col)),
            end,
            line,
            col + (end - pos) as nat,
        ))
    } else if is_ident_start(c) {
        let end = ident_end(src, p);
        Ok((
            Some(tok(word_kind(src.subrange(pos as int, end as int)), line, col)),
            end,
            line,
            col + (end - pos) as nat,
        ))
    } else {
        Err(LexError::UnexpectedChar { ch: c, line: line as usize, col: col as usize })
    }
}

/// The token (if any) of a lexer step, as a sequence.
pub open spec fn opt_seq(t: Option<TokenV>) -> Seq<TokenV> {
    match t {
        Some(t) => seq![t],
        None => Seq::empty(),
    }
}

/// Lexing from `pos` at `line` and `col`, after the tokens `acc`: all tokens
/// up to and including the final `Eof`, or the first error.
pub open spec fn lex_from(src: Seq<char>, pos: nat, line: nat, col: nat, acc: Seq<TokenV>) -> Result<
    Seq<TokenV>,
    LexError,
>
    decreases src.len() - pos,
{
    if pos >= src.len() {
        Ok(acc.push(tok(TokenKindV::Eof, line, col)))
    } else {
        match scan(src, pos, line, col) {
            Err(e) => Err(e),
            Ok((t, p, l, k)) => if pos < p <= src.len() {
                lex_from(src, p, l, k, acc + opt_seq(t))
            } else {
                Err(LexError::UnexpectedChar { ch: src[pos as int], line: line as usize, col: col as usize })
            },
        }
    }
}

/// The tokens of a whole source text.
pub open spec fn tokenize_spec(src: Seq<char>) -> Result<Seq<TokenV>, LexError> {
    lex_from(src, 0, 1, 1, Seq::empty())
}

// ---------------------------------------------------------------------------
// Facts about the grammar
// ---------------------------------------------------------------------------

pub proof fn lemma_ident_end(src: Seq<char>, i: nat)
    ensures
        i <= ident_end(src, i),
        i <= src.len() ==> ident_end(src, i) <= src.len(),
        forall|j: int| i <= j < ident_end(src, i) ==> is_ident_char(#[trigger] src[j]),
    decreases src.len() - i,
{
    if i < src.len() && is_ident_char(src[i as int]) {
        lemma_ident_end(src, i + 1);
    }
}

pub proof fn lemma_digits_end(src: Seq<char>, i: nat)
    ensures
        i <= digits_end(src, i),
        i <= src.len() ==> digits_end(src, i) <= src.len(),
        forall|j: int| i <= j < digits_end(src, i) ==> is_digit(#[trigger] src[j]),
        digits_end(src, i) < src.len() ==> !is_digit(src[digits_end(src, i) as int]),
    decreases src.len() - i,
{
    if i < src.len() && is_digit(src[i as int]) {
        lemma_digits_end(src, i + 1);
    }
}

pub proof fn lemma_line_end(src: Seq<char>, i: nat)
    ensures
        i <= line_end(src, i),
        i <= src.len() ==> line_end(src, i) <= src.len(),
        forall|j: int| i <= j < line_end(src, i) ==> #[trigger] src[j] != '\n',
        i <= src.len() ==> (line_end(src, i) == src.len() || src[line_end(src, i) as int] == '\n'),
    decreases src.len() - i,
{
    if i < src.len() && src[i as int] != '\n' {
        lemma_line_end(src, i + 1);
    }
}

/// Every lexer step that succeeds moves forward, and the line and column stay
/// within one past the position.
pub proof fn lemma_scan_bounds(src: Seq<char>, pos: nat, line: nat, col: nat)
    requires
        pos < src.len(),
        1 <= line <= pos + 1,
        1 <= col <= pos + 1,
    ensures
        scan(src, pos, line, col) matches Ok((t, p, l, k)) ==> pos < p <= src.len() && 1 <= l <= p
            + 1 && 1 <= k <= p + 1,
{
    let p = pos + 1;
    lemma_line_end(src, p + 1);
    lemma_digits_end(src, p);
    lemma_ident_end(src, p);
    let a = digits_end(src, p);
    lemma_digits_end(src, a + 1);
    if src[pos as int] == '"' {
        lemma_string_body_bounds(src, p, line, col + 1, Seq::empty(), line, col);
    }
}

pub proof fn lemma_string_body_bounds(
    src: Seq<char>,
    i: nat,
    line: nat,
    col: nat,
    acc: Seq<char>,
    sl: nat,
    sc: nat,
)
    requires
        1 <= i <= src.len(),
        1 <= line <= i,
        1 <= col <= i + 1,
    ensures
        string_body(src, i, line, col, acc, sl, sc) matches Ok((v, q, l, k)) ==> i < q <= src.len()
            && 1 <= l <= q + 1 && 1 <= k <= q + 1,
    decreases src.len() - i,
{
    if i < src.len() && src[i as int] != '"' {
        if src[i as int] == '\n' {
            lemma_string_body_bounds(src, i + 1, line + 1, 1, acc.push('\n'), sl, sc);
        } else if src[i as int] == '\\' {
            if i + 1 < src.len() && escaped(src[i + 1int]) is Some {
                lemma_string_body_bounds(
                    src,
                    i + 2,
                    line,
                    col + 2,
                    acc.push(escaped(src[i + 1int])->0),
                    sl,
                    sc,
                );
            }
        } else {
            lemma_string_body_bounds(src, i + 1, line, col + 1, acc.push(src[i as int]), sl, sc);
        }
    }
}

/// A lexer step never produces `Eof`.
pub proof fn lemma_scan_not_eof(src: Seq<char>, pos: nat, line: nat, col: nat)
    requires
        pos < src.len(),
    ensures
        scan(src, pos, line, col) matches Ok((Some(t), p, l, k)) ==> !(t.kind is Eof),
{
    if src[pos as int] == '"' {
        match string_body(src, pos + 1, line, col + 1, Seq::empty(), line, col) {
            Ok(_) => {},
            Err(_) => {},
        }
    }
}

proof fn lemma_lex_from_eof(src: Seq<char>, pos: nat, line: nat, col: nat, acc: Seq<TokenV>)
    requires
        forall|i: int| 0 <= i < acc.len() ==> !(#[trigger] acc[i].kind is Eof),
    ensures
        lex_from(src, pos, line, col, acc) matches Ok(ts) ==> {
            &&& ts.len() > acc.len()
            &&& ts.last().kind is Eof
            &&& forall|i: int| 0 <= i < ts.len() - 1 ==> !(#[trigger] ts[i].kind is Eof)
        },
    decreases src.len() - pos,
{
    if pos < src.len() {
        lemma_scan_not_eof(src, pos, line, col);
        match scan(src, pos, line, col) {
            Ok((t, p, l, k)) => {
                if pos < p <= src.len() {
                    let acc2 = acc + opt_seq(t);
                    assert forall|i: int| 0 <= i < acc2.len() implies !(#[trigger] acc2[i].kind is Eof) by {
                        if i >= acc.len() {
                            assert(acc2[i] == t->0);
                        }
                    }
                    lemma_lex_from_eof(src, p, l, k, acc2);
                }
            },
            Err(_) => {},
        }
    }
}

/// Law: every step of the lexer that succeeds moves forward, stays within the
/// source and reads at most one token; so lexing a source of `n` characters
/// takes at most `n` steps.
pub proof fn law_scan_moves_forward(src: Seq<char>, pos: nat, line: nat, col: nat)
    requires
        pos < src.len(),
        1 <= line <= pos + 1,
        1 <= col <= pos + 1,
    ensures
        scan(src, pos, line, col) matches Ok((t, p, l, k)) ==> pos < p <= src.len() && opt_seq(t).len() <= 1,
{
    lemma_scan_bounds(src, pos, line, col);
}

/// Law: each operator and delimiter character spells its own token, and a
/// `=` right after `!`, `=`, `<` or `>` makes the two-character operator;
/// `--` starts a comment that runs to the end of the line.
pub proof fn law_operator_spellings(src: Seq<char>, pos: nat, line: nat, col: nat)
    requires
        pos < src.len(),
    ensures
        src[pos as int] == '(' ==> scan(src, pos, line, col) == Ok::<_, LexError>((Some(tok(TokenKindV::LeftParen, line, col)), pos + 1, line, col + 1)),
        src[pos as int] == ')' ==> scan(src, pos, line, col) == Ok::<_, LexError>((Some(tok(TokenKindV::RightParen, line, col)), pos + 1, line, col + 1)),
        src[pos as int] == '{' ==> scan(src, pos, line, col) == Ok::<_, LexError>((Some(tok(TokenKindV::LeftBrace, line, col)), pos + 1, line, col + 1)),
        src[pos as int] == '}' ==> scan(src, pos, line, col) == Ok::<_, LexError>((Some(tok(TokenKindV::RightBrace, line, col)), pos + 1, line, col + 1)),
        src[pos as int] == '[' ==> scan(src, pos, line, col) == Ok::<_, LexError>((Some(tok(TokenKindV::LeftBracket, line, col)), pos + 1, line, col + 1)),
        src[pos as int] == ']' ==> scan(src, pos, line, col) == Ok::<_, LexError>((Some(tok(TokenKindV::RightBracket, line, col)), pos + 1, line, col + 1)),
        src[pos as int] == ',' ==> scan(src, pos, line, col) == Ok::<_, LexError>((Some(tok(TokenKindV::Comma, line, col)), pos + 1, line, col + 1)),
        src[pos as int] == '+' ==> scan(src, pos, line, col) == Ok::<_, LexError>((Some(tok(TokenKindV::Plus, line, col)), pos + 1, line, col + 1)),
        src[pos as int] == '*' ==> scan(src, pos, line, col) == Ok::<_, LexError>((Some(tok(TokenKindV::Star, line, col)), pos + 1, line, col + 1)),
        src[pos as int] == '/' ==> scan(src, pos, line, col) == Ok::<_, LexError>((Some(tok(TokenKindV::Slash, line, col)), pos + 1, line, col + 1)),
        src[pos as int] == '%' ==> scan(src, pos, line, col) == Ok::<_, LexError>((Some(tok(TokenKindV::Percent, line, col)), pos + 1, line, col + 1)),
        src[pos as int] == '!' && pos + 1 < src.len() && src[pos + 1int] == '=' ==> scan(src, pos, line, col) == Ok::<_, LexError>((Some(tok(TokenKindV::BangEqual, line, col)), pos + 2, line, col + 2)),
        src[pos as int] == '!' && !(pos + 1 < src.len() && src[pos + 1int] == '=') ==> scan(src, pos, line, col) == Ok::<_, LexError>((Some(tok(TokenKindV::Bang, line, col)), pos + 1, line, col + 1)),
        src[pos as int] == '=' && pos + 1 < src.len() && src[pos + 1int] == '=' ==> scan(src, pos, line, col) == Ok::<_, LexError>((Some(tok(TokenKindV::EqualEqual, line, col)), pos + 2, line, col + 2)),
        src[pos as int] == '=' && !(pos + 1 < src.len() && src[pos + 1int] == '=') ==> scan(src, pos, line, col) == Ok::<_, LexError>((Some(tok(TokenKindV::Equal, line, col)), pos + 1, line, col + 1)),
        src[pos as int] == '<' && pos + 1 < src.len() && src[pos + 1int] == '=' ==> scan(src, pos, line, col) == Ok::<_, LexError>((Some(tok(TokenKindV::LessEqual, line, col)), pos + 2, line, col + 2)),
        src[pos as int] == '<' && !(pos + 1 < src.len() && src[pos + 1int] == '=') ==> scan(src, pos, line, col) == Ok::<_, LexError>((Some(tok(TokenKindV::Less, line, col)), pos + 1, line, col + 1)),
        src[pos as int] == '>' && pos + 1 < src.len() && src[pos + 1int] == '=' ==> scan(src, pos, line, col) == Ok::<_, LexError>((Some(tok(TokenKindV::GreaterEqual, line, col)), pos + 2, line, col + 2)),
        src[pos as int] == '>' && !(pos + 1 < src.len() && src[pos + 1int] == '=') ==> scan(src, pos, line, col) == Ok::<_, LexError>((Some(tok(TokenKindV::Greater, line, col)), pos + 1, line, col + 1)),
        src[pos as int] == '&' && pos + 1 < src.len() && src[pos + 1int] == '&' ==> scan(src, pos, line, col) == Ok::<_, LexError>((Some(tok(TokenKindV::AmpAmp, line, col)), pos + 2, line, col + 2)),
        src[pos as int] == '|' && pos + 1 < src.len() && src[pos + 1int] == '|' ==> scan(src, pos, line, col) == Ok::<_, LexError>((Some(tok(TokenKindV::PipePipe, line, col)), pos + 2, line, col + 2)),
        src[pos as int] == '-' && !(pos + 1 < src.len() && src[pos + 1int] == '-') ==> scan(src, pos, line, col) == Ok::<_, LexError>((Some(tok(TokenKindV::Minus, line, col)), pos + 1, line, col + 1)),
        src[pos as int] == '-' && pos + 1 < src.len() && src[pos + 1int] == '-' ==> (scan(src, pos, line, col) matches Ok((None, p, l, k)) && l == line && (p == src.len() || src[p as int] == '\n')),
{
    lemma_line_end(src, pos + 2);
}

/// Law: the keywords are exactly `let`, `fn`, `return`, `if`, `else`,
/// `while`, `print`, `true`, `false` and `null`; any other word is an
/// identifier with that text.
pub proof fn law_keywords(text: Seq<char>)
    ensures
        text == seq!['l', 'e', 't'] ==> word_kind(text) == TokenKindV::Let,
        text == seq!['f', 'n'] ==> word_kind(text) == TokenKindV::Fn,
        text == seq!['r', 'e', 't', 'u', 'r', 'n'] ==> word_kind(text) == TokenKindV::Return,
        text == seq!['i', 'f'] ==> word_kind(text) == TokenKindV::If,
        text == seq!['e', 'l', 's', 'e'] ==> word_kind(text) == TokenKindV::Else,
        text == seq!['w', 'h', 'i', 'l', 'e'] ==> word_kind(text) == TokenKindV::While,
        text == seq!['p', 'r', 'i', 'n', 't'] ==> word_kind(text) == TokenKindV::Print,
        text == seq!['t', 'r', 'u', 'e'] ==> word_kind(text) == TokenKindV::True,
        text == seq!['f', 'a', 'l', 's', 'e'] ==> word_kind(text) == TokenKindV::False,
        text == seq!['n', 'u', 'l', 'l'] ==> word_kind(text) == TokenKindV::Null,
        word_kind(text) is Identifier ==> word_kind(text)->Identifier_0 == text,
        !(word_kind(text) is Identifier) ==> {
            ||| text == seq!['l', 'e', 't']
            ||| text == seq!['f', 'n']
            ||| text == seq!['r', 'e', 't', 'u', 'r', 'n']
            ||| text == seq!['i', 'f']
            ||| text == seq!['e', 'l', 's', 'e']
            ||| text == seq!['w', 'h', 'i', 'l', 'e']
            ||| text == seq!['p', 'r', 'i', 'n', 't']
            ||| text == seq!['t', 'r', 'u', 'e']
            ||| text == seq!['f', 'a', 'l', 's', 'e']
            ||| text == seq!['n', 'u', 'l', 'l']
        },
{
}

/// Law: in a string literal `\n`, `\t`, `\r`, `\\` and `\"` stand for a
/// newline, a tab, a carriage return, a backslash and a double quote; no
/// other character may follow a backslash.
pub proof fn law_escapes(c: char)
    ensures
        c == 'n' ==> escaped(c) == Some('\n'),
        c == 't' ==> escaped(c) == Some('\t'),
        c == 'r' ==> escaped(c) == Some('\r'),
        c == '\\' ==> escaped(c) == Some('\\'),
        c == '"' ==> escaped(c) == Some('"'),
        !(c == 'n' || c == 't' || c == 'r' || c == '\\' || c == '"') ==> escaped(c) is None,
{
}

/// Law (numbers): a number token is the longest run of ASCII digits at its
/// start, followed by `.` and the longest run of digits after it only when a
/// digit follows the `.`; it keeps its text, its line and its column.
pub proof fn law_number_token(src: Seq<char>, pos: nat, line: nat, col: nat)
    requires
        pos < src.len(),
        is_digit(src[pos as int]),
    ensures
        ({
            let a = digits_end(src, pos + 1);
            let end = number_end(src, pos);
            &&& scan(src, pos, line, col) == Ok::<_, LexError>(
                (
                    Some(tok(TokenKindV::Number(src.subrange(pos as int, end as int)), line, col)),
                    end,
                    line,
                    col + (end - pos) as nat,
                ),
            )
            &&& pos < a <= end <= src.len()
            &&& forall|j: int| pos <= j < a ==> is_digit(#[trigger] src[j])
            &&& a < src.len() ==> !is_digit(src[a as int])
            &&& if a + 1 < src.len() && src[a as int] == '.' && is_digit(src[a + 1int]) {
                &&& forall|j: int| a < j < end ==> is_digit(#[trigger] src[j])
                &&& a + 1 < end
                &&& end < src.len() ==> !is_digit(src[end as int])
            } else {
                end == a
            }
        }),
{
    let a = digits_end(src, pos + 1);
    lemma_digits_end(src, pos + 1);
    lemma_digits_end(src, a + 1);
    assert(!(src[pos as int] == ' ' || src[pos as int] == '\r' || src[pos as int] == '\t' || src[pos as int] == '\n'));
}

/// Tokens read from `pos` on, at a line and column of at least 1, have a line
/// and column of at least 1.
proof fn lemma_lex_from_positions(src: Seq<char>, pos: nat, line: nat, col: nat, acc: Seq<TokenV>)
    requires
        1 <= line <= pos + 1,
        1 <= col <= pos + 1,
        forall|i: int| 0 <= i < acc.len() ==> 1 <= #[trigger] acc[i].line && 1 <= acc[i].col,
    ensures
        lex_from(src, pos, line, col, acc) matches Ok(ts) ==> forall|i: int|
            0 <= i < ts.len() ==> 1 <= #[trigger] ts[i].line && 1 <= ts[i].col,
    decreases src.len() - pos,
{
    if pos >= src.len() {
        let ts = acc.push(tok(TokenKindV::Eof, line, col));
        assert forall|i: int| 0 <= i < ts.len() implies 1 <= #[trigger] ts[i].line && 1 <= ts[i].col by {
            if i < acc.len() {
                assert(ts[i] == acc[i]);
            }
        }
    } else {
        lemma_scan_bounds(src, pos, line, col);
        if src[pos as int] == '"' {
            lemma_string_body_bounds(src, pos + 1, line, col + 1, Seq::empty(), line, col);
        }
        match scan(src, pos, line, col) {
            Ok((t, p, l, k)) => {
                if pos < p <= src.len() {
                    let acc2 = acc + opt_seq(t);
                    assert(t is Some ==> 1 <= t->0.line && 1 <= t->0.col);
                    assert forall|i: int| 0 <= i < acc2.len() implies 1 <= #[trigger] acc2[i].line && 1
                        <= acc2[i].col by {
                        if i >= acc.len() {
                            assert(t is Some);
                            assert(acc2[i] == t->0);
                        } else {
                            assert(acc2[i] == acc[i]);
                        }
                    }
                    lemma_lex_from_positions(src, p, l, k, acc2);
                }
            },
            Err(_) => {},
        }
    }
}

/// Law: every token of a tokenized source has a line and a column of at
/// least 1.
pub proof fn law_token_positions_from_one(src: Seq<char>)
    ensures
        tokenize_spec(src) matches Ok(ts) ==> forall|i: int|
            0 <= i < ts.len() ==> 1 <= #[trigger] ts[i].line && 1 <= ts[i].col,
{
    let acc = Seq::<TokenV>::empty();
    assert(forall|i: int| 0 <= i < acc.len() ==> 1 <= #[trigger] acc[i].line && 1 <= acc[i].col);
    lemma_lex_from_positions(src, 0, 1, 1, acc);
    assert(tokenize_spec(src) == lex_from(src, 0, 1, 1, acc));
}

/// Law: a tokenized source ends with its only `Eof` token.
pub proof fn law_tokens_end_with_eof(src: Seq<char>)
    ensures
        tokenize_spec(src) matches Ok(ts) ==> {
            &&& ts.len() > 0
            &&& ts.last().kind is Eof
            &&& forall|i: int| 0 <= i < ts.len() - 1 ==> !(#[trigger] ts[i].kind is Eof)
        },
{
    lemma_lex_from_eof(src, 0, 1, 1, Seq::empty());
}

// ---------------------------------------------------------------------------
// The lexer
// ---------------------------------------------------------------------------

/// Lexer for the Gello language.
pub struct Lexer {
    source: Vec<char>,
    tokens: Vec<Token>,
    start: usize,
    current: usize,
    line: usize,
    col: usize,
    start_col: usize,
}

impl Lexer {
    /// The characters being tokenized.
    pub closed spec fn source_chars(&self) -> Seq<char> {
        self.source@
    }

    /// A lexer that has read nothing yet.
    pub closed spec fn is_fresh(&self) -> bool {
        &&& self.tokens@.len() == 0
        &&& self.current == 0
        &&& self.line == 1
        &&& self.col == 1
        &&& self.source@.len() < usize::MAX
    }

    spec fn wf(&self) -> bool {
        &&& self.source@.len() < usize::MAX
        &&& self.current <= self.source@.len()
        &&& 1 <= self.line <= self.current + 1
        &&& 1 <= self.col <= self.current + 1
    }

    spec fn tokens_model(&self) -> Seq<TokenV> {
        tokens_view(self.tokens@)
    }

    pub fn new(source: &str) -> (r: Self)
        requires
            source@.len() < usize::MAX,
        ensures
            r.is_fresh(),
            r.source_chars() == source@,
    {
        Self {
            source: chars_of(source),
            tokens: Vec::new(),
            start: 0,
            current: 0,
            line: 1,
            col: 1,
            start_col: 1,
        }
    }

    /// Tokenize the source code into a vector of tokens, ending with `Eof`.
    pub fn tokenize(self) -> (r: Result<Vec<Token>, LexError>)
        requires
            self.is_fresh(),
        ensures
            match r {
                Ok(ts) => tokenize_spec(self.source_chars()) == Ok::<_, LexError>(tokens_view(ts@)),
                Err(e) => tokenize_spec(self.source_chars()) == Err::<Seq<TokenV>, _>(e),
            },
    {
        let mut lx = self;
        lx.run_to_end()
    }

    fn run_to_end(&mut self) -> (r: Result<Vec<Token>, LexError>)
        requires
            old(self).is_fresh(),
        ensures
            match r {
                Ok(ts) => tokenize_spec(old(self).source@) == Ok::<_, LexError>(tokens_view(ts@)),
                Err(e) => tokenize_spec(old(self).source@) == Err::<Seq<TokenV>, _>(e),
            },
    {
        let ghost src = self.source@;
        assert(tokens_view(self.tokens@) =~= Seq::<TokenV>::empty());
        while !self.is_at_end()
            invariant
                self.wf(),
                self.source@ == src,
                self.source == old(self).source,
                tokenize_spec(src) == lex_from(
                    src,
                    self.current as nat,
                    self.line as nat,
                    self.col as nat,
                    self.tokens_model(),
                ),
            decreases src.len() - self.current,
        {
            self.start = self.current;
            self.start_col = self.col;
            let ghost before = self.tokens_model();
            proof {
                lemma_scan_bounds(src, self.current as nat, self.line as nat, self.col as nat);
            }
            match self.scan_token() {
                Ok(()) => {},
                Err(e) => {
                    return Err(e);
                },
            }
        }
        let t = Token::new(TokenKind::Eof, self.line, self.col);
        let ghost before = self.tokens_model();
        self.tokens.push(t);
        assert(self.tokens_model() =~= before.push(tok(TokenKindV::Eof, self.line as nat, self.col as nat)));
        let mut out: Vec<Token> = Vec::new();
        std::mem::swap(&mut out, &mut self.tokens);
        Ok(out)
    }

    /// Appends a token of the given kind at the current line and the start column.
    fn add_token(&mut self, kind: TokenKind)
        ensures
            final(self).tokens_model() == old(self).tokens_model().push(
                tok(kind@, old(self).line as nat, old(self).start_col as nat),
            ),
            final(self).source == old(self).source,
            final(self).current == old(self).current,
            final(self).line == old(self).line,
            final(self).col == old(self).col,
            final(self).start_col == old(self).start_col,
            final(self).start == old(self).start,
    {
        let ghost before = self.tokens_model();
        let t = Token::new(kind, self.line, self.start_col);
        self.tokens.push(t);
        assert(self.tokens_model() =~= before.push(t@));
    }

    fn is_at_end(&self) -> (r: bool)
        ensures
            r == (self.current >= self.source@.len()),
    {
        self.current >= self.source.len()
    }

    /// The current character, or `'\0'` at the end.
    fn peek(&self) -> (r: char)
        ensures
            r == if self.current < self.source@.len() {
                self.source@[self.current as int]
            } else {
                '\0'
            },
    {
        if self.is_at_end() {
            '\0'
        } else {
            self.source[self.current]
        }
    }

    /// The character after the current one, or `'\0'` past the end.
    fn peek_next(&self) -> (r: char)
        requires
            self.current < usize::MAX,
        ensures
            r == if self.current + 1 < self.source@.len() {
                self.source@[self.current + 1]
            } else {
                '\0'
            },
    {
        if self.current + 1 >= self.source.len() {
            '\0'
        } else {
            self.source[self.current + 1]
        }
    }

    /// Consumes and returns the current character.
    fn advance(&mut self) -> (r: char)
        requires
            old(self).wf(),
            old(self).current < old(self).source@.len(),
        ensures
            r == old(self).source@[old(self).current as int],
            final(self).current == old(self).current + 1,
            final(self).col == old(self).col + 1,
            final(self).line == old(self).line,
            final(self).source == old(self).source,
            final(self).tokens == old(self).tokens,
            final(self).start_col == old(self).start_col,
            final(self).start == old(self).start,
    {
        let c = self.source[self.current];
        self.current = self.current + 1;
        self.col = self.col + 1;
        c
    }

    /// Consumes the current character if it is `expected`.
    fn match_char(&mut self, expected: char) -> (r: bool)
        requires
            old(self).wf(),
        ensures
            r == (old(self).current < old(self).source@.len() && old(self).source@[old(
                self,
            ).current as int] == expected),
            final(self).current == old(self).current + if r { 1int } else { 0 },
            final(self).col == old(self).col + if r { 1int } else { 0 },
            final(self).line == old(self).line,
            final(self).source == old(self).source,
            final(self).tokens == old(self).tokens,
            final(self).start_col == old(self).start_col,
            final(self).start == old(self).start,
    {
        if self.is_at_end() || self.source[self.current] != expected {
            false
        } else {
            self.current = self.current + 1;
            self.col = self.col + 1;
            true
        }
    }

    /// Reads one token (or skips whitespace or a comment) starting at `current`.
    fn scan_token(&mut self) -> (r: Result<(), LexError>)
        requires
            old(self).wf(),
            old(self).current < old(self).source@.len(),
            old(self).start == old(self).current,
            old(self).start_col == old(self).col,
        ensures
            final(self).source == old(self).source,
            match scan(
                old(self).source@,
                old(self).current as nat,
                old(self).line as nat,
                old(self).col as nat,
            ) {
                Err(e) => r == Err::<(), LexError>(e),
                Ok((t, p, l, k)) => {
                    &&& r is Ok
                    &&& final(self).wf()
                    &&& final(self).current == p
                    &&& final(self).line == l
                    &&& final(self).col == k
                    &&& final(self).tokens_model() == old(self).tokens_model() + opt_seq(t)
                    &&& old(self).current < final(self).current <= final(self).source@.len()
                    &&& final(self).tokens_model().len() <= old(self).tokens_model().len() + 1
                },
            },
    {
        proof {
            law_scan_moves_forward(
                old(self).source@,
                old(self).current as nat,
                old(self).line as nat,
                old(self).col as nat,
            );
        }
        let ghost src = self.source@;
        let ghost pos = self.current as nat;
        let ghost line0 = self.line as nat;
        let ghost col0 = self.col as nat;
        let ghost toks0 = self.tokens_model();
        proof {
            lemma_scan_bounds(src, pos, line0, col0);
        }
        let c = self.advance();
        if c == ' ' || c == '\r' || c == '\t' {
            assert(toks0 + opt_seq(None) =~= toks0);
            return Ok(());
        }
        if c == '\n' {
            self.line = self.line + 1;
            self.col = 1;
            assert(toks0 + opt_seq(None) =~= toks0);
            return Ok(());
        }
        let single = if c == '(' {
            Some(TokenKind::LeftParen)
        } else if c == ')' {
            Some(TokenKind::RightParen)
        } else if c == '{' {
            Some(TokenKind::LeftBrace)
        } else if c == '}' {
            Some(TokenKind::RightBrace)
        } else if c == '[' {
            Some(TokenKind::LeftBracket)
        } else if c == ']' {
            Some(TokenKind::RightBracket)
        } else if c == ',' {
            Some(TokenKind::Comma)
        } else if c == '+' {
            Some(TokenKind::Plus)
        } else if c == '*' {
            Some(TokenKind::Star)
        } else if c == '/' {
            Some(TokenKind::Slash)
        } else if c == '%' {
            Some(TokenKind::Percent)
        } else {
            None
        };
        if let Some(kind) = single {
            self.add_token(kind);
            assert(toks0 + opt_seq(Some(tok(single_char_kind(c)->0, line0, col0))) =~= toks0.push(
                tok(single_char_kind(c)->0, line0, col0),
            ));
            return Ok(());
        }
        if c == '-' {
            if self.match_char('-') {
                // Line comment: skip until end of line
                let ghost from = self.current as nat;
                proof {
                    lemma_line_end(src, from);
                }
                while self.peek() != '\n' && !self.is_at_end()
                    invariant
                        self.wf(),
                        self.source@ == src,
                        self.source == old(self).source,
                        self.tokens == old(self).tokens,
                        self.line == line0,
                        from <= self.current,
                        line_end(src, from) == line_end(src, self.current as nat),
                        self.col == col0 + 2 + (self.current - from),
                    decreases src.len() - self.current,
                {
                    self.advance();
                }
                assert(toks0 + opt_seq(None) =~= toks0);
            } else {
                self.add_token(TokenKind::Minus);
                assert(toks0 + opt_seq(Some(tok(TokenKindV::Minus, line0, col0))) =~= toks0.push(
                    tok(TokenKindV::Minus, line0, col0),
                ));
            }
            return Ok(());
        }
        if c == '!' || c == '=' || c == '<' || c == '>' {
            let two = self.match_char('=');
            let kind = if c == '!' {
                if two { TokenKind::BangEqual } else { TokenKind::Bang }
            } else if c == '=' {
                if two { TokenKind::EqualEqual } else { TokenKind::Equal }
            } else if c == '<' {
                if two { TokenKind::LessEqual } else { TokenKind::Less }
            } else {
                if two { TokenKind::GreaterEqual } else { TokenKind::Greater }
            };
            let ghost kv = kind@;
            self.add_token(kind);
            assert(toks0 + opt_seq(Some(tok(kv, line0, col0))) =~= toks0.push(tok(kv, line0, col0)));
            return Ok(());
        }
        if c == '&' || c == '|' {
            if self.match_char(c) {
                let kind = if c == '&' { TokenKind::AmpAmp } else { TokenKind::PipePipe };
                let ghost kv = kind@;
                self.add_token(kind);
                assert(toks0 + opt_seq(Some(tok(kv, line0, col0))) =~= toks0.push(tok(kv, line0, col0)));
                return Ok(());
            } else {
                return Err(LexError::UnexpectedChar { ch: c, line: self.line, col: self.start_col });
            }
        }
        if c == '"' {
            return self.string();
        }
        if char_is_digit(c) {
            self.number();
            return Ok(());
        }
        if char_is_alphabetic(c) || c == '_' {
            self.identifier();
            return Ok(());
        }
        Err(LexError::UnexpectedChar { ch: c, line: self.line, col: self.start_col })
    }

    /// Reads the rest of a string literal whose opening quote was just consumed.
    fn string(&mut self) -> (r: Result<(), LexError>)
        requires
            old(self).wf(),
            old(self).current == old(self).start + 1,
            old(self).start < old(self).source@.len(),
            old(self).source@[old(self).start as int] == '"',
            old(self).line <= old(self).current,
            old(self).col == old(self).start_col + 1,
        ensures
            final(self).source == old(self).source,
            match string_body(
                old(self).source@,
                old(self).current as nat,
                old(self).line as nat,
                old(self).col as nat,
                Seq::empty(),
                old(self).line as nat,
                old(self).start_col as nat,
            ) {
                Err(e) => r == Err::<(), LexError>(e),
                Ok((value, q, l, k)) => {
                    &&& r is Ok
                    &&& final(self).wf()
                    &&& final(self).current == q
                    &&& final(self).line == l
                    &&& final(self).col == k
                    &&& final(self).tokens_model() == old(self).tokens_model().push(
                        tok(TokenKindV::Str(value), l, old(self).start_col as nat),
                    )
                },
            },
    {
        let ghost src = self.source@;
        let ghost whole = string_body(
            src,
            self.current as nat,
            self.line as nat,
            self.col as nat,
            Seq::empty(),
            self.line as nat,
            self.start_col as nat,
        );
        let start_line = self.line;
        let start_col = self.start_col;
        let mut value: Vec<char> = Vec::new();
        while self.peek() != '"' && !self.is_at_end()
            invariant
                self.wf(),
                self.source@ == src,
                self.source == old(self).source,
                self.tokens == old(self).tokens,
                self.start_col == start_col,
                1 <= self.line <= self.current,
                whole == string_body(
                    old(self).source@,
                    old(self).current as nat,
                    old(self).line as nat,
                    old(self).col as nat,
                    Seq::empty(),
                    old(self).line as nat,
                    old(self).start_col as nat,
                ),
                whole == string_body(
                    src,
                    self.current as nat,
                    self.line as nat,
                    self.col as nat,
                    value@,
                    start_line as nat,
                    start_col as nat,
                ),
            decreases src.len() - self.current,
        {
            if self.peek() == '\n' {
                // A new line starts: the next character is in its first column
                self.advance();
                value.push('\n');
                self.line = self.line + 1;
                self.col = 1;
            } else if self.peek() == '\\' {
                self.advance();
                let e = self.peek();
                let esc = if e == 'n' {
                    Some('\n')
                } else if e == 't' {
                    Some('\t')
                } else if e == 'r' {
                    Some('\r')
                } else if e == '\\' {
                    Some('\\')
                } else if e == '"' {
                    Some('"')
                } else {
                    None
                };
                match esc {
                    Some(ch) => {
                        self.advance();
                        value.push(ch);
                    },
                    None => {
                        return Err(LexError::InvalidEscape { line: self.line, col: self.col });
                    },
                }
            } else {
                let ch = self.advance();
                value.push(ch);
            }
        }
        if self.is_at_end() {
            return Err(LexError::UnterminatedString { line: start_line, col: start_col });
        }
        // Consume closing "
        self.advance();
        let s = string_of(&value);
        self.add_token(TokenKind::String(s));
        Ok(())
    }

    /// Reads the rest of a number literal whose first digit was just consumed.
    fn number(&mut self)
        requires
            old(self).wf(),
            old(self).current == old(self).start + 1,
            old(self).start < old(self).source@.len(),
            is_digit(old(self).source@[old(self).start as int]),
            old(self).col == old(self).start_col + 1,
        ensures
            final(self).wf(),
            final(self).source == old(self).source,
            final(self).current == number_end(old(self).source@, old(self).start as nat),
            final(self).line == old(self).line,
            final(self).col == old(self).start_col + (final(self).current - old(self).start),
            final(self).tokens_model() == old(self).tokens_model().push(
                tok(
                    TokenKindV::Number(
                        old(self).source@.subrange(old(self).start as int, final(self).current as int),
                    ),
                    old(self).line as nat,
                    old(self).start_col as nat,
                ),
            ),
            // The text is the longest digit run, then `.` and the longest
            // digit run after it only when a digit follows the `.`.
            ({
                let src = old(self).source@;
                let start = old(self).start as int;
                let a = digits_end(src, old(self).start as nat + 1) as int;
                let end = final(self).current as int;
                &&& start < a <= end
                &&& forall|j: int| start <= j < a ==> is_digit(#[trigger] src[j])
                &&& a < src.len() ==> !is_digit(src[a])
                &&& if a + 1 < src.len() && src[a] == '.' && is_digit(src[a + 1]) {
                    &&& a + 1 < end
                    &&& forall|j: int| a < j < end ==> is_digit(#[trigger] src[j])
                    &&& end < src.len() ==> !is_digit(src[end])
                } else {
                    end == a
                }
            }),
    {
        let ghost src = self.source@;
        let ghost from = self.current as nat;
        proof {
            lemma_digits_end(src, from);
            law_number_token(src, old(self).start as nat, old(self).line as nat, old(self).start_col as nat);
        }
        while char_is_digit(self.peek())
            invariant
                self.wf(),
                self.source@ == src,
                self.source == old(self).source,
                self.tokens == old(self).tokens,
                self.line == old(self).line,
                self.start == old(self).start,
                self.start_col == old(self).start_col,
                from <= self.current,
                digits_end(src, from) == digits_end(src, self.current as nat),
                self.col == self.start_col + (self.current - self.start),
            decreases src.len() - self.current,
        {
            self.advance();
        }
        // Look for decimal part
        if self.peek() == '.' && char_is_digit(self.peek_next()) {
            // Consume the '.'
            self.advance();
            let ghost from2 = self.current as nat;
            proof {
                lemma_digits_end(src, from2);
            }
            while char_is_digit(self.peek())
                invariant
                    self.wf(),
                    self.source@ == src,
                    self.source == old(self).source,
                    self.tokens == old(self).tokens,
                    self.line == old(self).line,
                    self.start == old(self).start,
                    self.start_col == old(self).start_col,
                    from2 <= self.current,
                    digits_end(src, from2) == digits_end(src, self.current as nat),
                    self.col == self.start_col + (self.current - self.start),
                decreases src.len() - self.current,
            {
                self.advance();
            }
        }
        let text = string_of_range(&self.source, self.start, self.current);
        self.add_token(TokenKind::Number(text));
    }

    /// Reads the rest of an identifier or keyword whose first character was
    /// just consumed.
    fn identifier(&mut self)
        requires
            old(self).wf(),
            old(self).current == old(self).start + 1,
            old(self).start < old(self).source@.len(),
            old(self).col == old(self).start_col + 1,
        ensures
            final(self).wf(),
            final(self).source == old(self).source,
            final(self).current == ident_end(old(self).source@, old(self).current as nat),
            final(self).line == old(self).line,
            final(self).col == old(self).start_col + (final(self).current - old(self).start),
            final(self).tokens_model() == old(self).tokens_model().push(
                tok(
                    word_kind(
                        old(self).source@.subrange(old(self).start as int, final(self).current as int),
                    ),
                    old(self).line as nat,
                    old(self).start_col as nat,
                ),
            ),
    {
        let ghost src = self.source@;
        let ghost from = self.current as nat;
        proof {
            lemma_ident_end(src, from);
        }
        loop
            invariant
                self.wf(),
                self.source@ == src,
                self.source == old(self).source,
                self.tokens == old(self).tokens,
                self.line == old(self).line,
                self.start == old(self).start,
                self.start_col == old(self).start_col,
                from <= self.current,
                ident_end(src, from) == ident_end(src, self.current as nat),
                self.col == self.start_col + (self.current - self.start),
            ensures
                self.wf(),
                self.source@ == src,
                self.source == old(self).source,
                self.tokens == old(self).tokens,
                self.line == old(self).line,
                self.start == old(self).start,
                self.start_col == old(self).start_col,
                self.current == ident_end(src, from),
                self.col == self.start_col + (self.current - self.start),
            decreases src.len() - self.current,
        {
            let c = self.peek();
            let more = !self.is_at_end() && (char_is_alphabetic(c) || char_is_numeric(c) || c == '_');
            if !more {
                break;
            }
            self.advance();
        }
        let text = string_range_kind(&self.source, self.start, self.current);
        self.add_token(text);
    }
}

/// The kind of the word `v[lo..hi]`: a keyword, or an identifier.
fn string_range_kind(v: &Vec<char>, lo: usize, hi: usize) -> (r: TokenKind)
    requires
        lo <= hi <= v@.len(),
    ensures
        r@ == word_kind(v@.subrange(lo as int, hi as int)),
{
    let text = string_of_range(v, lo, hi);
    let mut chars: Vec<char> = Vec::new();
    let mut i = lo;
    while i < hi
        invariant
            lo <= i <= hi <= v@.len(),
            chars@ == v@.subrange(lo as int, i as int),
        decreases hi - i,
    {
        chars.push(v[i]);
        i = i + 1;
        assert(chars@ =~= v@.subrange(lo as int, i as int));
    }
    if same_chars(&chars, &['l', 'e', 't']) {
        TokenKind::Let
    } else if same_chars(&chars, &['f', 'n']) {
        TokenKind::Fn
    } else if same_chars(&chars, &['r', 'e', 't', 'u', 'r', 'n']) {
        TokenKind::Return
    } else if same_chars(&chars, &['i', 'f']) {
        TokenKind::If
    } else if same_chars(&chars, &['e', 'l', 's', 'e']) {
        TokenKind::Else
    } else if same_chars(&chars, &['w', 'h', 'i', 'l', 'e']) {
        TokenKind::While
    } else if same_chars(&chars, &['p', 'r', 'i', 'n', 't']) {
        TokenKind::Print
    } else if same_chars(&chars, &['t', 'r', 'u', 'e']) {
        TokenKind::True
    } else if same_chars(&chars, &['f', 'a', 'l', 's', 'e']) {
        TokenKind::False
    } else if same_chars(&chars, &['n', 'u', 'l', 'l']) {
        TokenKind::Null
    } else {
        TokenKind::Identifier(text)
    }
}

} // verus!
