//! Running a whole source text line by line, as the playground does: each
//! non-blank line is tokenized, parsed and run in one interpreter, and gives
//! what it printed (with the error that stopped it, if one did), or why it
//! could not be read.
use vstd::prelude::*;
use crate::ast::{stmts_view, Stmt, StmtV};
use crate::interpreter::{
    line_view, output_view, step_spec, Answer, CtrlV, Interpreter, KontV, NumQuery, NumQueryV, Piece, PieceV,
    RuntimeError, RuntimeErrorV, State, Step, StepV,
};
use crate::lexer::{law_tokens_end_with_eof, tokenize_spec, LexError, Lexer};
use crate::parser::{eof_ahead, parse_spec, ParseError, ParseErrorV, Parser};
use crate::source::{lemma_source_lines_bound, source_lines, source_lines_spec};
use crate::messages::{decimal, lex_message, parse_message, push_decimal, runtime_message};
use crate::token::{tokens_view, TokenKind, TokenKindV};
use vstd::string::StringExecFns;

verus! {

/// Why a line could not be run.
#[derive(Debug)]
pub enum LineError {
    Lex(LexError),
    Parse(ParseError),
}

pub enum LineErrorV {
    Lex(LexError),
    Parse(ParseErrorV),
}

impl View for LineError {
    type V = LineErrorV;

    open spec fn view(&self) -> LineErrorV {
        match self {
            LineError::Lex(e) => LineErrorV::Lex(*e),
            LineError::Parse(e) => LineErrorV::Parse(e@),
        }
    }
}

/// The statements of a line, or why it has none.
pub open spec fn compile_spec(line: Seq<char>) -> Result<Seq<StmtV>, LineErrorV> {
    match tokenize_spec(line) {
        Err(e) => Err(LineErrorV::Lex(e)),
        Ok(ts) => match parse_spec(ts) {
            Err(e) => Err(LineErrorV::Parse(e)),
            Ok(stmts) => Ok(stmts),
        },
    }
}

/// Tokenizes and parses one line.
pub fn compile_line(line: &str) -> (r: Result<Vec<Stmt>, LineError>)
    requires
        line@.len() < usize::MAX,
    ensures
        match r {
            Ok(v) => compile_spec(line@) == Ok::<Seq<StmtV>, LineErrorV>(stmts_view(v@)),
            Err(e) => compile_spec(line@) == Err::<Seq<StmtV>, LineErrorV>(e@),
        },
{
    let lexer = Lexer::new(line);
    match lexer.tokenize() {
        Err(e) => Err(LineError::Lex(e)),
        Ok(tokens) => {
            proof {
                law_tokens_end_with_eof(line@);
                let ts = tokens_view(tokens@);
                assert(ts[ts.len() - 1].kind is Eof);
                assert(eof_ahead(ts, 0));
            }
            let mut parser = Parser::new(tokens);
            match parser.parse() {
                Ok(stmts) => Ok(stmts),
                Err(e) => Err(LineError::Parse(e)),
            }
        },
    }
}

/// What one line gave.
#[derive(Debug)]
pub enum LineResult {
    /// The line ran to its end and printed these lines.
    Printed(Vec<Vec<Piece>>),
    /// The line could not be tokenized.
    Lex(LexError),
    /// The line could not be parsed.
    Parse(ParseError),
    /// The line stopped with a runtime error, after printing `printed`.
    Runtime { printed: Vec<Vec<Piece>>, error: RuntimeError },
}

pub enum LineResultV {
    Printed(Seq<Seq<PieceV>>),
    Lex(LexError),
    Parse(ParseErrorV),
    Runtime { printed: Seq<Seq<PieceV>>, error: RuntimeErrorV },
}

impl View for LineResult {
    type V = LineResultV;

    open spec fn view(&self) -> LineResultV {
        match self {
            LineResult::Printed(o) => LineResultV::Printed(output_view(o@)),
            LineResult::Lex(e) => LineResultV::Lex(*e),
            LineResult::Parse(e) => LineResultV::Parse(e@),
            LineResult::Runtime { printed, error } => LineResultV::Runtime {
                printed: output_view(printed@),
                error: error@,
            },
        }
    }
}

/// The model of a session.
pub struct SessionV {
    pub interp: State,
    pub lines: Seq<Seq<char>>,
    pub next: nat,
    pub results: Seq<LineResultV>,
    /// A line's program is running.
    pub active: bool,
}

/// What a session step reports.
#[derive(Debug)]
pub enum SessionStep {
    Running,
    Query(NumQuery),
    /// Every line has been run.
    Done,
}

pub enum SessionStepV {
    Running,
    Query(NumQueryV),
    Done,
}

impl View for SessionStep {
    type V = SessionStepV;

    open spec fn view(&self) -> SessionStepV {
        match self {
            SessionStep::Running => SessionStepV::Running,
            SessionStep::Query(q) => SessionStepV::Query(q@),
            SessionStep::Done => SessionStepV::Done,
        }
    }
}

/// The interpreter, ready to run `stmts` with an empty output buffer.
pub open spec fn started(s: State, stmts: Seq<StmtV>) -> State {
    State {
        output: Seq::empty(),
        ctrl: CtrlV::Done,
        konts: seq![KontV::Program { stmts, next: 0 }],
        ..s
    }
}

/// One step of a session: a step of the running line, or the start of the
/// next line.
pub open spec fn session_step(ss: SessionV, ans: Option<Answer>) -> (SessionV, SessionStepV) {
    if ss.active {
        let (st, r) = step_spec(ss.interp, ans);
        match r {
            StepV::Running => (SessionV { interp: st, ..ss }, SessionStepV::Running),
            StepV::Query(q) => (SessionV { interp: st, ..ss }, SessionStepV::Query(q)),
            StepV::Finished(Ok(())) => (
                SessionV {
                    interp: State { output: Seq::empty(), ..st },
                    results: ss.results.push(LineResultV::Printed(st.output)),
                    active: false,
                    ..ss
                },
                SessionStepV::Running,
            ),
            StepV::Finished(Err(e)) => (
                SessionV {
                    interp: State { output: Seq::empty(), ..st },
                    results: ss.results.push(LineResultV::Runtime { printed: st.output, error: e }),
                    active: false,
                    ..ss
                },
                SessionStepV::Running,
            ),
        }
    } else if ss.next < ss.lines.len() {
        let ss1 = SessionV { next: ss.next + 1, ..ss };
        match compile_spec(ss.lines[ss.next as int]) {
            Err(LineErrorV::Lex(e)) => (SessionV { results: ss.results.push(LineResultV::Lex(e)), ..ss1 }, SessionStepV::Running),
            Err(LineErrorV::Parse(e)) => (SessionV { results: ss.results.push(LineResultV::Parse(e)), ..ss1 }, SessionStepV::Running),
            Ok(stmts) => (SessionV { interp: started(ss.interp, stmts), active: true, ..ss1 }, SessionStepV::Running),
        }
    } else {
        (ss, SessionStepV::Done)
    }
}


/// Each line that has been taken up gave exactly one result, except the one
/// still running.
pub open spec fn one_result_per_line(ss: SessionV) -> bool {
    &&& ss.next <= ss.lines.len()
    &&& ss.results.len() + (if ss.active { 1int } else { 0 }) == ss.next
}

/// Law: every step keeps one result per line taken up, so when the session is
/// done every line has given exactly one result, in order.
pub proof fn law_one_result_per_line(ss: SessionV, ans: Option<Answer>)
    requires
        one_result_per_line(ss),
    ensures
        one_result_per_line(session_step(ss, ans).0),
        session_step(ss, ans).1 is Done ==> ss.results.len() == ss.lines.len() && !ss.active,
        session_step(ss, ans).0.results.len() >= ss.results.len(),
        forall|i: int| 0 <= i < ss.results.len() ==> #[trigger] session_step(ss, ans).0.results[i] == ss.results[i],
{
}

/// A whole source text being run line by line.
pub struct Session {
    interp: Interpreter,
    lines: Vec<String>,
    next: usize,
    results: Vec<LineResult>,
    active: bool,
}

pub open spec fn results_view(r: Seq<LineResult>) -> Seq<LineResultV> {
    Seq::new(r.len(), |i: int| r[i]@)
}

impl View for Session {
    type V = SessionV;

    closed spec fn view(&self) -> SessionV {
        SessionV {
            interp: self.interp@,
            lines: Seq::new(self.lines@.len(), |i: int| self.lines@[i]@),
            next: self.next as nat,
            results: results_view(self.results@),
            active: self.active,
        }
    }
}

impl Session {
    /// Every line is shorter than `usize::MAX` characters.
    pub closed spec fn wf(&self) -> bool {
        forall|i: int| 0 <= i < self.lines@.len() ==> (#[trigger] self.lines@[i])@.len() < usize::MAX
    }

    /// A session over the lines of `source` that hold something.
    pub fn new(source: &str) -> (r: Session)
        requires
            source@.len() < usize::MAX,
        ensures
            r.wf(),
            r@.interp == Interpreter::new_state(),
            r@.lines == source_lines_spec(source@),
            r@.next == 0,
            r@.results == Seq::<LineResultV>::empty(),
            !r@.active,
    {
        proof {
            lemma_source_lines_bound(source@);
        }
        let lines = source_lines(source);
        let r = Session { interp: Interpreter::new(), lines, next: 0, results: Vec::new(), active: false };
        assert(r@.lines =~= source_lines_spec(source@));
        assert(r@.results =~= Seq::<LineResultV>::empty());
        r
    }

    /// What the lines run so far gave, in order.
    pub fn results(&self) -> (r: &[LineResult])
        ensures
            results_view(r@) == self@.results,
    {
        self.results.as_slice()
    }

    fn push_result(&mut self, x: LineResult)
        ensures
            final(self)@ == (SessionV { results: old(self)@.results.push(x@), ..old(self)@ }),
            final(self).lines == old(self).lines,
    {
        let ghost before = self.results@;
        self.results.push(x);
        assert(results_view(self.results@) =~= results_view(before).push(x@));
        assert(self@ =~= SessionV { results: old(self)@.results.push(x@), ..old(self)@ });
    }

    /// One step: a step of the running line, or the start of the next line.
    pub fn step(&mut self, answer: Option<Answer>) -> (r: SessionStep)
        requires
            old(self).wf(),
        ensures
            final(self).wf(),
            (final(self)@, r@) == session_step(old(self)@, answer),
    {
        if self.active {
            let r = self.interp.step(answer);
            match r {
                Step::Running => {
                    assert(self@ =~= SessionV { interp: self.interp@, ..old(self)@ });
                    SessionStep::Running
                },
                Step::Query(q) => {
                    assert(self@ =~= SessionV { interp: self.interp@, ..old(self)@ });
                    SessionStep::Query(q)
                },
                Step::Finished(Ok(())) => {
                    let out = self.interp.take_output();
                    self.active = false;
                    self.push_result(LineResult::Printed(out));
                    SessionStep::Running
                },
                Step::Finished(Err(e)) => {
                    let out = self.interp.take_output();
                    self.active = false;
                    self.push_result(LineResult::Runtime { printed: out, error: e });
                    SessionStep::Running
                },
            }
        } else if self.next < self.lines.len() {
            let i = self.next;
            self.next = self.next + 1;
            let compiled = compile_line(self.lines[i].as_str());
            match compiled {
                Err(LineError::Lex(e)) => {
                    self.push_result(LineResult::Lex(e));
                },
                Err(LineError::Parse(e)) => {
                    self.push_result(LineResult::Parse(e));
                },
                Ok(stmts) => {
                    self.interp.clear_output();
                    self.interp.start(stmts);
                    self.active = true;
                },
            }
            SessionStep::Running
        } else {
            SessionStep::Done
        }
    }
}

// ---------------------------------------------------------------------------
// What the playground shows
// ---------------------------------------------------------------------------

/// The line shown for a syntax error. A number token's value is a `Literal`
/// piece, which the driver writes.
pub open spec fn parse_error_line(e: ParseErrorV) -> Seq<PieceV> {
    match e {
        ParseErrorV::UnexpectedToken(t) => match t.kind {
            TokenKindV::Number(text) => seq![
                PieceV::Text("ERROR: Parse error: Unexpected token 'Number("@),
                PieceV::Literal(text),
                PieceV::Text(")' at line "@ + decimal(t.line) + ", column "@ + decimal(t.col)),
            ],
            _ => seq![PieceV::Text("ERROR: Parse error: "@ + parse_message(e, Seq::empty()))],
        },
        _ => seq![PieceV::Text("ERROR: Parse error: "@ + parse_message(e, Seq::empty()))],
    }
}

/// The lines shown for one line of source: what it printed, then its error
/// (labelled by kind), if it had one.
pub open spec fn result_lines(r: LineResultV) -> Seq<Seq<PieceV>> {
    match r {
        LineResultV::Printed(o) => o,
        LineResultV::Lex(e) => seq![seq![PieceV::Text("ERROR: "@ + lex_message(e))]],
        LineResultV::Parse(e) => seq![parse_error_line(e)],
        LineResultV::Runtime { printed, error } => printed.push(
            seq![PieceV::Text("ERROR: Runtime error: "@ + runtime_message(error))],
        ),
    }
}

/// All the lines shown for the results `rs`, in order.
pub open spec fn output_spec(rs: Seq<LineResultV>) -> Seq<Seq<PieceV>>
    decreases rs.len(),
{
    if rs.len() == 0 {
        Seq::empty()
    } else {
        output_spec(rs.drop_last()) + result_lines(rs.last())
    }
}

fn copy_piece(p: &Piece) -> (r: Piece)
    ensures
        r@ == p@,
{
    match p {
        Piece::Text(t) => Piece::Text(t.clone()),
        Piece::Number(n) => Piece::Number(*n),
        Piece::Literal(t) => Piece::Literal(t.clone()),
    }
}

fn copy_line(l: &Vec<Piece>) -> (r: Vec<Piece>)
    ensures
        line_view(r@) == line_view(l@),
{
    let mut r: Vec<Piece> = Vec::new();
    let mut i: usize = 0;
    while i < l.len()
        invariant
            i <= l@.len(),
            line_view(r@) == line_view(l@).subrange(0, i as int),
        decreases l@.len() - i,
    {
        let p = copy_piece(&l[i]);
        let ghost before = r@;
        r.push(p);
        assert(line_view(r@) =~= line_view(before).push(p@));
        i = i + 1;
        assert(line_view(r@) =~= line_view(l@).subrange(0, i as int));
    }
    assert(line_view(l@).subrange(0, l@.len() as int) =~= line_view(l@));
    r
}

/// Appends one line.
fn push_line(out: &mut Vec<Vec<Piece>>, l: Vec<Piece>)
    ensures
        output_view(final(out)@) == output_view(old(out)@).push(line_view(l@)),
{
    let ghost before = out@;
    out.push(l);
    assert(output_view(out@) =~= output_view(before).push(line_view(l@)));
}

/// Appends copies of `lines`.
fn push_lines(out: &mut Vec<Vec<Piece>>, lines: &Vec<Vec<Piece>>)
    ensures
        output_view(final(out)@) == output_view(old(out)@) + output_view(lines@),
{
    let ghost start = output_view(out@);
    let mut i: usize = 0;
    while i < lines.len()
        invariant
            i <= lines@.len(),
            output_view(out@) == start + output_view(lines@).subrange(0, i as int),
        decreases lines@.len() - i,
    {
        let l = copy_line(&lines[i]);
        push_line(out, l);
        i = i + 1;
        assert(output_view(out@) =~= start + output_view(lines@).subrange(0, i as int));
    }
    assert(output_view(lines@).subrange(0, lines@.len() as int) =~= output_view(lines@));
}

/// A line of one text piece.
fn text_line(t: String) -> (r: Vec<Piece>)
    ensures
        line_view(r@) == seq![PieceV::Text(t@)],
{
    let mut r: Vec<Piece> = Vec::new();
    r.push(Piece::Text(t));
    assert(line_view(r@) =~= seq![PieceV::Text(t@)]);
    r
}

fn labelled(label: &str, message: String) -> (r: Vec<Piece>)
    ensures
        line_view(r@) == seq![PieceV::Text(label@ + message@)],
{
    let mut s = String::from_str(label);
    s.append(message.as_str());
    text_line(s)
}

fn parse_error_pieces(e: &ParseError) -> (r: Vec<Piece>)
    ensures
        line_view(r@) == parse_error_line(e@),
{
    if let ParseError::UnexpectedToken(t) = e {
        if let TokenKind::Number(text) = &t.kind {
            let a = String::from_str("ERROR: Parse error: Unexpected token 'Number(");
            let mut b = String::from_str(")' at line ");
            push_decimal(&mut b, t.line);
            b.append(", column ");
            push_decimal(&mut b, t.col);
            let mut r: Vec<Piece> = Vec::new();
            r.push(Piece::Text(a));
            r.push(Piece::Literal(text.clone()));
            r.push(Piece::Text(b));
            assert(line_view(r@) =~= parse_error_line(e@));
            return r;
        }
    }
    let empty = String::new();
    let m = e.message(empty.as_str());
    labelled("ERROR: Parse error: ", m)
}

/// The lines the playground shows for `results`: each line's prints, and each
/// error on a line of its own, labelled `ERROR: ` (lexical),
/// `ERROR: Parse error: ` or `ERROR: Runtime error: `. The driver writes the
/// numbers in them and joins the lines.
pub fn output_lines(results: &[LineResult]) -> (r: Vec<Vec<Piece>>)
    ensures
        output_view(r@) == output_spec(results_view(results@)),
{
    let ghost rv = results_view(results@);
    let mut out: Vec<Vec<Piece>> = Vec::new();
    assert(output_view(out@) =~= Seq::<Seq<PieceV>>::empty());
    let mut i: usize = 0;
    while i < results.len()
        invariant
            i <= results@.len(),
            rv == results_view(results@),
            output_view(out@) == output_spec(rv.subrange(0, i as int)),
        decreases results@.len() - i,
    {
        let ghost before = output_view(out@);
        match &results[i] {
            LineResult::Printed(lines) => push_lines(&mut out, lines),
            LineResult::Lex(e) => {
                let l = labelled("ERROR: ", e.message());
                push_line(&mut out, l);
                assert(output_view(out@) =~= before + result_lines(rv[i as int]));
            },
            LineResult::Parse(e) => {
                let l = parse_error_pieces(e);
                push_line(&mut out, l);
                assert(output_view(out@) =~= before + result_lines(rv[i as int]));
            },
            LineResult::Runtime { printed, error } => {
                push_lines(&mut out, printed);
                let l = labelled("ERROR: Runtime error: ", error.message());
                push_line(&mut out, l);
                assert(output_view(out@) =~= before + result_lines(rv[i as int]));
            },
        }
        assert(rv.subrange(0, i + 1int).drop_last() =~= rv.subrange(0, i as int));
        i = i + 1;
    }
    assert(rv.subrange(0, results@.len() as int) =~= rv);
    out
}

} // verus!
