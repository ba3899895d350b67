//! Tree-walking interpreter for Gello, as a step machine.
//!
//! Numbers are IEEE-754 doubles, which this library does not compute on: a
//! step that needs arithmetic, a comparison, a test for zero, the value of a
//! number literal or a conversion to an index stops with a `NumQuery`, and the
//! driver hands the result back with the next step. Everything else (scopes,
//! closures, control flow, arrays, strings, errors and printing) is decided
//! here.
use vstd::prelude::*;
use vstd::string::StringExecFns;
use crate::ast::{
    lemma_exprs_view, lemma_stmts_view, copy_stmts, exprs_view, names_view, stmts_view, BinaryOp, Expr, ExprV,
    Stmt, StmtV, UnaryOp,
};
use crate::environment::{
    env_assign, env_get, env_new_frame, env_set, frame_get, law_get_after_set, lemma_frame_set, Environment,
    FrameV,
};
use crate::text::{chars_of, push_char, same_chars};
use crate::value::{truth_of, Value, ValueV};

verus! {

// ---------------------------------------------------------------------------
// What the machine asks, is told, reports and prints
// ---------------------------------------------------------------------------

/// A computation on numbers that the driver performs. Numbers are given as the
/// bit patterns of IEEE-754 doubles.
#[derive(Debug)]
pub enum NumQuery {
    /// The value of a number literal (its source text): answered with a `Number`.
    Literal(String),
    /// `-x`: answered with a `Number`.
    Negate(u64),
    /// `left op right` for `op` one of `Add`, `Sub`, `Mul`, `Div`, `Mod`:
    /// answered with a `Number`.
    Arith { op: BinaryOp, left: u64, right: u64 },
    /// Whether `x == 0.0`: answered with a `Truth`.
    IsZero(u64),
    /// `left op right` for `op` one of `Lt`, `Le`, `Gt`, `Ge`: answered with a `Truth`.
    Compare { op: BinaryOp, left: u64, right: u64 },
    /// Whether `|left - right| < f64::EPSILON`: answered with a `Truth`.
    Equal { left: u64, right: u64 },
    /// `x as usize` (saturating, NaN to 0): answered with an `Index`.
    ToIndex(u64),
}

/// The model of a query.
pub enum NumQueryV {
    Literal(Seq<char>),
    Negate(u64),
    Arith { op: BinaryOp, left: u64, right: u64 },
    IsZero(u64),
    Compare { op: BinaryOp, left: u64, right: u64 },
    Equal { left: u64, right: u64 },
    ToIndex(u64),
}

impl View for NumQuery {
    type V = NumQueryV;

    open spec fn view(&self) -> NumQueryV {
        match self {
            NumQuery::Literal(s) => NumQueryV::Literal(s@),
            NumQuery::Negate(x) => NumQueryV::Negate(*x),
            NumQuery::Arith { op, left, right } => NumQueryV::Arith { op: *op, left: *left, right: *right },
            NumQuery::IsZero(x) => NumQueryV::IsZero(*x),
            NumQuery::Compare { op, left, right } => NumQueryV::Compare {
                op: *op,
                left: *left,
                right: *right,
            },
            NumQuery::Equal { left, right } => NumQueryV::Equal { left: *left, right: *right },
            NumQuery::ToIndex(x) => NumQueryV::ToIndex(*x),
        }
    }
}

/// The driver's answer to a query.
#[derive(Clone, Copy, Debug, PartialEq, Eq, Structural)]
pub enum Answer {
    Number(u64),
    Truth(bool),
    Index(usize),
}

/// Why a program stopped. (Each matches one message of the language.)
#[derive(Debug)]
pub enum RuntimeError {
    /// "Undefined variable '{name}'"
    UndefinedVariable(String),
    /// "Cannot negate non-number"
    CannotNegate,
    /// "Cannot add these types"
    CannotAdd,
    /// "Cannot subtract non-numbers"
    CannotSubtract,
    /// "Cannot multiply non-numbers"
    CannotMultiply,
    /// "Cannot divide non-numbers"
    CannotDivide,
    /// "Cannot modulo non-numbers"
    CannotModulo,
    /// "Division by zero"
    DivisionByZero,
    /// "Modulo by zero"
    ModuloByZero,
    /// "Cannot compare non-numbers with '<'" (and `<=`, `>`, `>=`)
    CannotCompare(BinaryOp),
    /// "Index {i} out of bounds"
    IndexOutOfBounds(usize),
    /// "Array index must be a number"
    IndexNotNumber,
    /// "Cannot index non-array"
    CannotIndex,
    /// "Expected {expected} arguments but got {got}"
    ArityMismatch { expected: usize, got: usize },
    /// "Cannot call non-function"
    NotAFunction,
    /// "push expects 2 arguments, got {n}"
    PushArity(usize),
    /// "First argument to push must be an array"
    PushTarget,
    /// Printing an array that contains itself, which has no finite text.
    CyclicValue,
}

/// The model of a runtime error.
pub enum RuntimeErrorV {
    UndefinedVariable(Seq<char>),
    CannotNegate,
    CannotAdd,
    CannotSubtract,
    CannotMultiply,
    CannotDivide,
    CannotModulo,
    DivisionByZero,
    ModuloByZero,
    CannotCompare(BinaryOp),
    IndexOutOfBounds(nat),
    IndexNotNumber,
    CannotIndex,
    ArityMismatch { expected: nat, got: nat },
    NotAFunction,
    PushArity(nat),
    PushTarget,
    CyclicValue,
}

impl View for RuntimeError {
    type V = RuntimeErrorV;

    open spec fn view(&self) -> RuntimeErrorV {
        match self {
            RuntimeError::UndefinedVariable(s) => RuntimeErrorV::UndefinedVariable(s@),
            RuntimeError::CannotNegate => RuntimeErrorV::CannotNegate,
            RuntimeError::CannotAdd => RuntimeErrorV::CannotAdd,
            RuntimeError::CannotSubtract => RuntimeErrorV::CannotSubtract,
            RuntimeError::CannotMultiply => RuntimeErrorV::CannotMultiply,
            RuntimeError::CannotDivide => RuntimeErrorV::CannotDivide,
            RuntimeError::CannotModulo => RuntimeErrorV::CannotModulo,
            RuntimeError::DivisionByZero => RuntimeErrorV::DivisionByZero,
            RuntimeError::ModuloByZero => RuntimeErrorV::ModuloByZero,
            RuntimeError::CannotCompare(op) => RuntimeErrorV::CannotCompare(*op),
            RuntimeError::IndexOutOfBounds(i) => RuntimeErrorV::IndexOutOfBounds(*i as nat),
            RuntimeError::IndexNotNumber => RuntimeErrorV::IndexNotNumber,
            RuntimeError::CannotIndex => RuntimeErrorV::CannotIndex,
            RuntimeError::ArityMismatch { expected, got } => RuntimeErrorV::ArityMismatch {
                expected: *expected as nat,
                got: *got as nat,
            },
            RuntimeError::NotAFunction => RuntimeErrorV::NotAFunction,
            RuntimeError::PushArity(n) => RuntimeErrorV::PushArity(*n as nat),
            RuntimeError::PushTarget => RuntimeErrorV::PushTarget,
            RuntimeError::CyclicValue => RuntimeErrorV::CyclicValue,
        }
    }
}

/// A piece of a printed line: text, or a number that the driver formats (as
/// an integer when it is whole and finite, else as Rust prints an `f64`), or
/// the value of a number literal (given by its source text) that the driver
/// writes as `{:?}` writes an `f64`.
#[derive(Debug)]
pub enum Piece {
    Text(String),
    Number(u64),
    Literal(String),
}

/// The model of a piece.
pub enum PieceV {
    Text(Seq<char>),
    Number(u64),
    Literal(Seq<char>),
}

impl View for Piece {
    type V = PieceV;

    open spec fn view(&self) -> PieceV {
        match self {
            Piece::Text(s) => PieceV::Text(s@),
            Piece::Number(n) => PieceV::Number(*n),
            Piece::Literal(s) => PieceV::Literal(s@),
        }
    }
}

/// The models of a printed line.
pub open spec fn line_view(l: Seq<Piece>) -> Seq<PieceV> {
    Seq::new(l.len(), |i: int| l[i]@)
}

/// What one step of the machine reports.
#[derive(Debug)]
pub enum Step {
    /// More steps are needed.
    Running,
    /// The machine waits for the answer to this query.
    Query(NumQuery),
    /// The program ran to its end, or stopped with an error.
    Finished(Result<(), RuntimeError>),
}

/// The model of a step report.
pub enum StepV {
    Running,
    Query(NumQueryV),
    Finished(Result<(), RuntimeErrorV>),
}

impl View for Step {
    type V = StepV;

    open spec fn view(&self) -> StepV {
        match self {
            Step::Running => StepV::Running,
            Step::Query(q) => StepV::Query(q@),
            Step::Finished(Ok(())) => StepV::Finished(Ok(())),
            Step::Finished(Err(e)) => StepV::Finished(Err(e@)),
        }
    }
}

// ---------------------------------------------------------------------------
// Machine states
// ---------------------------------------------------------------------------

/// What a truth value, once known, is used for.
pub enum TruthUse {
    /// Choose the branch of an `if`.
    Branch { then_block: Vec<Stmt>, else_block: Option<Vec<Stmt>> },
    /// Run the body of a `while` again, or leave it.
    Loop { condition: Expr, body: Vec<Stmt> },
    /// The operand of `!`.
    Not,
    /// The left operand of `&&`; the right operand's value waits.
    AndLeft { right: Value },
    /// The right operand of `&&`.
    AndRight,
    /// The left operand of `||`; the right operand's value waits.
    OrLeft { right: Value },
    /// The right operand of `||`.
    OrRight,
}

pub enum TruthUseV {
    Branch { then_block: Seq<StmtV>, else_block: Option<Seq<StmtV>> },
    Loop { condition: ExprV, body: Seq<StmtV> },
    Not,
    AndLeft { right: ValueV },
    AndRight,
    OrLeft { right: ValueV },
    OrRight,
}

impl View for TruthUse {
    type V = TruthUseV;

    open spec fn view(&self) -> TruthUseV {
        match self {
            TruthUse::Branch { then_block, else_block } => TruthUseV::Branch {
                then_block: stmts_view(then_block@),
                else_block: match else_block {
                    Some(b) => Some(stmts_view(b@)),
                    None => None,
                },
            },
            TruthUse::Loop { condition, body } => TruthUseV::Loop {
                condition: condition@,
                body: stmts_view(body@),
            },
            TruthUse::Not => TruthUseV::Not,
            TruthUse::AndLeft { right } => TruthUseV::AndLeft { right: right@ },
            TruthUse::AndRight => TruthUseV::AndRight,
            TruthUse::OrLeft { right } => TruthUseV::OrLeft { right: right@ },
            TruthUse::OrRight => TruthUseV::OrRight,
        }
    }
}

/// What the machine is doing now.
pub enum Ctrl {
    /// No program is running.
    Idle,
    /// Execute this statement.
    Exec(Stmt),
    /// Evaluate this expression.
    Eval(Expr),
    /// An expression just gave this value.
    Value(Value),
    /// A statement just completed.
    Done,
    /// A `return` is carrying this value out.
    Returning(Value),
    /// An error is unwinding.
    Failed(RuntimeError),
    /// Waiting for the answer to this query.
    Awaiting(NumQuery),
}

pub enum CtrlV {
    Idle,
    Exec(StmtV),
    Eval(ExprV),
    Value(ValueV),
    Done,
    Returning(ValueV),
    Failed(RuntimeErrorV),
    Awaiting(NumQueryV),
}

impl View for Ctrl {
    type V = CtrlV;

    open spec fn view(&self) -> CtrlV {
        match self {
            Ctrl::Idle => CtrlV::Idle,
            Ctrl::Exec(s) => CtrlV::Exec(s@),
            Ctrl::Eval(e) => CtrlV::Eval(e@),
            Ctrl::Value(v) => CtrlV::Value(v@),
            Ctrl::Done => CtrlV::Done,
            Ctrl::Returning(v) => CtrlV::Returning(v@),
            Ctrl::Failed(e) => CtrlV::Failed(e@),
            Ctrl::Awaiting(q) => CtrlV::Awaiting(q@),
        }
    }
}

/// What remains to be done once the current work completes.
#[allow(inconsistent_fields)]
pub enum Kont {
    /// The top-level statements, from `next` on.
    Program { stmts: Vec<Stmt>, next: usize },
    /// The statements of a block, from `next` on.
    Block { stmts: Vec<Stmt>, next: usize },
    /// Leave the scope of an `if` branch, back to frame `saved`.
    IfBody { saved: usize },
    /// Leave the scope of a `while` body, back to frame `saved`, and test again.
    WhileBody { condition: Expr, body: Vec<Stmt>, saved: usize },
    /// Return from a function call, back to frame `saved`.
    Call { saved: usize },
    /// Bind the value with `let`.
    Let { name: String },
    /// Print the value.
    Print,
    /// Drop the value of an expression statement.
    ExprStmt,
    /// Return the value.
    Return,
    /// Test whether the value is true, for this use.
    Test(TruthUse),
    /// Use the answer to a test for zero as a truth value (true when not zero).
    Decide(TruthUse),
    /// Negate the value.
    Negate,
    /// The left operand is done; evaluate the right one.
    BinLeft { op: BinaryOp, right: Expr },
    /// Both operands are done.
    BinRight { op: BinaryOp, left: Value },
    /// Divide (or take the remainder) unless the divisor is zero.
    DivCheck { op: BinaryOp, left: u64, right: u64 },
    /// Turn the answer to an equality query into `==` (or `!=`).
    EqAnswer { negate: bool },
    /// Assign the value.
    Assign { name: String },
    /// Append the value to array `array` and evaluate the element `next`.
    ArrayElems { elems: Vec<Expr>, next: usize, array: usize },
    /// The array is done; evaluate the index.
    IndexArray { index: Expr },
    /// Both the array and the index are done.
    IndexValue { array: Value },
    /// Read array `array` at the answered index.
    IndexAt { array: usize },
    /// The callee is done; check it and its arity.
    Callee { args: Vec<Expr> },
    /// Bind the value to parameter `next - 1` in `frame`, then evaluate the
    /// next argument or enter the body.
    Args { params: Vec<String>, body: Vec<Stmt>, args: Vec<Expr>, next: usize, frame: usize },
    /// The array argument of `push` is done; evaluate the value.
    PushTarget { value: Expr },
    /// Push the value onto this array.
    PushValue { target: Value },
}

#[allow(inconsistent_fields)]
pub enum KontV {
    Program { stmts: Seq<StmtV>, next: nat },
    Block { stmts: Seq<StmtV>, next: nat },
    IfBody { saved: nat },
    WhileBody { condition: ExprV, body: Seq<StmtV>, saved: nat },
    Call { saved: nat },
    Let { name: Seq<char> },
    Print,
    ExprStmt,
    Return,
    Test(TruthUseV),
    Decide(TruthUseV),
    Negate,
    BinLeft { op: BinaryOp, right: ExprV },
    BinRight { op: BinaryOp, left: ValueV },
    DivCheck { op: BinaryOp, left: u64, right: u64 },
    EqAnswer { negate: bool },
    Assign { name: Seq<char> },
    ArrayElems { elems: Seq<ExprV>, next: nat, array: nat },
    IndexArray { index: ExprV },
    IndexValue { array: ValueV },
    IndexAt { array: nat },
    Callee { args: Seq<ExprV> },
    Args { params: Seq<Seq<char>>, body: Seq<StmtV>, args: Seq<ExprV>, next: nat, frame: nat },
    PushTarget { value: ExprV },
    PushValue { target: ValueV },
}

impl View for Kont {
    type V = KontV;

    open spec fn view(&self) -> KontV {
        match self {
            Kont::Program { stmts, next } => KontV::Program { stmts: stmts_view(stmts@), next: *next as nat },
            Kont::Block { stmts, next } => KontV::Block { stmts: stmts_view(stmts@), next: *next as nat },
            Kont::IfBody { saved } => KontV::IfBody { saved: *saved as nat },
            Kont::WhileBody { condition, body, saved } => KontV::WhileBody {
                condition: condition@,
                body: stmts_view(body@),
                saved: *saved as nat,
            },
            Kont::Call { saved } => KontV::Call { saved: *saved as nat },
            Kont::Let { name } => KontV::Let { name: name@ },
            Kont::Print => KontV::Print,
            Kont::ExprStmt => KontV::ExprStmt,
            Kont::Return => KontV::Return,
            Kont::Test(u) => KontV::Test(u@),
            Kont::Decide(u) => KontV::Decide(u@),
            Kont::Negate => KontV::Negate,
            Kont::BinLeft { op, right } => KontV::BinLeft { op: *op, right: right@ },
            Kont::BinRight { op, left } => KontV::BinRight { op: *op, left: left@ },
            Kont::DivCheck { op, left, right } => KontV::DivCheck { op: *op, left: *left, right: *right },
            Kont::EqAnswer { negate } => KontV::EqAnswer { negate: *negate },
            Kont::Assign { name } => KontV::Assign { name: name@ },
            Kont::ArrayElems { elems, next, array } => KontV::ArrayElems {
                elems: exprs_view(elems@),
                next: *next as nat,
                array: *array as nat,
            },
            Kont::IndexArray { index } => KontV::IndexArray { index: index@ },
            Kont::IndexValue { array } => KontV::IndexValue { array: array@ },
            Kont::IndexAt { array } => KontV::IndexAt { array: *array as nat },
            Kont::Callee { args } => KontV::Callee { args: exprs_view(args@) },
            Kont::Args { params, body, args, next, frame } => KontV::Args {
                params: names_view(params@),
                body: stmts_view(body@),
                args: exprs_view(args@),
                next: *next as nat,
                frame: *frame as nat,
            },
            Kont::PushTarget { value } => KontV::PushTarget { value: value@ },
            Kont::PushValue { target } => KontV::PushValue { target: target@ },
        }
    }
}

/// The model of the whole interpreter.
#[verifier::ext_equal]
pub struct State {
    /// The scopes.
    pub frames: Seq<FrameV>,
    /// The arrays, shared by every value that refers to them.
    pub arrays: Seq<Seq<ValueV>>,
    /// The current scope.
    pub env: nat,
    /// The lines printed so far.
    pub output: Seq<Seq<PieceV>>,
    pub ctrl: CtrlV,
    /// The continuation stack; its last element is the innermost.
    pub konts: Seq<KontV>,
}

// ---------------------------------------------------------------------------
// The semantics: one step of the machine
// ---------------------------------------------------------------------------

/// Continue with `c`.
pub open spec fn go(s: State, c: CtrlV) -> (State, StepV) {
    (State { ctrl: c, ..s }, StepV::Running)
}

/// Fail with `e` (the error then unwinds, step by step).
pub open spec fn fail(s: State, e: RuntimeErrorV) -> (State, StepV) {
    go(s, CtrlV::Failed(e))
}

/// Wait for the answer to `q`.
pub open spec fn ask(s: State, q: NumQueryV) -> (State, StepV) {
    (State { ctrl: CtrlV::Awaiting(q), ..s }, StepV::Query(q))
}

/// Stop, with the program's outcome.
pub open spec fn finish(s: State, r: Result<(), RuntimeErrorV>) -> (State, StepV) {
    (State { ctrl: CtrlV::Idle, konts: Seq::empty(), ..s }, StepV::Finished(r))
}

pub open spec fn push(s: State, k: KontV) -> State {
    State { konts: s.konts.push(k), ..s }
}

pub open spec fn pop(s: State) -> State {
    State { konts: s.konts.drop_last(), ..s }
}

/// The arrays after appending `v` to array `a`.
pub open spec fn push_into(arrays: Seq<Seq<ValueV>>, a: nat, v: ValueV) -> Seq<Seq<ValueV>> {
    if a < arrays.len() {
        arrays.update(a as int, arrays[a as int].push(v))
    } else {
        arrays
    }
}

/// The name of the built-in function.
pub open spec fn push_name() -> Seq<char> {
    seq!['p', 'u', 's', 'h']
}

/// Equality of two values that are not both numbers: strings, booleans and
/// `null` by content, anything else is unequal.
pub open spec fn values_equal(a: ValueV, b: ValueV) -> bool {
    match (a, b) {
        (ValueV::Str(x), ValueV::Str(y)) => x == y,
        (ValueV::Bool(x), ValueV::Bool(y)) => x == y,
        (ValueV::Null, ValueV::Null) => true,
        _ => false,
    }
}

/// Enter a block in a new scope nested in the current one; `k` restores the
/// scope when the block is left.
pub open spec fn enter_scope(s: State, k: KontV, stmts: Seq<StmtV>) -> (State, StepV) {
    go(
        State {
            frames: env_new_frame(s.frames, Some(s.env)),
            env: s.frames.len(),
            konts: s.konts.push(k).push(KontV::Block { stmts, next: 0 }),
            ..s
        },
        CtrlV::Done,
    )
}

/// Enter the body of a function whose parameters are bound in `frame`.
pub open spec fn enter_call(s: State, body: Seq<StmtV>, frame: nat) -> (State, StepV) {
    go(
        State {
            env: frame,
            konts: s.konts.push(KontV::Call { saved: s.env }).push(KontV::Block { stmts: body, next: 0 }),
            ..s
        },
        CtrlV::Done,
    )
}

pub open spec fn exec_stmt(s: State, st: StmtV) -> (State, StepV) {
    match st {
        StmtV::Let { name, value } => go(push(s, KontV::Let { name }), CtrlV::Eval(value)),
        StmtV::Print(e) => go(push(s, KontV::Print), CtrlV::Eval(e)),
        StmtV::Expression(e) => go(push(s, KontV::ExprStmt), CtrlV::Eval(e)),
        StmtV::If { condition, then_block, else_block } => go(
            push(s, KontV::Test(TruthUseV::Branch { then_block, else_block })),
            CtrlV::Eval(condition),
        ),
        StmtV::While { condition, body } => go(
            push(s, KontV::Test(TruthUseV::Loop { condition, body })),
            CtrlV::Eval(condition),
        ),
        StmtV::Fn { name, params, body } => go(
            State {
                frames: env_set(
                    s.frames,
                    s.env as int,
                    name,
                    ValueV::Function { params, body, closure: s.env },
                ),
                ..s
            },
            CtrlV::Done,
        ),
        StmtV::Return(e) => go(push(s, KontV::Return), CtrlV::Eval(e)),
    }
}

pub open spec fn eval_expr(s: State, e: ExprV) -> (State, StepV) {
    match e {
        ExprV::Number(t) => ask(s, NumQueryV::Literal(t)),
        ExprV::StringLit(t) => go(s, CtrlV::Value(ValueV::Str(t))),
        ExprV::Bool(b) => go(s, CtrlV::Value(ValueV::Bool(b))),
        ExprV::Null => go(s, CtrlV::Value(ValueV::Null)),
        ExprV::Identifier(name) => match env_get(s.frames, s.env as int, name) {
            Some(v) => go(s, CtrlV::Value(v)),
            None => fail(s, RuntimeErrorV::UndefinedVariable(name)),
        },
        ExprV::Unary { op, right } => go(
            push(s, if op == UnaryOp::Neg { KontV::Negate } else { KontV::Test(TruthUseV::Not) }),
            CtrlV::Eval(*right),
        ),
        ExprV::Binary { left, op, right } => go(
            push(s, KontV::BinLeft { op, right: *right }),
            CtrlV::Eval(*left),
        ),
        ExprV::Assign { name, value } => go(push(s, KontV::Assign { name }), CtrlV::Eval(*value)),
        ExprV::Lambda { params, body } => go(
            s,
            CtrlV::Value(ValueV::Function { params, body, closure: s.env }),
        ),
        ExprV::Array(elems) => {
            let a = s.arrays.len();
            let s1 = State { arrays: s.arrays.push(Seq::empty()), ..s };
            if elems.len() == 0 {
                go(s1, CtrlV::Value(ValueV::Array(a)))
            } else {
                go(push(s1, KontV::ArrayElems { elems, next: 1, array: a }), CtrlV::Eval(elems[0]))
            }
        },
        ExprV::Index { array, index } => go(
            push(s, KontV::IndexArray { index: *index }),
            CtrlV::Eval(*array),
        ),
        ExprV::Call { callee, args } => if *callee == ExprV::Identifier(push_name()) {
            if args.len() != 2 {
                fail(s, RuntimeErrorV::PushArity(args.len()))
            } else {
                go(push(s, KontV::PushTarget { value: args[1] }), CtrlV::Eval(args[0]))
            }
        } else {
            go(push(s, KontV::Callee { args }), CtrlV::Eval(*callee))
        },
    }
}

/// The rank of a truth use, for termination: a left operand of `&&` or `||`
/// may go on to test the right one.
pub open spec fn use_rank(u: TruthUseV) -> nat {
    match u {
        TruthUseV::AndLeft { .. } => 1,
        TruthUseV::OrLeft { .. } => 1,
        _ => 0,
    }
}

/// Test whether `v` is true, for use `u` (asking the driver for numbers).
pub open spec fn test_truth(s: State, v: ValueV, u: TruthUseV) -> (State, StepV)
    decreases use_rank(u), 1nat,
{
    match truth_of(v) {
        Some(t) => decide(s, t, u),
        None => match v {
            ValueV::Number(n) => ask(push(s, KontV::Decide(u)), NumQueryV::IsZero(n)),
            _ => go(s, CtrlV::Done),
        },
    }
}

/// Use the truth value `t` for `u`.
pub open spec fn decide(s: State, t: bool, u: TruthUseV) -> (State, StepV)
    decreases use_rank(u), 0nat,
{
    match u {
        TruthUseV::Branch { then_block, else_block } => if t {
            enter_scope(s, KontV::IfBody { saved: s.env }, then_block)
        } else {
            match else_block {
                Some(b) => enter_scope(s, KontV::IfBody { saved: s.env }, b),
                None => go(s, CtrlV::Done),
            }
        },
        TruthUseV::Loop { condition, body } => if t {
            enter_scope(s, KontV::WhileBody { condition, body, saved: s.env }, body)
        } else {
            go(s, CtrlV::Done)
        },
        TruthUseV::Not => go(s, CtrlV::Value(ValueV::Bool(!t))),
        TruthUseV::AndLeft { right } => if !t {
            go(s, CtrlV::Value(ValueV::Bool(false)))
        } else {
            test_truth(s, right, TruthUseV::AndRight)
        },
        TruthUseV::AndRight => go(s, CtrlV::Value(ValueV::Bool(t))),
        TruthUseV::OrLeft { right } => if t {
            go(s, CtrlV::Value(ValueV::Bool(true)))
        } else {
            test_truth(s, right, TruthUseV::OrRight)
        },
        TruthUseV::OrRight => go(s, CtrlV::Value(ValueV::Bool(t))),
    }
}

/// The error for an arithmetic operator applied to something other than numbers.
pub open spec fn arith_error(op: BinaryOp) -> RuntimeErrorV {
    match op {
        BinaryOp::Add => RuntimeErrorV::CannotAdd,
        BinaryOp::Sub => RuntimeErrorV::CannotSubtract,
        BinaryOp::Mul => RuntimeErrorV::CannotMultiply,
        BinaryOp::Div => RuntimeErrorV::CannotDivide,
        _ => RuntimeErrorV::CannotModulo,
    }
}

/// Apply `op` to the values of both operands.
pub open spec fn binary(s: State, op: BinaryOp, l: ValueV, r: ValueV) -> (State, StepV) {
    match op {
        BinaryOp::Eq | BinaryOp::Ne => match (l, r) {
            (ValueV::Number(a), ValueV::Number(b)) => ask(
                push(s, KontV::EqAnswer { negate: op == BinaryOp::Ne }),
                NumQueryV::Equal { left: a, right: b },
            ),
            _ => go(s, CtrlV::Value(ValueV::Bool(values_equal(l, r) != (op == BinaryOp::Ne)))),
        },
        BinaryOp::Lt | BinaryOp::Le | BinaryOp::Gt | BinaryOp::Ge => match (l, r) {
            (ValueV::Number(a), ValueV::Number(b)) => ask(s, NumQueryV::Compare { op, left: a, right: b }),
            _ => fail(s, RuntimeErrorV::CannotCompare(op)),
        },
        BinaryOp::And => test_truth(s, l, TruthUseV::AndLeft { right: r }),
        BinaryOp::Or => test_truth(s, l, TruthUseV::OrLeft { right: r }),
        _ => match (l, r) {
            (ValueV::Number(a), ValueV::Number(b)) => if op == BinaryOp::Div || op == BinaryOp::Mod {
                ask(push(s, KontV::DivCheck { op, left: a, right: b }), NumQueryV::IsZero(b))
            } else {
                ask(s, NumQueryV::Arith { op, left: a, right: b })
            },
            (ValueV::Str(a), ValueV::Str(b)) => if op == BinaryOp::Add {
                go(s, CtrlV::Value(ValueV::Str(a + b)))
            } else {
                fail(s, arith_error(op))
            },
            _ => fail(s, arith_error(op)),
        },
    }
}

/// Hand the value `v` to the innermost continuation.
pub open spec fn give_value(s: State, v: ValueV) -> (State, StepV) {
    if s.konts.len() == 0 {
        finish(s, Ok(()))
    } else {
        let k = s.konts.last();
        let p = pop(s);
        match k {
            KontV::Let { name } => go(
                State { frames: env_set(p.frames, p.env as int, name, v), ..p },
                CtrlV::Done,
            ),
            KontV::Print => match render(p.arrays, v, p.arrays.len()) {
                Some(line) => go(State { output: p.output.push(line), ..p }, CtrlV::Done),
                None => fail(p, RuntimeErrorV::CyclicValue),
            },
            KontV::ExprStmt => go(p, CtrlV::Done),
            KontV::Return => go(p, CtrlV::Returning(v)),
            KontV::Test(u) => test_truth(p, v, u),
            KontV::Negate => match v {
                ValueV::Number(n) => ask(p, NumQueryV::Negate(n)),
                _ => fail(p, RuntimeErrorV::CannotNegate),
            },
            KontV::BinLeft { op, right } => go(push(p, KontV::BinRight { op, left: v }), CtrlV::Eval(right)),
            KontV::BinRight { op, left } => binary(p, op, left, v),
            KontV::Assign { name } => match env_assign(p.frames, p.env as int, name, v) {
                Some(f) => go(State { frames: f, ..p }, CtrlV::Value(v)),
                None => fail(p, RuntimeErrorV::UndefinedVariable(name)),
            },
            KontV::ArrayElems { elems, next, array } => {
                let p1 = State { arrays: push_into(p.arrays, array, v), ..p };
                if next < elems.len() {
                    go(
                        push(p1, KontV::ArrayElems { elems, next: next + 1, array }),
                        CtrlV::Eval(elems[next as int]),
                    )
                } else {
                    go(p1, CtrlV::Value(ValueV::Array(array)))
                }
            },
            KontV::IndexArray { index } => go(push(p, KontV::IndexValue { array: v }), CtrlV::Eval(index)),
            KontV::IndexValue { array } => match (array, v) {
                (ValueV::Array(a), ValueV::Number(n)) => ask(
                    push(p, KontV::IndexAt { array: a }),
                    NumQueryV::ToIndex(n),
                ),
                (ValueV::Array(_), _) => fail(p, RuntimeErrorV::IndexNotNumber),
                _ => fail(p, RuntimeErrorV::CannotIndex),
            },
            KontV::Callee { args } => match v {
                ValueV::Function { params, body, closure } => if args.len() != params.len() {
                    fail(p, RuntimeErrorV::ArityMismatch { expected: params.len(), got: args.len() })
                } else {
                    let frame = p.frames.len();
                    let p1 = State { frames: env_new_frame(p.frames, Some(closure)), ..p };
                    if args.len() == 0 {
                        enter_call(p1, body, frame)
                    } else {
                        go(
                            push(p1, KontV::Args { params, body, args, next: 1, frame }),
                            CtrlV::Eval(args[0]),
                        )
                    }
                },
                _ => fail(p, RuntimeErrorV::NotAFunction),
            },
            KontV::Args { params, body, args, next, frame } => {
                let p1 = if 1 <= next <= params.len() {
                    State { frames: env_set(p.frames, frame as int, params[next - 1], v), ..p }
                } else {
                    p
                };
                if next < args.len() {
                    go(
                        push(p1, KontV::Args { params, body, args, next: next + 1, frame }),
                        CtrlV::Eval(args[next as int]),
                    )
                } else {
                    enter_call(p1, body, frame)
                }
            },
            KontV::PushTarget { value } => go(push(p, KontV::PushValue { target: v }), CtrlV::Eval(value)),
            KontV::PushValue { target } => match target {
                ValueV::Array(a) => go(
                    State { arrays: push_into(p.arrays, a, v), ..p },
                    CtrlV::Value(ValueV::Null),
                ),
                _ => fail(p, RuntimeErrorV::PushTarget),
            },
            _ => finish(s, Ok(())),
        }
    }
}

/// The current statement completed normally.
pub open spec fn give_done(s: State) -> (State, StepV) {
    if s.konts.len() == 0 {
        finish(s, Ok(()))
    } else {
        let k = s.konts.last();
        let p = pop(s);
        match k {
            KontV::Program { stmts, next } => if next < stmts.len() {
                go(push(p, KontV::Program { stmts, next: next + 1 }), CtrlV::Exec(stmts[next as int]))
            } else {
                finish(s, Ok(()))
            },
            KontV::Block { stmts, next } => if next < stmts.len() {
                go(push(p, KontV::Block { stmts, next: next + 1 }), CtrlV::Exec(stmts[next as int]))
            } else {
                go(p, CtrlV::Done)
            },
            KontV::IfBody { saved } => go(State { env: saved, ..p }, CtrlV::Done),
            KontV::WhileBody { condition, body, saved } => go(
                State { env: saved, ..push(p, KontV::Test(TruthUseV::Loop { condition, body })) },
                CtrlV::Eval(condition),
            ),
            KontV::Call { saved } => go(State { env: saved, ..p }, CtrlV::Value(ValueV::Null)),
            _ => finish(s, Ok(())),
        }
    }
}

/// A `return` carries `v` out: to the caller, past the scopes it leaves; at
/// the top level it only ends its statement.
pub open spec fn give_return(s: State, v: ValueV) -> (State, StepV) {
    if s.konts.len() == 0 {
        finish(s, Ok(()))
    } else {
        let k = s.konts.last();
        let p = pop(s);
        match k {
            KontV::Program { .. } => give_done(s),
            KontV::IfBody { saved } => go(State { env: saved, ..p }, CtrlV::Returning(v)),
            KontV::WhileBody { saved, .. } => go(State { env: saved, ..p }, CtrlV::Returning(v)),
            KontV::Call { saved } => go(State { env: saved, ..p }, CtrlV::Value(v)),
            _ => go(p, CtrlV::Returning(v)),
        }
    }
}

/// An error unwinds to the top level; each function call and each block of
/// `if` or `while` on the way gives the enclosing scope back.
pub open spec fn give_failure(s: State, e: RuntimeErrorV) -> (State, StepV) {
    if s.konts.len() == 0 {
        finish(s, Err(e))
    } else {
        let p = pop(s);
        match s.konts.last() {
            KontV::Program { .. } => finish(s, Err(e)),
            KontV::Call { saved } => go(State { env: saved, ..p }, CtrlV::Failed(e)),
            KontV::IfBody { saved } => go(State { env: saved, ..p }, CtrlV::Failed(e)),
            KontV::WhileBody { saved, .. } => go(State { env: saved, ..p }, CtrlV::Failed(e)),
            _ => go(p, CtrlV::Failed(e)),
        }
    }
}

/// The driver answered `a` to the query `q`. An answer of the wrong kind
/// leaves the machine waiting.
pub open spec fn give_answer(s: State, q: NumQueryV, a: Answer) -> (State, StepV) {
    match (q, a) {
        (NumQueryV::Literal(_), Answer::Number(n)) => go(s, CtrlV::Value(ValueV::Number(n))),
        (NumQueryV::Negate(_), Answer::Number(n)) => go(s, CtrlV::Value(ValueV::Number(n))),
        (NumQueryV::Arith { .. }, Answer::Number(n)) => go(s, CtrlV::Value(ValueV::Number(n))),
        (NumQueryV::Compare { .. }, Answer::Truth(b)) => go(s, CtrlV::Value(ValueV::Bool(b))),
        (NumQueryV::Equal { .. }, Answer::Truth(eq)) => if s.konts.len() > 0 && s.konts.last() is EqAnswer {
            go(pop(s), CtrlV::Value(ValueV::Bool(eq != s.konts.last()->negate)))
        } else {
            finish(s, Ok(()))
        },
        (NumQueryV::IsZero(_), Answer::Truth(z)) => if s.konts.len() == 0 {
            finish(s, Ok(()))
        } else {
            match s.konts.last() {
                KontV::Decide(u) => decide(pop(s), !z, u),
                KontV::DivCheck { op, left, right } => if z {
                    fail(
                        pop(s),
                        if op == BinaryOp::Div {
                            RuntimeErrorV::DivisionByZero
                        } else {
                            RuntimeErrorV::ModuloByZero
                        },
                    )
                } else {
                    ask(pop(s), NumQueryV::Arith { op, left, right })
                },
                _ => finish(s, Ok(())),
            }
        },
        (NumQueryV::ToIndex(_), Answer::Index(i)) => if s.konts.len() > 0 && s.konts.last() is IndexAt {
            let a = s.konts.last()->IndexAt_array;
            let p = pop(s);
            if a < s.arrays.len() && i < s.arrays[a as int].len() {
                go(p, CtrlV::Value(s.arrays[a as int][i as int]))
            } else {
                fail(p, RuntimeErrorV::IndexOutOfBounds(i as nat))
            }
        } else {
            finish(s, Ok(()))
        },
        _ => ask(s, q),
    }
}

/// One step of the machine, given the answer to the pending query (if any).
pub open spec fn step_spec(s: State, ans: Option<Answer>) -> (State, StepV) {
    let s0 = State { ctrl: CtrlV::Idle, ..s };
    match s.ctrl {
        CtrlV::Idle => (s, StepV::Finished(Ok(()))),
        CtrlV::Exec(st) => exec_stmt(s0, st),
        CtrlV::Eval(e) => eval_expr(s0, e),
        CtrlV::Value(v) => give_value(s0, v),
        CtrlV::Done => give_done(s0),
        CtrlV::Returning(v) => give_return(s0, v),
        CtrlV::Failed(e) => give_failure(s0, e),
        CtrlV::Awaiting(q) => match ans {
            Some(a) => give_answer(s0, q, a),
            None => (s, StepV::Query(q)),
        },
    }
}

// ---------------------------------------------------------------------------
// Laws of scopes in the machine
// ---------------------------------------------------------------------------

/// Law (lexical scoping): calling a function makes a new scope nested in the
/// scope the function closed over, not in the caller's; its body runs there.
pub proof fn law_call_scope_nests_in_closure(
    s: State,
    params: Seq<Seq<char>>,
    body: Seq<StmtV>,
    closure: nat,
    args: Seq<ExprV>,
)
    requires
        s.ctrl == CtrlV::Value(ValueV::Function { params, body, closure }),
        s.konts.len() > 0,
        s.konts.last() == (KontV::Callee { args }),
        args.len() == params.len(),
    ensures
        step_spec(s, None).0.frames == env_new_frame(s.frames, Some(closure)),
        args.len() == 0 ==> step_spec(s, None).0.env == s.frames.len(),
{
}

/// Law: leaving a function, by its end, by `return` or by an error, gives the
/// caller's scope back.
pub proof fn law_call_restores_scope(s: State, saved: nat, ans: Option<Answer>)
    requires
        s.konts.len() > 0,
        s.konts.last() == (KontV::Call { saved }),
        s.ctrl is Done || s.ctrl is Returning || s.ctrl is Failed,
    ensures
        step_spec(s, ans).0.env == saved,
        step_spec(s, ans).0.konts == s.konts.drop_last(),
{
}

/// Law: a block of `if` or `while` gives the enclosing scope back however it
/// is left: normally, by `return`, or by an error.
pub proof fn law_block_scope_restored(s: State, ans: Option<Answer>)
    requires
        s.konts.len() > 0,
        s.konts.last() is IfBody || s.konts.last() is WhileBody,
        s.ctrl is Done || s.ctrl is Returning || s.ctrl is Failed,
    ensures
        step_spec(s, ans).0.env == (match s.konts.last() {
            KontV::IfBody { saved } => saved,
            KontV::WhileBody { saved, .. } => saved,
            _ => 0,
        }),
{
}

/// Law: every pass through a `while` body runs in a fresh scope nested in the
/// loop's scope.
pub proof fn law_while_body_fresh_scope(s: State, condition: ExprV, body: Seq<StmtV>)
    ensures
        decide(s, true, TruthUseV::Loop { condition, body }).0.frames == env_new_frame(s.frames, Some(s.env)),
        decide(s, true, TruthUseV::Loop { condition, body }).0.env == s.frames.len(),
{
}

/// Law: a value that reaches the top level as a `return` only ends its
/// statement: the program goes on with the next one.
pub proof fn law_top_level_return_continues(s: State, v: ValueV, stmts: Seq<StmtV>, next: nat)
    requires
        s.ctrl == CtrlV::Returning(v),
        s.konts.len() > 0,
        s.konts.last() == (KontV::Program { stmts, next }),
        next < stmts.len(),
    ensures
        step_spec(s, None).0.ctrl == CtrlV::Exec(stmts[next as int]),
        step_spec(s, None).1 == StepV::Running,
{
}

/// Law: the arguments of a call are evaluated in the caller's scope, one
/// after another, before the body is entered.
pub proof fn law_args_evaluated_in_caller_scope(
    s: State,
    v: ValueV,
    params: Seq<Seq<char>>,
    body: Seq<StmtV>,
    args: Seq<ExprV>,
    next: nat,
    frame: nat,
)
    requires
        s.ctrl == CtrlV::Value(v),
        s.konts.len() > 0,
        s.konts.last() == (KontV::Args { params, body, args, next, frame }),
        next < args.len(),
    ensures
        step_spec(s, None).0.env == s.env,
        step_spec(s, None).0.ctrl == CtrlV::Eval(args[next as int]),
{
}

/// Law: a `return` leaves the rest of its block unexecuted.
pub proof fn law_return_skips_rest_of_block(s: State, v: ValueV, stmts: Seq<StmtV>, next: nat)
    requires
        s.ctrl == CtrlV::Returning(v),
        s.konts.len() > 0,
        s.konts.last() == (KontV::Block { stmts, next }),
    ensures
        step_spec(s, None).0 == (State { ctrl: CtrlV::Returning(v), konts: s.konts.drop_last(), ..s }),
{
}

/// Law: `push(a, v)` always calls the built-in, whatever `push` is bound to:
/// its first argument is evaluated next, and the name is never looked up.
pub proof fn law_push_is_builtin(s: State, args: Seq<ExprV>)
    requires
        s.ctrl == CtrlV::Eval(ExprV::Call { callee: Box::new(ExprV::Identifier(push_name())), args }),
        args.len() == 2,
    ensures
        step_spec(s, None).0 == (State {
            ctrl: CtrlV::Eval(args[0]),
            konts: s.konts.push(KontV::PushTarget { value: args[1] }),
            ..s
        }),
{
}

/// Law: when a call's argument `next` (counting from 1) has its value `v`,
/// the call's frame binds parameter `next` (and no other) to `v`, keeping
/// every other binding of that frame: parameter `i` gets argument `i`.
pub proof fn law_argument_binds_its_parameter(
    s: State,
    v: ValueV,
    params: Seq<Seq<char>>,
    body: Seq<StmtV>,
    args: Seq<ExprV>,
    next: nat,
    frame: nat,
    other: Seq<char>,
)
    requires
        s.ctrl == CtrlV::Value(v),
        s.konts.len() > 0,
        s.konts.last() == (KontV::Args { params, body, args, next, frame }),
        1 <= next <= params.len(),
        frame < s.frames.len(),
    ensures
        step_spec(s, None).0.frames.len() == s.frames.len(),
        frame_get(step_spec(s, None).0.frames[frame as int], params[next - 1]) == Some(v),
        other != params[next - 1] ==> frame_get(step_spec(s, None).0.frames[frame as int], other) == frame_get(
            s.frames[frame as int],
            other,
        ),
{
    lemma_frame_set(s.frames[frame as int], params[next - 1], v, params[next - 1]);
    lemma_frame_set(s.frames[frame as int], params[next - 1], v, other);
}

/// Law: `fn name(params) { body }` binds `name`, in the current scope, to a
/// function that closes over that scope, the scope it is declared in: the
/// same function a lambda `fn(params) { body }` evaluated there gives.
pub proof fn law_function_closes_over_its_scope(s: State, name: Seq<char>, params: Seq<Seq<char>>, body: Seq<StmtV>)
    requires
        s.ctrl == CtrlV::Exec(StmtV::Fn { name, params, body }),
        s.env < s.frames.len(),
    ensures
        frame_get(step_spec(s, None).0.frames[s.env as int], name) == Some(
            ValueV::Function { params, body, closure: s.env },
        ),
        env_get(step_spec(s, None).0.frames, s.env as int, name) == Some(
            ValueV::Function { params, body, closure: s.env },
        ),
        step_spec(State { ctrl: CtrlV::Eval(ExprV::Lambda { params, body }), ..s }, None).0.ctrl == CtrlV::Value(
            ValueV::Function { params, body, closure: s.env },
        ),
{
    let f = ValueV::Function { params, body, closure: s.env };
    lemma_frame_set(s.frames[s.env as int], name, f, name);
    law_get_after_set(s.frames, s.env as int, name, f);
}

/// Law: `!=` gives the opposite of `==` on the same operands: on two numbers
/// `==` gives the driver's answer to whether they are equal and `!=` its
/// negation; on anything else both are decided at once, oppositely.
pub proof fn law_not_equal_negates_equal(p: State, l: ValueV, r: ValueV, eq: bool)
    requires
        p.ctrl == CtrlV::Idle,
    ensures
        l is Number && r is Number ==> {
            &&& step_spec(binary(p, BinaryOp::Eq, l, r).0, Some(Answer::Truth(eq))).0.ctrl == CtrlV::Value(
                ValueV::Bool(eq),
            )
            &&& step_spec(binary(p, BinaryOp::Ne, l, r).0, Some(Answer::Truth(eq))).0.ctrl == CtrlV::Value(
                ValueV::Bool(!eq),
            )
        },
        !(l is Number && r is Number) ==> {
            &&& binary(p, BinaryOp::Eq, l, r).0.ctrl is Value
            &&& binary(p, BinaryOp::Ne, l, r).0.ctrl == CtrlV::Value(
                ValueV::Bool(!(binary(p, BinaryOp::Eq, l, r).0.ctrl->Value_0->Bool_0)),
            )
        },
{
    let kx = KontV::EqAnswer { negate: false };
    let ky = KontV::EqAnswer { negate: true };
    assert(p.konts.push(kx).drop_last() =~= p.konts);
    assert(p.konts.push(ky).drop_last() =~= p.konts);
}

/// Law: an array prints as `[`, its elements' texts, then `]`: an empty array
/// (or one that does not exist) as `[` `]`, a one-element array as `[`, the
/// element's text, `]`.
pub proof fn law_array_prints_in_brackets(arrays: Seq<Seq<ValueV>>, a: nat, fuel: nat)
    requires
        fuel > 0,
        render(arrays, ValueV::Array(a), fuel) is Some,
    ensures
        ({
            let r = render(arrays, ValueV::Array(a), fuel)->0;
            &&& r.len() >= 2
            &&& r[0] == PieceV::Text(seq!['['])
            &&& r[r.len() - 1] == PieceV::Text(seq![']'])
            &&& (a >= arrays.len() || arrays[a as int].len() == 0) ==> r == seq![
                PieceV::Text(seq!['[']),
                PieceV::Text(seq![']']),
            ]
            &&& (a < arrays.len() && arrays[a as int].len() == 1) ==> r == seq![PieceV::Text(seq!['['])] + render(
                arrays,
                arrays[a as int][0],
                (fuel - 1) as nat,
            )->0 + seq![PieceV::Text(seq![']'])]
        }),
{
    let elems = if a < arrays.len() { arrays[a as int] } else { Seq::empty() };
    let inner = render_elems(arrays, elems, (fuel - 1) as nat)->0;
    let r = render(arrays, ValueV::Array(a), fuel)->0;
    assert(r == seq![PieceV::Text(seq!['['])] + inner + seq![PieceV::Text(seq![']'])]);
    if elems.len() == 0 {
        assert(inner == Seq::<PieceV>::empty());
        assert(r =~= seq![PieceV::Text(seq!['[']), PieceV::Text(seq![']'])]);
    }
    if elems.len() == 1 {
        assert(elems.drop_last() =~= Seq::<ValueV>::empty());
        assert(render_elems(arrays, elems.drop_last(), (fuel - 1) as nat) == Some(Seq::<PieceV>::empty()));
        assert(inner == render(arrays, elems[0], (fuel - 1) as nat)->0);
    }
}

/// Law: on two numbers, an arithmetic operator asks the driver for exactly
/// `left op right`, operands in order (after asking, for `/` and `%`, whether
/// the divisor is zero), and a comparison asks exactly `left op right`.
pub proof fn law_numbers_ask_for_the_operation_written(p: State, op: BinaryOp, a: u64, b: u64)
    requires
        p.ctrl == CtrlV::Idle,
    ensures
        (op == BinaryOp::Add || op == BinaryOp::Sub || op == BinaryOp::Mul) ==> binary(
            p,
            op,
            ValueV::Number(a),
            ValueV::Number(b),
        ).1 == StepV::Query(NumQueryV::Arith { op, left: a, right: b }),
        (op == BinaryOp::Div || op == BinaryOp::Mod) ==> {
            let t = binary(p, op, ValueV::Number(a), ValueV::Number(b)).0;
            &&& binary(p, op, ValueV::Number(a), ValueV::Number(b)).1 == StepV::Query(NumQueryV::IsZero(b))
            &&& step_spec(t, Some(Answer::Truth(false))).1 == StepV::Query(NumQueryV::Arith { op, left: a, right: b })
            &&& step_spec(t, Some(Answer::Truth(true))).0.ctrl == CtrlV::Failed(
                if op == BinaryOp::Div {
                    RuntimeErrorV::DivisionByZero
                } else {
                    RuntimeErrorV::ModuloByZero
                },
            )
        },
        (op == BinaryOp::Lt || op == BinaryOp::Le || op == BinaryOp::Gt || op == BinaryOp::Ge) ==> binary(
            p,
            op,
            ValueV::Number(a),
            ValueV::Number(b),
        ).1 == StepV::Query(NumQueryV::Compare { op, left: a, right: b }),
{
    let kx = KontV::DivCheck { op, left: a, right: b };
    assert(p.konts.push(kx).drop_last() =~= p.konts);
}

/// Law: `-x` on a number asks the driver for the negation of that number;
/// `!x` gives the opposite of the truth of `x`.
pub proof fn law_unary_operators(s: State, v: ValueV, t: bool)
    requires
        s.ctrl == CtrlV::Value(v),
        s.konts.len() > 0,
    ensures
        s.konts.last() == KontV::Negate && v is Number ==> step_spec(s, None).1 == StepV::Query(
            NumQueryV::Negate(v->Number_0),
        ),
        s.konts.last() == KontV::Test(TruthUseV::Not) && truth_of(v) == Some(t) ==> step_spec(s, None).0.ctrl
            == CtrlV::Value(ValueV::Bool(!t)),
{
}

/// Law: an `if` whose condition is true runs its `then` block, one whose
/// condition is false runs its `else` block (or nothing), each in a new scope
/// nested in the current one.
pub proof fn law_if_takes_the_branch_its_condition_picks(
    s: State,
    then_block: Seq<StmtV>,
    else_block: Option<Seq<StmtV>>,
)
    ensures
        ({
            let t = decide(s, true, TruthUseV::Branch { then_block, else_block }).0;
            &&& t.konts.last() == (KontV::Block { stmts: then_block, next: 0 })
            &&& t.env == s.frames.len()
            &&& t.frames == env_new_frame(s.frames, Some(s.env))
        }),
        else_block matches Some(b) ==> {
            let t = decide(s, false, TruthUseV::Branch { then_block, else_block }).0;
            &&& t.konts.last() == (KontV::Block { stmts: b, next: 0 })
            &&& t.env == s.frames.len()
        },
        else_block is None ==> decide(s, false, TruthUseV::Branch { then_block, else_block }).0 == (State {
            ctrl: CtrlV::Done,
            ..s
        }),
{
}

/// Law: `push(a, v)` appends `v` to the end of array `a`, changes no other
/// array and gives `null`.
pub proof fn law_push_appends(s: State, a: nat, v: ValueV, j: int)
    requires
        s.ctrl == CtrlV::Value(v),
        s.konts.len() > 0,
        s.konts.last() == (KontV::PushValue { target: ValueV::Array(a) }),
        a < s.arrays.len(),
    ensures
        step_spec(s, None).0.arrays[a as int] == s.arrays[a as int].push(v),
        step_spec(s, None).0.arrays.len() == s.arrays.len(),
        0 <= j < s.arrays.len() && j != a ==> step_spec(s, None).0.arrays[j] == s.arrays[j],
        step_spec(s, None).0.ctrl == CtrlV::Value(ValueV::Null),
{
}

/// Law: `a[i]` gives element `i` of array `a` (as the driver converts the
/// index), or an out-of-bounds error when there is none.
pub proof fn law_index_reads_the_element(s: State, q: NumQueryV, a: nat, i: usize)
    requires
        s.ctrl == CtrlV::Awaiting(q),
        q is ToIndex,
        s.konts.len() > 0,
        s.konts.last() == (KontV::IndexAt { array: a }),
    ensures
        a < s.arrays.len() && i < s.arrays[a as int].len() ==> step_spec(s, Some(Answer::Index(i))).0.ctrl
            == CtrlV::Value(s.arrays[a as int][i as int]),
        !(a < s.arrays.len() && i < s.arrays[a as int].len()) ==> step_spec(s, Some(Answer::Index(i))).0.ctrl
            == CtrlV::Failed(RuntimeErrorV::IndexOutOfBounds(i as nat)),
{
}

// ---------------------------------------------------------------------------
// Printing
// ---------------------------------------------------------------------------

/// `names` joined with ", ".
pub open spec fn join_names(names: Seq<Seq<char>>) -> Seq<char>
    decreases names.len(),
{
    if names.len() == 0 {
        Seq::empty()
    } else if names.len() == 1 {
        names[0]
    } else {
        join_names(names.drop_last()) + seq![',', ' '] + names.last()
    }
}

/// The text of a value: numbers are left to the driver, a function shows its
/// parameters, an array its elements. `fuel` bounds the nesting of arrays;
/// `None` when it runs out (an array that contains itself).
pub open spec fn render(arrays: Seq<Seq<ValueV>>, v: ValueV, fuel: nat) -> Option<Seq<PieceV>>
    decreases fuel, 0nat,
{
    match v {
        ValueV::Number(n) => Some(seq![PieceV::Number(n)]),
        ValueV::Str(t) => Some(seq![PieceV::Text(t)]),
        ValueV::Bool(b) => Some(seq![PieceV::Text(if b { seq!['t', 'r', 'u', 'e'] } else { seq!['f', 'a', 'l', 's', 'e'] })]),
        ValueV::Null => Some(seq![PieceV::Text(seq!['n', 'u', 'l', 'l'])]),
        ValueV::Function { params, .. } => Some(
            seq![PieceV::Text(seq!['<', 'f', 'n', '('] + join_names(params) + seq![')', '>'])],
        ),
        ValueV::Array(a) => if fuel == 0 {
            None
        } else {
            let elems = if a < arrays.len() { arrays[a as int] } else { Seq::empty() };
            match render_elems(arrays, elems, (fuel - 1) as nat) {
                Some(inner) => Some(seq![PieceV::Text(seq!['['])] + inner + seq![PieceV::Text(seq![']'])]),
                None => None,
            }
        },
    }
}

/// The texts of `elems`, separated by ", ".
pub open spec fn render_elems(arrays: Seq<Seq<ValueV>>, elems: Seq<ValueV>, fuel: nat) -> Option<
    Seq<PieceV>,
>
    decreases fuel, elems.len(),
{
    if elems.len() == 0 {
        Some(Seq::empty())
    } else {
        match render_elems(arrays, elems.drop_last(), fuel) {
            None => None,
            Some(front) => match render(arrays, elems.last(), fuel) {
                None => None,
                Some(last) => Some(
                    if elems.len() == 1 {
                        last
                    } else {
                        front + seq![PieceV::Text(seq![',', ' '])] + last
                    },
                ),
            },
        }
    }
}


/// `rank` orders the arrays so that an array's elements that are arrays
/// exist and rank lower than it: no array contains itself, directly or not.
pub open spec fn ranked(arrays: Seq<Seq<ValueV>>, rank: Seq<nat>) -> bool {
    &&& rank.len() == arrays.len()
    &&& forall|a: int, j: int|
        #![trigger arrays[a][j]]
        0 <= a < arrays.len() && 0 <= j < arrays[a].len() && arrays[a][j] is Array ==> {
            &&& arrays[a][j]->Array_0 < arrays.len()
            &&& rank[arrays[a][j]->Array_0 as int] < rank[a]
        }
}

/// Whether `v` is an existing array of rank below `fuel` (anything else
/// that is not an array passes).
pub open spec fn below(rank: Seq<nat>, v: ValueV, fuel: nat) -> bool {
    v is Array ==> v->Array_0 < rank.len() && rank[v->Array_0 as int] < fuel
}

proof fn lemma_render_ranked(arrays: Seq<Seq<ValueV>>, rank: Seq<nat>, v: ValueV, fuel: nat)
    requires
        ranked(arrays, rank),
        below(rank, v, fuel),
    ensures
        render(arrays, v, fuel) is Some,
    decreases fuel, 0nat,
{
    if let ValueV::Array(a) = v {
        let elems = arrays[a as int];
        assert forall|j: int| 0 <= j < elems.len() implies below(rank, #[trigger] elems[j], (fuel - 1) as nat) by {
            assert(arrays[a as int][j] == elems[j]);
        }
        lemma_render_elems_ranked(arrays, rank, elems, (fuel - 1) as nat);
    }
}

proof fn lemma_render_elems_ranked(arrays: Seq<Seq<ValueV>>, rank: Seq<nat>, elems: Seq<ValueV>, fuel: nat)
    requires
        ranked(arrays, rank),
        forall|j: int| 0 <= j < elems.len() ==> below(rank, #[trigger] elems[j], fuel),
    ensures
        render_elems(arrays, elems, fuel) is Some,
    decreases fuel, elems.len(),
{
    if elems.len() > 0 {
        let front = elems.drop_last();
        assert forall|j: int| 0 <= j < front.len() implies below(rank, #[trigger] front[j], fuel) by {
            assert(front[j] == elems[j]);
        }
        lemma_render_elems_ranked(arrays, rank, front, fuel);
        assert(below(rank, elems[elems.len() - 1], fuel));
        lemma_render_ranked(arrays, rank, elems.last(), fuel);
    }
}

/// Law: printing fails (`CyclicValue`) only for an array that contains
/// itself: when no array does, every value renders.
pub proof fn law_print_fails_only_on_cycles(arrays: Seq<Seq<ValueV>>, rank: Seq<nat>, v: ValueV)
    requires
        ranked(arrays, rank),
        forall|i: int| 0 <= i < rank.len() ==> rank[i] < arrays.len(),
        v is Array ==> v->Array_0 < arrays.len(),
    ensures
        render(arrays, v, arrays.len()) is Some,
{
    lemma_render_ranked(arrays, rank, v, arrays.len());
}

/// Array `a` holds array `b` among its elements.
pub open spec fn holds(arrays: Seq<Seq<ValueV>>, a: int, b: int) -> bool {
    &&& 0 <= a < arrays.len()
    &&& exists|j: int| 0 <= j < arrays[a].len() && #[trigger] arrays[a][j] == ValueV::Array(b as nat)
}

/// `c` is a chain of arrays, each holding the next.
pub open spec fn is_chain(arrays: Seq<Seq<ValueV>>, c: Seq<int>) -> bool {
    forall|i: int| 0 <= i < c.len() - 1 ==> #[trigger] holds(arrays, c[i], c[i + 1])
}

/// No chain of arrays from array `a` visits an array twice: no array that
/// can be reached from `a` contains itself, directly or through others.
pub open spec fn no_cycle_from(arrays: Seq<Seq<ValueV>>, a: int) -> bool {
    forall|c: Seq<int>| #[trigger] is_chain(arrays, c) && c.len() >= 1 && c[0] == a ==> c.no_duplicates()
}

/// Every array element that is an array refers to an existing array.
pub open spec fn closed(arrays: Seq<Seq<ValueV>>) -> bool {
    forall|a: int, j: int|
        0 <= a < arrays.len() && 0 <= j < arrays[a].len() && #[trigger] arrays[a][j] is Array
            ==> arrays[a][j]->Array_0 < arrays.len()
}

/// An element whose rendering fails.
proof fn lemma_elems_fail(arrays: Seq<Seq<ValueV>>, elems: Seq<ValueV>, fuel: nat) -> (j: int)
    requires
        render_elems(arrays, elems, fuel) is None,
    ensures
        0 <= j < elems.len(),
        render(arrays, elems[j], fuel) is None,
    decreases elems.len(),
{
    let front = elems.drop_last();
    if render_elems(arrays, front, fuel) is None {
        let j = lemma_elems_fail(arrays, front, fuel);
        assert(front[j] == elems[j]);
        j
    } else {
        (elems.len() - 1) as int
    }
}

/// A rendering that runs out of fuel `f` follows a chain of `f + 1` arrays.
proof fn lemma_render_fail_chain(arrays: Seq<Seq<ValueV>>, a: nat, f: nat) -> (c: Seq<int>)
    requires
        closed(arrays),
        a < arrays.len(),
        render(arrays, ValueV::Array(a), f) is None,
    ensures
        c.len() == f + 1,
        c[0] == a,
        is_chain(arrays, c),
        forall|i: int| 0 <= i < c.len() ==> 0 <= #[trigger] c[i] < arrays.len(),
    decreases f,
{
    if f == 0 {
        seq![a as int]
    } else {
        let elems = arrays[a as int];
        let j = lemma_elems_fail(arrays, elems, (f - 1) as nat);
        let e = elems[j];
        assert(e is Array);
        assert(arrays[a as int][j] == e);
        let b = e->Array_0;
        let rest = lemma_render_fail_chain(arrays, b, (f - 1) as nat);
        let c = seq![a as int] + rest;
        assert(holds(arrays, a as int, b as int));
        assert forall|i: int| 0 <= i < c.len() - 1 implies #[trigger] holds(arrays, c[i], c[i + 1]) by {
            if i > 0 {
                assert(c[i] == rest[i - 1]);
                assert(c[i + 1] == rest[i]);
                assert(holds(arrays, rest[i - 1], rest[(i - 1) + 1]));
            }
        }
        assert forall|i: int| 0 <= i < c.len() implies 0 <= #[trigger] c[i] < arrays.len() by {
            if i > 0 {
                assert(c[i] == rest[i - 1]);
            }
        }
        c
    }
}

/// `n + 1` numbers below `n` hold a repetition.
proof fn lemma_pigeonhole(c: Seq<int>, n: nat) -> (ij: (int, int))
    requires
        c.len() == n + 1,
        forall|i: int| 0 <= i < c.len() ==> 0 <= #[trigger] c[i] < n,
    ensures
        0 <= ij.0 < ij.1 < c.len(),
        c[ij.0] == c[ij.1],
{
    if c.no_duplicates() {
        c.unique_seq_to_set();
        vstd::set_lib::lemma_int_range(0, n as int);
        assert(c.to_set().subset_of(vstd::set_lib::set_int_range(0, n as int)));
        vstd::set_lib::lemma_len_subset(c.to_set(), vstd::set_lib::set_int_range(0, n as int));
        assert(false);
        (0, 1)
    } else {
        let (i, j) = choose|i: int, j: int| 0 <= i < c.len() && 0 <= j < c.len() && i != j && c[i] == c[j];
        if i < j {
            (i, j)
        } else {
            (j, i)
        }
    }
}

/// Law: printing a value ends with its text (never with `CyclicValue`) when
/// no array reachable from it contains itself, every array element that is
/// an array referring to an existing array (which every state of the
/// interpreter keeps).
pub proof fn law_print_succeeds_without_reachable_cycle(arrays: Seq<Seq<ValueV>>, v: ValueV)
    requires
        closed(arrays),
        v is Array ==> v->Array_0 < arrays.len() && no_cycle_from(arrays, v->Array_0 as int),
    ensures
        render(arrays, v, arrays.len()) is Some,
{
    if v is Array && render(arrays, v, arrays.len()) is None {
        let c = lemma_render_fail_chain(arrays, v->Array_0, arrays.len());
        let (i, j) = lemma_pigeonhole(c, arrays.len());
        assert(is_chain(arrays, c) && c.len() >= 1 && c[0] == v->Array_0 as int);
        assert(c.no_duplicates());
        assert(c[i] != c[j]);
    }
}

// ---------------------------------------------------------------------------
// The machine
// ---------------------------------------------------------------------------

pub open spec fn arrays_view(a: Seq<Vec<Value>>) -> Seq<Seq<ValueV>> {
    Seq::new(a.len(), |i: int| values_view(a[i]@))
}

pub open spec fn values_view(a: Seq<Value>) -> Seq<ValueV> {
    Seq::new(a.len(), |j: int| a[j]@)
}

pub open spec fn output_view(o: Seq<Vec<Piece>>) -> Seq<Seq<PieceV>> {
    Seq::new(o.len(), |i: int| line_view(o[i]@))
}

pub open spec fn konts_view(k: Seq<Kont>) -> Seq<KontV> {
    Seq::new(k.len(), |i: int| k[i]@)
}

/// Tree-walking interpreter for Gello.
pub struct Interpreter {
    scopes: Environment,
    arrays: Vec<Vec<Value>>,
    env: usize,
    output: Vec<Vec<Piece>>,
    ctrl: Ctrl,
    konts: Vec<Kont>,
}

impl View for Interpreter {
    type V = State;

    closed spec fn view(&self) -> State {
        State {
            frames: self.scopes@,
            arrays: arrays_view(self.arrays@),
            env: self.env as nat,
            output: output_view(self.output@),
            ctrl: self.ctrl@,
            konts: konts_view(self.konts@),
        }
    }
}

impl Default for Interpreter {
    fn default() -> (r: Self)
        ensures
            r@ == Self::new_state(),
    {
        Self::new()
    }
}

impl NumQuery {
    pub fn duplicate(&self) -> (r: Self)
        ensures
            r@ == self@,
    {
        match self {
            NumQuery::Literal(s) => NumQuery::Literal(s.clone()),
            NumQuery::Negate(x) => NumQuery::Negate(*x),
            NumQuery::Arith { op, left, right } => NumQuery::Arith { op: *op, left: *left, right: *right },
            NumQuery::IsZero(x) => NumQuery::IsZero(*x),
            NumQuery::Compare { op, left, right } => NumQuery::Compare { op: *op, left: *left, right: *right },
            NumQuery::Equal { left, right } => NumQuery::Equal { left: *left, right: *right },
            NumQuery::ToIndex(x) => NumQuery::ToIndex(*x),
        }
    }
}

/// A `String` holding the characters of `w`.
fn text(w: &[char]) -> (r: String)
    ensures
        r@ == w@,
{
    let mut s = String::new();
    let mut i: usize = 0;
    while i < w.len()
        invariant
            i <= w@.len(),
            s@ == w@.subrange(0, i as int),
        decreases w@.len() - i,
    {
        push_char(&mut s, w[i]);
        i = i + 1;
        assert(s@ =~= w@.subrange(0, i as int));
    }
    assert(w@.subrange(0, i as int) =~= w@);
    s
}

impl Interpreter {
    /// The state of a new interpreter: only the global scope, nothing running.
    pub open spec fn new_state() -> State {
        State {
            frames: env_new_frame(Seq::empty(), None),
            arrays: Seq::empty(),
            env: 0,
            output: Seq::empty(),
            ctrl: CtrlV::Idle,
            konts: Seq::empty(),
        }
    }

    pub fn new() -> (r: Self)
        ensures
            r@ == Self::new_state(),
    {
        let r = Interpreter {
            scopes: Environment::new(),
            arrays: Vec::new(),
            env: 0,
            output: Vec::new(),
            ctrl: Ctrl::Idle,
            konts: Vec::new(),
        };
        assert(r@.arrays =~= Seq::empty());
        assert(r@.output =~= Seq::empty());
        assert(r@.konts =~= Seq::empty());
        r
    }

    /// Begins running `stmts` at the top level; the scopes, arrays and output
    /// stay as earlier runs left them.
    pub fn start(&mut self, stmts: Vec<Stmt>)
        ensures
            final(self)@ == (State {
                ctrl: CtrlV::Done,
                konts: seq![KontV::Program { stmts: stmts_view(stmts@), next: 0 }],
                ..old(self)@
            }),
    {
        let mut ks: Vec<Kont> = Vec::new();
        ks.push(Kont::Program { stmts, next: 0 });
        self.konts = ks;
        self.ctrl = Ctrl::Done;
        assert(konts_view(self.konts@) =~= seq![KontV::Program { stmts: stmts_view(stmts@), next: 0 }]);
    }

    /// Whether a run is under way.
    pub fn is_running(&self) -> (r: bool)
        ensures
            r == !(self@.ctrl is Idle),
    {
        !matches!(self.ctrl, Ctrl::Idle)
    }

    /// Clear the output buffer and return its contents.
    pub fn take_output(&mut self) -> (r: Vec<Vec<Piece>>)
        ensures
            output_view(r@) == old(self)@.output,
            final(self)@ == (State { output: Seq::empty(), ..old(self)@ }),
    {
        let mut out: Vec<Vec<Piece>> = Vec::new();
        std::mem::swap(&mut out, &mut self.output);
        assert(output_view(self.output@) =~= Seq::empty());
        out
    }

    /// Get the output buffer contents without clearing.
    pub fn get_output(&self) -> (r: &[Vec<Piece>])
        ensures
            output_view(r@) == self@.output,
    {
        self.output.as_slice()
    }

    /// Clear the output buffer.
    pub fn clear_output(&mut self)
        ensures
            final(self)@ == (State { output: Seq::empty(), ..old(self)@ }),
    {
        self.output = Vec::new();
        assert(output_view(self.output@) =~= Seq::empty());
    }

    // --- Small state changes ---

    fn push_kont(&mut self, k: Kont)
        ensures
            final(self)@ == push(old(self)@, k@),
    {
        let ghost before = self.konts@;
        self.konts.push(k);
        assert(konts_view(self.konts@) =~= konts_view(before).push(k@));
        assert(self@ =~= push(old(self)@, k@));
    }

    fn pop_kont(&mut self) -> (k: Kont)
        requires
            old(self)@.konts.len() > 0,
        ensures
            k@ == old(self)@.konts.last(),
            final(self)@ == pop(old(self)@),
    {
        let ghost before = self.konts@;
        let k = self.konts.pop().unwrap();
        assert(konts_view(self.konts@) =~= konts_view(before).drop_last());
        assert(self@ =~= pop(old(self)@));
        k
    }

    fn go(&mut self, c: Ctrl) -> (r: Step)
        ensures
            (final(self)@, r@) == go(old(self)@, c@),
    {
        self.ctrl = c;
        assert(self@ =~= go(old(self)@, c@).0);
        Step::Running
    }

    fn fail(&mut self, e: RuntimeError) -> (r: Step)
        ensures
            (final(self)@, r@) == fail(old(self)@, e@),
    {
        self.go(Ctrl::Failed(e))
    }

    fn ask(&mut self, q: NumQuery) -> (r: Step)
        ensures
            (final(self)@, r@) == ask(old(self)@, q@),
    {
        let q2 = q.duplicate();
        self.ctrl = Ctrl::Awaiting(q);
        assert(self@ =~= ask(old(self)@, q@).0);
        Step::Query(q2)
    }

    fn finish(&mut self, r: Result<(), RuntimeError>) -> (out: Step)
        ensures
            (final(self)@, out@) == finish(
                old(self)@,
                match r {
                    Ok(()) => Ok(()),
                    Err(e) => Err(e@),
                },
            ),
    {
        self.ctrl = Ctrl::Idle;
        self.konts = Vec::new();
        assert(konts_view(self.konts@) =~= Seq::empty());
        assert(self@ =~= finish(
            old(self)@,
            match r {
                Ok(()) => Ok(()),
                Err(e) => Err(e@),
            },
        ).0);
        Step::Finished(r)
    }

    fn set_env(&mut self, e: usize)
        ensures
            final(self)@ == (State { env: e as nat, ..old(self)@ }),
    {
        self.env = e;
        assert(self@ =~= State { env: e as nat, ..old(self)@ });
    }

    fn set_var(&mut self, frame: usize, name: &String, v: Value)
        ensures
            final(self)@ == (State { frames: env_set(old(self)@.frames, frame as int, name@, v@), ..old(self)@ }),
    {
        self.scopes.set(frame, name, v);
        assert(self@ =~= State { frames: env_set(old(self)@.frames, frame as int, name@, v@), ..old(self)@ });
    }

    fn new_frame(&mut self, parent: usize) -> (r: usize)
        ensures
            r == old(self)@.frames.len(),
            final(self)@ == (State { frames: env_new_frame(old(self)@.frames, Some(parent as nat)), ..old(self)@ }),
    {
        let r = self.scopes.new_child(parent);
        assert(self@ =~= State { frames: env_new_frame(old(self)@.frames, Some(parent as nat)), ..old(self)@ });
        r
    }

    fn new_array(&mut self) -> (r: usize)
        ensures
            r == old(self)@.arrays.len(),
            final(self)@ == (State { arrays: old(self)@.arrays.push(Seq::empty()), ..old(self)@ }),
    {
        let r = self.arrays.len();
        let ghost before = self.arrays@;
        let fresh: Vec<Value> = Vec::new();
        assert(values_view(fresh@) =~= Seq::<ValueV>::empty());
        self.arrays.push(fresh);
        assert(arrays_view(self.arrays@) =~~= arrays_view(before).push(Seq::empty()));
        assert(self@ =~= State { arrays: old(self)@.arrays.push(Seq::empty()), ..old(self)@ });
        r
    }

    fn push_into(&mut self, a: usize, v: Value)
        ensures
            final(self)@ == (State { arrays: push_into(old(self)@.arrays, a as nat, v@), ..old(self)@ }),
    {
        if a < self.arrays.len() {
            let ghost before = self.arrays@;
            let ghost vv = v@;
            let mut arr: Vec<Value> = Vec::new();
            std::mem::swap(&mut arr, &mut self.arrays[a]);
            let ghost old_arr = arr@;
            arr.push(v);
            assert(values_view(arr@) =~= values_view(old_arr).push(vv));
            self.arrays.set(a, arr);
            assert(arrays_view(self.arrays@) =~~= push_into(arrays_view(before), a as nat, vv));
        }
        assert(self@ =~= State { arrays: push_into(old(self)@.arrays, a as nat, v@), ..old(self)@ });
    }

    fn push_line(&mut self, line: Vec<Piece>)
        ensures
            final(self)@ == (State { output: old(self)@.output.push(line_view(line@)), ..old(self)@ }),
    {
        let ghost before = self.output@;
        self.output.push(line);
        assert(output_view(self.output@) =~~= output_view(before).push(line_view(line@)));
        assert(self@ =~= State { output: old(self)@.output.push(line_view(line@)), ..old(self)@ });
    }
}


fn push_piece(out: &mut Vec<Piece>, p: Piece)
    ensures
        line_view(final(out)@) == line_view(old(out)@).push(p@),
{
    let ghost before = out@;
    out.push(p);
    assert(line_view(out@) =~= line_view(before).push(p@));
}

/// The text of a function value: `<fn(a, b)>`.
fn fn_signature(params: &Vec<String>) -> (r: String)
    ensures
        r@ == seq!['<', 'f', 'n', '('] + join_names(names_view(params@)) + seq![')', '>'],
{
    let ghost names = names_view(params@);
    let mut acc = text(&['<', 'f', 'n', '(']);
    let mut i: usize = 0;
    while i < params.len()
        invariant
            names == names_view(params@),
            i <= params@.len(),
            acc@ == seq!['<', 'f', 'n', '('] + join_names(names.subrange(0, i as int)),
        decreases params@.len() - i,
    {
        if i > 0 {
            let sep = text(&[',', ' ']);
            acc.append(sep.as_str());
        }
        acc.append(params[i].as_str());
        proof {
            let t = names.subrange(0, i + 1);
            assert(t.drop_last() =~= names.subrange(0, i as int));
            assert(t.last() == params@[i as int]@);
            if i == 0 {
                assert(join_names(t) == t[0]);
            }
        }
        i = i + 1;
        assert(acc@ =~= seq!['<', 'f', 'n', '('] + join_names(names.subrange(0, i as int)));
    }
    assert(names.subrange(0, i as int) =~= names);
    let close = text(&[')', '>']);
    acc.append(close.as_str());
    acc
}

/// The elements of array `a`, or none when there is no such array.
pub open spec fn elems_of(arrays: Seq<Seq<ValueV>>, a: nat) -> Seq<ValueV> {
    if a < arrays.len() {
        arrays[a as int]
    } else {
        Seq::empty()
    }
}

/// When some prefix of the elements has no text, neither has the whole.
pub proof fn lemma_render_elems_prefix(arrays: Seq<Seq<ValueV>>, elems: Seq<ValueV>, k: int, fuel: nat)
    requires
        0 <= k <= elems.len(),
        render_elems(arrays, elems.subrange(0, k), fuel) is None,
    ensures
        render_elems(arrays, elems, fuel) is None,
    decreases elems.len() - k,
{
    if k < elems.len() {
        let t = elems.subrange(0, k + 1);
        assert(t.drop_last() =~= elems.subrange(0, k));
        lemma_render_elems_prefix(arrays, elems, k + 1, fuel);
    } else {
        assert(elems.subrange(0, k) =~= elems);
    }
}

impl Interpreter {
    /// Appends the text of `v` to `out`; false when `v` is an array that
    /// contains itself deeper than `fuel` arrays.
    fn render(&self, v: &Value, fuel: usize, out: &mut Vec<Piece>) -> (ok: bool)
        ensures
            match render(self@.arrays, v@, fuel as nat) {
                Some(p) => ok && line_view(final(out)@) == line_view(old(out)@) + p,
                None => !ok,
            },
        decreases fuel, 0nat,
    {
        let ghost before = line_view(out@);
        match v {
            Value::Number(n) => {
                push_piece(out, Piece::Number(*n));
            },
            Value::Str(t) => {
                push_piece(out, Piece::Text(t.clone()));
            },
            Value::Bool(b) => {
                let t = if *b { text(&['t', 'r', 'u', 'e']) } else { text(&['f', 'a', 'l', 's', 'e']) };
                push_piece(out, Piece::Text(t));
            },
            Value::Null => {
                push_piece(out, Piece::Text(text(&['n', 'u', 'l', 'l'])));
            },
            Value::Function { params, .. } => {
                push_piece(out, Piece::Text(fn_signature(params)));
            },
            Value::Array(a) => {
                if fuel == 0 {
                    return false;
                }
                let open_br = text(&['[']);
                assert(open_br@ =~= seq!['[']);
                push_piece(out, Piece::Text(open_br));
                let ghost mid = line_view(out@);
                if !self.render_elems(*a, fuel - 1, out) {
                    return false;
                }
                let ghost inner = render_elems(self@.arrays, elems_of(self@.arrays, *a as nat), (fuel - 1) as nat)->0;
                assert(line_view(out@) == mid + inner);
                let ghost mid2 = line_view(out@);
                let close_br = text(&[']']);
                assert(close_br@ =~= seq![']']);
                push_piece(out, Piece::Text(close_br));
                assert(line_view(out@) =~~= mid2.push(PieceV::Text(seq![']'])));
                assert(mid =~~= before.push(PieceV::Text(seq!['['])));
                assert(line_view(out@) =~~= before + (seq![PieceV::Text(seq!['['])] + inner + seq![PieceV::Text(seq![']'])]));
                return true;
            },
        }
        assert(line_view(out@) =~= before + render(self@.arrays, v@, fuel as nat)->0);
        true
    }

    /// Appends the texts of the elements of array `a`, separated by ", ".
    fn render_elems(&self, a: usize, fuel: usize, out: &mut Vec<Piece>) -> (ok: bool)
        ensures
            match render_elems(self@.arrays, elems_of(self@.arrays, a as nat), fuel as nat) {
                Some(p) => ok && line_view(final(out)@) == line_view(old(out)@) + p,
                None => !ok,
            },
        decreases fuel, 1nat,
    {
        let ghost arrays = self@.arrays;
        let ghost elems = elems_of(arrays, a as nat);
        let ghost start = line_view(out@);
        if a >= self.arrays.len() {
            assert(line_view(out@) =~= start + Seq::<PieceV>::empty());
            return true;
        }
        let n = self.arrays[a].len();
        assert(elems =~= values_view(self.arrays@[a as int]@));
        let mut i: usize = 0;
        assert(elems.subrange(0, 0) =~= Seq::<ValueV>::empty());
        assert(line_view(out@) =~= start + Seq::<PieceV>::empty());
        while i < n
            invariant
                arrays == self@.arrays,
                elems == elems_of(arrays, a as nat),
                a < self.arrays@.len(),
                n == self.arrays@[a as int]@.len(),
                elems == values_view(self.arrays@[a as int]@),
                i <= n,
                render_elems(arrays, elems.subrange(0, i as int), fuel as nat) matches Some(p)
                    && line_view(out@) == start + p,
            decreases n - i,
        {
            let ghost so_far = line_view(out@);
            let ghost p0 = render_elems(arrays, elems.subrange(0, i as int), fuel as nat)->0;
            if i > 0 {
                let sep = text(&[',', ' ']);
                assert(sep@ =~= seq![',', ' ']);
                push_piece(out, Piece::Text(sep));
            }
            let ghost mid = line_view(out@);
            let ok = self.render(&self.arrays[a][i], fuel, out);
            let ghost t = elems.subrange(0, i + 1);
            proof {
                assert(t.drop_last() =~= elems.subrange(0, i as int));
                assert(t.last() == self.arrays@[a as int]@[i as int]@);
            }
            if !ok {
                proof {
                    lemma_render_elems_prefix(arrays, elems, i + 1, fuel as nat);
                }
                return false;
            }
            i = i + 1;
            proof {
                let last = render(arrays, t.last(), fuel as nat)->0;
                if i == 1 {
                    assert(line_view(out@) =~= start + last);
                } else {
                    assert(line_view(out@) =~= start + (p0 + seq![PieceV::Text(seq![',', ' '])] + last));
                }
            }
        }
        assert(elems.subrange(0, i as int) =~= elems);
        true
    }
}


/// Whether `callee` is the name of the built-in `push`.
fn is_push_call(callee: &Expr) -> (r: bool)
    ensures
        r == (callee@ == ExprV::Identifier(push_name())),
{
    match callee {
        Expr::Identifier(name) => {
            let chars = chars_of(name.as_str());
            same_chars(&chars, &['p', 'u', 's', 'h'])
        },
        _ => false,
    }
}

/// Equality of two values that are not both numbers.
fn same_value(a: &Value, b: &Value) -> (r: bool)
    ensures
        r == values_equal(a@, b@),
{
    match (a, b) {
        (Value::Str(x), Value::Str(y)) => *x == *y,
        (Value::Bool(x), Value::Bool(y)) => *x == *y,
        (Value::Null, Value::Null) => true,
        _ => false,
    }
}

fn arith_failure(op: BinaryOp) -> (r: RuntimeError)
    ensures
        r@ == arith_error(op),
{
    match op {
        BinaryOp::Add => RuntimeError::CannotAdd,
        BinaryOp::Sub => RuntimeError::CannotSubtract,
        BinaryOp::Mul => RuntimeError::CannotMultiply,
        BinaryOp::Div => RuntimeError::CannotDivide,
        _ => RuntimeError::CannotModulo,
    }
}

impl Interpreter {
    fn enter_scope(&mut self, k: Kont, stmts: Vec<Stmt>) -> (r: Step)
        ensures
            (final(self)@, r@) == enter_scope(old(self)@, k@, stmts_view(stmts@)),
    {
        let saved = self.env;
        let f = self.new_frame(saved);
        self.push_kont(k);
        self.push_kont(Kont::Block { stmts, next: 0 });
        self.set_env(f);
        self.go(Ctrl::Done)
    }

    fn enter_call(&mut self, body: Vec<Stmt>, frame: usize) -> (r: Step)
        ensures
            (final(self)@, r@) == enter_call(old(self)@, stmts_view(body@), frame as nat),
    {
        let saved = self.env;
        self.push_kont(Kont::Call { saved });
        self.push_kont(Kont::Block { stmts: body, next: 0 });
        self.set_env(frame);
        self.go(Ctrl::Done)
    }

    fn exec_stmt(&mut self, st: Stmt) -> (r: Step)
        ensures
            (final(self)@, r@) == exec_stmt(old(self)@, st@),
    {
        match st {
            Stmt::Let { name, value } => {
                self.push_kont(Kont::Let { name });
                self.go(Ctrl::Eval(value))
            },
            Stmt::Print(e) => {
                self.push_kont(Kont::Print);
                self.go(Ctrl::Eval(e))
            },
            Stmt::Expression(e) => {
                self.push_kont(Kont::ExprStmt);
                self.go(Ctrl::Eval(e))
            },
            Stmt::If { condition, then_block, else_block } => {
                self.push_kont(Kont::Test(TruthUse::Branch { then_block, else_block }));
                self.go(Ctrl::Eval(condition))
            },
            Stmt::While { condition, body } => {
                let c = condition.duplicate();
                self.push_kont(Kont::Test(TruthUse::Loop { condition: c, body }));
                self.go(Ctrl::Eval(condition))
            },
            Stmt::Fn { name, params, body } => {
                // Capture the current scope as the closure
                let f = Value::Function { params, body, closure: self.env };
                let env = self.env;
                self.set_var(env, &name, f);
                self.go(Ctrl::Done)
            },
            Stmt::Return(e) => {
                self.push_kont(Kont::Return);
                self.go(Ctrl::Eval(e))
            },
        }
    }

    fn eval_expr(&mut self, e: Expr) -> (r: Step)
        ensures
            (final(self)@, r@) == eval_expr(old(self)@, e@),
    {
        match e {
            Expr::Number(t) => self.ask(NumQuery::Literal(t)),
            Expr::StringLit(t) => self.go(Ctrl::Value(Value::Str(t))),
            Expr::Bool(b) => self.go(Ctrl::Value(Value::Bool(b))),
            Expr::Null => self.go(Ctrl::Value(Value::Null)),
            Expr::Identifier(name) => match self.scopes.get(self.env, &name) {
                Some(v) => self.go(Ctrl::Value(v)),
                None => self.fail(RuntimeError::UndefinedVariable(name)),
            },
            Expr::Unary { op, right } => {
                let k = if op == UnaryOp::Neg { Kont::Negate } else { Kont::Test(TruthUse::Not) };
                self.push_kont(k);
                self.go(Ctrl::Eval(*right))
            },
            Expr::Binary { left, op, right } => {
                self.push_kont(Kont::BinLeft { op, right: *right });
                self.go(Ctrl::Eval(*left))
            },
            Expr::Assign { name, value } => {
                self.push_kont(Kont::Assign { name });
                self.go(Ctrl::Eval(*value))
            },
            Expr::Lambda { params, body } => {
                // Capture the current scope as the closure
                let f = Value::Function { params, body, closure: self.env };
                self.go(Ctrl::Value(f))
            },
            Expr::Array(elems) => {
                proof {
                    lemma_exprs_view(elems@);
                }
                let a = self.new_array();
                if elems.len() == 0 {
                    self.go(Ctrl::Value(Value::Array(a)))
                } else {
                    let first = elems[0].duplicate();
                    self.push_kont(Kont::ArrayElems { elems, next: 1, array: a });
                    self.go(Ctrl::Eval(first))
                }
            },
            Expr::Index { array, index } => {
                self.push_kont(Kont::IndexArray { index: *index });
                self.go(Ctrl::Eval(*array))
            },
            Expr::Call { callee, args } => {
                proof {
                    lemma_exprs_view(args@);
                }
                if is_push_call(&callee) {
                    if args.len() != 2 {
                        self.fail(RuntimeError::PushArity(args.len()))
                    } else {
                        let target = args[0].duplicate();
                        let value = args[1].duplicate();
                        self.push_kont(Kont::PushTarget { value });
                        self.go(Ctrl::Eval(target))
                    }
                } else {
                    self.push_kont(Kont::Callee { args });
                    self.go(Ctrl::Eval(*callee))
                }
            },
        }
    }
}


impl Interpreter {
    /// Test whether `v` is true, for use `u`.
    fn test_truth(&mut self, v: Value, u: TruthUse) -> (r: Step)
        ensures
            (final(self)@, r@) == test_truth(old(self)@, v@, u@),
        decreases use_rank(u@), 1nat,
    {
        match v {
            Value::Number(n) => {
                self.push_kont(Kont::Decide(u));
                self.ask(NumQuery::IsZero(n))
            },
            Value::Bool(b) => self.decide(b, u),
            Value::Null => self.decide(false, u),
            Value::Str(t) => {
                let nonempty = !t.as_str().is_empty();
                self.decide(nonempty, u)
            },
            Value::Function { .. } => self.decide(true, u),
            Value::Array(_) => self.decide(true, u),
        }
    }

    /// Use the truth value `t` for `u`.
    fn decide(&mut self, t: bool, u: TruthUse) -> (r: Step)
        ensures
            (final(self)@, r@) == decide(old(self)@, t, u@),
        decreases use_rank(u@), 0nat,
    {
        match u {
            TruthUse::Branch { then_block, else_block } => {
                if t {
                    let saved = self.env;
                    self.enter_scope(Kont::IfBody { saved }, then_block)
                } else {
                    match else_block {
                        Some(b) => {
                            let saved = self.env;
                            self.enter_scope(Kont::IfBody { saved }, b)
                        },
                        None => self.go(Ctrl::Done),
                    }
                }
            },
            TruthUse::Loop { condition, body } => {
                if t {
                    // A fresh scope for each pass through the body
                    let saved = self.env;
                    let b = copy_stmts(&body);
                    self.enter_scope(Kont::WhileBody { condition, body, saved }, b)
                } else {
                    self.go(Ctrl::Done)
                }
            },
            TruthUse::Not => self.go(Ctrl::Value(Value::Bool(!t))),
            TruthUse::AndLeft { right } => {
                if !t {
                    self.go(Ctrl::Value(Value::Bool(false)))
                } else {
                    self.test_truth(right, TruthUse::AndRight)
                }
            },
            TruthUse::AndRight => self.go(Ctrl::Value(Value::Bool(t))),
            TruthUse::OrLeft { right } => {
                if t {
                    self.go(Ctrl::Value(Value::Bool(true)))
                } else {
                    self.test_truth(right, TruthUse::OrRight)
                }
            },
            TruthUse::OrRight => self.go(Ctrl::Value(Value::Bool(t))),
        }
    }

    /// Evaluate a binary operation on the values of both operands.
    fn binary(&mut self, op: BinaryOp, left: Value, right: Value) -> (r: Step)
        ensures
            (final(self)@, r@) == binary(old(self)@, op, left@, right@),
    {
        match op {
            BinaryOp::Eq | BinaryOp::Ne => match (left, right) {
                (Value::Number(a), Value::Number(b)) => {
                    self.push_kont(Kont::EqAnswer { negate: op == BinaryOp::Ne });
                    self.ask(NumQuery::Equal { left: a, right: b })
                },
                (l, r) => {
                    let eq = same_value(&l, &r);
                    self.go(Ctrl::Value(Value::Bool(eq != (op == BinaryOp::Ne))))
                },
            },
            BinaryOp::Lt | BinaryOp::Le | BinaryOp::Gt | BinaryOp::Ge => match (left, right) {
                (Value::Number(a), Value::Number(b)) => self.ask(
                    NumQuery::Compare { op, left: a, right: b },
                ),
                _ => self.fail(RuntimeError::CannotCompare(op)),
            },
            BinaryOp::And => self.test_truth(left, TruthUse::AndLeft { right }),
            BinaryOp::Or => self.test_truth(left, TruthUse::OrLeft { right }),
            _ => match (left, right) {
                (Value::Number(a), Value::Number(b)) => {
                    if op == BinaryOp::Div || op == BinaryOp::Mod {
                        self.push_kont(Kont::DivCheck { op, left: a, right: b });
                        self.ask(NumQuery::IsZero(b))
                    } else {
                        self.ask(NumQuery::Arith { op, left: a, right: b })
                    }
                },
                (Value::Str(a), Value::Str(b)) => {
                    if op == BinaryOp::Add {
                        let mut joined = a;
                        joined.append(b.as_str());
                        self.go(Ctrl::Value(Value::Str(joined)))
                    } else {
                        self.fail(arith_failure(op))
                    }
                },
                _ => self.fail(arith_failure(op)),
            },
        }
    }
}


impl Interpreter {
    /// The innermost continuation.
    fn top(&self) -> (r: &Kont)
        requires
            self@.konts.len() > 0,
        ensures
            r@ == self@.konts.last(),
    {
        &self.konts[self.konts.len() - 1]
    }

    /// Hand the value `v` to the innermost continuation.
    fn give_value(&mut self, v: Value) -> (r: Step)
        ensures
            (final(self)@, r@) == give_value(old(self)@, v@),
    {
        if self.konts.len() == 0 {
            return self.finish(Ok(()));
        }
        let k = self.pop_kont();
        match k {
            Kont::Let { name } => {
                let env = self.env;
                self.set_var(env, &name, v);
                self.go(Ctrl::Done)
            },
            Kont::Print => {
                let mut line: Vec<Piece> = Vec::new();
                assert(line_view(line@) =~= Seq::<PieceV>::empty());
                if self.render(&v, self.arrays.len(), &mut line) {
                    assert(line_view(line@) =~= Seq::<PieceV>::empty() + render(self@.arrays, v@, self@.arrays.len())->0);
                    self.push_line(line);
                    self.go(Ctrl::Done)
                } else {
                    self.fail(RuntimeError::CyclicValue)
                }
            },
            Kont::ExprStmt => self.go(Ctrl::Done),
            Kont::Return => self.go(Ctrl::Returning(v)),
            Kont::Test(u) => self.test_truth(v, u),
            Kont::Negate => match v {
                Value::Number(n) => self.ask(NumQuery::Negate(n)),
                _ => self.fail(RuntimeError::CannotNegate),
            },
            Kont::BinLeft { op, right } => {
                self.push_kont(Kont::BinRight { op, left: v });
                self.go(Ctrl::Eval(right))
            },
            Kont::BinRight { op, left } => self.binary(op, left, v),
            Kont::Assign { name } => {
                let stored = v.duplicate();
                let env = self.env;
                if self.scopes.assign(env, &name, stored) {
                    self.go(Ctrl::Value(v))
                } else {
                    self.fail(RuntimeError::UndefinedVariable(name))
                }
            },
            Kont::ArrayElems { elems, next, array } => {
                proof {
                    lemma_exprs_view(elems@);
                }
                self.push_into(array, v);
                if next < elems.len() {
                    let e = elems[next].duplicate();
                    self.push_kont(Kont::ArrayElems { elems, next: next + 1, array });
                    self.go(Ctrl::Eval(e))
                } else {
                    self.go(Ctrl::Value(Value::Array(array)))
                }
            },
            Kont::IndexArray { index } => {
                self.push_kont(Kont::IndexValue { array: v });
                self.go(Ctrl::Eval(index))
            },
            Kont::IndexValue { array } => match (array, v) {
                (Value::Array(a), Value::Number(n)) => {
                    self.push_kont(Kont::IndexAt { array: a });
                    self.ask(NumQuery::ToIndex(n))
                },
                (Value::Array(_), _) => self.fail(RuntimeError::IndexNotNumber),
                _ => self.fail(RuntimeError::CannotIndex),
            },
            Kont::Callee { args } => match v {
                Value::Function { params, body, closure } => {
                    proof {
                        lemma_exprs_view(args@);
                    }
                    if args.len() != params.len() {
                        self.fail(RuntimeError::ArityMismatch { expected: params.len(), got: args.len() })
                    } else {
                        // The call's scope is nested in the closure's scope
                        let frame = self.new_frame(closure);
                        if args.len() == 0 {
                            self.enter_call(body, frame)
                        } else {
                            let first = args[0].duplicate();
                            self.push_kont(Kont::Args { params, body, args, next: 1, frame });
                            self.go(Ctrl::Eval(first))
                        }
                    }
                },
                _ => self.fail(RuntimeError::NotAFunction),
            },
            Kont::Args { params, body, args, next, frame } => {
                proof {
                    lemma_exprs_view(args@);
                }
                if 1 <= next && next <= params.len() {
                    self.set_var(frame, &params[next - 1], v);
                }
                if next < args.len() {
                    let e = args[next].duplicate();
                    self.push_kont(Kont::Args { params, body, args, next: next + 1, frame });
                    self.go(Ctrl::Eval(e))
                } else {
                    self.enter_call(body, frame)
                }
            },
            Kont::PushTarget { value } => {
                self.push_kont(Kont::PushValue { target: v });
                self.go(Ctrl::Eval(value))
            },
            Kont::PushValue { target } => match target {
                Value::Array(a) => {
                    self.push_into(a, v);
                    self.go(Ctrl::Value(Value::Null))
                },
                _ => self.fail(RuntimeError::PushTarget),
            },
            _ => self.finish(Ok(())),
        }
    }

    /// The current statement completed normally.
    fn give_done(&mut self) -> (r: Step)
        ensures
            (final(self)@, r@) == give_done(old(self)@),
    {
        if self.konts.len() == 0 {
            return self.finish(Ok(()));
        }
        let k = self.pop_kont();
        match k {
            Kont::Program { stmts, next } => {
                proof {
                    lemma_stmts_view(stmts@);
                }
                if next < stmts.len() {
                    let st = stmts[next].duplicate();
                    self.push_kont(Kont::Program { stmts, next: next + 1 });
                    self.go(Ctrl::Exec(st))
                } else {
                    self.finish(Ok(()))
                }
            },
            Kont::Block { stmts, next } => {
                proof {
                    lemma_stmts_view(stmts@);
                }
                if next < stmts.len() {
                    let st = stmts[next].duplicate();
                    self.push_kont(Kont::Block { stmts, next: next + 1 });
                    self.go(Ctrl::Exec(st))
                } else {
                    self.go(Ctrl::Done)
                }
            },
            Kont::IfBody { saved } => {
                // Restore the enclosing scope
                self.set_env(saved);
                self.go(Ctrl::Done)
            },
            Kont::WhileBody { condition, body, saved } => {
                self.set_env(saved);
                let c = condition.duplicate();
                self.push_kont(Kont::Test(TruthUse::Loop { condition, body }));
                self.go(Ctrl::Eval(c))
            },
            Kont::Call { saved } => {
                // Restore the caller's scope; a body without `return` gives null
                self.set_env(saved);
                self.go(Ctrl::Value(Value::Null))
            },
            _ => self.finish(Ok(())),
        }
    }

    /// A `return` carries `v` out.
    fn give_return(&mut self, v: Value) -> (r: Step)
        ensures
            (final(self)@, r@) == give_return(old(self)@, v@),
    {
        if self.konts.len() == 0 {
            return self.finish(Ok(()));
        }
        if matches!(self.top(), Kont::Program { .. }) {
            // At the top level a return only ends its statement
            return self.give_done();
        }
        let k = self.pop_kont();
        match k {
            Kont::IfBody { saved } => {
                self.set_env(saved);
                self.go(Ctrl::Returning(v))
            },
            Kont::WhileBody { saved, .. } => {
                self.set_env(saved);
                self.go(Ctrl::Returning(v))
            },
            Kont::Call { saved } => {
                self.set_env(saved);
                self.go(Ctrl::Value(v))
            },
            _ => self.go(Ctrl::Returning(v)),
        }
    }

    /// An error unwinds one continuation.
    fn give_failure(&mut self, e: RuntimeError) -> (r: Step)
        ensures
            (final(self)@, r@) == give_failure(old(self)@, e@),
    {
        if self.konts.len() == 0 {
            return self.finish(Err(e));
        }
        let k = self.pop_kont();
        match k {
            Kont::Program { .. } => self.finish(Err(e)),
            Kont::Call { saved } | Kont::IfBody { saved } | Kont::WhileBody { saved, .. } => {
                // A call or a block gives the enclosing scope back, even on an error
                self.set_env(saved);
                self.go(Ctrl::Failed(e))
            },
            _ => self.go(Ctrl::Failed(e)),
        }
    }

    /// The driver answered `a` to the query `q`.
    fn give_answer(&mut self, q: NumQuery, a: Answer) -> (r: Step)
        ensures
            (final(self)@, r@) == give_answer(old(self)@, q@, a),
    {
        match (q, a) {
            (NumQuery::Literal(_), Answer::Number(n)) => self.go(Ctrl::Value(Value::Number(n))),
            (NumQuery::Negate(_), Answer::Number(n)) => self.go(Ctrl::Value(Value::Number(n))),
            (NumQuery::Arith { .. }, Answer::Number(n)) => self.go(Ctrl::Value(Value::Number(n))),
            (NumQuery::Compare { .. }, Answer::Truth(b)) => self.go(Ctrl::Value(Value::Bool(b))),
            (NumQuery::Equal { .. }, Answer::Truth(eq)) => {
                if self.konts.len() > 0 && matches!(self.top(), Kont::EqAnswer { .. }) {
                    let k = self.pop_kont();
                    match k {
                        Kont::EqAnswer { negate } => self.go(Ctrl::Value(Value::Bool(eq != negate))),
                        _ => self.finish(Ok(())),
                    }
                } else {
                    self.finish(Ok(()))
                }
            },
            (NumQuery::IsZero(_), Answer::Truth(z)) => {
                if self.konts.len() == 0 {
                    return self.finish(Ok(()));
                }
                if matches!(self.top(), Kont::Decide(_)) || matches!(self.top(), Kont::DivCheck { .. }) {
                    let k = self.pop_kont();
                    match k {
                        Kont::Decide(u) => self.decide(!z, u),
                        Kont::DivCheck { op, left, right } => {
                            if z {
                                let e = if op == BinaryOp::Div {
                                    RuntimeError::DivisionByZero
                                } else {
                                    RuntimeError::ModuloByZero
                                };
                                self.fail(e)
                            } else {
                                self.ask(NumQuery::Arith { op, left, right })
                            }
                        },
                        _ => self.finish(Ok(())),
                    }
                } else {
                    self.finish(Ok(()))
                }
            },
            (NumQuery::ToIndex(_), Answer::Index(i)) => {
                if self.konts.len() > 0 && matches!(self.top(), Kont::IndexAt { .. }) {
                    let k = self.pop_kont();
                    match k {
                        Kont::IndexAt { array } => {
                            if array < self.arrays.len() && i < self.arrays[array].len() {
                                let v = self.arrays[array][i].duplicate();
                                self.go(Ctrl::Value(v))
                            } else {
                                self.fail(RuntimeError::IndexOutOfBounds(i))
                            }
                        },
                        _ => self.finish(Ok(())),
                    }
                } else {
                    self.finish(Ok(()))
                }
            },
            (q, _) => self.ask(q),
        }
    }

    /// One step of the machine. `answer` is the answer to the query that the
    /// previous step reported, if it reported one.
    pub fn step(&mut self, answer: Option<Answer>) -> (r: Step)
        ensures
            (final(self)@, r@) == step_spec(old(self)@, answer),
    {
        let mut c = Ctrl::Idle;
        std::mem::swap(&mut c, &mut self.ctrl);
        assert(self@ =~= State { ctrl: CtrlV::Idle, ..old(self)@ });
        match c {
            Ctrl::Idle => Step::Finished(Ok(())),
            Ctrl::Exec(st) => self.exec_stmt(st),
            Ctrl::Eval(e) => self.eval_expr(e),
            Ctrl::Value(v) => self.give_value(v),
            Ctrl::Done => self.give_done(),
            Ctrl::Returning(v) => self.give_return(v),
            Ctrl::Failed(e) => self.give_failure(e),
            Ctrl::Awaiting(q) => match answer {
                Some(a) => self.give_answer(q, a),
                None => self.ask(q),
            },
        }
    }
}

} // verus!
