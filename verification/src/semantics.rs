//! The meaning of a program read recursively, statement by statement and
//! expression by expression, as a tree-walking interpreter reads it; and the
//! proof that the step machine of `interpreter` reaches exactly that meaning.
//!
//! Numbers are computed by whoever drives the machine. Here the driver is a
//! function `o` from queries to answers: any driver that answers the same
//! query the same way.
use vstd::prelude::*;
use crate::ast::{BinaryOp, ExprV, StmtV, UnaryOp};
use crate::environment::{env_assign, env_get, env_new_frame, env_set, FrameV};
use crate::interpreter::{
    arith_error, binary, decide, enter_scope, give_answer, give_value, pop, push_into, push_name,
    render, step_spec, test_truth, use_rank, values_equal, Answer, CtrlV, KontV, NumQueryV, PieceV,
    RuntimeErrorV, State, StepV, TruthUseV,
};
use crate::session::{compile_spec, session_step, LineErrorV, LineResultV, SessionV};
use crate::value::{truth_of, ValueV};

verus! {

/// Everything the machine works on besides its control: the scopes, the
/// arrays, the current scope and the printed lines.
#[verifier::ext_equal]
pub struct World {
    pub frames: Seq<FrameV>,
    pub arrays: Seq<Seq<ValueV>>,
    pub env: nat,
    pub output: Seq<Seq<PieceV>>,
}

/// The world of a machine state.
pub open spec fn world(s: State) -> World {
    World { frames: s.frames, arrays: s.arrays, env: s.env, output: s.output }
}

/// The machine state with world `w`, control `c` and continuations `k`.
pub open spec fn put(k: Seq<KontV>, w: World, c: CtrlV) -> State {
    State { frames: w.frames, arrays: w.arrays, env: w.env, output: w.output, ctrl: c, konts: k }
}

/// What an expression gives: a value, or the error that stopped it.
pub enum EOut {
    Val(ValueV),
    Fail(RuntimeErrorV),
}

/// How a statement ends: normally, by `return`, or by an error.
pub enum SOut {
    Normal,
    Ret(ValueV),
    Fail(RuntimeErrorV),
}

/// The control of the machine once an expression is done.
pub open spec fn ectrl(r: EOut) -> CtrlV {
    match r {
        EOut::Val(v) => CtrlV::Value(v),
        EOut::Fail(e) => CtrlV::Failed(e),
    }
}

/// The control of the machine once a statement is done.
pub open spec fn sctrl(r: SOut) -> CtrlV {
    match r {
        SOut::Normal => CtrlV::Done,
        SOut::Ret(v) => CtrlV::Returning(v),
        SOut::Fail(e) => CtrlV::Failed(e),
    }
}

// ---------------------------------------------------------------------------
// The recursive reading. `fuel` bounds the depth of the reading; `None` when
// it runs out, or when the driver answers a query with the wrong kind of
// answer (the machine then waits forever).
// ---------------------------------------------------------------------------

/// Whether `v` is true (numbers: when the driver says they are not zero).
pub open spec fn truth_big(o: spec_fn(NumQueryV) -> Answer, v: ValueV) -> Option<bool> {
    match truth_of(v) {
        Some(t) => Some(t),
        None => match v {
            ValueV::Number(n) => match o(NumQueryV::IsZero(n)) {
                Answer::Truth(z) => Some(!z),
                _ => None,
            },
            _ => None,
        },
    }
}

/// The number the driver computes for `left op right`.
pub open spec fn arith_big(o: spec_fn(NumQueryV) -> Answer, op: BinaryOp, a: u64, b: u64) -> Option<EOut> {
    match o(NumQueryV::Arith { op, left: a, right: b }) {
        Answer::Number(n) => Some(EOut::Val(ValueV::Number(n))),
        _ => None,
    }
}

/// A binary operator applied to the values of both operands (both are always
/// evaluated, `&&` and `||` included).
pub open spec fn binary_big(o: spec_fn(NumQueryV) -> Answer, op: BinaryOp, l: ValueV, r: ValueV) -> Option<EOut> {
    match op {
        BinaryOp::Eq | BinaryOp::Ne => match (l, r) {
            (ValueV::Number(a), ValueV::Number(b)) => match o(NumQueryV::Equal { left: a, right: b }) {
                Answer::Truth(eq) => Some(EOut::Val(ValueV::Bool(eq != (op == BinaryOp::Ne)))),
                _ => None,
            },
            _ => Some(EOut::Val(ValueV::Bool(values_equal(l, r) != (op == BinaryOp::Ne)))),
        },
        BinaryOp::Lt | BinaryOp::Le | BinaryOp::Gt | BinaryOp::Ge => match (l, r) {
            (ValueV::Number(a), ValueV::Number(b)) => match o(NumQueryV::Compare { op, left: a, right: b }) {
                Answer::Truth(t) => Some(EOut::Val(ValueV::Bool(t))),
                _ => None,
            },
            _ => Some(EOut::Fail(RuntimeErrorV::CannotCompare(op))),
        },
        BinaryOp::And => match truth_big(o, l) {
            Some(false) => Some(EOut::Val(ValueV::Bool(false))),
            Some(true) => match truth_big(o, r) {
                Some(t) => Some(EOut::Val(ValueV::Bool(t))),
                None => None,
            },
            None => None,
        },
        BinaryOp::Or => match truth_big(o, l) {
            Some(true) => Some(EOut::Val(ValueV::Bool(true))),
            Some(false) => match truth_big(o, r) {
                Some(t) => Some(EOut::Val(ValueV::Bool(t))),
                None => None,
            },
            None => None,
        },
        _ => match (l, r) {
            (ValueV::Number(a), ValueV::Number(b)) => if op == BinaryOp::Div || op == BinaryOp::Mod {
                match o(NumQueryV::IsZero(b)) {
                    Answer::Truth(z) => if z {
                        Some(
                            EOut::Fail(
                                if op == BinaryOp::Div {
                                    RuntimeErrorV::DivisionByZero
                                } else {
                                    RuntimeErrorV::ModuloByZero
                                },
                            ),
                        )
                    } else {
                        arith_big(o, op, a, b)
                    },
                    _ => None,
                }
            } else {
                arith_big(o, op, a, b)
            },
            (ValueV::Str(a), ValueV::Str(b)) => if op == BinaryOp::Add {
                Some(EOut::Val(ValueV::Str(a + b)))
            } else {
                Some(EOut::Fail(arith_error(op)))
            },
            _ => Some(EOut::Fail(arith_error(op))),
        },
    }
}

/// `av[iv]`.
pub open spec fn index_big(o: spec_fn(NumQueryV) -> Answer, w: World, av: ValueV, iv: ValueV) -> Option<(World, EOut)> {
    match (av, iv) {
        (ValueV::Array(a), ValueV::Number(n)) => match o(NumQueryV::ToIndex(n)) {
            Answer::Index(i) => if a < w.arrays.len() && i < w.arrays[a as int].len() {
                Some((w, EOut::Val(w.arrays[a as int][i as int])))
            } else {
                Some((w, EOut::Fail(RuntimeErrorV::IndexOutOfBounds(i as nat))))
            },
            _ => None,
        },
        (ValueV::Array(_), _) => Some((w, EOut::Fail(RuntimeErrorV::IndexNotNumber))),
        _ => Some((w, EOut::Fail(RuntimeErrorV::CannotIndex))),
    }
}

/// Evaluates `e` in world `w`.
pub open spec fn eval_big(o: spec_fn(NumQueryV) -> Answer, fuel: nat, w: World, e: ExprV) -> Option<(World, EOut)>
    decreases fuel,
{
    if fuel == 0 {
        None
    } else {
        let f = (fuel - 1) as nat;
        match e {
            ExprV::Number(t) => match o(NumQueryV::Literal(t)) {
                Answer::Number(n) => Some((w, EOut::Val(ValueV::Number(n)))),
                _ => None,
            },
            ExprV::StringLit(t) => Some((w, EOut::Val(ValueV::Str(t)))),
            ExprV::Bool(b) => Some((w, EOut::Val(ValueV::Bool(b)))),
            ExprV::Null => Some((w, EOut::Val(ValueV::Null))),
            ExprV::Identifier(name) => match env_get(w.frames, w.env as int, name) {
                Some(v) => Some((w, EOut::Val(v))),
                None => Some((w, EOut::Fail(RuntimeErrorV::UndefinedVariable(name)))),
            },
            ExprV::Unary { op, right } => match eval_big(o, f, w, *right) {
                Some((w1, EOut::Val(v))) => if op == UnaryOp::Neg {
                    match v {
                        ValueV::Number(n) => match o(NumQueryV::Negate(n)) {
                            Answer::Number(m) => Some((w1, EOut::Val(ValueV::Number(m)))),
                            _ => None,
                        },
                        _ => Some((w1, EOut::Fail(RuntimeErrorV::CannotNegate))),
                    }
                } else {
                    match truth_big(o, v) {
                        Some(t) => Some((w1, EOut::Val(ValueV::Bool(!t)))),
                        None => None,
                    }
                },
                r => r,
            },
            ExprV::Binary { left, op, right } => match eval_big(o, f, w, *left) {
                Some((w1, EOut::Val(l))) => match eval_big(o, f, w1, *right) {
                    Some((w2, EOut::Val(r))) => match binary_big(o, op, l, r) {
                        Some(out) => Some((w2, out)),
                        None => None,
                    },
                    r => r,
                },
                r => r,
            },
            ExprV::Assign { name, value } => match eval_big(o, f, w, *value) {
                Some((w1, EOut::Val(v))) => match env_assign(w1.frames, w1.env as int, name, v) {
                    Some(fr) => Some((World { frames: fr, ..w1 }, EOut::Val(v))),
                    None => Some((w1, EOut::Fail(RuntimeErrorV::UndefinedVariable(name)))),
                },
                r => r,
            },
            ExprV::Lambda { params, body } => Some(
                (w, EOut::Val(ValueV::Function { params, body, closure: w.env })),
            ),
            ExprV::Array(elems) => {
                let a = w.arrays.len();
                let w0 = World { arrays: w.arrays.push(Seq::empty()), ..w };
                match elems_big(o, f, w0, elems, 0, a) {
                    Some((w1, None)) => Some((w1, EOut::Val(ValueV::Array(a)))),
                    Some((w1, Some(err))) => Some((w1, EOut::Fail(err))),
                    None => None,
                }
            },
            ExprV::Index { array, index } => match eval_big(o, f, w, *array) {
                Some((w1, EOut::Val(av))) => match eval_big(o, f, w1, *index) {
                    Some((w2, EOut::Val(iv))) => index_big(o, w2, av, iv),
                    r => r,
                },
                r => r,
            },
            ExprV::Call { callee, args } => if *callee == ExprV::Identifier(push_name()) {
                if args.len() != 2 {
                    Some((w, EOut::Fail(RuntimeErrorV::PushArity(args.len()))))
                } else {
                    match eval_big(o, f, w, args[0]) {
                        Some((w1, EOut::Val(t))) => match eval_big(o, f, w1, args[1]) {
                            Some((w2, EOut::Val(v))) => match t {
                                ValueV::Array(a) => Some(
                                    (World { arrays: push_into(w2.arrays, a, v), ..w2 }, EOut::Val(ValueV::Null)),
                                ),
                                _ => Some((w2, EOut::Fail(RuntimeErrorV::PushTarget))),
                            },
                            r => r,
                        },
                        r => r,
                    }
                }
            } else {
                match eval_big(o, f, w, *callee) {
                    Some((w1, EOut::Val(fv))) => match fv {
                        ValueV::Function { params, body, closure } => if args.len() != params.len() {
                            Some(
                                (
                                    w1,
                                    EOut::Fail(
                                        RuntimeErrorV::ArityMismatch { expected: params.len(), got: args.len() },
                                    ),
                                ),
                            )
                        } else {
                            let frame = w1.frames.len();
                            let w2 = World { frames: env_new_frame(w1.frames, Some(closure)), ..w1 };
                            match args_big(o, f, w2, params, args, 0, frame) {
                                Some((w3, None)) => call_big(o, f, w3, body, frame),
                                Some((w3, Some(err))) => Some((w3, EOut::Fail(err))),
                                None => None,
                            }
                        },
                        _ => Some((w1, EOut::Fail(RuntimeErrorV::NotAFunction))),
                    },
                    r => r,
                }
            },
        }
    }
}

/// Evaluates the elements `elems[i..]` in order, appending each to array `a`.
pub open spec fn elems_big(
    o: spec_fn(NumQueryV) -> Answer,
    fuel: nat,
    w: World,
    elems: Seq<ExprV>,
    i: nat,
    a: nat,
) -> Option<(World, Option<RuntimeErrorV>)>
    decreases fuel,
{
    if fuel == 0 {
        None
    } else if i >= elems.len() {
        Some((w, None))
    } else {
        match eval_big(o, (fuel - 1) as nat, w, elems[i as int]) {
            Some((w1, EOut::Val(v))) => elems_big(
                o,
                (fuel - 1) as nat,
                World { arrays: push_into(w1.arrays, a, v), ..w1 },
                elems,
                i + 1,
                a,
            ),
            Some((w1, EOut::Fail(err))) => Some((w1, Some(err))),
            None => None,
        }
    }
}

/// Evaluates the arguments `args[i..]` in order, in the caller's scope,
/// binding each to its parameter in frame `frame`.
pub open spec fn args_big(
    o: spec_fn(NumQueryV) -> Answer,
    fuel: nat,
    w: World,
    params: Seq<Seq<char>>,
    args: Seq<ExprV>,
    i: nat,
    frame: nat,
) -> Option<(World, Option<RuntimeErrorV>)>
    decreases fuel,
{
    if fuel == 0 {
        None
    } else if i >= args.len() {
        Some((w, None))
    } else {
        match eval_big(o, (fuel - 1) as nat, w, args[i as int]) {
            Some((w1, EOut::Val(v))) => args_big(
                o,
                (fuel - 1) as nat,
                World { frames: env_set(w1.frames, frame as int, params[i as int], v), ..w1 },
                params,
                args,
                i + 1,
                frame,
            ),
            Some((w1, EOut::Fail(err))) => Some((w1, Some(err))),
            None => None,
        }
    }
}

/// Runs a function body in scope `frame`; the caller's scope is given back
/// however the body ends. A body that ends normally gives `null`.
pub open spec fn call_big(o: spec_fn(NumQueryV) -> Answer, fuel: nat, w: World, body: Seq<StmtV>, frame: nat) -> Option<
    (World, EOut),
>
    decreases fuel,
{
    if fuel == 0 {
        None
    } else {
        match block_big(o, (fuel - 1) as nat, World { env: frame, ..w }, body, 0) {
            Some((w1, out)) => Some(
                (
                    World { env: w.env, ..w1 },
                    match out {
                        SOut::Normal => EOut::Val(ValueV::Null),
                        SOut::Ret(v) => EOut::Val(v),
                        SOut::Fail(err) => EOut::Fail(err),
                    },
                ),
            ),
            None => None,
        }
    }
}

/// Runs the statements `stmts[i..]`, stopping at a `return` or an error.
pub open spec fn block_big(o: spec_fn(NumQueryV) -> Answer, fuel: nat, w: World, stmts: Seq<StmtV>, i: nat) -> Option<
    (World, SOut),
>
    decreases fuel,
{
    if fuel == 0 {
        None
    } else if i >= stmts.len() {
        Some((w, SOut::Normal))
    } else {
        match exec_big(o, (fuel - 1) as nat, w, stmts[i as int]) {
            Some((w1, SOut::Normal)) => block_big(o, (fuel - 1) as nat, w1, stmts, i + 1),
            r => r,
        }
    }
}

/// Runs a block in a new scope nested in the current one; the scope is left
/// however the block ends.
pub open spec fn scope_big(o: spec_fn(NumQueryV) -> Answer, fuel: nat, w: World, stmts: Seq<StmtV>) -> Option<
    (World, SOut),
>
    decreases fuel,
{
    if fuel == 0 {
        None
    } else {
        let w0 = World { frames: env_new_frame(w.frames, Some(w.env)), env: w.frames.len(), ..w };
        match block_big(o, (fuel - 1) as nat, w0, stmts, 0) {
            Some((w1, out)) => Some((World { env: w.env, ..w1 }, out)),
            None => None,
        }
    }
}

/// Runs `while condition { body }`: each pass in a fresh scope.
pub open spec fn while_big(
    o: spec_fn(NumQueryV) -> Answer,
    fuel: nat,
    w: World,
    condition: ExprV,
    body: Seq<StmtV>,
) -> Option<(World, SOut)>
    decreases fuel,
{
    if fuel == 0 {
        None
    } else {
        let f = (fuel - 1) as nat;
        match eval_big(o, f, w, condition) {
            Some((w1, EOut::Val(v))) => match truth_big(o, v) {
                Some(true) => match scope_big(o, f, w1, body) {
                    Some((w2, SOut::Normal)) => while_big(o, f, w2, condition, body),
                    r => r,
                },
                Some(false) => Some((w1, SOut::Normal)),
                None => None,
            },
            Some((w1, EOut::Fail(err))) => Some((w1, SOut::Fail(err))),
            None => None,
        }
    }
}

/// Runs one statement.
pub open spec fn exec_big(o: spec_fn(NumQueryV) -> Answer, fuel: nat, w: World, st: StmtV) -> Option<(World, SOut)>
    decreases fuel,
{
    if fuel == 0 {
        None
    } else {
        let f = (fuel - 1) as nat;
        match st {
            StmtV::Let { name, value } => match eval_big(o, f, w, value) {
                Some((w1, EOut::Val(v))) => Some(
                    (World { frames: env_set(w1.frames, w1.env as int, name, v), ..w1 }, SOut::Normal),
                ),
                Some((w1, EOut::Fail(err))) => Some((w1, SOut::Fail(err))),
                None => None,
            },
            StmtV::Print(e) => match eval_big(o, f, w, e) {
                Some((w1, EOut::Val(v))) => match render(w1.arrays, v, w1.arrays.len()) {
                    Some(line) => Some((World { output: w1.output.push(line), ..w1 }, SOut::Normal)),
                    None => Some((w1, SOut::Fail(RuntimeErrorV::CyclicValue))),
                },
                Some((w1, EOut::Fail(err))) => Some((w1, SOut::Fail(err))),
                None => None,
            },
            StmtV::Expression(e) => match eval_big(o, f, w, e) {
                Some((w1, EOut::Val(_))) => Some((w1, SOut::Normal)),
                Some((w1, EOut::Fail(err))) => Some((w1, SOut::Fail(err))),
                None => None,
            },
            StmtV::If { condition, then_block, else_block } => match eval_big(o, f, w, condition) {
                Some((w1, EOut::Val(v))) => match truth_big(o, v) {
                    Some(true) => scope_big(o, f, w1, then_block),
                    Some(false) => match else_block {
                        Some(b) => scope_big(o, f, w1, b),
                        None => Some((w1, SOut::Normal)),
                    },
                    None => None,
                },
                Some((w1, EOut::Fail(err))) => Some((w1, SOut::Fail(err))),
                None => None,
            },
            StmtV::While { condition, body } => while_big(o, f, w, condition, body),
            StmtV::Fn { name, params, body } => Some(
                (
                    World {
                        frames: env_set(
                            w.frames,
                            w.env as int,
                            name,
                            ValueV::Function { params, body, closure: w.env },
                        ),
                        ..w
                    },
                    SOut::Normal,
                ),
            ),
            StmtV::Return(e) => match eval_big(o, f, w, e) {
                Some((w1, EOut::Val(v))) => Some((w1, SOut::Ret(v))),
                Some((w1, EOut::Fail(err))) => Some((w1, SOut::Fail(err))),
                None => None,
            },
        }
    }
}

/// Runs the top-level statements `stmts[i..]`: a `return` there only ends its
/// statement; an error ends the program.
pub open spec fn program_big(
    o: spec_fn(NumQueryV) -> Answer,
    fuel: nat,
    w: World,
    stmts: Seq<StmtV>,
    i: nat,
) -> Option<(World, Result<(), RuntimeErrorV>)>
    decreases fuel,
{
    if fuel == 0 {
        None
    } else if i >= stmts.len() {
        Some((w, Ok(())))
    } else {
        match exec_big(o, (fuel - 1) as nat, w, stmts[i as int]) {
            Some((w1, SOut::Fail(err))) => Some((w1, Err(err))),
            Some((w1, _)) => program_big(o, (fuel - 1) as nat, w1, stmts, i + 1),
            None => None,
        }
    }
}

// ---------------------------------------------------------------------------
// Laws of operators and truth
// ---------------------------------------------------------------------------

/// Law: an ordering comparison of two numbers gives the driver's answer; of
/// anything else, the comparison error. It never gives anything else.
pub proof fn law_comparison(o: spec_fn(NumQueryV) -> Answer, op: BinaryOp, l: ValueV, r: ValueV)
    requires
        op == BinaryOp::Lt || op == BinaryOp::Le || op == BinaryOp::Gt || op == BinaryOp::Ge,
    ensures
        l is Number && r is Number ==> binary_big(o, op, l, r) == match o(
            NumQueryV::Compare { op, left: l->Number_0, right: r->Number_0 },
        ) {
            Answer::Truth(t) => Some(EOut::Val(ValueV::Bool(t))),
            _ => None,
        },
        !(l is Number && r is Number) ==> binary_big(o, op, l, r) == Some(
            EOut::Fail(RuntimeErrorV::CannotCompare(op)),
        ),
{
}

/// Law: `==`, `!=`, `&&` and `||` never fail once both operands are values:
/// they give a boolean (`==` on two numbers as the driver answers, `&&` and
/// `||` on the truth of both operands).
pub proof fn law_logic_never_fails(o: spec_fn(NumQueryV) -> Answer, op: BinaryOp, l: ValueV, r: ValueV)
    requires
        op == BinaryOp::Eq || op == BinaryOp::Ne || op == BinaryOp::And || op == BinaryOp::Or,
    ensures
        binary_big(o, op, l, r) matches Some(out) ==> out is Val && out->Val_0 is Bool,
        op == BinaryOp::Eq && !(l is Number && r is Number) ==> binary_big(o, op, l, r) == Some(
            EOut::Val(ValueV::Bool(values_equal(l, r))),
        ),
        op == BinaryOp::Ne && !(l is Number && r is Number) ==> binary_big(o, op, l, r) == Some(
            EOut::Val(ValueV::Bool(!values_equal(l, r))),
        ),
        op == BinaryOp::And && truth_big(o, l) is Some && truth_big(o, r) is Some ==> binary_big(o, op, l, r)
            == Some(EOut::Val(ValueV::Bool(truth_big(o, l)->0 && truth_big(o, r)->0))),
        op == BinaryOp::Or && truth_big(o, l) is Some && truth_big(o, r) is Some ==> binary_big(o, op, l, r)
            == Some(EOut::Val(ValueV::Bool(truth_big(o, l)->0 || truth_big(o, r)->0))),
{
}

/// Law: in the recursive reading too, `!=` gives the opposite of `==` on any
/// two values (on two numbers, the negation of the driver's answer), and the
/// one gives a result exactly when the other does.
pub proof fn law_reading_not_equal_negates_equal(o: spec_fn(NumQueryV) -> Answer, l: ValueV, r: ValueV)
    ensures
        binary_big(o, BinaryOp::Eq, l, r) is Some <==> binary_big(o, BinaryOp::Ne, l, r) is Some,
        binary_big(o, BinaryOp::Eq, l, r) matches Some(EOut::Val(ValueV::Bool(y))) ==> binary_big(
            o,
            BinaryOp::Ne,
            l,
            r,
        ) == Some(EOut::Val(ValueV::Bool(!y))),
        l is Number && r is Number && o(NumQueryV::Equal { left: l->Number_0, right: r->Number_0 })
            == Answer::Truth(true) ==> binary_big(o, BinaryOp::Ne, l, r) == Some(EOut::Val(ValueV::Bool(false))),
{
}

/// Law: equality of values (other than two numbers, which the driver
/// compares) is symmetric, and a value is unequal to itself exactly when it
/// is an array or a function.
pub proof fn law_equality(a: ValueV, b: ValueV)
    ensures
        values_equal(a, b) == values_equal(b, a),
        !(a is Number) ==> (values_equal(a, a) <==> !(a is Array || a is Function)),
{
}

/// Law (truthiness): a value is false exactly when it is `false`, `null`, the
/// empty string, or a number the driver says is zero; everything else is
/// true. Only a number whose test the driver answers with the wrong kind of
/// answer has no truth.
pub proof fn law_truthiness(o: spec_fn(NumQueryV) -> Answer, v: ValueV)
    ensures
        truth_big(o, v) == Some(false) <==> {
            ||| v == ValueV::Bool(false)
            ||| v == ValueV::Null
            ||| (v is Str && v->Str_0.len() == 0)
            ||| (v is Number && o(NumQueryV::IsZero(v->Number_0)) == Answer::Truth(true))
        },
        truth_big(o, v) is None <==> (v is Number && !(o(NumQueryV::IsZero(v->Number_0)) is Truth)),
{
}

// ---------------------------------------------------------------------------
// The reading gives the current scope back
// ---------------------------------------------------------------------------

/// Whether a reading that ended kept the current scope of `w`.
pub open spec fn keeps_env<T>(w: World, r: Option<(World, T)>) -> bool {
    r matches Some(x) ==> x.0.env == w.env
}

/// Law: evaluating an expression gives the current scope back, whether it
/// ends in a value or in an error; a call's scope is a new one nested in the
/// function's closure (see `eval_big`), never the caller's.
pub proof fn law_evaluation_keeps_scope(o: spec_fn(NumQueryV) -> Answer, fuel: nat, w: World, e: ExprV)
    ensures
        keeps_env(w, eval_big(o, fuel, w, e)),
    decreases fuel, 1nat,
{
    if fuel > 0 {
        let f = (fuel - 1) as nat;
        match e {
            ExprV::Unary { op, right } => law_evaluation_keeps_scope(o, f, w, *right),
            ExprV::Binary { left, op, right } => lemma_two_keep_scope(o, f, w, *left, *right),
            ExprV::Assign { name, value } => law_evaluation_keeps_scope(o, f, w, *value),
            ExprV::Array(elems) => {
                let w0 = World { arrays: w.arrays.push(Seq::empty()), ..w };
                lemma_elems_keep_scope(o, f, w0, elems, 0, w.arrays.len());
            },
            ExprV::Index { array, index } => lemma_two_keep_scope(o, f, w, *array, *index),
            ExprV::Call { callee, args } => {
                if *callee == ExprV::Identifier(push_name()) {
                    if args.len() == 2 {
                        lemma_two_keep_scope(o, f, w, args[0], args[1]);
                    }
                } else {
                    lemma_call_keeps_scope(o, fuel, w, *callee, args);
                }
            },
            _ => {},
        }
    }
}

/// Two operands evaluated one after the other keep the scope.
proof fn lemma_two_keep_scope(o: spec_fn(NumQueryV) -> Answer, f: nat, w: World, a: ExprV, b: ExprV)
    ensures
        keeps_env(w, eval_big(o, f, w, a)),
        eval_big(o, f, w, a) matches Some((w1, EOut::Val(v))) ==> keeps_env(w1, eval_big(o, f, w1, b)),
    decreases f, 2nat,
{
    law_evaluation_keeps_scope(o, f, w, a);
    if let Some((w1, EOut::Val(v))) = eval_big(o, f, w, a) {
        law_evaluation_keeps_scope(o, f, w1, b);
    }
}

proof fn lemma_call_keeps_scope(o: spec_fn(NumQueryV) -> Answer, fuel: nat, w: World, callee: ExprV, args: Seq<ExprV>)
    requires
        fuel > 0,
        callee != ExprV::Identifier(push_name()),
    ensures
        keeps_env(w, eval_big(o, fuel, w, ExprV::Call { callee: Box::new(callee), args })),
    decreases fuel, 0nat,
{
    let f = (fuel - 1) as nat;
    law_evaluation_keeps_scope(o, f, w, callee);
    if let Some((w1, EOut::Val(fv))) = eval_big(o, f, w, callee) {
        if let ValueV::Function { params, body, closure } = fv {
            if args.len() == params.len() {
                let frame = w1.frames.len();
                let w2 = World { frames: env_new_frame(w1.frames, Some(closure)), ..w1 };
                lemma_args_keep_scope(o, f, w2, params, args, 0, frame);
                if let Some((w3, None)) = args_big(o, f, w2, params, args, 0, frame) {
                    assert(keeps_env(w3, call_big(o, f, w3, body, frame)));
                }
            }
        }
    }
}

proof fn lemma_elems_keep_scope(o: spec_fn(NumQueryV) -> Answer, fuel: nat, w: World, elems: Seq<ExprV>, i: nat, a: nat)
    ensures
        keeps_env(w, elems_big(o, fuel, w, elems, i, a)),
    decreases fuel, 1nat,
{
    if fuel > 0 && i < elems.len() {
        let f = (fuel - 1) as nat;
        law_evaluation_keeps_scope(o, f, w, elems[i as int]);
        if let Some((w1, EOut::Val(v))) = eval_big(o, f, w, elems[i as int]) {
            lemma_elems_keep_scope(o, f, World { arrays: push_into(w1.arrays, a, v), ..w1 }, elems, i + 1, a);
        }
    }
}

proof fn lemma_args_keep_scope(
    o: spec_fn(NumQueryV) -> Answer,
    fuel: nat,
    w: World,
    params: Seq<Seq<char>>,
    args: Seq<ExprV>,
    i: nat,
    frame: nat,
)
    ensures
        keeps_env(w, args_big(o, fuel, w, params, args, i, frame)),
    decreases fuel, 1nat,
{
    if fuel > 0 && i < args.len() {
        let f = (fuel - 1) as nat;
        law_evaluation_keeps_scope(o, f, w, args[i as int]);
        if let Some((w1, EOut::Val(v))) = eval_big(o, f, w, args[i as int]) {
            lemma_args_keep_scope(
                o,
                f,
                World { frames: env_set(w1.frames, frame as int, params[i as int], v), ..w1 },
                params,
                args,
                i + 1,
                frame,
            );
        }
    }
}

/// Law: running a statement gives the current scope back however it ends:
/// the blocks of `if` and `while` leave their own scopes.
pub proof fn law_statement_keeps_scope(o: spec_fn(NumQueryV) -> Answer, fuel: nat, w: World, st: StmtV)
    ensures
        keeps_env(w, exec_big(o, fuel, w, st)),
    decreases fuel, 1nat,
{
    if fuel > 0 {
        let f = (fuel - 1) as nat;
        match st {
            StmtV::Let { name, value } => law_evaluation_keeps_scope(o, f, w, value),
            StmtV::Print(e) => law_evaluation_keeps_scope(o, f, w, e),
            StmtV::Expression(e) => law_evaluation_keeps_scope(o, f, w, e),
            StmtV::Return(e) => law_evaluation_keeps_scope(o, f, w, e),
            StmtV::If { condition, then_block, else_block } => law_evaluation_keeps_scope(o, f, w, condition),
            StmtV::While { condition, body } => lemma_while_keeps_scope(o, f, w, condition, body),
            _ => {},
        }
    }
}

proof fn lemma_while_keeps_scope(o: spec_fn(NumQueryV) -> Answer, fuel: nat, w: World, cond: ExprV, body: Seq<StmtV>)
    ensures
        keeps_env(w, while_big(o, fuel, w, cond, body)),
    decreases fuel, 1nat,
{
    if fuel > 0 {
        let f = (fuel - 1) as nat;
        law_evaluation_keeps_scope(o, f, w, cond);
        if let Some((w1, EOut::Val(v))) = eval_big(o, f, w, cond) {
            if let Some((w2, SOut::Normal)) = scope_big(o, f, w1, body) {
                lemma_while_keeps_scope(o, f, w2, cond, body);
            }
        }
    }
}

// ---------------------------------------------------------------------------
// Running the machine, with the driver answering each query
// ---------------------------------------------------------------------------

/// The driver's answer in state `s`: the answer to the query it waits for.
pub open spec fn answer_for(o: spec_fn(NumQueryV) -> Answer, s: State) -> Option<Answer> {
    match s.ctrl {
        CtrlV::Awaiting(q) => Some(o(q)),
        _ => None,
    }
}

/// The state after one step.
pub open spec fn next(o: spec_fn(NumQueryV) -> Answer, s: State) -> State {
    step_spec(s, answer_for(o, s)).0
}

/// The state after `n` steps.
pub open spec fn run(o: spec_fn(NumQueryV) -> Answer, s: State, n: nat) -> State
    decreases n,
{
    if n == 0 {
        s
    } else {
        run(o, next(o, s), (n - 1) as nat)
    }
}

proof fn lemma_run_add(o: spec_fn(NumQueryV) -> Answer, s: State, a: nat, b: nat)
    ensures
        run(o, s, a + b) == run(o, run(o, s, a), b),
    decreases a,
{
    if a > 0 {
        lemma_run_add(o, next(o, s), (a - 1) as nat, b);
        assert((a + b - 1) as nat == (a - 1) as nat + b);
    }
}

/// `a` steps from `s` reach `t`, `b` more reach `u`.
proof fn lemma_then(o: spec_fn(NumQueryV) -> Answer, s: State, a: nat, t: State, b: nat, u: State)
    requires
        run(o, s, a) == t,
        run(o, t, b) == u,
    ensures
        run(o, s, a + b) == u,
{
    lemma_run_add(o, s, a, b);
}

/// One step from `s` reaches `t`, `b` more reach `u`.
proof fn lemma_step_then(o: spec_fn(NumQueryV) -> Answer, s: State, t: State, b: nat, u: State)
    requires
        next(o, s) == t,
        run(o, t, b) == u,
    ensures
        run(o, s, b + 1) == u,
{
    assert(run(o, s, b + 1) == run(o, next(o, s), b));
}

proof fn lemma_push_pop(k: Seq<KontV>, x: KontV)
    ensures
        k.push(x).drop_last() == k,
        k.push(x).last() == x,
        k.push(x).len() == k.len() + 1,
{
    assert(k.push(x).drop_last() =~= k);
}

/// A failure leaves a continuation other than a call, a block's scope or the
/// program.
proof fn lemma_fail_pop(o: spec_fn(NumQueryV) -> Answer, k: Seq<KontV>, x: KontV, w: World, e: RuntimeErrorV)
    requires
        !(x is Program),
        !(x is Call),
        !(x is IfBody),
        !(x is WhileBody),
    ensures
        next(o, put(k.push(x), w, CtrlV::Failed(e))) == put(k, w, CtrlV::Failed(e)),
{
    lemma_push_pop(k, x);
}

/// The truth of `v`, for use `u`: the machine reaches the decision.
proof fn lemma_truth_sim(o: spec_fn(NumQueryV) -> Answer, p: State, v: ValueV, u: TruthUseV) -> (m: nat)
    requires
        p.ctrl == CtrlV::Idle,
        truth_big(o, v) is Some,
    ensures
        run(o, test_truth(p, v, u).0, m) == decide(p, truth_big(o, v)->0, u).0,
{
    match truth_of(v) {
        Some(t) => 0,
        None => {
            let x = v->Number_0;
            let a = test_truth(p, v, u).0;
            lemma_push_pop(p.konts, KontV::Decide(u));
            assert(a == put(p.konts.push(KontV::Decide(u)), world(p), CtrlV::Awaiting(NumQueryV::IsZero(x))));
            let fin = decide(p, truth_big(o, v)->0, u).0;
            assert(State { konts: a.konts.drop_last(), ctrl: CtrlV::Idle, ..a } == p);
            assert(next(o, a) == fin);
            lemma_step_then(o, a, fin, 0, fin);
            1
        },
    }
}

/// A binary operator on two values: the machine reaches the result.
proof fn lemma_binary_sim(o: spec_fn(NumQueryV) -> Answer, p: State, op: BinaryOp, l: ValueV, r: ValueV) -> (m: nat)
    requires
        p.ctrl == CtrlV::Idle,
        binary_big(o, op, l, r) is Some,
    ensures
        run(o, binary(p, op, l, r).0, m) == put(p.konts, world(p), ectrl(binary_big(o, op, l, r)->0)),
{
    let k = p.konts;
    let w = world(p);
    let b0 = binary(p, op, l, r).0;
    let fin = put(k, w, ectrl(binary_big(o, op, l, r)->0));
    assert(p == put(k, w, CtrlV::Idle));
    match op {
        BinaryOp::Eq | BinaryOp::Ne => {
            if l is Number && r is Number {
                let kx = KontV::EqAnswer { negate: op == BinaryOp::Ne };
                lemma_push_pop(k, kx);
                assert(next(o, b0) == fin);
                lemma_step_then(o, b0, fin, 0, fin);
                1
            } else {
                0
            }
        },
        BinaryOp::Lt | BinaryOp::Le | BinaryOp::Gt | BinaryOp::Ge => {
            if l is Number && r is Number {
                assert(next(o, b0) == fin);
                lemma_step_then(o, b0, fin, 0, fin);
                1
            } else {
                0
            }
        },
        BinaryOp::And => {
            let m1 = lemma_truth_sim(o, p, l, TruthUseV::AndLeft { right: r });
            if truth_big(o, l)->0 {
                let mid = test_truth(p, r, TruthUseV::AndRight).0;
                let m2 = lemma_truth_sim(o, p, r, TruthUseV::AndRight);
                lemma_then(o, b0, m1, mid, m2, fin);
                m1 + m2
            } else {
                m1
            }
        },
        BinaryOp::Or => {
            let m1 = lemma_truth_sim(o, p, l, TruthUseV::OrLeft { right: r });
            if !(truth_big(o, l)->0) {
                let mid = test_truth(p, r, TruthUseV::OrRight).0;
                let m2 = lemma_truth_sim(o, p, r, TruthUseV::OrRight);
                lemma_then(o, b0, m1, mid, m2, fin);
                m1 + m2
            } else {
                m1
            }
        },
        _ => {
            if l is Number && r is Number {
                let a = l->Number_0;
                let b = r->Number_0;
                if op == BinaryOp::Div || op == BinaryOp::Mod {
                    let kx = KontV::DivCheck { op, left: a, right: b };
                    lemma_push_pop(k, kx);
                    let z = o(NumQueryV::IsZero(b))->Truth_0;
                    if z {
                        assert(next(o, b0) == fin);
                        lemma_step_then(o, b0, fin, 0, fin);
                        1
                    } else {
                        let a2 = put(k, w, CtrlV::Awaiting(NumQueryV::Arith { op, left: a, right: b }));
                        assert(next(o, b0) == a2);
                        assert(next(o, a2) == fin);
                        lemma_step_then(o, a2, fin, 0, fin);
                        lemma_step_then(o, b0, a2, 1, fin);
                        2
                    }
                } else {
                    assert(next(o, b0) == fin);
                    lemma_step_then(o, b0, fin, 0, fin);
                    1
                }
            } else {
                0
            }
        },
    }
}

// ---------------------------------------------------------------------------
// The machine reaches what the recursive reading gives
// ---------------------------------------------------------------------------

/// Where an expression's evaluation ends: its outcome, with the
/// continuations it started with.
pub open spec fn eval_end(k: Seq<KontV>, r: (World, EOut)) -> State {
    put(k, r.0, ectrl(r.1))
}

/// Where the evaluation of the elements of array `a` ends.
pub open spec fn elems_end(k: Seq<KontV>, a: nat, r: (World, Option<RuntimeErrorV>)) -> State {
    match r.1 {
        None => put(k, r.0, CtrlV::Value(ValueV::Array(a))),
        Some(err) => put(k, r.0, CtrlV::Failed(err)),
    }
}

/// Where the evaluation of a call's arguments ends: at the start of its body,
/// or at an error.
pub open spec fn args_end(k: Seq<KontV>, body: Seq<StmtV>, frame: nat, r: (World, Option<RuntimeErrorV>)) -> State {
    match r.1 {
        None => call_start(k, r.0, body, frame),
        Some(err) => put(k, r.0, CtrlV::Failed(err)),
    }
}

/// Where a statement's execution ends.
pub open spec fn exec_end(k: Seq<KontV>, r: (World, SOut)) -> State {
    put(k, r.0, sctrl(r.1))
}

/// Law: evaluating an expression: from `Eval(e)` the machine reaches, above the
/// same continuations, the value or error that the recursive reading gives,
/// in the same world.
pub proof fn law_machine_evaluates_as_read(o: spec_fn(NumQueryV) -> Answer, fuel: nat, s: State, e: ExprV) -> (n: nat)
    requires
        s.ctrl == CtrlV::Eval(e),
        eval_big(o, fuel, world(s), e) is Some,
    ensures
        run(o, s, n) == eval_end(s.konts, eval_big(o, fuel, world(s), e)->0),
    decreases fuel, 1nat,
{
    let k = s.konts;
    let w = world(s);
    let fin = eval_end(k, eval_big(o, fuel, w, e)->0);
    assert(s == put(k, w, CtrlV::Eval(e)));
    match e {
        ExprV::Number(t) => {
            let a = put(k, w, CtrlV::Awaiting(NumQueryV::Literal(t)));
            assert(next(o, s) == a);
            assert(next(o, a) == fin);
            lemma_step_then(o, a, fin, 0, fin);
            lemma_step_then(o, s, a, 1, fin);
            2
        },
        ExprV::Unary { op, right } => lemma_unary_sim(o, fuel, s, op, *right),
        ExprV::Binary { left, op, right } => lemma_binary_expr_sim(o, fuel, s, *left, op, *right),
        ExprV::Assign { name, value } => lemma_assign_sim(o, fuel, s, name, *value),
        ExprV::Array(elems) => lemma_array_sim(o, fuel, s, elems),
        ExprV::Index { array, index } => lemma_index_sim(o, fuel, s, *array, *index),
        ExprV::Call { callee, args } => if *callee == ExprV::Identifier(push_name()) {
            lemma_push_sim(o, fuel, s, args)
        } else {
            lemma_call_expr_sim(o, fuel, s, *callee, args)
        },
        _ => {
            assert(next(o, s) == fin);
            lemma_step_then(o, s, fin, 0, fin);
            1
        },
    }
}

proof fn lemma_unary_sim(o: spec_fn(NumQueryV) -> Answer, fuel: nat, s: State, op: UnaryOp, r: ExprV) -> (n: nat)
    requires
        s.ctrl == CtrlV::Eval(ExprV::Unary { op, right: Box::new(r) }),
        eval_big(o, fuel, world(s), ExprV::Unary { op, right: Box::new(r) }) is Some,
    ensures
        run(o, s, n) == eval_end(s.konts, eval_big(o, fuel, world(s), ExprV::Unary { op, right: Box::new(r) })->0),
    decreases fuel, 0nat,
{
    let k = s.konts;
    let w = world(s);
    let f = (fuel - 1) as nat;
    let fin = eval_end(k, eval_big(o, fuel, w, ExprV::Unary { op, right: Box::new(r) })->0);
    let kx = if op == UnaryOp::Neg { KontV::Negate } else { KontV::Test(TruthUseV::Not) };
    lemma_push_pop(k, kx);
    let s1 = put(k.push(kx), w, CtrlV::Eval(r));
    assert(next(o, s) == s1);
    let n1 = law_machine_evaluates_as_read(o, f, s1, r);
    let (w1, out1) = eval_big(o, f, w, r)->0;
    let t1 = put(k.push(kx), w1, ectrl(out1));
    match out1 {
        EOut::Fail(err) => {
            lemma_fail_pop(o, k, kx, w1, err);
            lemma_step_then(o, t1, fin, 0, fin);
            lemma_then(o, s1, n1, t1, 1, fin);
            lemma_step_then(o, s, s1, n1 + 1, fin);
            n1 + 2
        },
        EOut::Val(v) => {
            let p = put(k, w1, CtrlV::Idle);
            if op == UnaryOp::Neg {
                if v is Number {
                    let a = put(k, w1, CtrlV::Awaiting(NumQueryV::Negate(v->Number_0)));
                    assert(next(o, t1) == a);
                    assert(next(o, a) == fin);
                    lemma_step_then(o, a, fin, 0, fin);
                    lemma_step_then(o, t1, a, 1, fin);
                    lemma_then(o, s1, n1, t1, 2, fin);
                    lemma_step_then(o, s, s1, n1 + 2, fin);
                    n1 + 3
                } else {
                    assert(next(o, t1) == fin);
                    lemma_step_then(o, t1, fin, 0, fin);
                    lemma_then(o, s1, n1, t1, 1, fin);
                    lemma_step_then(o, s, s1, n1 + 1, fin);
                    n1 + 2
                }
            } else {
                let b0 = test_truth(p, v, TruthUseV::Not).0;
                assert(next(o, t1) == b0);
                let m = lemma_truth_sim(o, p, v, TruthUseV::Not);
                assert(decide(p, truth_big(o, v)->0, TruthUseV::Not).0 == fin);
                lemma_step_then(o, t1, b0, m, fin);
                lemma_then(o, s1, n1, t1, m + 1, fin);
                lemma_step_then(o, s, s1, n1 + m + 1, fin);
                n1 + m + 2
            }
        },
    }
}

proof fn lemma_binary_expr_sim(
    o: spec_fn(NumQueryV) -> Answer,
    fuel: nat,
    s: State,
    left: ExprV,
    op: BinaryOp,
    right: ExprV,
) -> (n: nat)
    requires
        s.ctrl == CtrlV::Eval(ExprV::Binary { left: Box::new(left), op, right: Box::new(right) }),
        eval_big(o, fuel, world(s), ExprV::Binary { left: Box::new(left), op, right: Box::new(right) }) is Some,
    ensures
        run(o, s, n) == eval_end(
            s.konts,
            eval_big(o, fuel, world(s), ExprV::Binary { left: Box::new(left), op, right: Box::new(right) })->0,
        ),
    decreases fuel, 0nat,
{
    let k = s.konts;
    let w = world(s);
    let f = (fuel - 1) as nat;
    let fin = eval_end(k, eval_big(o, fuel, w, ExprV::Binary { left: Box::new(left), op, right: Box::new(right) })->0);
    let kx = KontV::BinLeft { op, right };
    lemma_push_pop(k, kx);
    let s1 = put(k.push(kx), w, CtrlV::Eval(left));
    assert(next(o, s) == s1);
    let n1 = law_machine_evaluates_as_read(o, f, s1, left);
    let (w1, out1) = eval_big(o, f, w, left)->0;
    let t1 = put(k.push(kx), w1, ectrl(out1));
    match out1 {
        EOut::Fail(err) => {
            lemma_fail_pop(o, k, kx, w1, err);
            lemma_step_then(o, t1, fin, 0, fin);
            lemma_then(o, s1, n1, t1, 1, fin);
            lemma_step_then(o, s, s1, n1 + 1, fin);
            n1 + 2
        },
        EOut::Val(l) => {
            let ky = KontV::BinRight { op, left: l };
            lemma_push_pop(k, ky);
            let s2 = put(k.push(ky), w1, CtrlV::Eval(right));
            assert(next(o, t1) == s2);
            let n2 = law_machine_evaluates_as_read(o, f, s2, right);
            let (w2, out2) = eval_big(o, f, w1, right)->0;
            let t2 = put(k.push(ky), w2, ectrl(out2));
            let tail: nat = match out2 {
                EOut::Fail(err) => {
                    lemma_fail_pop(o, k, ky, w2, err);
                    lemma_step_then(o, t2, fin, 0, fin);
                    1
                },
                EOut::Val(r) => {
                    let p = put(k, w2, CtrlV::Idle);
                    let b0 = binary(p, op, l, r).0;
                    assert(next(o, t2) == b0);
                    let m = lemma_binary_sim(o, p, op, l, r);
                    lemma_step_then(o, t2, b0, m, fin);
                    m + 1
                },
            };
            lemma_then(o, s2, n2, t2, tail, fin);
            lemma_step_then(o, t1, s2, n2 + tail, fin);
            lemma_then(o, s1, n1, t1, n2 + tail + 1, fin);
            lemma_step_then(o, s, s1, n1 + n2 + tail + 1, fin);
            n1 + n2 + tail + 2
        },
    }
}

proof fn lemma_assign_sim(o: spec_fn(NumQueryV) -> Answer, fuel: nat, s: State, name: Seq<char>, value: ExprV) -> (n: nat)
    requires
        s.ctrl == CtrlV::Eval(ExprV::Assign { name, value: Box::new(value) }),
        eval_big(o, fuel, world(s), ExprV::Assign { name, value: Box::new(value) }) is Some,
    ensures
        run(o, s, n) == eval_end(s.konts, eval_big(o, fuel, world(s), ExprV::Assign { name, value: Box::new(value) })->0),
    decreases fuel, 0nat,
{
    let k = s.konts;
    let w = world(s);
    let f = (fuel - 1) as nat;
    let fin = eval_end(k, eval_big(o, fuel, w, ExprV::Assign { name, value: Box::new(value) })->0);
    let kx = KontV::Assign { name };
    lemma_push_pop(k, kx);
    let s1 = put(k.push(kx), w, CtrlV::Eval(value));
    assert(next(o, s) == s1);
    let n1 = law_machine_evaluates_as_read(o, f, s1, value);
    let (w1, out1) = eval_big(o, f, w, value)->0;
    let t1 = put(k.push(kx), w1, ectrl(out1));
    match out1 {
        EOut::Fail(err) => lemma_fail_pop(o, k, kx, w1, err),
        EOut::Val(v) => assert(next(o, t1) == fin),
    }
    lemma_step_then(o, t1, fin, 0, fin);
    lemma_then(o, s1, n1, t1, 1, fin);
    lemma_step_then(o, s, s1, n1 + 1, fin);
    n1 + 2
}

proof fn lemma_array_sim(o: spec_fn(NumQueryV) -> Answer, fuel: nat, s: State, elems: Seq<ExprV>) -> (n: nat)
    requires
        s.ctrl == CtrlV::Eval(ExprV::Array(elems)),
        eval_big(o, fuel, world(s), ExprV::Array(elems)) is Some,
    ensures
        run(o, s, n) == eval_end(s.konts, eval_big(o, fuel, world(s), ExprV::Array(elems))->0),
    decreases fuel, 0nat,
{
    let k = s.konts;
    let w = world(s);
    let f = (fuel - 1) as nat;
    let fin = eval_end(k, eval_big(o, fuel, w, ExprV::Array(elems))->0);
    let a = w.arrays.len();
    let w0 = World { arrays: w.arrays.push(Seq::empty()), ..w };
    if elems.len() == 0 {
        assert(next(o, s) == fin);
        lemma_step_then(o, s, fin, 0, fin);
        1
    } else {
        let kx = KontV::ArrayElems { elems, next: 1, array: a };
        let s1 = put(k.push(kx), w0, CtrlV::Eval(elems[0]));
        assert(next(o, s) == s1);
        let n1 = lemma_elems_sim(o, f, s1, k, elems, 0, a);
        lemma_step_then(o, s, s1, n1, fin);
        n1 + 1
    }
}

/// The elements `elems[i..]` of array `a`, the first of them being evaluated.
proof fn lemma_elems_sim(
    o: spec_fn(NumQueryV) -> Answer,
    fuel: nat,
    s: State,
    k: Seq<KontV>,
    elems: Seq<ExprV>,
    i: nat,
    a: nat,
) -> (n: nat)
    requires
        i < elems.len(),
        s.ctrl == CtrlV::Eval(elems[i as int]),
        s.konts == k.push(KontV::ArrayElems { elems, next: i + 1, array: a }),
        elems_big(o, fuel, world(s), elems, i, a) is Some,
    ensures
        run(o, s, n) == elems_end(k, a, elems_big(o, fuel, world(s), elems, i, a)->0),
    decreases fuel, 1nat,
{
    let w = world(s);
    let f = (fuel - 1) as nat;
    let fin = elems_end(k, a, elems_big(o, fuel, w, elems, i, a)->0);
    let kx = KontV::ArrayElems { elems, next: i + 1, array: a };
    lemma_push_pop(k, kx);
    let n1 = law_machine_evaluates_as_read(o, f, s, elems[i as int]);
    let (w1, out1) = eval_big(o, f, w, elems[i as int])->0;
    let t1 = put(k.push(kx), w1, ectrl(out1));
    let tail: nat = match out1 {
        EOut::Fail(err) => {
            lemma_fail_pop(o, k, kx, w1, err);
            lemma_step_then(o, t1, fin, 0, fin);
            1
        },
        EOut::Val(v) => {
            let w2 = World { arrays: push_into(w1.arrays, a, v), ..w1 };
            if i + 1 < elems.len() {
                let ky = KontV::ArrayElems { elems, next: i + 2, array: a };
                let s2 = put(k.push(ky), w2, CtrlV::Eval(elems[i + 1int]));
                assert(next(o, t1) == s2);
                let n2 = lemma_elems_sim(o, f, s2, k, elems, i + 1, a);
                lemma_step_then(o, t1, s2, n2, fin);
                n2 + 1
            } else {
                assert(next(o, t1) == fin);
                lemma_step_then(o, t1, fin, 0, fin);
                1
            }
        },
    };
    lemma_then(o, s, n1, t1, tail, fin);
    n1 + tail
}

proof fn lemma_index_sim(o: spec_fn(NumQueryV) -> Answer, fuel: nat, s: State, array: ExprV, index: ExprV) -> (n: nat)
    requires
        s.ctrl == CtrlV::Eval(ExprV::Index { array: Box::new(array), index: Box::new(index) }),
        eval_big(o, fuel, world(s), ExprV::Index { array: Box::new(array), index: Box::new(index) }) is Some,
    ensures
        run(o, s, n) == eval_end(
            s.konts,
            eval_big(o, fuel, world(s), ExprV::Index { array: Box::new(array), index: Box::new(index) })->0,
        ),
    decreases fuel, 0nat,
{
    let k = s.konts;
    let w = world(s);
    let f = (fuel - 1) as nat;
    let fin = eval_end(k, eval_big(o, fuel, w, ExprV::Index { array: Box::new(array), index: Box::new(index) })->0);
    let kx = KontV::IndexArray { index };
    lemma_push_pop(k, kx);
    let s1 = put(k.push(kx), w, CtrlV::Eval(array));
    assert(next(o, s) == s1);
    let n1 = law_machine_evaluates_as_read(o, f, s1, array);
    let (w1, out1) = eval_big(o, f, w, array)->0;
    let t1 = put(k.push(kx), w1, ectrl(out1));
    match out1 {
        EOut::Fail(err) => {
            lemma_fail_pop(o, k, kx, w1, err);
            lemma_step_then(o, t1, fin, 0, fin);
            lemma_then(o, s1, n1, t1, 1, fin);
            lemma_step_then(o, s, s1, n1 + 1, fin);
            n1 + 2
        },
        EOut::Val(av) => {
            let ky = KontV::IndexValue { array: av };
            lemma_push_pop(k, ky);
            let s2 = put(k.push(ky), w1, CtrlV::Eval(index));
            assert(next(o, t1) == s2);
            let n2 = law_machine_evaluates_as_read(o, f, s2, index);
            let (w2, out2) = eval_big(o, f, w1, index)->0;
            let t2 = put(k.push(ky), w2, ectrl(out2));
            let tail: nat = match out2 {
                EOut::Fail(err) => {
                    lemma_fail_pop(o, k, ky, w2, err);
                    lemma_step_then(o, t2, fin, 0, fin);
                    1
                },
                EOut::Val(iv) => {
                    if av is Array && iv is Number {
                        let kz = KontV::IndexAt { array: av->Array_0 };
                        lemma_push_pop(k, kz);
                        let q = put(k.push(kz), w2, CtrlV::Awaiting(NumQueryV::ToIndex(iv->Number_0)));
                        assert(next(o, t2) == q);
                        assert(next(o, q) == fin);
                        lemma_step_then(o, q, fin, 0, fin);
                        lemma_step_then(o, t2, q, 1, fin);
                        2
                    } else {
                        assert(next(o, t2) == fin);
                        lemma_step_then(o, t2, fin, 0, fin);
                        1
                    }
                },
            };
            lemma_then(o, s2, n2, t2, tail, fin);
            lemma_step_then(o, t1, s2, n2 + tail, fin);
            lemma_then(o, s1, n1, t1, n2 + tail + 1, fin);
            lemma_step_then(o, s, s1, n1 + n2 + tail + 1, fin);
            n1 + n2 + tail + 2
        },
    }
}

proof fn lemma_push_sim(o: spec_fn(NumQueryV) -> Answer, fuel: nat, s: State, args: Seq<ExprV>) -> (n: nat)
    requires
        s.ctrl == CtrlV::Eval(ExprV::Call { callee: Box::new(ExprV::Identifier(push_name())), args }),
        eval_big(o, fuel, world(s), ExprV::Call { callee: Box::new(ExprV::Identifier(push_name())), args }) is Some,
    ensures
        run(o, s, n) == eval_end(
            s.konts,
            eval_big(o, fuel, world(s), ExprV::Call { callee: Box::new(ExprV::Identifier(push_name())), args })->0,
        ),
    decreases fuel, 0nat,
{
    let k = s.konts;
    let w = world(s);
    let f = (fuel - 1) as nat;
    let fin = eval_end(
        k,
        eval_big(o, fuel, w, ExprV::Call { callee: Box::new(ExprV::Identifier(push_name())), args })->0,
    );
    if args.len() != 2 {
        assert(next(o, s) == fin);
        lemma_step_then(o, s, fin, 0, fin);
        1
    } else {
        let kx = KontV::PushTarget { value: args[1] };
        lemma_push_pop(k, kx);
        let s1 = put(k.push(kx), w, CtrlV::Eval(args[0]));
        assert(next(o, s) == s1);
        let n1 = law_machine_evaluates_as_read(o, f, s1, args[0]);
        let (w1, out1) = eval_big(o, f, w, args[0])->0;
        let t1 = put(k.push(kx), w1, ectrl(out1));
        match out1 {
            EOut::Fail(err) => {
                lemma_fail_pop(o, k, kx, w1, err);
                lemma_step_then(o, t1, fin, 0, fin);
                lemma_then(o, s1, n1, t1, 1, fin);
                lemma_step_then(o, s, s1, n1 + 1, fin);
                n1 + 2
            },
            EOut::Val(t) => {
                let ky = KontV::PushValue { target: t };
                lemma_push_pop(k, ky);
                let s2 = put(k.push(ky), w1, CtrlV::Eval(args[1]));
                assert(next(o, t1) == s2);
                let n2 = law_machine_evaluates_as_read(o, f, s2, args[1]);
                let (w2, out2) = eval_big(o, f, w1, args[1])->0;
                let t2 = put(k.push(ky), w2, ectrl(out2));
                match out2 {
                    EOut::Fail(err) => lemma_fail_pop(o, k, ky, w2, err),
                    EOut::Val(v) => assert(next(o, t2) == fin),
                }
                lemma_step_then(o, t2, fin, 0, fin);
                lemma_then(o, s2, n2, t2, 1, fin);
                lemma_step_then(o, t1, s2, n2 + 1, fin);
                lemma_then(o, s1, n1, t1, n2 + 2, fin);
                lemma_step_then(o, s, s1, n1 + n2 + 2, fin);
                n1 + n2 + 3
            },
        }
    }
}

/// The machine about to run a function body in scope `frame`, the caller's
/// world being `w`.
pub open spec fn call_start(k: Seq<KontV>, w: World, body: Seq<StmtV>, frame: nat) -> State {
    put(
        k.push(KontV::Call { saved: w.env }).push(KontV::Block { stmts: body, next: 0 }),
        World { env: frame, ..w },
        CtrlV::Done,
    )
}

proof fn lemma_call_expr_sim(o: spec_fn(NumQueryV) -> Answer, fuel: nat, s: State, callee: ExprV, args: Seq<ExprV>) -> (n: nat)
    requires
        callee != ExprV::Identifier(push_name()),
        s.ctrl == CtrlV::Eval(ExprV::Call { callee: Box::new(callee), args }),
        eval_big(o, fuel, world(s), ExprV::Call { callee: Box::new(callee), args }) is Some,
    ensures
        run(o, s, n) == eval_end(s.konts, eval_big(o, fuel, world(s), ExprV::Call { callee: Box::new(callee), args })->0),
    decreases fuel, 0nat,
{
    let k = s.konts;
    let w = world(s);
    let f = (fuel - 1) as nat;
    let fin = eval_end(k, eval_big(o, fuel, w, ExprV::Call { callee: Box::new(callee), args })->0);
    let kx = KontV::Callee { args };
    lemma_push_pop(k, kx);
    let s1 = put(k.push(kx), w, CtrlV::Eval(callee));
    assert(next(o, s) == s1);
    let n1 = law_machine_evaluates_as_read(o, f, s1, callee);
    let (w1, out1) = eval_big(o, f, w, callee)->0;
    let t1 = put(k.push(kx), w1, ectrl(out1));
    let tail: nat = match out1 {
        EOut::Fail(err) => {
            lemma_fail_pop(o, k, kx, w1, err);
            lemma_step_then(o, t1, fin, 0, fin);
            1
        },
        EOut::Val(fv) => match fv {
            ValueV::Function { params, body, closure } => if args.len() != params.len() {
                assert(next(o, t1) == fin);
                lemma_step_then(o, t1, fin, 0, fin);
                1
            } else {
                let frame = w1.frames.len();
                let w2 = World { frames: env_new_frame(w1.frames, Some(closure)), ..w1 };
                if args.len() == 0 {
                    let tc = call_start(k, w2, body, frame);
                    assert(next(o, t1) == tc);
                    let m = lemma_call_sim(o, f, k, w2, body, frame);
                    lemma_step_then(o, t1, tc, m, fin);
                    m + 1
                } else {
                    let ky = KontV::Args { params, body, args, next: 1, frame };
                    let s2 = put(k.push(ky), w2, CtrlV::Eval(args[0]));
                    assert(next(o, t1) == s2);
                    let n2 = lemma_args_sim(o, f, s2, k, params, body, args, 0, frame);
                    let (w3, r3) = args_big(o, f, w2, params, args, 0, frame)->0;
                    match r3 {
                        None => {
                            let tc = call_start(k, w3, body, frame);
                            let m = lemma_call_sim(o, f, k, w3, body, frame);
                            lemma_then(o, s2, n2, tc, m, fin);
                            lemma_step_then(o, t1, s2, n2 + m, fin);
                            n2 + m + 1
                        },
                        Some(err) => {
                            lemma_step_then(o, t1, s2, n2, fin);
                            n2 + 1
                        },
                    }
                }
            },
            _ => {
                assert(next(o, t1) == fin);
                lemma_step_then(o, t1, fin, 0, fin);
                1
            },
        },
    };
    lemma_then(o, s1, n1, t1, tail, fin);
    lemma_step_then(o, s, s1, n1 + tail, fin);
    n1 + tail + 1
}

/// The arguments `args[i..]`, the first of them being evaluated.
proof fn lemma_args_sim(
    o: spec_fn(NumQueryV) -> Answer,
    fuel: nat,
    s: State,
    k: Seq<KontV>,
    params: Seq<Seq<char>>,
    body: Seq<StmtV>,
    args: Seq<ExprV>,
    i: nat,
    frame: nat,
) -> (n: nat)
    requires
        params.len() == args.len(),
        i < args.len(),
        s.ctrl == CtrlV::Eval(args[i as int]),
        s.konts == k.push(KontV::Args { params, body, args, next: i + 1, frame }),
        args_big(o, fuel, world(s), params, args, i, frame) is Some,
    ensures
        run(o, s, n) == args_end(k, body, frame, args_big(o, fuel, world(s), params, args, i, frame)->0),
    decreases fuel, 1nat,
{
    let w = world(s);
    let f = (fuel - 1) as nat;
    let fin = args_end(k, body, frame, args_big(o, fuel, w, params, args, i, frame)->0);
    let kx = KontV::Args { params, body, args, next: i + 1, frame };
    lemma_push_pop(k, kx);
    let n1 = law_machine_evaluates_as_read(o, f, s, args[i as int]);
    let (w1, out1) = eval_big(o, f, w, args[i as int])->0;
    let t1 = put(k.push(kx), w1, ectrl(out1));
    let tail: nat = match out1 {
        EOut::Fail(err) => {
            lemma_fail_pop(o, k, kx, w1, err);
            lemma_step_then(o, t1, fin, 0, fin);
            1
        },
        EOut::Val(v) => {
            let w2 = World { frames: env_set(w1.frames, frame as int, params[i as int], v), ..w1 };
            if i + 1 < args.len() {
                let ky = KontV::Args { params, body, args, next: i + 2, frame };
                let s2 = put(k.push(ky), w2, CtrlV::Eval(args[i + 1int]));
                assert(next(o, t1) == s2);
                let n2 = lemma_args_sim(o, f, s2, k, params, body, args, i + 1, frame);
                lemma_step_then(o, t1, s2, n2, fin);
                n2 + 1
            } else {
                assert(args_big(o, f, w2, params, args, i + 1, frame) == Some((w2, None::<RuntimeErrorV>)));
                assert(next(o, t1) == fin);
                lemma_step_then(o, t1, fin, 0, fin);
                1
            }
        },
    };
    lemma_then(o, s, n1, t1, tail, fin);
    n1 + tail
}

/// A function body: the caller's scope comes back however it ends.
proof fn lemma_call_sim(o: spec_fn(NumQueryV) -> Answer, fuel: nat, k: Seq<KontV>, w: World, body: Seq<StmtV>, frame: nat) -> (n: nat)
    requires
        call_big(o, fuel, w, body, frame) is Some,
    ensures
        run(o, call_start(k, w, body, frame), n) == eval_end(k, call_big(o, fuel, w, body, frame)->0),
    decreases fuel, 1nat,
{
    let f = (fuel - 1) as nat;
    let t = call_start(k, w, body, frame);
    let fin = eval_end(k, call_big(o, fuel, w, body, frame)->0);
    let kx = KontV::Call { saved: w.env };
    lemma_push_pop(k, kx);
    let n1 = lemma_block_sim(o, f, t, k.push(kx), body, 0);
    let (w1, out1) = block_big(o, f, World { env: frame, ..w }, body, 0)->0;
    let t1 = put(k.push(kx), w1, sctrl(out1));
    assert(next(o, t1) == fin);
    lemma_step_then(o, t1, fin, 0, fin);
    lemma_then(o, t, n1, t1, 1, fin);
    n1 + 1
}

/// The statements `stmts[i..]` of a block.
proof fn lemma_block_sim(
    o: spec_fn(NumQueryV) -> Answer,
    fuel: nat,
    s: State,
    k: Seq<KontV>,
    stmts: Seq<StmtV>,
    i: nat,
) -> (n: nat)
    requires
        s.ctrl == CtrlV::Done,
        s.konts == k.push(KontV::Block { stmts, next: i }),
        block_big(o, fuel, world(s), stmts, i) is Some,
    ensures
        run(o, s, n) == exec_end(k, block_big(o, fuel, world(s), stmts, i)->0),
    decreases fuel, 1nat,
{
    let w = world(s);
    let f = (fuel - 1) as nat;
    let fin = exec_end(k, block_big(o, fuel, w, stmts, i)->0);
    lemma_push_pop(k, KontV::Block { stmts, next: i });
    if i >= stmts.len() {
        assert(next(o, s) == fin);
        lemma_step_then(o, s, fin, 0, fin);
        1
    } else {
        let kx = KontV::Block { stmts, next: i + 1 };
        lemma_push_pop(k, kx);
        let s1 = put(k.push(kx), w, CtrlV::Exec(stmts[i as int]));
        assert(next(o, s) == s1);
        let n1 = law_machine_executes_as_read(o, f, s1, stmts[i as int]);
        let (w1, out1) = exec_big(o, f, w, stmts[i as int])->0;
        let t1 = put(k.push(kx), w1, sctrl(out1));
        let tail: nat = match out1 {
            SOut::Normal => lemma_block_sim(o, f, t1, k, stmts, i + 1),
            SOut::Ret(v) => {
                assert(next(o, t1) == fin);
                lemma_step_then(o, t1, fin, 0, fin);
                1
            },
            SOut::Fail(err) => {
                lemma_fail_pop(o, k, kx, w1, err);
                lemma_step_then(o, t1, fin, 0, fin);
                1
            },
        };
        lemma_then(o, s1, n1, t1, tail, fin);
        lemma_step_then(o, s, s1, n1 + tail, fin);
        n1 + tail + 1
    }
}

/// The block of an `if` branch, in its own scope.
proof fn lemma_scope_sim(o: spec_fn(NumQueryV) -> Answer, fuel: nat, k: Seq<KontV>, w: World, stmts: Seq<StmtV>) -> (n: nat)
    requires
        scope_big(o, fuel, w, stmts) is Some,
    ensures
        run(o, enter_scope(put(k, w, CtrlV::Idle), KontV::IfBody { saved: w.env }, stmts).0, n) == exec_end(
            k,
            scope_big(o, fuel, w, stmts)->0,
        ),
    decreases fuel, 1nat,
{
    let f = (fuel - 1) as nat;
    let kx = KontV::IfBody { saved: w.env };
    let t = enter_scope(put(k, w, CtrlV::Idle), kx, stmts).0;
    let fin = exec_end(k, scope_big(o, fuel, w, stmts)->0);
    let w0 = World { frames: env_new_frame(w.frames, Some(w.env)), env: w.frames.len(), ..w };
    lemma_push_pop(k, kx);
    assert(t == put(k.push(kx).push(KontV::Block { stmts, next: 0 }), w0, CtrlV::Done));
    let n1 = lemma_block_sim(o, f, t, k.push(kx), stmts, 0);
    let (w1, out1) = block_big(o, f, w0, stmts, 0)->0;
    let t1 = put(k.push(kx), w1, sctrl(out1));
    lemma_push_pop(k, kx);
    assert(next(o, t1) == fin);
    lemma_step_then(o, t1, fin, 0, fin);
    lemma_then(o, t, n1, t1, 1, fin);
    n1 + 1
}

/// A `while` loop, its condition being evaluated.
proof fn lemma_while_sim(
    o: spec_fn(NumQueryV) -> Answer,
    fuel: nat,
    s: State,
    k: Seq<KontV>,
    cond: ExprV,
    body: Seq<StmtV>,
) -> (n: nat)
    requires
        s.ctrl == CtrlV::Eval(cond),
        s.konts == k.push(KontV::Test(TruthUseV::Loop { condition: cond, body })),
        while_big(o, fuel, world(s), cond, body) is Some,
    ensures
        run(o, s, n) == exec_end(k, while_big(o, fuel, world(s), cond, body)->0),
    decreases fuel, 1nat,
{
    let w = world(s);
    let f = (fuel - 1) as nat;
    let fin = exec_end(k, while_big(o, fuel, w, cond, body)->0);
    let kx = KontV::Test(TruthUseV::Loop { condition: cond, body });
    lemma_push_pop(k, kx);
    let n1 = law_machine_evaluates_as_read(o, f, s, cond);
    let (w1, out1) = eval_big(o, f, w, cond)->0;
    let t1 = put(k.push(kx), w1, ectrl(out1));
    let tail: nat = match out1 {
        EOut::Fail(err) => {
            lemma_fail_pop(o, k, kx, w1, err);
            lemma_step_then(o, t1, fin, 0, fin);
            1
        },
        EOut::Val(v) => {
            let p = put(k, w1, CtrlV::Idle);
            let u = TruthUseV::Loop { condition: cond, body };
            let b0 = test_truth(p, v, u).0;
            assert(next(o, t1) == b0);
            let m = lemma_truth_sim(o, p, v, u);
            let d = decide(p, truth_big(o, v)->0, u).0;
            let rest: nat = if truth_big(o, v)->0 {
                let g = (f - 1) as nat;
                let ky = KontV::WhileBody { condition: cond, body, saved: w1.env };
                lemma_push_pop(k, ky);
                let w0 = World { frames: env_new_frame(w1.frames, Some(w1.env)), env: w1.frames.len(), ..w1 };
                assert(d == put(k.push(ky).push(KontV::Block { stmts: body, next: 0 }), w0, CtrlV::Done));
                assert(scope_big(o, f, w1, body) is Some);
                assert(block_big(o, g, w0, body, 0) is Some);
                assert(world(d) == w0);
                let n2 = lemma_block_sim(o, g, d, k.push(ky), body, 0);
                let (wb, outb) = block_big(o, g, w0, body, 0)->0;
                let t2 = put(k.push(ky), wb, sctrl(outb));
                let last: nat = match outb {
                    SOut::Normal => {
                        let w2 = World { env: w1.env, ..wb };
                        let s3 = put(k.push(kx), w2, CtrlV::Eval(cond));
                        assert(scope_big(o, f, w1, body) == Some((w2, SOut::Normal)));
                        assert(while_big(o, fuel, w, cond, body) == while_big(o, f, w2, cond, body));
                        assert(world(s3) == w2);
                        assert(next(o, t2) == s3);
                        let n3 = lemma_while_sim(o, f, s3, k, cond, body);
                        lemma_step_then(o, t2, s3, n3, fin);
                        n3 + 1
                    },
                    SOut::Ret(rv) => {
                        assert(next(o, t2) == fin);
                        lemma_step_then(o, t2, fin, 0, fin);
                        1
                    },
                    SOut::Fail(err) => {
                        assert(next(o, t2) == fin);
                        lemma_step_then(o, t2, fin, 0, fin);
                        1
                    },
                };
                lemma_then(o, d, n2, t2, last, fin);
                n2 + last
            } else {
                assert(d == fin);
                0
            };
            lemma_then(o, b0, m, d, rest, fin);
            lemma_step_then(o, t1, b0, m + rest, fin);
            m + rest + 1
        },
    };
    lemma_then(o, s, n1, t1, tail, fin);
    n1 + tail
}

/// Law: running a statement: from `Exec(st)` the machine reaches, above the same
/// continuations, the ending that the recursive reading gives, in the same
/// world.
pub proof fn law_machine_executes_as_read(o: spec_fn(NumQueryV) -> Answer, fuel: nat, s: State, st: StmtV) -> (n: nat)
    requires
        s.ctrl == CtrlV::Exec(st),
        exec_big(o, fuel, world(s), st) is Some,
    ensures
        run(o, s, n) == exec_end(s.konts, exec_big(o, fuel, world(s), st)->0),
    decreases fuel, 1nat,
{
    let k = s.konts;
    let w = world(s);
    let f = (fuel - 1) as nat;
    let fin = exec_end(k, exec_big(o, fuel, w, st)->0);
    assert(s == put(k, w, CtrlV::Exec(st)));
    match st {
        StmtV::If { condition, then_block, else_block } => lemma_if_sim(o, fuel, s, condition, then_block, else_block),
        StmtV::While { condition, body } => {
            let kx = KontV::Test(TruthUseV::Loop { condition, body });
            let s1 = put(k.push(kx), w, CtrlV::Eval(condition));
            assert(next(o, s) == s1);
            let n1 = lemma_while_sim(o, f, s1, k, condition, body);
            lemma_step_then(o, s, s1, n1, fin);
            n1 + 1
        },
        StmtV::Fn { name, params, body } => {
            assert(next(o, s) == fin);
            lemma_step_then(o, s, fin, 0, fin);
            1
        },
        _ => lemma_simple_stmt_sim(o, fuel, s, st),
    }
}

/// A statement that evaluates one expression and then acts on its value:
/// `let`, `print`, an expression statement, `return`.
proof fn lemma_simple_stmt_sim(o: spec_fn(NumQueryV) -> Answer, fuel: nat, s: State, st: StmtV) -> (n: nat)
    requires
        st is Let || st is Print || st is Expression || st is Return,
        s.ctrl == CtrlV::Exec(st),
        exec_big(o, fuel, world(s), st) is Some,
    ensures
        run(o, s, n) == exec_end(s.konts, exec_big(o, fuel, world(s), st)->0),
    decreases fuel, 0nat,
{
    let k = s.konts;
    let w = world(s);
    let f = (fuel - 1) as nat;
    let fin = exec_end(k, exec_big(o, fuel, w, st)->0);
    let (kx, e) = match st {
        StmtV::Let { name, value } => (KontV::Let { name }, value),
        StmtV::Print(e) => (KontV::Print, e),
        StmtV::Expression(e) => (KontV::ExprStmt, e),
        StmtV::Return(e) => (KontV::Return, e),
        _ => (KontV::Print, ExprV::Null),
    };
    lemma_push_pop(k, kx);
    let s1 = put(k.push(kx), w, CtrlV::Eval(e));
    assert(next(o, s) == s1);
    let n1 = law_machine_evaluates_as_read(o, f, s1, e);
    let (w1, out1) = eval_big(o, f, w, e)->0;
    let t1 = put(k.push(kx), w1, ectrl(out1));
    match out1 {
        EOut::Fail(err) => lemma_fail_pop(o, k, kx, w1, err),
        EOut::Val(v) => assert(next(o, t1) == fin),
    }
    lemma_step_then(o, t1, fin, 0, fin);
    lemma_then(o, s1, n1, t1, 1, fin);
    lemma_step_then(o, s, s1, n1 + 1, fin);
    n1 + 2
}

proof fn lemma_if_sim(
    o: spec_fn(NumQueryV) -> Answer,
    fuel: nat,
    s: State,
    cond: ExprV,
    then_block: Seq<StmtV>,
    else_block: Option<Seq<StmtV>>,
) -> (n: nat)
    requires
        s.ctrl == CtrlV::Exec(StmtV::If { condition: cond, then_block, else_block }),
        exec_big(o, fuel, world(s), StmtV::If { condition: cond, then_block, else_block }) is Some,
    ensures
        run(o, s, n) == exec_end(
            s.konts,
            exec_big(o, fuel, world(s), StmtV::If { condition: cond, then_block, else_block })->0,
        ),
    decreases fuel, 0nat,
{
    let k = s.konts;
    let w = world(s);
    let f = (fuel - 1) as nat;
    let fin = exec_end(k, exec_big(o, fuel, w, StmtV::If { condition: cond, then_block, else_block })->0);
    let u = TruthUseV::Branch { then_block, else_block };
    let kx = KontV::Test(u);
    lemma_push_pop(k, kx);
    let s1 = put(k.push(kx), w, CtrlV::Eval(cond));
    assert(next(o, s) == s1);
    let n1 = law_machine_evaluates_as_read(o, f, s1, cond);
    let (w1, out1) = eval_big(o, f, w, cond)->0;
    let t1 = put(k.push(kx), w1, ectrl(out1));
    let tail: nat = match out1 {
        EOut::Fail(err) => {
            lemma_fail_pop(o, k, kx, w1, err);
            lemma_step_then(o, t1, fin, 0, fin);
            1
        },
        EOut::Val(v) => {
            let p = put(k, w1, CtrlV::Idle);
            let b0 = test_truth(p, v, u).0;
            assert(next(o, t1) == b0);
            let m = lemma_truth_sim(o, p, v, u);
            let d = decide(p, truth_big(o, v)->0, u).0;
            let rest: nat = if truth_big(o, v)->0 {
                lemma_scope_sim(o, f, k, w1, then_block)
            } else {
                match else_block {
                    Some(b) => lemma_scope_sim(o, f, k, w1, b),
                    None => {
                        assert(d == fin);
                        0
                    },
                }
            };
            lemma_then(o, b0, m, d, rest, fin);
            lemma_step_then(o, t1, b0, m + rest, fin);
            m + rest + 1
        },
    };
    lemma_then(o, s1, n1, t1, tail, fin);
    lemma_step_then(o, s, s1, n1 + tail, fin);
    n1 + tail + 1
}

/// The last step of a program: the machine stops, idle, in world `r.0`, with
/// the program's result `r.1`.
pub open spec fn program_end(r: (World, Result<(), RuntimeErrorV>)) -> (State, StepV) {
    (put(Seq::empty(), r.0, CtrlV::Idle), StepV::Finished(r.1))
}

/// The top-level statements `stmts[i..]`, the previous one just done.
proof fn lemma_program_sim(
    o: spec_fn(NumQueryV) -> Answer,
    fuel: nat,
    s: State,
    k: Seq<KontV>,
    stmts: Seq<StmtV>,
    i: nat,
) -> (n: nat)
    requires
        s.ctrl is Done || s.ctrl is Returning,
        s.konts == k.push(KontV::Program { stmts, next: i }),
        program_big(o, fuel, world(s), stmts, i) is Some,
    ensures
        step_spec(run(o, s, n), None) == program_end(program_big(o, fuel, world(s), stmts, i)->0),
        run(o, s, n).ctrl is Done || run(o, s, n).ctrl is Returning || run(o, s, n).ctrl is Failed,
    decreases fuel,
{
    let w = world(s);
    let f = (fuel - 1) as nat;
    lemma_push_pop(k, KontV::Program { stmts, next: i });
    if i >= stmts.len() {
        0
    } else {
        let kx = KontV::Program { stmts, next: i + 1 };
        lemma_push_pop(k, kx);
        let s1 = put(k.push(kx), w, CtrlV::Exec(stmts[i as int]));
        assert(next(o, s) == s1);
        let n1 = law_machine_executes_as_read(o, f, s1, stmts[i as int]);
        let (w1, out1) = exec_big(o, f, w, stmts[i as int])->0;
        let t1 = put(k.push(kx), w1, sctrl(out1));
        match out1 {
            SOut::Fail(err) => {
                lemma_step_then(o, s, s1, n1, t1);
                n1 + 1
            },
            _ => {
                let n2 = lemma_program_sim(o, f, t1, k, stmts, i + 1);
                let x = run(o, t1, n2);
                lemma_then(o, s1, n1, t1, n2, x);
                lemma_step_then(o, s, s1, n1 + n2, x);
                n1 + n2 + 1
            },
        }
    }
}

/// Law (the machine is the interpreter): whenever the recursive reading of a
/// program gives an outcome, the machine started on that program reaches it:
/// after some steps, with the driver answering as `o` does, its next step
/// stops with the same result, and leaves the same scopes, arrays, current
/// scope and printed lines.
pub proof fn law_machine_runs_programs_as_read(
    o: spec_fn(NumQueryV) -> Answer,
    fuel: nat,
    s: State,
    stmts: Seq<StmtV>,
) -> (n: nat)
    requires
        program_big(o, fuel, world(s), stmts, 0) is Some,
    ensures
        step_spec(run(o, State { ctrl: CtrlV::Done, konts: seq![KontV::Program { stmts, next: 0 }], ..s }, n), None)
            == program_end(program_big(o, fuel, world(s), stmts, 0)->0),
        ({
            let t = run(o, State { ctrl: CtrlV::Done, konts: seq![KontV::Program { stmts, next: 0 }], ..s }, n);
            t.ctrl is Done || t.ctrl is Returning || t.ctrl is Failed
        }),
{
    let t = State { ctrl: CtrlV::Done, konts: seq![KontV::Program { stmts, next: 0 }], ..s };
    assert(t.konts == Seq::<KontV>::empty().push(KontV::Program { stmts, next: 0 }));
    assert(world(t) == world(s));
    lemma_program_sim(o, fuel, t, Seq::empty(), stmts, 0)
}

/// Law: after the output is cleared (scopes and arrays kept) and a program is
/// started and runs to its end without an error, the output, which
/// `take_output` then hands over, holds exactly the lines the program
/// printed, in order, as its recursive reading prints them from an empty
/// output.
pub proof fn law_cleared_output_is_the_runs_prints(
    o: spec_fn(NumQueryV) -> Answer,
    fuel: nat,
    s: State,
    stmts: Seq<StmtV>,
) -> (n: nat)
    requires
        program_big(o, fuel, World { output: Seq::empty(), ..world(s) }, stmts, 0) matches Some(x) && x.1 is Ok,
    ensures
        ({
            let r = program_big(o, fuel, World { output: Seq::empty(), ..world(s) }, stmts, 0)->0;
            let cleared = State { output: Seq::empty(), ..s };
            let t = State { ctrl: CtrlV::Done, konts: seq![KontV::Program { stmts, next: 0 }], ..cleared };
            let last = step_spec(run(o, t, n), None);
            &&& last.1 == StepV::Finished(Ok(()))
            &&& last.0.output == r.0.output
            &&& last.0.frames == r.0.frames
        }),
{
    let cleared = State { output: Seq::empty(), ..s };
    assert(world(cleared) == World { output: Seq::empty(), ..world(s) });
    law_machine_runs_programs_as_read(o, fuel, cleared, stmts)
}

// ---------------------------------------------------------------------------
// A step reports the end of a run exactly when it leaves the machine idle
// ---------------------------------------------------------------------------

/// A step's report agrees with the state it leaves: `Finished` exactly when
/// the machine is idle.
pub open spec fn settled(r: (State, StepV)) -> bool {
    r.1 is Finished <==> r.0.ctrl is Idle
}

proof fn lemma_truth_settled(s: State, v: ValueV, u: TruthUseV)
    ensures
        settled(test_truth(s, v, u)),
    decreases use_rank(u), 1nat,
{
    if let Some(t) = truth_of(v) {
        lemma_decide_settled(s, t, u);
    }
}

proof fn lemma_decide_settled(s: State, t: bool, u: TruthUseV)
    ensures
        settled(decide(s, t, u)),
    decreases use_rank(u), 0nat,
{
    match u {
        TruthUseV::AndLeft { right } => lemma_truth_settled(s, right, TruthUseV::AndRight),
        TruthUseV::OrLeft { right } => lemma_truth_settled(s, right, TruthUseV::OrRight),
        _ => {},
    }
}

proof fn lemma_give_value_settled(s: State, v: ValueV)
    ensures
        settled(give_value(s, v)),
{
    if s.konts.len() > 0 {
        let p = pop(s);
        match s.konts.last() {
            KontV::Test(u) => lemma_truth_settled(p, v, u),
            KontV::BinRight { op, left } => {
                if op == BinaryOp::And {
                    lemma_truth_settled(p, left, TruthUseV::AndLeft { right: v });
                } else if op == BinaryOp::Or {
                    lemma_truth_settled(p, left, TruthUseV::OrLeft { right: v });
                }
            },
            _ => {},
        }
    }
}

proof fn lemma_give_answer_settled(s: State, q: NumQueryV, a: Answer)
    ensures
        settled(give_answer(s, q, a)),
{
    if s.konts.len() > 0 {
        if let KontV::Decide(u) = s.konts.last() {
            if let Answer::Truth(z) = a {
                lemma_decide_settled(pop(s), !z, u);
            }
        }
    }
}

/// Law: a step reports `Finished` exactly when it leaves the machine idle.
pub proof fn law_finished_iff_idle(s: State, a: Option<Answer>)
    ensures
        settled(step_spec(s, a)),
{
    let s0 = State { ctrl: CtrlV::Idle, ..s };
    match s.ctrl {
        CtrlV::Value(v) => lemma_give_value_settled(s0, v),
        CtrlV::Awaiting(q) => {
            if let Some(x) = a {
                lemma_give_answer_settled(s0, q, x);
            }
        },
        _ => {},
    }
}

/// An idle machine stays as it is.
proof fn lemma_idle_stays(o: spec_fn(NumQueryV) -> Answer, s: State, n: nat)
    requires
        s.ctrl is Idle,
    ensures
        run(o, s, n) == s,
    decreases n,
{
    if n > 0 {
        lemma_idle_stays(o, next(o, s), (n - 1) as nat);
    }
}

// ---------------------------------------------------------------------------
// Sessions: each line gives what its recursive reading gives
// ---------------------------------------------------------------------------

/// The session after `n` steps, the driver answering as `o` does.
pub open spec fn session_run(o: spec_fn(NumQueryV) -> Answer, ss: SessionV, n: nat) -> SessionV
    decreases n,
{
    if n == 0 {
        ss
    } else {
        session_run(o, session_step(ss, answer_for(o, ss.interp)).0, (n - 1) as nat)
    }
}

/// While a line runs, the session steps its machine, until the machine stops.
proof fn lemma_session_follows(o: spec_fn(NumQueryV) -> Answer, ss: SessionV, n: nat)
    requires
        ss.active,
        !(run(o, ss.interp, n).ctrl is Idle),
    ensures
        session_run(o, ss, n) == (SessionV { interp: run(o, ss.interp, n), ..ss }),
    decreases n,
{
    if n > 0 {
        let st = next(o, ss.interp);
        if st.ctrl is Idle {
            lemma_idle_stays(o, st, (n - 1) as nat);
        }
        law_finished_iff_idle(ss.interp, answer_for(o, ss.interp));
        let ss1 = SessionV { interp: st, ..ss };
        assert(session_step(ss, answer_for(o, ss.interp)).0 == ss1);
        lemma_session_follows(o, ss1, (n - 1) as nat);
    }
}

/// What a session records for a line whose program the recursive reading
/// runs to `r`: what it printed, and the error that stopped it if one did.
pub open spec fn line_result(r: (World, Result<(), RuntimeErrorV>)) -> LineResultV {
    match r.1 {
        Ok(()) => LineResultV::Printed(r.0.output),
        Err(e) => LineResultV::Runtime { printed: r.0.output, error: e },
    }
}

/// Taking up a line that compiles: its program starts, from an empty output.
proof fn lemma_session_takes_line(o: spec_fn(NumQueryV) -> Answer, ss: SessionV, stmts: Seq<StmtV>)
    requires
        !ss.active,
        ss.next < ss.lines.len(),
        compile_spec(ss.lines[ss.next as int]) == Ok::<Seq<StmtV>, LineErrorV>(stmts),
    ensures
        session_run(o, ss, 1) == (SessionV {
            interp: State {
                ctrl: CtrlV::Done,
                konts: seq![KontV::Program { stmts, next: 0 }],
                ..State { output: Seq::empty(), ..ss.interp }
            },
            active: true,
            next: ss.next + 1,
            ..ss
        }),
{
    let x = session_step(ss, answer_for(o, ss.interp)).0;
    assert(session_run(o, ss, 1) == session_run(o, x, 0));
}

/// The last step of a line's program: the session records its result.
proof fn lemma_session_ends_line(o: spec_fn(NumQueryV) -> Answer, ss: SessionV, r: (World, Result<(), RuntimeErrorV>))
    requires
        ss.active,
        !(ss.interp.ctrl is Awaiting),
        step_spec(ss.interp, None) == program_end(r),
    ensures
        session_run(o, ss, 1) == (SessionV {
            interp: put(Seq::empty(), World { output: Seq::empty(), ..r.0 }, CtrlV::Idle),
            results: ss.results.push(line_result(r)),
            active: false,
            ..ss
        }),
{
    assert(answer_for(o, ss.interp) == None::<Answer>);
    let x = session_step(ss, None).0;
    assert(session_run(o, ss, 1) == session_run(o, x, 0));
}

/// Law (what the playground shows): when the session takes up its next line
/// and the recursive reading of that line's program gives an outcome, the
/// session, driven by `o`, records for the line exactly what that reading
/// printed (from an empty output), with the error that stopped it if one did,
/// and goes on with the next line, idle, with the scopes and arrays that the
/// reading left.
pub proof fn law_session_line_as_read(
    o: spec_fn(NumQueryV) -> Answer,
    fuel: nat,
    ss: SessionV,
    stmts: Seq<StmtV>,
) -> (n: nat)
    requires
        !ss.active,
        ss.next < ss.lines.len(),
        compile_spec(ss.lines[ss.next as int]) == Ok::<Seq<StmtV>, LineErrorV>(stmts),
        program_big(o, fuel, World { output: Seq::empty(), ..world(ss.interp) }, stmts, 0) is Some,
    ensures
        ({
            let r = program_big(o, fuel, World { output: Seq::empty(), ..world(ss.interp) }, stmts, 0)->0;
            let after = session_run(o, ss, n);
            &&& after.results == ss.results.push(line_result(r))
            &&& after.next == ss.next + 1
            &&& !after.active
            &&& after.lines == ss.lines
            &&& after.interp.frames == r.0.frames
            &&& after.interp.arrays == r.0.arrays
            &&& after.interp.env == r.0.env
            &&& after.interp.ctrl is Idle
        }),
{
    let s0 = State { output: Seq::empty(), ..ss.interp };
    let t0 = State { ctrl: CtrlV::Done, konts: seq![KontV::Program { stmts, next: 0 }], ..s0 };
    assert(world(s0) == World { output: Seq::empty(), ..world(ss.interp) });
    let r = program_big(o, fuel, world(s0), stmts, 0)->0;
    let ss1 = SessionV { interp: t0, active: true, next: ss.next + 1, ..ss };
    lemma_session_takes_line(o, ss, stmts);
    let m = law_machine_runs_programs_as_read(o, fuel, s0, stmts);
    let t = run(o, t0, m);
    lemma_session_follows(o, ss1, m);
    let ssm = SessionV { interp: t, ..ss1 };
    lemma_session_ends_line(o, ssm, r);
    lemma_session_run_add(o, ss1, m, 1);
    lemma_session_run_add(o, ss, 1, m + 1);
    m + 2
}

proof fn lemma_session_run_add(o: spec_fn(NumQueryV) -> Answer, ss: SessionV, a: nat, b: nat)
    ensures
        session_run(o, ss, a + b) == session_run(o, session_run(o, ss, a), b),
    decreases a,
{
    if a > 0 {
        lemma_session_run_add(o, session_step(ss, answer_for(o, ss.interp)).0, (a - 1) as nat, b);
        assert((a + b - 1) as nat == (a - 1) as nat + b);
    }
}

} // verus!
