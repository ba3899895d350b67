//! What every step of the interpreter keeps: no reference to a scope or an
//! array dangles, every scope's parent was made before it, and no scope binds
//! a name twice.
use vstd::prelude::*;
use crate::ast::{BinaryOp, ExprV, StmtV};
use crate::environment::{
    env_assign, env_get, env_new_frame, env_set, find, frame_set, law_frame_set_unique, lemma_find_from,
    unique_names, FrameV,
};
use crate::interpreter::{
    binary, decide, enter_call, enter_scope, eval_expr, exec_stmt, give_answer, give_done, give_failure, give_return,
    give_value, go, pop, push, push_into, step_spec, test_truth, use_rank, Answer, CtrlV, KontV, NumQueryV, RuntimeErrorV, State,
    closed, Interpreter, TruthUseV,
};
use crate::session::{compile_spec, session_step, SessionV};
use crate::value::{truth_of, ValueV};

verus! {

/// A value refers only to existing scopes (of `nf`) and arrays (of `na`).
pub open spec fn value_ok(v: ValueV, nf: nat, na: nat) -> bool {
    match v {
        ValueV::Function { closure, .. } => closure < nf,
        ValueV::Array(a) => a < na,
        _ => true,
    }
}

pub open spec fn frame_ok(f: FrameV, i: int, nf: nat, na: nat) -> bool {
    &&& (f.parent matches Some(p) ==> p < i)
    &&& unique_names(f.binds)
    &&& forall|j: int| 0 <= j < f.binds.len() ==> value_ok(#[trigger] f.binds[j].1, nf, na)
}

pub open spec fn frames_ok(frames: Seq<FrameV>, na: nat) -> bool {
    forall|i: int| 0 <= i < frames.len() ==> frame_ok(#[trigger] frames[i], i, frames.len(), na)
}

pub open spec fn arrays_ok(arrays: Seq<Seq<ValueV>>, nf: nat) -> bool {
    forall|i: int, j: int|
        0 <= i < arrays.len() && 0 <= j < arrays[i].len() ==> value_ok(#[trigger] arrays[i][j], nf, arrays.len())
}

pub open spec fn use_ok(u: TruthUseV, nf: nat, na: nat) -> bool {
    match u {
        TruthUseV::AndLeft { right } => value_ok(right, nf, na),
        TruthUseV::OrLeft { right } => value_ok(right, nf, na),
        _ => true,
    }
}

pub open spec fn kont_ok(k: KontV, nf: nat, na: nat) -> bool {
    match k {
        KontV::IfBody { saved } => saved < nf,
        KontV::WhileBody { saved, .. } => saved < nf,
        KontV::Call { saved } => saved < nf,
        KontV::Test(u) => use_ok(u, nf, na),
        KontV::Decide(u) => use_ok(u, nf, na),
        KontV::BinRight { left, .. } => value_ok(left, nf, na),
        KontV::ArrayElems { array, .. } => array < na,
        KontV::IndexValue { array } => value_ok(array, nf, na),
        KontV::IndexAt { array } => array < na,
        KontV::Args { frame, .. } => frame < nf,
        KontV::PushValue { target } => value_ok(target, nf, na),
        _ => true,
    }
}

pub open spec fn ctrl_ok(c: CtrlV, nf: nat, na: nat) -> bool {
    match c {
        CtrlV::Value(v) => value_ok(v, nf, na),
        CtrlV::Returning(v) => value_ok(v, nf, na),
        _ => true,
    }
}

/// The invariant of the interpreter.
pub open spec fn state_ok(s: State) -> bool {
    let nf = s.frames.len();
    let na = s.arrays.len();
    &&& s.env < nf
    &&& frames_ok(s.frames, na)
    &&& arrays_ok(s.arrays, nf)
    &&& ctrl_ok(s.ctrl, nf, na)
    &&& konts_ok(s.konts, nf, na)
}

pub open spec fn konts_ok(ks: Seq<KontV>, nf: nat, na: nat) -> bool {
    forall|i: int| 0 <= i < ks.len() ==> kont_ok(#[trigger] ks[i], nf, na)
}

// --- Growth keeps everything valid ---

pub proof fn lemma_konts_grow(ks: Seq<KontV>, nf: nat, na: nat, nf2: nat, na2: nat)
    requires
        konts_ok(ks, nf, na),
        nf <= nf2,
        na <= na2,
    ensures
        konts_ok(ks, nf2, na2),
{
    assert forall|i: int| 0 <= i < ks.len() implies kont_ok(#[trigger] ks[i], nf2, na2) by {
        assert(kont_ok(ks[i], nf, na));
    }
}

pub proof fn lemma_konts_push(ks: Seq<KontV>, k: KontV, nf: nat, na: nat)
    requires
        konts_ok(ks, nf, na),
        kont_ok(k, nf, na),
    ensures
        konts_ok(ks.push(k), nf, na),
{
    assert forall|i: int| 0 <= i < ks.push(k).len() implies kont_ok(#[trigger] ks.push(k)[i], nf, na) by {
        if i < ks.len() {
            assert(ks.push(k)[i] == ks[i]);
        }
    }
}

pub proof fn lemma_konts_pop(ks: Seq<KontV>, nf: nat, na: nat)
    requires
        konts_ok(ks, nf, na),
        ks.len() > 0,
    ensures
        konts_ok(ks.drop_last(), nf, na),
        kont_ok(ks.last(), nf, na),
{
    assert forall|i: int| 0 <= i < ks.drop_last().len() implies kont_ok(#[trigger] ks.drop_last()[i], nf, na) by {
        assert(ks.drop_last()[i] == ks[i]);
    }
}

pub proof fn lemma_frames_grow(frames: Seq<FrameV>, na: nat, na2: nat)
    requires
        frames_ok(frames, na),
        na <= na2,
    ensures
        frames_ok(frames, na2),
{
    assert forall|i: int| 0 <= i < frames.len() implies frame_ok(#[trigger] frames[i], i, frames.len(), na2) by {
        assert(frame_ok(frames[i], i, frames.len(), na));
    }
}

pub proof fn lemma_arrays_grow(arrays: Seq<Seq<ValueV>>, nf: nat, nf2: nat)
    requires
        arrays_ok(arrays, nf),
        nf <= nf2,
    ensures
        arrays_ok(arrays, nf2),
{
}

/// A lookup gives a valid value.
pub proof fn lemma_env_get_ok(frames: Seq<FrameV>, na: nat, id: int, name: Seq<char>)
    requires
        frames_ok(frames, na),
    ensures
        env_get(frames, id, name) matches Some(v) ==> value_ok(v, frames.len(), na),
    decreases id,
{
    if 0 <= id < frames.len() {
        assert(frame_ok(frames[id], id, frames.len(), na));
        lemma_find_from(frames[id].binds, name, 0);
        match frames[id].parent {
            Some(p) => if p < id {
                lemma_env_get_ok(frames, na, p as int, name);
            },
            None => {},
        }
    }
}

/// Binding a valid value keeps the scopes valid.
pub proof fn lemma_env_set_ok(frames: Seq<FrameV>, na: nat, id: int, name: Seq<char>, v: ValueV)
    requires
        frames_ok(frames, na),
        value_ok(v, frames.len(), na),
    ensures
        frames_ok(env_set(frames, id, name, v), na),
        env_set(frames, id, name, v).len() == frames.len(),
{
    if 0 <= id < frames.len() {
        let f = frames[id];
        let g = frame_set(f, name, v);
        assert(frame_ok(f, id, frames.len(), na));
        law_frame_set_unique(f, name, v);
        lemma_find_from(f.binds, name, 0);
        assert forall|j: int| 0 <= j < g.binds.len() implies value_ok(#[trigger] g.binds[j].1, frames.len(), na) by {
            match find(f.binds, name) {
                Some(k) => {
                    if j != k {
                        assert(g.binds[j] == f.binds[j]);
                    }
                },
                None => {
                    if j < f.binds.len() {
                        assert(g.binds[j] == f.binds[j]);
                    }
                },
            }
        }
        let r = env_set(frames, id, name, v);
        assert forall|i: int| 0 <= i < r.len() implies frame_ok(#[trigger] r[i], i, r.len(), na) by {
            if i != id {
                assert(frame_ok(frames[i], i, frames.len(), na));
            }
        }
    }
}

/// Assigning a valid value keeps the scopes valid.
pub proof fn lemma_env_assign_ok(frames: Seq<FrameV>, na: nat, id: int, name: Seq<char>, v: ValueV)
    requires
        frames_ok(frames, na),
        value_ok(v, frames.len(), na),
    ensures
        env_assign(frames, id, name, v) matches Some(f) ==> frames_ok(f, na) && f.len() == frames.len(),
    decreases id,
{
    if 0 <= id < frames.len() {
        if find(frames[id].binds, name) is Some {
            lemma_env_set_ok(frames, na, id, name, v);
        } else {
            match frames[id].parent {
                Some(p) => if p < id {
                    lemma_env_assign_ok(frames, na, p as int, name, v);
                },
                None => {},
            }
        }
    }
}

/// A new scope nested in an existing one keeps the scopes valid.
pub proof fn lemma_new_frame_ok(frames: Seq<FrameV>, na: nat, parent: nat)
    requires
        frames_ok(frames, na),
        parent < frames.len(),
    ensures
        frames_ok(env_new_frame(frames, Some(parent)), na),
{
    let r = env_new_frame(frames, Some(parent));
    assert forall|i: int| 0 <= i < r.len() implies frame_ok(#[trigger] r[i], i, r.len(), na) by {
        if i < frames.len() {
            assert(frame_ok(frames[i], i, frames.len(), na));
        }
    }
}

/// Appending a valid value to an array keeps the arrays valid.
pub proof fn lemma_push_into_ok(arrays: Seq<Seq<ValueV>>, nf: nat, a: nat, v: ValueV)
    requires
        arrays_ok(arrays, nf),
        value_ok(v, nf, arrays.len()),
    ensures
        arrays_ok(push_into(arrays, a, v), nf),
        push_into(arrays, a, v).len() == arrays.len(),
{
    let r = push_into(arrays, a, v);
    assert forall|i: int, j: int|
        0 <= i < r.len() && 0 <= j < r[i].len() implies value_ok(#[trigger] r[i][j], nf, r.len()) by {
        if i == a && j == arrays[i].len() {
        } else {
            assert(r[i][j] == arrays[i][j]);
        }
    }
}

/// A new, empty array keeps the arrays valid.
pub proof fn lemma_new_array_ok(arrays: Seq<Seq<ValueV>>, nf: nat)
    requires
        arrays_ok(arrays, nf),
    ensures
        arrays_ok(arrays.push(Seq::empty()), nf),
{
    let r = arrays.push(Seq::empty());
    assert forall|i: int, j: int|
        0 <= i < r.len() && 0 <= j < r[i].len() implies value_ok(#[trigger] r[i][j], nf, r.len()) by {
        assert(r[i][j] == arrays[i][j]);
    }
}

// --- Each part of a step keeps the invariant ---

proof fn lemma_exec_stmt_ok(s: State, st: StmtV)
    requires
        state_ok(s),
    ensures
        state_ok(exec_stmt(s, st).0),
{
    let nf = s.frames.len();
    let na = s.arrays.len();
    match st {
        StmtV::Let { name, value } => lemma_konts_push(s.konts, KontV::Let { name }, nf, na),
        StmtV::Print(e) => lemma_konts_push(s.konts, KontV::Print, nf, na),
        StmtV::Expression(e) => lemma_konts_push(s.konts, KontV::ExprStmt, nf, na),
        StmtV::If { condition, then_block, else_block } => lemma_konts_push(
            s.konts,
            KontV::Test(TruthUseV::Branch { then_block, else_block }),
            nf,
            na,
        ),
        StmtV::While { condition, body } => lemma_konts_push(
            s.konts,
            KontV::Test(TruthUseV::Loop { condition, body }),
            nf,
            na,
        ),
        StmtV::Fn { name, params, body } => {
            let f = ValueV::Function { params, body, closure: s.env };
            lemma_env_set_ok(s.frames, na, s.env as int, name, f);
        },
        StmtV::Return(e) => lemma_konts_push(s.konts, KontV::Return, nf, na),
    }
}

proof fn lemma_eval_expr_ok(s: State, e: ExprV)
    requires
        state_ok(s),
    ensures
        state_ok(eval_expr(s, e).0),
{
    let nf = s.frames.len();
    let na = s.arrays.len();
    match e {
        ExprV::Identifier(name) => lemma_env_get_ok(s.frames, na, s.env as int, name),
        ExprV::Unary { op, right } => {
            lemma_konts_push(s.konts, KontV::Negate, nf, na);
            lemma_konts_push(s.konts, KontV::Test(TruthUseV::Not), nf, na);
        },
        ExprV::Binary { left, op, right } => lemma_konts_push(s.konts, KontV::BinLeft { op, right: *right }, nf, na),
        ExprV::Assign { name, value } => lemma_konts_push(s.konts, KontV::Assign { name }, nf, na),
        ExprV::Array(elems) => {
            lemma_new_array_ok(s.arrays, nf);
            lemma_frames_grow(s.frames, na, na + 1);
            lemma_konts_grow(s.konts, nf, na, nf, na + 1);
            lemma_konts_push(s.konts, KontV::ArrayElems { elems, next: 1, array: na }, nf, na + 1);
        },
        ExprV::Index { array, index } => lemma_konts_push(s.konts, KontV::IndexArray { index: *index }, nf, na),
        ExprV::Call { callee, args } => {
            if args.len() == 2 {
                lemma_konts_push(s.konts, KontV::PushTarget { value: args[1] }, nf, na);
            }
            lemma_konts_push(s.konts, KontV::Callee { args }, nf, na);
        },
        _ => {},
    }
}

/// Entering a block in a new scope keeps the invariant.
proof fn lemma_enter_scope_ok(s: State, k: KontV, stmts: Seq<StmtV>)
    requires
        state_ok(s),
        kont_ok(k, s.frames.len(), s.arrays.len()),
    ensures
        state_ok(enter_scope(s, k, stmts).0),
{
    let nf = s.frames.len();
    let na = s.arrays.len();
    lemma_new_frame_ok(s.frames, na, s.env);
    lemma_arrays_grow(s.arrays, nf, nf + 1);
    lemma_konts_grow(s.konts, nf, na, nf + 1, na);
    lemma_konts_push(s.konts, k, nf + 1, na);
    lemma_konts_push(s.konts.push(k), KontV::Block { stmts, next: 0 }, nf + 1, na);
}

proof fn lemma_test_truth_ok(s: State, v: ValueV, u: TruthUseV)
    requires
        state_ok(s),
        value_ok(v, s.frames.len(), s.arrays.len()),
        use_ok(u, s.frames.len(), s.arrays.len()),
    ensures
        state_ok(test_truth(s, v, u).0),
    decreases use_rank(u), 1nat,
{
    match truth_of(v) {
        Some(t) => lemma_decide_ok(s, t, u),
        None => lemma_konts_push(s.konts, KontV::Decide(u), s.frames.len(), s.arrays.len()),
    }
}

proof fn lemma_decide_ok(s: State, t: bool, u: TruthUseV)
    requires
        state_ok(s),
        use_ok(u, s.frames.len(), s.arrays.len()),
    ensures
        state_ok(decide(s, t, u).0),
    decreases use_rank(u), 0nat,
{
    match u {
        TruthUseV::Branch { then_block, else_block } => {
            let k = KontV::IfBody { saved: s.env };
            lemma_enter_scope_ok(s, k, then_block);
            if let Some(b) = else_block {
                lemma_enter_scope_ok(s, k, b);
            }
        },
        TruthUseV::Loop { condition, body } => {
            lemma_enter_scope_ok(s, KontV::WhileBody { condition, body, saved: s.env }, body);
        },
        TruthUseV::AndLeft { right } => lemma_test_truth_ok(s, right, TruthUseV::AndRight),
        TruthUseV::OrLeft { right } => lemma_test_truth_ok(s, right, TruthUseV::OrRight),
        _ => {},
    }
}

proof fn lemma_binary_ok(s: State, op: BinaryOp, l: ValueV, r: ValueV)
    requires
        state_ok(s),
        value_ok(l, s.frames.len(), s.arrays.len()),
        value_ok(r, s.frames.len(), s.arrays.len()),
    ensures
        state_ok(binary(s, op, l, r).0),
{
    let nf = s.frames.len();
    let na = s.arrays.len();
    match op {
        BinaryOp::Eq | BinaryOp::Ne => lemma_konts_push(s.konts, KontV::EqAnswer { negate: op == BinaryOp::Ne }, nf, na),
        BinaryOp::And => lemma_test_truth_ok(s, l, TruthUseV::AndLeft { right: r }),
        BinaryOp::Or => lemma_test_truth_ok(s, l, TruthUseV::OrLeft { right: r }),
        _ => match (l, r) {
            (ValueV::Number(a), ValueV::Number(b)) => lemma_konts_push(s.konts, KontV::DivCheck { op, left: a, right: b }, nf, na),
            _ => {},
        },
    }
}

/// Entering a function body in scope `frame` keeps the invariant.
proof fn lemma_enter_call_ok(s: State, body: Seq<StmtV>, frame: nat)
    requires
        state_ok(s),
        frame < s.frames.len(),
    ensures
        state_ok(enter_call(s, body, frame).0),
{
    let nf = s.frames.len();
    let na = s.arrays.len();
    lemma_konts_push(s.konts, KontV::Call { saved: s.env }, nf, na);
    lemma_konts_push(s.konts.push(KontV::Call { saved: s.env }), KontV::Block { stmts: body, next: 0 }, nf, na);
}

/// Calling a function value: a new scope nested in its closure.
proof fn lemma_callee_ok(p: State, v: ValueV, args: Seq<ExprV>)
    requires
        state_ok(p),
        value_ok(v, p.frames.len(), p.arrays.len()),
        v is Function,
        args.len() == v->params.len(),
    ensures
        ({
            let frame = p.frames.len();
            let p1 = State { frames: env_new_frame(p.frames, Some(v->closure)), ..p };
            &&& state_ok(p1)
            &&& args.len() == 0 ==> state_ok(enter_call(p1, v->body, frame).0)
            &&& args.len() > 0 ==> state_ok(
                go(
                    push(p1, KontV::Args { params: v->params, body: v->body, args, next: 1, frame }),
                    CtrlV::Eval(args[0]),
                ).0,
            )
        }),
{
    let nf = p.frames.len();
    let na = p.arrays.len();
    let frame = nf;
    let p1 = State { frames: env_new_frame(p.frames, Some(v->closure)), ..p };
    lemma_new_frame_ok(p.frames, na, v->closure);
    lemma_arrays_grow(p.arrays, nf, nf + 1);
    lemma_konts_grow(p.konts, nf, na, nf + 1, na);
    assert(state_ok(p1));
    lemma_enter_call_ok(p1, v->body, frame);
    lemma_konts_push(p1.konts, KontV::Args { params: v->params, body: v->body, args, next: 1, frame }, nf + 1, na);
}

/// Binding an argument to its parameter, then going on.
proof fn lemma_args_ok(
    p: State,
    v: ValueV,
    params: Seq<Seq<char>>,
    body: Seq<StmtV>,
    args: Seq<ExprV>,
    next: nat,
    frame: nat,
)
    requires
        state_ok(p),
        value_ok(v, p.frames.len(), p.arrays.len()),
        frame < p.frames.len(),
    ensures
        ({
            let p1 = if 1 <= next <= params.len() {
                State { frames: env_set(p.frames, frame as int, params[next - 1], v), ..p }
            } else {
                p
            };
            &&& state_ok(enter_call(p1, body, frame).0)
            &&& next < args.len() ==> state_ok(
                go(
                    push(p1, KontV::Args { params, body, args, next: next + 1, frame }),
                    CtrlV::Eval(args[next as int]),
                ).0,
            )
        }),
{
    let nf = p.frames.len();
    let na = p.arrays.len();
    if 1 <= next <= params.len() {
        lemma_env_set_ok(p.frames, na, frame as int, params[next - 1], v);
    }
    let p1 = if 1 <= next <= params.len() {
        State { frames: env_set(p.frames, frame as int, params[next - 1], v), ..p }
    } else {
        p
    };
    assert(state_ok(p1));
    lemma_enter_call_ok(p1, body, frame);
    lemma_konts_push(p1.konts, KontV::Args { params, body, args, next: next + 1, frame }, nf, na);
}

proof fn lemma_give_value_ok(s: State, v: ValueV)
    requires
        state_ok(s),
        value_ok(v, s.frames.len(), s.arrays.len()),
    ensures
        state_ok(give_value(s, v).0),
{
    if s.konts.len() > 0 {
        let nf = s.frames.len();
        let na = s.arrays.len();
        let k = s.konts.last();
        let p = pop(s);
        lemma_konts_pop(s.konts, nf, na);
        assert(state_ok(p));
        match k {
            KontV::Let { name } => lemma_env_set_ok(p.frames, na, p.env as int, name, v),
            KontV::Test(u) => lemma_test_truth_ok(p, v, u),
            KontV::BinLeft { op, right } => lemma_konts_push(p.konts, KontV::BinRight { op, left: v }, nf, na),
            KontV::BinRight { op, left } => lemma_binary_ok(p, op, left, v),
            KontV::Assign { name } => lemma_env_assign_ok(p.frames, na, p.env as int, name, v),
            KontV::ArrayElems { elems, next, array } => {
                lemma_push_into_ok(p.arrays, nf, array, v);
                lemma_konts_push(p.konts, KontV::ArrayElems { elems, next: next + 1, array }, nf, na);
            },
            KontV::IndexArray { index } => lemma_konts_push(p.konts, KontV::IndexValue { array: v }, nf, na),
            KontV::IndexValue { array } => {
                if let ValueV::Array(a) = array {
                    lemma_konts_push(p.konts, KontV::IndexAt { array: a }, nf, na);
                }
            },
            KontV::Callee { args } => {
                if v is Function && args.len() == v->params.len() {
                    lemma_callee_ok(p, v, args);
                }
            },
            KontV::Args { params, body, args, next, frame } => lemma_args_ok(p, v, params, body, args, next, frame),
            KontV::PushTarget { value } => lemma_konts_push(p.konts, KontV::PushValue { target: v }, nf, na),
            KontV::PushValue { target } => {
                if let ValueV::Array(a) = target {
                    lemma_push_into_ok(p.arrays, nf, a, v);
                }
            },
            _ => {},
        }
    }
}

proof fn lemma_give_done_ok(s: State)
    requires
        state_ok(s),
    ensures
        state_ok(give_done(s).0),
{
    if s.konts.len() > 0 {
        let nf = s.frames.len();
        let na = s.arrays.len();
        let p = pop(s);
        lemma_konts_pop(s.konts, nf, na);
        match s.konts.last() {
            KontV::Program { stmts, next } => lemma_konts_push(p.konts, KontV::Program { stmts, next: next + 1 }, nf, na),
            KontV::Block { stmts, next } => lemma_konts_push(p.konts, KontV::Block { stmts, next: next + 1 }, nf, na),
            KontV::WhileBody { condition, body, saved } => {
                lemma_konts_push(p.konts, KontV::Test(TruthUseV::Loop { condition, body }), nf, na);
            },
            _ => {},
        }
    }
}

proof fn lemma_give_return_ok(s: State, v: ValueV)
    requires
        state_ok(s),
        value_ok(v, s.frames.len(), s.arrays.len()),
    ensures
        state_ok(give_return(s, v).0),
{
    if s.konts.len() > 0 {
        lemma_konts_pop(s.konts, s.frames.len(), s.arrays.len());
        if s.konts.last() is Program {
            lemma_give_done_ok(s);
        }
    }
}

proof fn lemma_give_failure_ok(s: State, e: RuntimeErrorV)
    requires
        state_ok(s),
    ensures
        state_ok(give_failure(s, e).0),
{
    if s.konts.len() > 0 {
        lemma_konts_pop(s.konts, s.frames.len(), s.arrays.len());
    }
}

proof fn lemma_give_answer_ok(s: State, q: NumQueryV, a: Answer)
    requires
        state_ok(s),
    ensures
        state_ok(give_answer(s, q, a).0),
{
    if s.konts.len() > 0 {
        let nf = s.frames.len();
        let na = s.arrays.len();
        lemma_konts_pop(s.konts, nf, na);
        match s.konts.last() {
            KontV::Decide(u) => lemma_decide_ok(pop(s), !(a->Truth_0), u),
            KontV::IndexAt { array } => {
                if let Answer::Index(i) = a {
                    if array < na && i < s.arrays[array as int].len() {
                        assert(value_ok(s.arrays[array as int][i as int], nf, na));
                    }
                }
            },
            _ => {},
        }
    }
}

/// Law: every step keeps the invariant of the interpreter: whatever the
/// program and whatever the driver answers, no value, scope or continuation
/// ever refers to a scope or an array that does not exist.
pub proof fn law_step_keeps_invariant(s: State, ans: Option<Answer>)
    requires
        state_ok(s),
    ensures
        state_ok(step_spec(s, ans).0),
{
    let s0 = State { ctrl: CtrlV::Idle, ..s };
    assert(state_ok(s0));
    match s.ctrl {
        CtrlV::Exec(st) => lemma_exec_stmt_ok(s0, st),
        CtrlV::Eval(e) => lemma_eval_expr_ok(s0, e),
        CtrlV::Value(v) => lemma_give_value_ok(s0, v),
        CtrlV::Done => lemma_give_done_ok(s0),
        CtrlV::Returning(v) => lemma_give_return_ok(s0, v),
        CtrlV::Failed(e) => lemma_give_failure_ok(s0, e),
        CtrlV::Awaiting(q) => {
            if let Some(a) = ans {
                lemma_give_answer_ok(s0, q, a);
            }
        },
        _ => {},
    }
}

/// Law: a new interpreter satisfies the invariant.
pub proof fn law_new_state_ok()
    ensures
        state_ok(Interpreter::new_state()),
{
    let s = Interpreter::new_state();
    assert(frame_ok(s.frames[0], 0, 1, 0));
}

/// Law: starting a program keeps the invariant, whatever the earlier runs
/// left in the scopes and arrays.
pub proof fn law_start_keeps_invariant(s: State, stmts: Seq<StmtV>)
    requires
        state_ok(s),
    ensures
        state_ok(State { ctrl: CtrlV::Done, konts: seq![KontV::Program { stmts, next: 0 }], ..s }),
{
    let t = State { ctrl: CtrlV::Done, konts: seq![KontV::Program { stmts, next: 0 }], ..s };
    assert(kont_ok(t.konts[0], t.frames.len(), t.arrays.len()));
}

/// Law: running a source text line by line keeps the invariant of its
/// interpreter at every step.
pub proof fn law_session_keeps_invariant(ss: SessionV, ans: Option<Answer>)
    requires
        state_ok(ss.interp),
    ensures
        state_ok(session_step(ss, ans).0.interp),
{
    if ss.active {
        law_step_keeps_invariant(ss.interp, ans);
    } else if ss.next < ss.lines.len() {
        if let Ok(stmts) = compile_spec(ss.lines[ss.next as int]) {
            law_start_keeps_invariant(State { output: Seq::empty(), ..ss.interp }, stmts);
        }
    }
}

/// Law: in every state that keeps the invariant, each array element that is
/// an array refers to an existing array (so the printing law applies there).
pub proof fn law_arrays_closed(s: State)
    requires
        state_ok(s),
    ensures
        closed(s.arrays),
{
    assert forall|a: int, j: int|
        0 <= a < s.arrays.len() && 0 <= j < s.arrays[a].len() && #[trigger] s.arrays[a][j] is Array implies s.arrays[a][j]->Array_0
        < s.arrays.len() by {
        assert(value_ok(s.arrays[a][j], s.frames.len(), s.arrays.len()));
    }
}

} // verus!
