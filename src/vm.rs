use vstd::prelude::*;
use vstd::string::*;
use crate::chunk::{runs_from, Chunk, OpCode};
use crate::error::{Diagnostic, Error};
use crate::value::{
    number_lt,
    number_less,
    number_neg,
    number_negate,
    value_eq,
    values_equal,
    Datum,
    NumOp,
    Value,
};

verus! {

/// The state of the machine: the value stack, the source span of each value on it, and
/// the value the last return handed back.
pub ghost struct Machine {
    pub stack: Seq<Datum>,
    pub spans: Seq<(usize, usize)>,
    pub result: Option<Datum>,
}

/// The span from the start of `l` to the end of `r`; empty where `r` ends before `l`
/// starts.
pub open spec fn merge(l: (usize, usize), r: (usize, usize)) -> (usize, usize) {
    let end: int = if r.0 + r.1 > usize::MAX {
        usize::MAX as int
    } else {
        r.0 + r.1
    };
    (l.0, if end >= l.0 { (end - l.0) as usize } else { 0 })
}

/// The end of a span, where it fits in a `usize`.
pub open spec fn span_end(a: (usize, usize)) -> int {
    if a.0 + a.1 > usize::MAX {
        usize::MAX as int
    } else {
        a.0 + a.1
    }
}

/// The smallest span that covers both `a` and `b`.
pub open spec fn union(a: (usize, usize), b: (usize, usize)) -> (usize, usize) {
    let s = if a.0 <= b.0 {
        a.0
    } else {
        b.0
    };
    let e = if span_end(a) >= span_end(b) {
        span_end(a)
    } else {
        span_end(b)
    };
    (s, (e - s) as usize)
}

pub open spec fn pushed(m: Machine, v: Datum, span: (usize, usize)) -> Machine {
    Machine { stack: m.stack.push(v), spans: m.spans.push(span), ..m }
}

/// `m` with its top value and span replaced.
pub open spec fn replaced(m: Machine, v: Datum, span: (usize, usize)) -> Machine {
    pushed(Machine { stack: m.stack.drop_last(), spans: m.spans.drop_last(), ..m }, v, span)
}

/// `m` with its two top values and spans replaced by one.
pub open spec fn combined(m: Machine, v: Datum, span: (usize, usize)) -> Machine {
    replaced(Machine { stack: m.stack.drop_last(), spans: m.spans.drop_last(), ..m }, v, span)
}

/// How a binary operator is written in the source.
pub open spec fn symbol(op: OpCode) -> Seq<char> {
    match op {
        OpCode::OpAdd => "+"@,
        OpCode::OpSub => "-"@,
        OpCode::OpMul => "*"@,
        OpCode::OpDiv => "/"@,
        OpCode::OpMod => "%"@,
        OpCode::OpPow => "^"@,
        OpCode::OpGreater => ">"@,
        _ => "<"@,
    }
}

pub open spec fn boolean_expected() -> Seq<char> {
    "Operand must be a boolean"@
}

pub open spec fn number_expected() -> Seq<char> {
    "Operand must be a number"@
}

pub open spec fn operands_expected() -> Seq<char> {
    "Operands must be either numbers or strings"@
}

/// A binary arithmetic or ordering instruction on the two top values. `computed` is what
/// the number engine gives for `+ - * / %` and exponentiation on two numbers.
pub open spec fn binary_step(m: Machine, op: OpCode, col: usize, line: usize, computed: u64) -> Result<Machine, Diagnostic> {
    let n = m.stack.len();
    let (l, r) = (m.stack[n - 2], m.stack[n - 1]);
    let (ls, rs) = (m.spans[n - 2], m.spans[n - 1]);
    match (l, r) {
        (Datum::Number(x), Datum::Number(y)) => {
            let v = if op is OpGreater {
                Datum::Boolean(number_lt(y, x))
            } else if op is OpLess {
                Datum::Boolean(number_lt(x, y))
            } else {
                Datum::Number(computed)
            };
            Ok(combined(m, v, merge(ls, rs)))
        },
        (Datum::Text(x), Datum::Text(y)) => if op is OpAdd {
            Ok(combined(m, Datum::Text(x + y), merge(ls, rs)))
        } else {
            Err(Diagnostic::ImpossibleOperation(line as int, col as int, 1, symbol(op)))
        },
        (Datum::Number(_), _) => Err(
            Diagnostic::MismatchedTypes(line as int, rs.0 as int, rs.1 as int, operands_expected()),
        ),
        _ => Err(
            Diagnostic::MismatchedTypes(line as int, ls.0 as int, ls.1 as int, operands_expected()),
        ),
    }
}

/// One instruction, run on `m`, with the pool `pool` and source line `line`.
pub open spec fn exec_step(m: Machine, ins: (usize, usize, OpCode), pool: Seq<Datum>, line: usize, computed: u64) -> Result<Machine, Diagnostic> {
    let (col, len, op) = ins;
    let n = m.stack.len();
    match op {
        OpCode::OpConstant(idx) => Ok(pushed(m, pool[idx as int], (col, len))),
        OpCode::OpTrue => Ok(pushed(m, Datum::Boolean(true), (col, len))),
        OpCode::OpFalse => Ok(pushed(m, Datum::Boolean(false), (col, len))),
        OpCode::OpNil => Ok(pushed(m, Datum::Nil, (col, len))),
        OpCode::OpNot => match m.stack[n - 1] {
            Datum::Boolean(b) => Ok(replaced(m, Datum::Boolean(!b), union((col, len), m.spans[n - 1]))),
            _ => Err(
                Diagnostic::MismatchedTypes(
                    line as int,
                    m.spans[n - 1].0 as int,
                    m.spans[n - 1].1 as int,
                    boolean_expected(),
                ),
            ),
        },
        OpCode::OpNegate => match m.stack[n - 1] {
            Datum::Number(x) => Ok(replaced(m, Datum::Number(number_neg(x)), union((col, len), m.spans[n - 1]))),
            _ => Err(
                Diagnostic::MismatchedTypes(
                    line as int,
                    m.spans[n - 1].0 as int,
                    m.spans[n - 1].1 as int,
                    number_expected(),
                ),
            ),
        },
        OpCode::OpEqual => Ok(
            combined(
                m,
                Datum::Boolean(value_eq(m.stack[n - 2], m.stack[n - 1])),
                merge(m.spans[n - 2], m.spans[n - 1]),
            ),
        ),
        OpCode::OpReturn => Ok(
            Machine {
                stack: m.stack.drop_last(),
                spans: m.spans.drop_last(),
                result: Some(m.stack[n - 1]),
            },
        ),
        _ => binary_step(m, op, col, line, computed),
    }
}

/// Runs `code` from instruction `i` to a return or to its end. `computed[j]` is what the
/// number engine gave for instruction `j`, where it was asked.
pub open spec fn run_from(m: Machine, code: Seq<(usize, usize, OpCode)>, pool: Seq<Datum>, line: usize, i: int, computed: Seq<u64>) -> Result<Machine, Diagnostic>
    decreases code.len() - i,
{
    if i < 0 || i >= code.len() {
        Ok(m)
    } else {
        match exec_step(m, code[i], pool, line, computed[i]) {
            Err(e) => Err(e),
            Ok(m2) => if code[i].2 is OpReturn {
                Ok(m2)
            } else {
                run_from(m2, code, pool, line, i + 1, computed)
            },
        }
    }
}

/// Constants, as data.
pub open spec fn data_of(constants: Seq<Value>) -> Seq<Datum> {
    constants.map_values(|v: Value| v@)
}

/// The pool of a chunk, as data.
pub open spec fn pool_of(chunk: Chunk) -> Seq<Datum> {
    data_of(chunk.constants@)
}

/// `m` before a run: no result yet.
pub open spec fn restarted(m: Machine) -> Machine {
    Machine { result: None, ..m }
}

/// The machine where the run of `code` from `i` stops: after a return or the last
/// instruction, or before the instruction that fails, which changes nothing.
pub open spec fn settled(m: Machine, code: Seq<(usize, usize, OpCode)>, pool: Seq<Datum>, line: usize, i: int, computed: Seq<u64>) -> Machine
    decreases code.len() - i,
{
    if i < 0 || i >= code.len() {
        m
    } else {
        match exec_step(m, code[i], pool, line, computed[i]) {
            Err(_) => m,
            Ok(m2) => if code[i].2 is OpReturn {
                m2
            } else {
                settled(m2, code, pool, line, i + 1, computed)
            },
        }
    }
}

pub open spec fn num_op(op: OpCode) -> Option<NumOp> {
    match op {
        OpCode::OpAdd => Some(NumOp::Add),
        OpCode::OpSub => Some(NumOp::Sub),
        OpCode::OpMul => Some(NumOp::Mul),
        OpCode::OpDiv => Some(NumOp::Div),
        OpCode::OpMod => Some(NumOp::Rem),
        OpCode::OpPow => Some(NumOp::Pow),
        _ => None,
    }
}

/// The question that instruction `op` puts to the number engine on `m`: an arithmetic
/// operation on the two numbers on top of the stack, left operand first.
pub open spec fn request(m: Machine, op: OpCode) -> Option<(NumOp, u64, u64)> {
    let n = m.stack.len();
    if n >= 2 && num_op(op) is Some && m.stack[n - 2] is Number && m.stack[n - 1] is Number {
        Some((num_op(op)->0, m.stack[n - 2]->Number_0, m.stack[n - 1]->Number_0))
    } else {
        None
    }
}

/// Every answer that the run of `code` from `i` takes from `computed` is one that `engine`
/// gives to the question asked there.
pub open spec fn answered<F: Fn(NumOp, u64, u64) -> u64>(m: Machine, code: Seq<(usize, usize, OpCode)>, pool: Seq<Datum>, line: usize, i: int, computed: Seq<u64>, engine: F) -> bool
    decreases code.len() - i,
{
    if i < 0 || i >= code.len() {
        true
    } else {
        &&& (request(m, code[i].2) matches Some(q) ==> engine.ensures((q.0, q.1, q.2), computed[i]))
        &&& match exec_step(m, code[i], pool, line, computed[i]) {
            Err(_) => true,
            Ok(m2) => code[i].2 is OpReturn || answered(m2, code, pool, line, i + 1, computed, engine),
        }
    }
}

/// The engine gives one answer to each question.
pub open spec fn functional<F: Fn(NumOp, u64, u64) -> u64>(engine: F) -> bool {
    forall|o: NumOp, x: u64, y: u64, r1: u64, r2: u64|
        engine.ensures((o, x, y), r1) && engine.ensures((o, x, y), r2) ==> r1 == r2
}

/// What running `chunk` on `m` gives, with `computed` the number engine's answers.
pub open spec fn outcome(m: Machine, chunk: Chunk, computed: Seq<u64>) -> Result<Machine, Diagnostic> {
    run_from(m, chunk.code@, pool_of(chunk), chunk.line, 0, computed)
}

/// Two data of the same variant; two strings must also hold the same text.
pub open spec fn alike(a: Datum, b: Datum) -> bool {
    match (a, b) {
        (Datum::Number(_), Datum::Number(_)) => true,
        (Datum::Boolean(_), Datum::Boolean(_)) => true,
        (Datum::Text(x), Datum::Text(y)) => x == y,
        (Datum::Nil, Datum::Nil) => true,
        _ => false,
    }
}

/// Two machine states that differ at most in the numbers and booleans they hold, and in
/// their results.
pub open spec fn similar(m1: Machine, m2: Machine) -> bool {
    &&& m1.stack.len() == m2.stack.len()
    &&& m1.spans == m2.spans
    &&& forall|i: int| 0 <= i < m1.stack.len() ==> alike(#[trigger] m1.stack[i], m2.stack[i])
}

proof fn lemma_similar_pushed(m1: Machine, m2: Machine, v1: Datum, v2: Datum, span: (usize, usize), k: int)
    requires
        similar(m1, m2),
        alike(v1, v2),
        0 <= k <= 2,
        k <= m1.stack.len(),
    ensures
        k == 0 ==> similar(pushed(m1, v1, span), pushed(m2, v2, span)),
        k == 1 ==> similar(replaced(m1, v1, span), replaced(m2, v2, span)),
        k == 2 ==> similar(combined(m1, v1, span), combined(m2, v2, span)),
{
    let n = m1.stack.len();
    let (a, b) = if k == 0 {
        (pushed(m1, v1, span), pushed(m2, v2, span))
    } else if k == 1 {
        (replaced(m1, v1, span), replaced(m2, v2, span))
    } else {
        (combined(m1, v1, span), combined(m2, v2, span))
    };
    assert(a.stack.len() == n - k + 1);
    assert forall|i: int| 0 <= i < a.stack.len() implies alike(#[trigger] a.stack[i], b.stack[i]) by {
        if i < n - k {
            assert(a.stack[i] == m1.stack[i]);
            assert(b.stack[i] == m2.stack[i]);
        }
    }
}

proof fn lemma_similar_step(m1: Machine, m2: Machine, ins: (usize, usize, OpCode), pool: Seq<Datum>, line: usize, c1: u64, c2: u64)
    requires
        similar(m1, m2),
        m1.stack.len() >= crate::chunk::pops(ins.2),
        ins.2 is OpConstant ==> (ins.2->OpConstant_0 as int) < pool.len(),
    ensures
        exec_step(m1, ins, pool, line, c1) is Ok <==> exec_step(m2, ins, pool, line, c2) is Ok,
        exec_step(m1, ins, pool, line, c1) is Err ==> exec_step(m1, ins, pool, line, c1) == exec_step(m2, ins, pool, line, c2),
        exec_step(m1, ins, pool, line, c1) is Ok ==> similar(
            exec_step(m1, ins, pool, line, c1)->Ok_0,
            exec_step(m2, ins, pool, line, c2)->Ok_0,
        ),
{
    let (col, len, op) = ins;
    let n = m1.stack.len();
    if n >= 1 {
        assert(alike(m1.stack[n - 1], m2.stack[n - 1]));
    }
    if n >= 2 {
        assert(alike(m1.stack[n - 2], m2.stack[n - 2]));
    }
    match op {
        OpCode::OpConstant(idx) => {
            lemma_similar_pushed(m1, m2, pool[idx as int], pool[idx as int], (col, len), 0);
        },
        OpCode::OpTrue => {
            lemma_similar_pushed(m1, m2, Datum::Boolean(true), Datum::Boolean(true), (col, len), 0);
        },
        OpCode::OpFalse => {
            lemma_similar_pushed(m1, m2, Datum::Boolean(false), Datum::Boolean(false), (col, len), 0);
        },
        OpCode::OpNil => {
            lemma_similar_pushed(m1, m2, Datum::Nil, Datum::Nil, (col, len), 0);
        },
        OpCode::OpNot => {
            if let (Datum::Boolean(x), Datum::Boolean(y)) = (m1.stack[n - 1], m2.stack[n - 1]) {
                lemma_similar_pushed(m1, m2, Datum::Boolean(!x), Datum::Boolean(!y), union((col, len), m1.spans[n - 1]), 1);
            }
        },
        OpCode::OpNegate => {
            if let (Datum::Number(x), Datum::Number(y)) = (m1.stack[n - 1], m2.stack[n - 1]) {
                lemma_similar_pushed(m1, m2, Datum::Number(number_neg(x)), Datum::Number(number_neg(y)), union((col, len), m1.spans[n - 1]), 1);
            }
        },
        OpCode::OpEqual => {
            lemma_similar_pushed(
                m1,
                m2,
                Datum::Boolean(value_eq(m1.stack[n - 2], m1.stack[n - 1])),
                Datum::Boolean(value_eq(m2.stack[n - 2], m2.stack[n - 1])),
                merge(m1.spans[n - 2], m1.spans[n - 1]),
                2,
            );
        },
        OpCode::OpReturn => {
            let (a, b) = (exec_step(m1, ins, pool, line, c1)->Ok_0, exec_step(m2, ins, pool, line, c2)->Ok_0);
            assert forall|i: int| 0 <= i < a.stack.len() implies alike(#[trigger] a.stack[i], b.stack[i]) by {
                assert(a.stack[i] == m1.stack[i]);
                assert(b.stack[i] == m2.stack[i]);
            }
        },
        _ => {
            let span = merge(m1.spans[n - 2], m1.spans[n - 1]);
            match (m1.stack[n - 2], m1.stack[n - 1], m2.stack[n - 2], m2.stack[n - 1]) {
                (Datum::Number(x1), Datum::Number(y1), Datum::Number(x2), Datum::Number(y2)) => {
                    if op is OpGreater {
                        lemma_similar_pushed(m1, m2, Datum::Boolean(number_lt(y1, x1)), Datum::Boolean(number_lt(y2, x2)), span, 2);
                    } else if op is OpLess {
                        lemma_similar_pushed(m1, m2, Datum::Boolean(number_lt(x1, y1)), Datum::Boolean(number_lt(x2, y2)), span, 2);
                    } else {
                        lemma_similar_pushed(m1, m2, Datum::Number(c1), Datum::Number(c2), span, 2);
                    }
                },
                (Datum::Text(x1), Datum::Text(y1), _, _) => {
                    lemma_similar_pushed(m1, m2, Datum::Text(x1 + y1), Datum::Text(x1 + y1), span, 2);
                },
                _ => {},
            }
        },
    }
}

proof fn lemma_similar_run(m1: Machine, m2: Machine, code: Seq<(usize, usize, OpCode)>, pool: Seq<Datum>, line: usize, i: int, w1: Seq<u64>, w2: Seq<u64>)
    requires
        similar(m1, m2),
        0 <= i,
        runs_from(code, pool.len() as int, i, m1.stack.len() as int),
    ensures
        run_from(m1, code, pool, line, i, w1) is Ok <==> run_from(m2, code, pool, line, i, w2) is Ok,
        run_from(m1, code, pool, line, i, w1) is Err ==> run_from(m1, code, pool, line, i, w1)
            == run_from(m2, code, pool, line, i, w2),
        run_from(m1, code, pool, line, i, w1) is Ok ==> similar(
            run_from(m1, code, pool, line, i, w1)->Ok_0,
            run_from(m2, code, pool, line, i, w2)->Ok_0,
        ),
    decreases code.len() - i,
{
    if i < code.len() {
        lemma_similar_step(m1, m2, code[i], pool, line, w1[i], w2[i]);
        if let Ok(a) = exec_step(m1, code[i], pool, line, w1[i]) {
            if !(code[i].2 is OpReturn) {
                let b = exec_step(m2, code[i], pool, line, w2[i])->Ok_0;
                assert(a.stack.len() == m1.stack.len() - crate::chunk::pops(code[i].2) + 1);
                lemma_similar_run(a, b, code, pool, line, i + 1, w1, w2);
            }
        }
    }
}

/// Whether a run succeeds, and the error it stops at, do not hang on the numbers that the
/// engine computes, nor on the numbers and booleans already on the stack: two runs of a
/// chunk from similar states both succeed, with similar states, or both fail with the same
/// error.
pub proof fn lemma_outcome_independent(m1: Machine, m2: Machine, chunk: Chunk, w1: Seq<u64>, w2: Seq<u64>)
    requires
        similar(m1, m2),
        chunk.fits(m1.stack.len() as int),
    ensures
        outcome(m1, chunk, w1) is Ok <==> outcome(m2, chunk, w2) is Ok,
        outcome(m1, chunk, w1) is Err ==> outcome(m1, chunk, w1) == outcome(m2, chunk, w2),
        outcome(m1, chunk, w1) is Ok ==> similar(outcome(m1, chunk, w1)->Ok_0, outcome(m2, chunk, w2)->Ok_0),
{
    lemma_similar_run(m1, m2, chunk.code@, pool_of(chunk), chunk.line, 0, w1, w2);
}

/// Running a chunk on empty stacks, as a new machine has them or as `reset` leaves them,
/// succeeds every time or fails every time with the same error, whatever ran before and
/// whatever the number engine answers; the successes leave similar states.
pub proof fn lemma_rerun_alike(m1: Machine, m2: Machine, chunk: Chunk, w1: Seq<u64>, w2: Seq<u64>)
    requires
        m1.stack.len() == 0 && m1.spans.len() == 0,
        m2.stack.len() == 0 && m2.spans.len() == 0,
        chunk.fits(0),
    ensures
        outcome(m1, chunk, w1) is Ok <==> outcome(m2, chunk, w2) is Ok,
        outcome(m1, chunk, w1) is Err ==> outcome(m1, chunk, w1) == outcome(m2, chunk, w2),
        outcome(m1, chunk, w1) is Ok ==> similar(outcome(m1, chunk, w1)->Ok_0, outcome(m2, chunk, w2)->Ok_0),
{
    assert(m1.spans =~= m2.spans);
    lemma_outcome_independent(m1, m2, chunk, w1, w2);
}

proof fn lemma_step_answer(m: Machine, ins: (usize, usize, OpCode), pool: Seq<Datum>, line: usize, c1: u64, c2: u64)
    requires
        request(m, ins.2) is None,
        m.stack.len() >= crate::chunk::pops(ins.2),
    ensures
        exec_step(m, ins, pool, line, c1) == exec_step(m, ins, pool, line, c2),
{
    let n = m.stack.len();
    if crate::chunk::pops(ins.2) == 2 {
        assert(m.stack[n - 2] == m.stack[n - 2]);
    }
}

/// With an engine that gives one answer to each question, the answers of a run are fixed:
/// any two sequences of answers it gave lead to the same outcome and the same final state.
pub proof fn lemma_answers_agree<F: Fn(NumOp, u64, u64) -> u64>(m: Machine, code: Seq<(usize, usize, OpCode)>, pool: Seq<Datum>, line: usize, i: int, w1: Seq<u64>, w2: Seq<u64>, engine: F)
    requires
        functional(engine),
        0 <= i,
        runs_from(code, pool.len() as int, i, m.stack.len() as int),
        answered(m, code, pool, line, i, w1, engine),
        answered(m, code, pool, line, i, w2, engine),
    ensures
        run_from(m, code, pool, line, i, w1) == run_from(m, code, pool, line, i, w2),
        settled(m, code, pool, line, i, w1) == settled(m, code, pool, line, i, w2),
    decreases code.len() - i,
{
    if 0 <= i < code.len() {
        if request(m, code[i].2) is None {
            lemma_step_answer(m, code[i], pool, line, w1[i], w2[i]);
        } else {
            let q = request(m, code[i].2)->0;
            assert(engine.ensures((q.0, q.1, q.2), w1[i]));
            assert(engine.ensures((q.0, q.1, q.2), w2[i]));
        }
        if let Ok(m2) = exec_step(m, code[i], pool, line, w1[i]) {
            if !(code[i].2 is OpReturn) {
                assert(m2.stack.len() == m.stack.len() - crate::chunk::pops(code[i].2) + 1);
                lemma_answers_agree(m2, code, pool, line, i + 1, w1, w2, engine);
            }
        }
    }
}

/// Running a chunk twice from the same state with an engine that gives one answer to each
/// question ends the same way: the same success and final state, or the same error with
/// the machine left as it was before the failing instruction.
pub proof fn lemma_rerun_same<F: Fn(NumOp, u64, u64) -> u64>(m: Machine, chunk: Chunk, w1: Seq<u64>, w2: Seq<u64>, engine: F)
    requires
        functional(engine),
        chunk.fits(m.stack.len() as int),
        answered(m, chunk.code@, pool_of(chunk), chunk.line, 0, w1, engine),
        answered(m, chunk.code@, pool_of(chunk), chunk.line, 0, w2, engine),
    ensures
        outcome(m, chunk, w1) == outcome(m, chunk, w2),
        settled(m, chunk.code@, pool_of(chunk), chunk.line, 0, w1) == settled(m, chunk.code@, pool_of(chunk), chunk.line, 0, w2),
{
    lemma_answers_agree(m, chunk.code@, pool_of(chunk), chunk.line, 0, w1, w2, engine);
}

/// A run on a new machine and a run on a machine just reset, with an engine that gives
/// one answer to each question, end the same way: the same result or the same error, and
/// the same final state. Neither carries anything over from before.
pub proof fn lemma_fresh_and_reset_agree<F: Fn(NumOp, u64, u64) -> u64>(m1: Machine, m2: Machine, chunk: Chunk, w1: Seq<u64>, w2: Seq<u64>, engine: F)
    requires
        m1.stack.len() == 0 && m1.spans.len() == 0,
        m2.stack.len() == 0 && m2.spans.len() == 0,
        functional(engine),
        chunk.fits(0),
        answered(restarted(m1), chunk.code@, pool_of(chunk), chunk.line, 0, w1, engine),
        answered(restarted(m2), chunk.code@, pool_of(chunk), chunk.line, 0, w2, engine),
    ensures
        outcome(restarted(m1), chunk, w1) == outcome(restarted(m2), chunk, w2),
        settled(restarted(m1), chunk.code@, pool_of(chunk), chunk.line, 0, w1)
            == settled(restarted(m2), chunk.code@, pool_of(chunk), chunk.line, 0, w2),
{
    assert(m1.stack =~= m2.stack);
    assert(m1.spans =~= m2.spans);
    assert(restarted(m1) == restarted(m2));
    lemma_rerun_same(restarted(m1), chunk, w1, w2, engine);
}

/// A stack machine that runs chunks.
pub struct VM {
    pub stack: Vec<Value>,
    pub positions: Vec<(usize, usize)>,
    pub result: Option<Value>,
    chunk: Chunk,
    verbose: bool,
}

impl VM {
    /// The machine's state.
    pub closed spec fn machine(&self) -> Machine {
        Machine {
            stack: self.stack@.map_values(|v: Value| v@),
            spans: self.positions@,
            result: match self.result {
                Some(v) => Some(v@),
                None => None,
            },
        }
    }

    /// The two stacks have the same height.
    pub closed spec fn wf(&self) -> bool {
        self.stack@.len() == self.positions@.len()
    }

    /// Whether the machine shows its work as it runs.
    pub closed spec fn is_verbose(&self) -> bool {
        self.verbose
    }

    /// A machine with empty stacks and no result.
    pub fn new(verbose: bool) -> (r: VM)
        ensures
            r.wf(),
            r.machine() == (Machine { stack: seq![], spans: seq![], result: None }),
            r.is_verbose() == verbose,
    {
        let r = VM {
            stack: Vec::with_capacity(256),
            positions: Vec::with_capacity(256),
            chunk: Chunk::new(0),
            result: None,
            verbose,
        };
        assert(r.machine().stack =~= seq![]);
        assert(r.machine().spans =~= seq![]);
        r
    }

    /// Whether the machine shows its work as it runs.
    pub fn verbose(&self) -> (r: bool)
        ensures
            r == self.is_verbose(),
    {
        self.verbose
    }

    /// Empties both stacks; the result stays.
    pub fn reset(&mut self)
        ensures
            final(self).wf(),
            final(self).machine() == (Machine {
                stack: seq![],
                spans: seq![],
                ..old(self).machine()
            }),
            final(self).is_verbose() == old(self).is_verbose(),
    {
        self.positions.clear();
        self.stack.clear();
        assert(self.machine().stack =~= seq![]);
        assert(self.machine().spans =~= seq![]);
    }

    /// The span of the value `distance` places below the top of the stack.
    pub fn get_col(&self, distance: usize) -> (r: (usize, usize))
        requires
            self.wf(),
            distance < self.machine().stack.len(),
        ensures
            r == self.machine().spans[self.machine().spans.len() - 1 - distance],
    {
        self.positions[self.stack.len() - 1 - distance]
    }

    /// `new` keeps the chunk and the verbosity of `old`, and is well formed.
    spec fn kept(old: VM, new: VM) -> bool {
        &&& new.wf()
        &&& new.chunk == old.chunk
        &&& new.verbose == old.verbose
    }

    fn push_value(&mut self, v: Value, span: (usize, usize))
        requires
            old(self).wf(),
        ensures
            Self::kept(*old(self), *final(self)),
            final(self).machine() == pushed(old(self).machine(), v@, span),
    {
        let ghost m = self.machine();
        self.stack.push(v);
        self.positions.push(span);
        assert(self.machine().stack =~= pushed(m, v@, span).stack);
    }

    fn pop_value(&mut self) -> (r: Value)
        requires
            old(self).wf(),
            old(self).stack@.len() > 0,
        ensures
            Self::kept(*old(self), *final(self)),
            r@ == old(self).machine().stack.last(),
            final(self).machine() == (Machine {
                stack: old(self).machine().stack.drop_last(),
                spans: old(self).machine().spans.drop_last(),
                ..old(self).machine()
            }),
    {
        let ghost m = self.machine();
        let v = self.stack.pop().unwrap();
        self.positions.pop();
        assert(self.machine().stack =~= m.stack.drop_last());
        assert(self.machine().spans =~= m.spans.drop_last());
        v
    }

    fn replace_top(&mut self, v: Value, span: (usize, usize))
        requires
            old(self).wf(),
            old(self).stack@.len() > 0,
        ensures
            Self::kept(*old(self), *final(self)),
            final(self).machine() == replaced(old(self).machine(), v@, span),
    {
        self.pop_value();
        self.push_value(v, span);
    }

    fn combine_top(&mut self, v: Value, span: (usize, usize))
        requires
            old(self).wf(),
            old(self).stack@.len() > 1,
        ensures
            Self::kept(*old(self), *final(self)),
            final(self).machine() == combined(old(self).machine(), v@, span),
    {
        self.pop_value();
        self.replace_top(v, span);
    }

    fn merge_spans(l: (usize, usize), r: (usize, usize)) -> (m: (usize, usize))
        ensures
            m == merge(l, r),
    {
        let end = if r.0 <= usize::MAX - r.1 {
            r.0 + r.1
        } else {
            usize::MAX
        };
        (l.0, if end >= l.0 { end - l.0 } else { 0 })
    }

    fn union_spans(a: (usize, usize), b: (usize, usize)) -> (m: (usize, usize))
        ensures
            m == union(a, b),
    {
        let ea = if a.0 <= usize::MAX - a.1 {
            a.0 + a.1
        } else {
            usize::MAX
        };
        let eb = if b.0 <= usize::MAX - b.1 {
            b.0 + b.1
        } else {
            usize::MAX
        };
        let s = if a.0 <= b.0 {
            a.0
        } else {
            b.0
        };
        let e = if ea >= eb {
            ea
        } else {
            eb
        };
        (s, e - s)
    }

    /// `-` or `!` on the top value.
    fn unary_op(&mut self, op: OpCode, col: usize, len: usize) -> (r: Result<(), Error>)
        requires
            old(self).wf(),
            old(self).stack@.len() > 0,
            op is OpNot || op is OpNegate,
        ensures
            Self::kept(*old(self), *final(self)),
            match exec_step(old(self).machine(), (col, len, op), pool_of(old(self).chunk), old(self).chunk.line, 0) {
                Ok(m) => r is Ok && final(self).machine() == m,
                Err(e) => r is Err && r->Err_0@ == e && final(self).machine() == old(self).machine(),
            },
    {
        let n = self.stack.len();
        let span = self.positions[n - 1];
        let line = self.chunk.line;
        let merged = Self::union_spans((col, len), span);
        let outcome = match (op, &self.stack[n - 1]) {
            (OpCode::OpNot, Value::Boolean(b)) => Ok(Value::Boolean(!*b)),
            (OpCode::OpNot, _) => Err(
                Error::MismatchedTypes(line, span.0, span.1, "Operand must be a boolean".to_owned()),
            ),
            (_, Value::Number(x)) => Ok(Value::Number(number_negate(*x))),
            _ => Err(
                Error::MismatchedTypes(line, span.0, span.1, "Operand must be a number".to_owned()),
            ),
        };
        match outcome {
            Err(e) => Err(e),
            Ok(v) => {
                self.replace_top(v, merged);
                Ok(())
            },
        }
    }

    /// A binary arithmetic or ordering instruction on the two top values.
    fn binary_op(&mut self, op: OpCode, col: usize, computed: u64) -> (r: Result<(), Error>)
        requires
            old(self).wf(),
            old(self).stack@.len() > 1,
        ensures
            Self::kept(*old(self), *final(self)),
            match binary_step(old(self).machine(), op, col, old(self).chunk.line, computed) {
                Ok(m) => r is Ok && final(self).machine() == m,
                Err(e) => r is Err && r->Err_0@ == e && final(self).machine() == old(self).machine(),
            },
    {
        let n = self.stack.len();
        let ls = self.positions[n - 2];
        let rs = self.positions[n - 1];
        let line = self.chunk.line;
        let outcome = match (&self.stack[n - 2], &self.stack[n - 1]) {
            (Value::Number(x), Value::Number(y)) => Ok(
                match op {
                    OpCode::OpGreater => Value::Boolean(number_less(*y, *x)),
                    OpCode::OpLess => Value::Boolean(number_less(*x, *y)),
                    _ => Value::Number(computed),
                },
            ),
            (Value::String(x), Value::String(y)) => {
                if let OpCode::OpAdd = op {
                    Ok(Value::String(x.clone().concat(y.as_str())))
                } else {
                    let sym = match op {
                        OpCode::OpAdd => "+",
                        OpCode::OpSub => "-",
                        OpCode::OpMul => "*",
                        OpCode::OpDiv => "/",
                        OpCode::OpMod => "%",
                        OpCode::OpPow => "^",
                        OpCode::OpGreater => ">",
                        _ => "<",
                    };
                    Err(Error::ImpossibleOperation(line, col, 1, sym.to_owned()))
                }
            },
            (Value::Number(_), _) => Err(
                Error::MismatchedTypes(
                    line,
                    rs.0,
                    rs.1,
                    "Operands must be either numbers or strings".to_owned(),
                ),
            ),
            _ => Err(
                Error::MismatchedTypes(
                    line,
                    ls.0,
                    ls.1,
                    "Operands must be either numbers or strings".to_owned(),
                ),
            ),
        };
        match outcome {
            Err(e) => Err(e),
            Ok(v) => {
                self.combine_top(v, Self::merge_spans(ls, rs));
                Ok(())
            },
        }
    }

    /// Runs instruction `i` of the loaded chunk; `computed` is the number engine's answer,
    /// where the instruction asks for one.
    fn execute(&mut self, i: usize, computed: u64) -> (r: Result<(), Error>)
        requires
            old(self).wf(),
            i < old(self).chunk.code@.len(),
            old(self).stack@.len() >= crate::chunk::pops(old(self).chunk.code@[i as int].2),
            old(self).chunk.code@[i as int].2 is OpConstant ==> (
            old(self).chunk.code@[i as int].2->OpConstant_0 as int) < old(self).chunk.constants@.len(),
        ensures
            Self::kept(*old(self), *final(self)),
            match exec_step(
                old(self).machine(),
                old(self).chunk.code@[i as int],
                pool_of(old(self).chunk),
                old(self).chunk.line,
                computed,
            ) {
                Ok(m) => r is Ok && final(self).machine() == m,
                Err(e) => r is Err && r->Err_0@ == e && final(self).machine() == old(self).machine(),
            },
    {
        let (col, len, op) = self.chunk.code[i];
        match op {
            OpCode::OpConstant(idx) => {
                let v = self.chunk.constants[idx as usize].duplicate();
                self.push_value(v, (col, len));
                Ok(())
            },
            OpCode::OpTrue => {
                self.push_value(Value::Boolean(true), (col, len));
                Ok(())
            },
            OpCode::OpFalse => {
                self.push_value(Value::Boolean(false), (col, len));
                Ok(())
            },
            OpCode::OpNil => {
                self.push_value(Value::Nil, (col, len));
                Ok(())
            },
            OpCode::OpNot | OpCode::OpNegate => self.unary_op(op, col, len),
            OpCode::OpEqual => {
                let n = self.stack.len();
                let eq = values_equal(&self.stack[n - 2], &self.stack[n - 1]);
                let span = Self::merge_spans(self.positions[n - 2], self.positions[n - 1]);
                self.combine_top(Value::Boolean(eq), span);
                Ok(())
            },
            OpCode::OpReturn => {
                let v = self.pop_value();
                self.result = Some(v);
                Ok(())
            },
            _ => self.binary_op(op, col, computed),
        }
    }

    /// What the number engine must compute for instruction `i`, if anything: the
    /// operation and the two numbers on top of the stack.
    fn engine_request(&self, i: usize) -> (r: Option<(NumOp, u64, u64)>)
        requires
            self.wf(),
            i < self.chunk.code@.len(),
        ensures
            r == request(self.machine(), self.chunk.code@[i as int].2),
    {
        let op = self.chunk.code[i].2;
        let n = self.stack.len();
        if n < 2 {
            return None;
        }
        let nop = match op {
            OpCode::OpAdd => NumOp::Add,
            OpCode::OpSub => NumOp::Sub,
            OpCode::OpMul => NumOp::Mul,
            OpCode::OpDiv => NumOp::Div,
            OpCode::OpMod => NumOp::Rem,
            OpCode::OpPow => NumOp::Pow,
            _ => {
                return None;
            },
        };
        match (&self.stack[n - 2], &self.stack[n - 1]) {
            (Value::Number(x), Value::Number(y)) => Some((nop, *x, *y)),
            _ => None,
        }
    }

    /// Runs `chunk` from its first instruction to a return, which sets the result, or to
    /// its end, with no result to begin with; stops at the first instruction whose operands have the wrong types, and
    /// leaves the machine as it was before that instruction. `engine` computes
    /// `+ - * / %` and exponentiation on two numbers; the run is the one of the model for
    /// the answers it gave, each to the question the model asks at that instruction.
    pub fn run<F: Fn(NumOp, u64, u64) -> u64>(&mut self, chunk: Chunk, engine: &F) -> (r: Result<(), Error>)
        requires
            old(self).wf(),
            chunk.fits(old(self).machine().stack.len() as int),
            forall|o: NumOp, x: u64, y: u64| engine.requires((o, x, y)),
        ensures
            final(self).wf(),
            final(self).is_verbose() == old(self).is_verbose(),
            exists|computed: Seq<u64>|
                {
                    &&& answered(restarted(old(self).machine()), chunk.code@, pool_of(chunk), chunk.line, 0, computed, *engine)
                    &&& final(self).machine() == settled(restarted(old(self).machine()), chunk.code@, pool_of(chunk), chunk.line, 0, computed)
                    &&& match #[trigger] outcome(restarted(old(self).machine()), chunk, computed) {
                        Ok(m) => r is Ok && final(self).machine() == m,
                        Err(e) => r is Err && r->Err_0@ == e,
                    }
                },
    {
        self.result = None;
        let ghost m0 = self.machine();
        self.chunk = chunk;
        let n = self.chunk.code.len();
        let ghost code = chunk.code@;
        let ghost pool = pool_of(chunk);
        let ghost line = chunk.line;
        let ghost mut answers: Seq<u64> = seq![];
        let mut i: usize = 0;
        while i < n
            invariant
                self.wf(),
                self.chunk == chunk,
                self.verbose == old(self).verbose,
                m0 == restarted(old(self).machine()),
                n == code.len(),
                code == chunk.code@,
                pool == pool_of(chunk),
                line == chunk.line,
                i <= n,
                answers.len() == i,
                forall|o: NumOp, x: u64, y: u64| engine.requires((o, x, y)),
                runs_from(code, chunk.constants@.len() as int, i as int, self.stack@.len() as int),
                forall|w: Seq<u64>|
                    w.len() >= i && #[trigger] w.subrange(0, i as int) == answers ==> {
                        &&& outcome(m0, chunk, w) == run_from(self.machine(), code, pool, line, i as int, w)
                        &&& settled(m0, code, pool, line, 0, w) == settled(self.machine(), code, pool, line, i as int, w)
                        &&& answered(m0, code, pool, line, 0, w, *engine) == answered(self.machine(), code, pool, line, i as int, w, *engine)
                    },
            decreases n - i,
        {
            let asked = self.engine_request(i);
            let computed = match asked {
                Some((nop, x, y)) => engine(nop, x, y),
                None => 0,
            };
            let ghost before = self.machine();
            let ghost taken = answers.push(computed);
            let step = self.execute(i, computed);
            proof {
                assert forall|w: Seq<u64>|
                    w.len() >= i + 1 && #[trigger] w.subrange(0, i + 1) == taken implies {
                        &&& outcome(m0, chunk, w) == run_from(before, code, pool, line, i as int, w)
                        &&& settled(m0, code, pool, line, 0, w) == settled(before, code, pool, line, i as int, w)
                        &&& answered(m0, code, pool, line, 0, w, *engine) == answered(before, code, pool, line, i as int, w, *engine)
                        &&& w[i as int] == computed
                    } by {
                    assert(w.subrange(0, i as int) =~= w.subrange(0, i + 1).subrange(0, i as int));
                    assert(taken.subrange(0, i as int) =~= answers);
                    assert(w.subrange(0, i + 1)[i as int] == w[i as int]);
                }
                assert(taken.len() >= i + 1 && taken.subrange(0, i + 1) =~= taken);
                assert(taken[i as int] == computed);
                assert(request(before, code[i as int].2) matches Some(q) ==> engine.ensures((q.0, q.1, q.2), computed));
            }
            match step {
                Err(e) => {
                    proof {
                        assert(exec_step(before, code[i as int], pool, line, computed) is Err);
                        assert(outcome(restarted(old(self).machine()), chunk, taken) is Err);
                        assert(answered(before, code, pool, line, i as int, taken, *engine));
                        assert(settled(before, code, pool, line, i as int, taken) == before);
                    }
                    return Err(e);
                },
                Ok(()) => {},
            }
            if let OpCode::OpReturn = self.chunk.code[i].2 {
                proof {
                    assert(run_from(before, code, pool, line, i as int, taken) == Ok::<Machine, Diagnostic>(self.machine()));
                    assert(outcome(restarted(old(self).machine()), chunk, taken) == Ok::<Machine, Diagnostic>(self.machine()));
                    assert(answered(before, code, pool, line, i as int, taken, *engine));
                    assert(settled(before, code, pool, line, i as int, taken) == self.machine());
                }
                return Ok(());
            }
            proof {
                answers = taken;
            }
            i = i + 1;
        }
        proof {
            assert(answers.len() >= i && answers.subrange(0, i as int) =~= answers);
        }
        Ok(())
    }

    /// The chunk loaded for running.
    pub closed spec fn loaded(&self) -> Chunk {
        self.chunk
    }

    /// Loads `chunk` to run one instruction at a time, with no result yet.
    pub fn load(&mut self, chunk: Chunk)
        requires
            old(self).wf(),
        ensures
            final(self).wf(),
            final(self).loaded() == chunk,
            final(self).machine() == restarted(old(self).machine()),
            final(self).is_verbose() == old(self).is_verbose(),
    {
        self.chunk = chunk;
        self.result = None;
    }

    /// Whether instruction `i` of the loaded chunk can run now: it exists, the stack holds
    /// the values it takes, and the pool holds the constant it names.
    pub fn can_step(&self, i: usize) -> (r: bool)
        requires
            self.wf(),
        ensures
            r == (i < self.loaded().code@.len() && self.machine().stack.len() >= crate::chunk::pops(
                self.loaded().code@[i as int].2,
            ) && (self.loaded().code@[i as int].2 is OpConstant ==> (
            self.loaded().code@[i as int].2->OpConstant_0 as int) < self.loaded().constants@.len())),
    {
        if i >= self.chunk.code.len() {
            return false;
        }
        let op = self.chunk.code[i].2;
        let p: usize = match op {
            OpCode::OpConstant(_) | OpCode::OpTrue | OpCode::OpFalse | OpCode::OpNil => 0,
            OpCode::OpNegate | OpCode::OpNot | OpCode::OpReturn => 1,
            _ => 2,
        };
        if self.stack.len() < p {
            return false;
        }
        match op {
            OpCode::OpConstant(idx) => (idx as usize) < self.chunk.constants.len(),
            _ => true,
        }
    }

    /// Runs instruction `i` of the loaded chunk, asking `engine` the question the model
    /// asks there, if any; returns whether the instruction was a return. A failing
    /// instruction leaves the machine as it was.
    pub fn step<F: Fn(NumOp, u64, u64) -> u64>(&mut self, i: usize, engine: &F) -> (r: Result<bool, Error>)
        requires
            old(self).wf(),
            i < old(self).loaded().code@.len(),
            old(self).machine().stack.len() >= crate::chunk::pops(old(self).loaded().code@[i as int].2),
            old(self).loaded().code@[i as int].2 is OpConstant ==> (
            old(self).loaded().code@[i as int].2->OpConstant_0 as int) < old(self).loaded().constants@.len(),
            forall|o: NumOp, x: u64, y: u64| engine.requires((o, x, y)),
        ensures
            final(self).wf(),
            final(self).loaded() == old(self).loaded(),
            final(self).is_verbose() == old(self).is_verbose(),
            exists|computed: u64|
                {
                    &&& (request(old(self).machine(), old(self).loaded().code@[i as int].2) matches Some(q)
                        ==> engine.ensures((q.0, q.1, q.2), computed))
                    &&& match #[trigger] exec_step(
                        old(self).machine(),
                        old(self).loaded().code@[i as int],
                        pool_of(old(self).loaded()),
                        old(self).loaded().line,
                        computed,
                    ) {
                        Ok(m2) => r == Ok::<bool, Error>(old(self).loaded().code@[i as int].2 is OpReturn)
                            && final(self).machine() == m2,
                        Err(e) => r is Err && r->Err_0@ == e && final(self).machine() == old(self).machine(),
                    }
                },
    {
        let computed = match self.engine_request(i) {
            Some((nop, x, y)) => engine(nop, x, y),
            None => 0,
        };
        let is_return = matches!(self.chunk.code[i].2, OpCode::OpReturn);
        match self.execute(i, computed) {
            Err(e) => Err(e),
            Ok(()) => Ok(is_return),
        }
    }

    /// The value the last return handed back.
    pub fn result(&self) -> (r: &Option<Value>)
        ensures
            match *r {
                Some(v) => self.machine().result == Some(v@),
                None => self.machine().result is None,
            },
    {
        &self.result
    }

    /// The value stack, bottom first.
    pub fn stack(&self) -> (r: &Vec<Value>)
        ensures
            data_of(r@) == self.machine().stack,
    {
        &self.stack
    }

    /// The source span of each value on the stack.
    pub fn positions(&self) -> (r: &Vec<(usize, usize)>)
        ensures
            r@ == self.machine().spans,
    {
        &self.positions
    }
}

} // verus!
