use vstd::prelude::*;
use crate::chunk::{
    lemma_effect_append,
    lemma_effect_extend,
    lemma_effect_runs,
    lemma_effect_shift,
    runs_from,
    stack_effect,
    Chunk,
    OpCode,
    MAX_CONSTANTS,
};
use crate::error::{Diagnostic, Error};
use crate::lexer::{Lexeme, Token, TokenKind};
use crate::precedence::{get_rule, precedence_of, prefix_of, Precedence, Prefix};
use crate::value::Value;

verus! {

/// The tokens of `t` from offset `i` on that are not comments, each paired with whether a
/// comment stands right before it; `after` says whether the token before `i` is one.
pub open spec fn significant_from(t: Seq<Token>, i: int, after: bool) -> Seq<(Token, bool)>
    decreases t.len() - i,
{
    if i < 0 || i >= t.len() {
        seq![]
    } else if t[i].kind is Comment {
        significant_from(t, i + 1, true)
    } else {
        seq![(t[i], after)] + significant_from(t, i + 1, false)
    }
}

/// The view of a token stream that the compiler reads: its tokens but the comments.
pub open spec fn significant(t: Seq<Token>) -> Seq<(Token, bool)> {
    significant_from(t, 0, false)
}

/// What compilation has produced so far: the position in the significant tokens, the
/// instructions and the constants.
pub ghost struct Emitted {
    pub pos: int,
    pub code: Seq<(usize, usize, OpCode)>,
    pub constants: Seq<Value>,
}

pub open spec fn start() -> Emitted {
    Emitted { pos: 0, code: seq![], constants: seq![] }
}

pub open spec fn emit(st: Emitted, op: OpCode, col: usize, len: usize) -> Emitted {
    Emitted { code: st.code.push((col, len, op)), ..st }
}

pub open spec fn advanced(st: Emitted) -> Emitted {
    Emitted { pos: st.pos + 1, ..st }
}

pub open spec fn emit_constant(st: Emitted, v: Value, line: usize, col: usize, len: usize) -> Result<Emitted, Diagnostic> {
    if st.constants.len() < MAX_CONSTANTS {
        Ok(
            emit(
                Emitted { constants: st.constants.push(v), ..st },
                OpCode::OpConstant(st.constants.len() as u16),
                col,
                len,
            ),
        )
    } else {
        Err(Diagnostic::TooManyConstants(line as int, col as int, len as int))
    }
}

pub open spec fn literal_op(k: TokenKind) -> OpCode {
    match k {
        TokenKind::False => OpCode::OpFalse,
        TokenKind::True => OpCode::OpTrue,
        _ => OpCode::OpNil,
    }
}

pub open spec fn unary_op(k: TokenKind) -> OpCode {
    match k {
        TokenKind::Minus => OpCode::OpNegate,
        _ => OpCode::OpNot,
    }
}

/// The instruction of a binary operator. `!=`, `>=` and `<=` are the opposite comparison,
/// which an `OpNot` then follows.
pub open spec fn binary_op(k: TokenKind) -> OpCode {
    match k {
        TokenKind::Plus => OpCode::OpAdd,
        TokenKind::Minus => OpCode::OpSub,
        TokenKind::Asterisk => OpCode::OpMul,
        TokenKind::Slash => OpCode::OpDiv,
        TokenKind::Percent => OpCode::OpMod,
        TokenKind::Hat => OpCode::OpPow,
        TokenKind::Equals => OpCode::OpEqual,
        TokenKind::Greater => OpCode::OpGreater,
        TokenKind::Less => OpCode::OpLess,
        TokenKind::NotEquals => OpCode::OpEqual,
        TokenKind::GreaterEq => OpCode::OpLess,
        _ => OpCode::OpGreater,
    }
}

pub open spec fn negated(k: TokenKind) -> bool {
    k is NotEquals || k is GreaterEq || k is LessEq
}

/// Takes a token of the expected kind. Where the input ends instead right after a
/// comment, the error points at the last token before the comment.
pub open spec fn consume(toks: Seq<(Token, bool)>, st: Emitted, expected: Lexeme) -> Result<(Emitted, usize), Diagnostic> {
    let t = toks[st.pos].0;
    if t.kind.lexeme() == expected {
        Ok((advanced(st), t.col))
    } else if t.kind is EOI && expected != Lexeme::EOI {
        if toks[st.pos].1 && st.pos >= 1 {
            let b = toks[st.pos - 1].0;
            Err(Diagnostic::ExpectedToken(expected, b.line as int, b.col as int, 1))
        } else {
            Err(Diagnostic::ExpectedToken(expected, t.line as int, t.col as int, 0))
        }
    } else {
        Err(Diagnostic::ExpectedToken(expected, t.line as int, t.col as int, t.len as int))
    }
}

/// Compiles an expression whose operators bind at least as tightly as `prec`.
pub open spec fn parse_prec(toks: Seq<(Token, bool)>, st: Emitted, prec: nat) -> Result<Emitted, Diagnostic>
    decreases toks.len() - st.pos, 0nat,
{
    if st.pos < 0 || st.pos >= toks.len() {
        Ok(st)
    } else {
        let t = toks[st.pos].0;
        match prefix_of(t.kind) {
            None => Err(Diagnostic::ExpectedExpression(t.line as int, t.col as int, t.len as int)),
            Some(pre) => match apply_prefix(toks, advanced(st), pre) {
                Err(e) => Err(e),
                Ok(st2) => if st.pos < st2.pos < toks.len() {
                    infix_loop(toks, st2, prec)
                } else {
                    Ok(st2)
                },
            },
        }
    }
}

/// Compiles the expression that the token just taken begins, by its prefix rule.
pub open spec fn apply_prefix(toks: Seq<(Token, bool)>, st: Emitted, pre: Prefix) -> Result<Emitted, Diagnostic>
    decreases toks.len() - st.pos, 1nat,
{
    let t = toks[st.pos - 1].0;
    if st.pos < 1 || st.pos >= toks.len() {
        Ok(st)
    } else {
        match pre {
            Prefix::Literal => Ok(emit(st, literal_op(t.kind), t.col, t.len)),
            Prefix::Number => emit_constant(st, Value::Number(t.kind->Number_0), t.line, t.col, t.len),
            Prefix::String => emit_constant(st, Value::String(t.kind->String_0), t.line, t.col, t.len),
            Prefix::Unary => match parse_prec(toks, st, Precedence::Unary.rank()) {
                Ok(st2) => Ok(emit(st2, unary_op(t.kind), t.col, t.len)),
                Err(e) => Err(e),
            },
            Prefix::Grouping => match parse_prec(toks, st, Precedence::Assignment.rank()) {
                Ok(st2) => if 0 <= st2.pos < toks.len() {
                    match consume(toks, st2, Lexeme::RightParen) {
                        Ok(r) => Ok(r.0),
                        Err(e) => Err(e),
                    }
                } else {
                    Ok(st2)
                },
                Err(e) => Err(e),
            },
        }
    }
}

/// Compiles the right operand of the binary operator just taken, one level tighter than
/// the operator, then the operator.
pub open spec fn apply_binary(toks: Seq<(Token, bool)>, st: Emitted) -> Result<Emitted, Diagnostic>
    decreases toks.len() - st.pos, 1nat,
{
    let t = toks[st.pos - 1].0;
    if st.pos < 1 || st.pos >= toks.len() {
        Ok(st)
    } else {
        match parse_prec(toks, st, precedence_of(t.kind).next().rank()) {
            Err(e) => Err(e),
            Ok(st2) => {
                let st3 = emit(st2, binary_op(t.kind), t.col, t.len);
                Ok(
                    if negated(t.kind) {
                        emit(st3, OpCode::OpNot, t.col, t.len)
                    } else {
                        st3
                    },
                )
            },
        }
    }
}

/// Takes binary operators that bind at least as tightly as `prec`, with their right
/// operands, while there are any.
pub open spec fn infix_loop(toks: Seq<(Token, bool)>, st: Emitted, prec: nat) -> Result<Emitted, Diagnostic>
    decreases toks.len() - st.pos, 1nat,
{
    if st.pos < 0 || st.pos >= toks.len() {
        Ok(st)
    } else {
        let k = toks[st.pos].0.kind;
        if 1 <= precedence_of(k).rank() && prec <= precedence_of(k).rank() {
            match apply_binary(toks, advanced(st)) {
                Err(e) => Err(e),
                Ok(st2) => if st.pos < st2.pos < toks.len() {
                    infix_loop(toks, st2, prec)
                } else {
                    Ok(st2)
                },
            }
        } else {
            Ok(st)
        }
    }
}

/// Compiles the program from `st` on: nothing where the input is empty, else one
/// expression that must run to the end of input, then a return.
pub open spec fn compile_from(toks: Seq<(Token, bool)>, st: Emitted) -> Result<Emitted, Diagnostic> {
    if st.pos < 0 || st.pos >= toks.len() || toks[st.pos].0.kind is EOI {
        Ok(st)
    } else {
        match parse_prec(toks, st, Precedence::Assignment.rank()) {
            Err(e) => Err(e),
            Ok(st1) => if 0 <= st1.pos < toks.len() {
                match consume(toks, st1, Lexeme::EOI) {
                    Err(e) => Err(e),
                    Ok(r) => Ok(emit(r.0, OpCode::OpReturn, r.1, 0)),
                }
            } else {
                Ok(st1)
            },
        }
    }
}

/// What a whole token stream compiles to.
pub open spec fn program(tokens: Seq<Token>) -> Result<Emitted, Diagnostic> {
    compile_from(significant(tokens), start())
}

/// The two streams have the same length and, place by place, tokens of the same kind.
pub open spec fn same_kinds(t1: Seq<(Token, bool)>, t2: Seq<(Token, bool)>) -> bool {
    &&& t1.len() == t2.len()
    &&& forall|i: int| 0 <= i < t1.len() ==> (#[trigger] t1[i]).0.kind == t2[i].0.kind
}

/// The instructions of a code sequence, without their spans.
pub open spec fn ops(code: Seq<(usize, usize, OpCode)>) -> Seq<OpCode> {
    code.map_values(|e: (usize, usize, OpCode)| e.2)
}

/// Two compilation states at the same position, with the same instructions and constants.
pub open spec fn matched(a: Emitted, b: Emitted) -> bool {
    &&& a.pos == b.pos
    &&& ops(a.code) == ops(b.code)
    &&& a.constants == b.constants
}

pub open spec fn agree(r1: Result<Emitted, Diagnostic>, r2: Result<Emitted, Diagnostic>) -> bool {
    &&& (r1 is Ok <==> r2 is Ok)
    &&& (r1 is Ok ==> matched(r1->Ok_0, r2->Ok_0))
}

proof fn lemma_emit_matched(a: Emitted, b: Emitted, op: OpCode, c1: usize, l1: usize, c2: usize, l2: usize)
    requires
        matched(a, b),
    ensures
        matched(emit(a, op, c1, l1), emit(b, op, c2, l2)),
{
    assert(ops(a.code.push((c1, l1, op))) =~= ops(a.code).push(op));
    assert(ops(b.code.push((c2, l2, op))) =~= ops(b.code).push(op));
}

proof fn lemma_agree_prec(t1: Seq<(Token, bool)>, t2: Seq<(Token, bool)>, s1: Emitted, s2: Emitted, prec: nat)
    requires
        same_kinds(t1, t2),
        matched(s1, s2),
    ensures
        agree(parse_prec(t1, s1, prec), parse_prec(t2, s2, prec)),
    decreases t1.len() - s1.pos, 0nat,
{
    if 0 <= s1.pos < t1.len() {
        let k = t1[s1.pos].0.kind;
        assert(t2[s2.pos].0.kind == k);
        if let Some(pre) = prefix_of(k) {
            lemma_agree_prefix(t1, t2, advanced(s1), advanced(s2), pre);
            let r1 = apply_prefix(t1, advanced(s1), pre);
            let r2 = apply_prefix(t2, advanced(s2), pre);
            if let Ok(a) = r1 {
                if s1.pos < a.pos < t1.len() {
                    lemma_agree_loop(t1, t2, a, r2->Ok_0, prec);
                }
            }
        }
    }
}

proof fn lemma_agree_prefix(t1: Seq<(Token, bool)>, t2: Seq<(Token, bool)>, s1: Emitted, s2: Emitted, pre: Prefix)
    requires
        same_kinds(t1, t2),
        matched(s1, s2),
    ensures
        agree(apply_prefix(t1, s1, pre), apply_prefix(t2, s2, pre)),
    decreases t1.len() - s1.pos, 1nat,
{
    if 1 <= s1.pos < t1.len() {
        let a = t1[s1.pos - 1].0;
        let b = t2[s2.pos - 1].0;
        assert(a.kind == b.kind);
        match pre {
            Prefix::Literal => {
                lemma_emit_matched(s1, s2, literal_op(a.kind), a.col, a.len, b.col, b.len);
            },
            Prefix::Number | Prefix::String => {
                let v = if pre is Number {
                    Value::Number(a.kind->Number_0)
                } else {
                    Value::String(a.kind->String_0)
                };
                if s1.constants.len() < MAX_CONSTANTS {
                    lemma_emit_matched(
                        Emitted { constants: s1.constants.push(v), ..s1 },
                        Emitted { constants: s2.constants.push(v), ..s2 },
                        OpCode::OpConstant(s1.constants.len() as u16),
                        a.col,
                        a.len,
                        b.col,
                        b.len,
                    );
                }
            },
            Prefix::Unary => {
                lemma_agree_prec(t1, t2, s1, s2, Precedence::Unary.rank());
                if let Ok(x) = parse_prec(t1, s1, Precedence::Unary.rank()) {
                    let y = parse_prec(t2, s2, Precedence::Unary.rank())->Ok_0;
                    lemma_emit_matched(x, y, unary_op(a.kind), a.col, a.len, b.col, b.len);
                }
            },
            Prefix::Grouping => {
                lemma_agree_prec(t1, t2, s1, s2, Precedence::Assignment.rank());
                if let Ok(x) = parse_prec(t1, s1, Precedence::Assignment.rank()) {
                    let y = parse_prec(t2, s2, Precedence::Assignment.rank())->Ok_0;
                    if 0 <= x.pos < t1.len() {
                        assert(t1[x.pos].0.kind == t2[y.pos].0.kind);
                    }
                }
            },
        }
    }
}

proof fn lemma_agree_binary(t1: Seq<(Token, bool)>, t2: Seq<(Token, bool)>, s1: Emitted, s2: Emitted)
    requires
        same_kinds(t1, t2),
        matched(s1, s2),
    ensures
        agree(apply_binary(t1, s1), apply_binary(t2, s2)),
    decreases t1.len() - s1.pos, 1nat,
{
    if 1 <= s1.pos < t1.len() {
        let a = t1[s1.pos - 1].0;
        let b = t2[s2.pos - 1].0;
        assert(a.kind == b.kind);
        let p = precedence_of(a.kind).next().rank();
        lemma_agree_prec(t1, t2, s1, s2, p);
        if let Ok(x) = parse_prec(t1, s1, p) {
            let y = parse_prec(t2, s2, p)->Ok_0;
            lemma_emit_matched(x, y, binary_op(a.kind), a.col, a.len, b.col, b.len);
            let x3 = emit(x, binary_op(a.kind), a.col, a.len);
            let y3 = emit(y, binary_op(b.kind), b.col, b.len);
            lemma_emit_matched(x3, y3, OpCode::OpNot, a.col, a.len, b.col, b.len);
        }
    }
}

proof fn lemma_agree_loop(t1: Seq<(Token, bool)>, t2: Seq<(Token, bool)>, s1: Emitted, s2: Emitted, prec: nat)
    requires
        same_kinds(t1, t2),
        matched(s1, s2),
    ensures
        agree(infix_loop(t1, s1, prec), infix_loop(t2, s2, prec)),
    decreases t1.len() - s1.pos, 1nat,
{
    if 0 <= s1.pos < t1.len() {
        let k = t1[s1.pos].0.kind;
        assert(t2[s2.pos].0.kind == k);
        if 1 <= precedence_of(k).rank() && prec <= precedence_of(k).rank() {
            lemma_agree_binary(t1, t2, advanced(s1), advanced(s2));
            if let Ok(a) = apply_binary(t1, advanced(s1)) {
                if s1.pos < a.pos < t1.len() {
                    lemma_agree_loop(t1, t2, a, apply_binary(t2, advanced(s2))->Ok_0, prec);
                }
            }
        }
    }
}

/// Comments change no instruction: two token streams whose tokens but the comments have
/// the same kinds, one for one, both compile or both fail, and when they compile they give
/// the same instructions over the same constants. Only the source spans may differ.
pub proof fn lemma_comments_transparent(t1: Seq<Token>, t2: Seq<Token>)
    requires
        same_kinds(significant(t1), significant(t2)),
    ensures
        program(t1) is Ok <==> program(t2) is Ok,
        program(t1) is Ok ==> ops(program(t1)->Ok_0.code) == ops(program(t2)->Ok_0.code)
            && program(t1)->Ok_0.constants == program(t2)->Ok_0.constants,
{
    let (k1, k2) = (significant(t1), significant(t2));
    assert(ops(start().code) =~= ops(start().code));
    if 0 < k1.len() {
        assert(k1[0].0.kind == k2[0].0.kind);
        if !(k1[0].0.kind is EOI) {
            let p = Precedence::Assignment.rank();
            lemma_agree_prec(k1, k2, start(), start(), p);
            if let Ok(x) = parse_prec(k1, start(), p) {
                let y = parse_prec(k2, start(), p)->Ok_0;
                if 0 <= x.pos < k1.len() {
                    assert(k1[x.pos].0.kind == k2[y.pos].0.kind);
                    if let Ok(r) = consume(k1, x, Lexeme::EOI) {
                        let q = consume(k2, y, Lexeme::EOI)->Ok_0;
                        lemma_emit_matched(r.0, q.0, OpCode::OpReturn, r.1, 0, q.1, 0);
                    }
                }
            }
        }
    }
}

/// `b` carries on from `a`: its instructions begin with those of `a`, and its pool is no
/// smaller.
pub open spec fn grows(a: Emitted, b: Emitted) -> bool {
    &&& a.code.len() <= b.code.len()
    &&& b.code.subrange(0, a.code.len() as int) == a.code
    &&& a.constants.len() <= b.constants.len()
}

/// The instructions that `b` adds to `a` take the stack from height `from` to `to`.
pub open spec fn adds(a: Emitted, b: Emitted, from: int, to: int) -> bool {
    &&& grows(a, b)
    &&& stack_effect(b.code, b.constants.len() as int, a.code.len() as int, b.code.len() as int, from) == Some(to)
}

/// The significant tokens end with the end of input token.
pub open spec fn closed_stream(toks: Seq<(Token, bool)>) -> bool {
    toks.len() > 0 && toks.last().0.kind is EOI
}

proof fn lemma_grows_trans(a: Emitted, b: Emitted, c: Emitted)
    requires
        grows(a, b),
        grows(b, c),
    ensures
        grows(a, c),
{
    assert(c.code.subrange(0, a.code.len() as int) =~= c.code.subrange(0, b.code.len() as int).subrange(
        0,
        a.code.len() as int,
    ));
}

/// Two stretches one after the other add up.
proof fn lemma_adds_chain(a: Emitted, b: Emitted, c: Emitted, x: int, y: int, z: int)
    requires
        adds(a, b, x, y),
        adds(b, c, y, z),
    ensures
        adds(a, c, x, z),
{
    lemma_grows_trans(a, b, c);
    lemma_effect_extend(
        b.code,
        c.code,
        b.constants.len() as int,
        c.constants.len() as int,
        a.code.len() as int,
        b.code.len() as int,
        x,
    );
    lemma_effect_append(
        c.code,
        c.constants.len() as int,
        a.code.len() as int,
        b.code.len() as int,
        c.code.len() as int,
        x,
    );
}

proof fn lemma_adds_shift(a: Emitted, b: Emitted, x: int, y: int, k: int)
    requires
        adds(a, b, x, y),
        k >= 0,
    ensures
        adds(a, b, x + k, y + k),
{
    lemma_effect_shift(b.code, b.constants.len() as int, a.code.len() as int, b.code.len() as int, x, k);
}

proof fn lemma_adds_none(a: Emitted, x: int)
    ensures
        adds(a, a, x, x),
{
    assert(a.code.subrange(0, a.code.len() as int) =~= a.code);
}

/// One instruction that is no return and names a constant of the pool, if any.
proof fn lemma_adds_emit(a: Emitted, op: OpCode, col: usize, len: usize, x: int)
    requires
        x >= crate::chunk::pops(op),
        !(op is OpReturn),
        op is OpConstant ==> (op->OpConstant_0 as int) < a.constants.len(),
    ensures
        adds(a, emit(a, op, col, len), x, x - crate::chunk::pops(op) + 1),
{
    let b = emit(a, op, col, len);
    assert(b.code.subrange(0, a.code.len() as int) =~= a.code);
    assert(b.code[a.code.len() as int].2 == op);
    let n = a.code.len() as int;
    assert(stack_effect(b.code, b.constants.len() as int, n + 1, n + 1, x - crate::chunk::pops(op) + 1)
        == Some(x - crate::chunk::pops(op) + 1));
}

proof fn lemma_adds_constant(a: Emitted, v: Value, line: usize, col: usize, len: usize)
    requires
        emit_constant(a, v, line, col, len) is Ok,
    ensures
        adds(a, emit_constant(a, v, line, col, len)->Ok_0, 0, 1),
{
    let b = Emitted { constants: a.constants.push(v), ..a };
    lemma_adds_emit(b, OpCode::OpConstant(a.constants.len() as u16), col, len, 0);
    assert(b.code.subrange(0, a.code.len() as int) =~= a.code);
}

proof fn lemma_prec_adds(toks: Seq<(Token, bool)>, st: Emitted, prec: nat)
    requires
        closed_stream(toks),
        0 <= st.pos < toks.len(),
        parse_prec(toks, st, prec) is Ok,
    ensures
        adds(st, parse_prec(toks, st, prec)->Ok_0, 0, 1),
        0 <= parse_prec(toks, st, prec)->Ok_0.pos < toks.len(),
    decreases toks.len() - st.pos, 0nat,
{
    let t = toks[st.pos].0;
    let pre = prefix_of(t.kind)->0;
    let s1 = advanced(st);
    lemma_prefix_adds(toks, s1, pre);
    let s2 = apply_prefix(toks, s1, pre)->Ok_0;
    assert(adds(st, s2, 0, 1));
    if st.pos < s2.pos < toks.len() {
        lemma_loop_adds(toks, s2, prec);
        lemma_adds_chain(st, s2, infix_loop(toks, s2, prec)->Ok_0, 0, 1, 1);
    }
}

proof fn lemma_prefix_adds(toks: Seq<(Token, bool)>, st: Emitted, pre: Prefix)
    requires
        closed_stream(toks),
        1 <= st.pos < toks.len(),
        prefix_of(toks[st.pos - 1].0.kind) == Some(pre),
        apply_prefix(toks, st, pre) is Ok,
    ensures
        adds(st, apply_prefix(toks, st, pre)->Ok_0, 0, 1),
        0 <= apply_prefix(toks, st, pre)->Ok_0.pos < toks.len(),
    decreases toks.len() - st.pos, 1nat,
{
    let t = toks[st.pos - 1].0;
    match pre {
        Prefix::Literal => {
            lemma_adds_emit(st, literal_op(t.kind), t.col, t.len, 0);
        },
        Prefix::Number => {
            lemma_adds_constant(st, Value::Number(t.kind->Number_0), t.line, t.col, t.len);
        },
        Prefix::String => {
            lemma_adds_constant(st, Value::String(t.kind->String_0), t.line, t.col, t.len);
        },
        Prefix::Unary => {
            let p = Precedence::Unary.rank();
            lemma_prec_adds(toks, st, p);
            let s2 = parse_prec(toks, st, p)->Ok_0;
            lemma_adds_emit(s2, unary_op(t.kind), t.col, t.len, 1);
            lemma_adds_chain(st, s2, emit(s2, unary_op(t.kind), t.col, t.len), 0, 1, 1);
        },
        Prefix::Grouping => {
            let p = Precedence::Assignment.rank();
            lemma_prec_adds(toks, st, p);
            let s2 = parse_prec(toks, st, p)->Ok_0;
            if 0 <= s2.pos < toks.len() {
                let s3 = consume(toks, s2, Lexeme::RightParen)->Ok_0.0;
                assert(s3.code == s2.code && s3.constants == s2.constants);
                assert(toks[s2.pos].0.kind.lexeme() == Lexeme::RightParen);
                assert(s2.pos != toks.len() - 1);
            }
        },
    }
}

proof fn lemma_binary_adds(toks: Seq<(Token, bool)>, st: Emitted)
    requires
        closed_stream(toks),
        1 <= st.pos < toks.len(),
        apply_binary(toks, st) is Ok,
    ensures
        adds(st, apply_binary(toks, st)->Ok_0, 1, 1),
        0 <= apply_binary(toks, st)->Ok_0.pos < toks.len(),
    decreases toks.len() - st.pos, 1nat,
{
    let t = toks[st.pos - 1].0;
    let p = precedence_of(t.kind).next().rank();
    lemma_prec_adds(toks, st, p);
    let s2 = parse_prec(toks, st, p)->Ok_0;
    lemma_adds_shift(st, s2, 0, 1, 1);
    let s3 = emit(s2, binary_op(t.kind), t.col, t.len);
    lemma_adds_emit(s2, binary_op(t.kind), t.col, t.len, 2);
    lemma_adds_chain(st, s2, s3, 1, 2, 1);
    if negated(t.kind) {
        lemma_adds_emit(s3, OpCode::OpNot, t.col, t.len, 1);
        lemma_adds_chain(st, s3, emit(s3, OpCode::OpNot, t.col, t.len), 1, 1, 1);
    }
}

proof fn lemma_loop_adds(toks: Seq<(Token, bool)>, st: Emitted, prec: nat)
    requires
        closed_stream(toks),
        infix_loop(toks, st, prec) is Ok,
    ensures
        adds(st, infix_loop(toks, st, prec)->Ok_0, 1, 1),
        0 <= st.pos < toks.len() ==> 0 <= infix_loop(toks, st, prec)->Ok_0.pos < toks.len(),
    decreases toks.len() - st.pos, 1nat,
{
    lemma_adds_none(st, 1);
    if 0 <= st.pos < toks.len() {
        let k = toks[st.pos].0.kind;
        if 1 <= precedence_of(k).rank() && prec <= precedence_of(k).rank() {
            let s1 = advanced(st);
            assert(st.pos + 1 < toks.len());
            lemma_binary_adds(toks, s1);
            let s2 = apply_binary(toks, s1)->Ok_0;
            if st.pos < s2.pos < toks.len() {
                lemma_loop_adds(toks, s2, prec);
                lemma_adds_chain(st, s2, infix_loop(toks, s2, prec)->Ok_0, 1, 1, 1);
            }
        }
    }
}

/// What the compiler produces is safe to run: the chunk of every token stream that
/// compiles runs on an empty stack, never taking a value from an empty stack nor naming a
/// constant that its pool lacks. A chunk that is not empty ends with its only return,
/// which finds exactly one value on the stack.
pub proof fn lemma_compiled_chunk_runs(tokens: Seq<Token>)
    requires
        tokens.len() > 0,
        tokens.last().kind is EOI,
        program(tokens) is Ok,
    ensures
        runs_from(program(tokens)->Ok_0.code, program(tokens)->Ok_0.constants.len() as int, 0, 0),
        ({
            let (code, pool) = (program(tokens)->Ok_0.code, program(tokens)->Ok_0.constants.len() as int);
            code.len() == 0 || (code.last().2 is OpReturn && stack_effect(code, pool, 0, code.len() - 1, 0)
                == Some(1int))
        }),
{
    let toks = significant(tokens);
    lemma_significant_ends(tokens, 0, false);
    let st = start();
    if !(toks[0].0.kind is EOI) {
        let p = Precedence::Assignment.rank();
        lemma_prec_adds(toks, st, p);
        let s1 = parse_prec(toks, st, p)->Ok_0;
        if 0 <= s1.pos < toks.len() {
            let r = consume(toks, s1, Lexeme::EOI)->Ok_0;
            let fin = emit(r.0, OpCode::OpReturn, r.1, 0);
            let n = s1.code.len() as int;
            assert(fin.code.subrange(0, n) =~= s1.code);
            lemma_effect_extend(s1.code, fin.code, s1.constants.len() as int, fin.constants.len() as int, 0, n, 0);
            assert(fin.code[n].2 is OpReturn);
            assert(runs_from(fin.code, fin.constants.len() as int, n, 1));
            lemma_effect_runs(fin.code, fin.constants.len() as int, 0, n, 0);
            assert(program(tokens) == Ok::<Emitted, Diagnostic>(fin));
        } else {
            let n = s1.code.len() as int;
            assert(s1.code.subrange(0, 0) =~= start().code);
            lemma_effect_runs(s1.code, s1.constants.len() as int, 0, n, 0);
        }
    }
}

/// The instructions of a binary operator.
pub open spec fn operator_code(k: TokenKind) -> Seq<OpCode> {
    if negated(k) {
        seq![binary_op(k), OpCode::OpNot]
    } else {
        seq![binary_op(k)]
    }
}

proof fn lemma_no_comments(t: Seq<Token>, i: int)
    requires
        0 <= i <= t.len(),
        forall|j: int| 0 <= j < t.len() ==> !(#[trigger] t[j].kind is Comment),
    ensures
        significant_from(t, i, false) == t.subrange(i, t.len() as int).map_values(|x: Token| (x, false)),
    decreases t.len() - i,
{
    if i < t.len() {
        lemma_no_comments(t, i + 1);
        assert(significant_from(t, i, false) =~= t.subrange(i, t.len() as int).map_values(|x: Token| (x, false)));
    } else {
        assert(t.subrange(i, t.len() as int).map_values(|x: Token| (x, false)) =~= Seq::<(Token, bool)>::empty());
    }
}

/// Precedence and left associativity: in `x op1 y op2 z`, with numbers for `x`, `y` and
/// `z`, the operator that binds more tightly is applied first; of two operators that bind
/// alike, the left one is.
pub proof fn lemma_precedence(tokens: Seq<Token>)
    requires
        tokens.len() == 6,
        tokens[0].kind is Number && tokens[2].kind is Number && tokens[4].kind is Number,
        tokens[5].kind is EOI,
        precedence_of(tokens[1].kind).rank() >= 1,
        precedence_of(tokens[3].kind).rank() >= 1,
    ensures
        program(tokens) is Ok,
        ops(program(tokens)->Ok_0.code) == if precedence_of(tokens[3].kind).rank() > precedence_of(
            tokens[1].kind,
        ).rank() {
            seq![OpCode::OpConstant(0), OpCode::OpConstant(1), OpCode::OpConstant(2)] + operator_code(
                tokens[3].kind,
            ) + operator_code(tokens[1].kind) + seq![OpCode::OpReturn]
        } else {
            seq![OpCode::OpConstant(0), OpCode::OpConstant(1)] + operator_code(tokens[1].kind)
                + seq![OpCode::OpConstant(2)] + operator_code(tokens[3].kind) + seq![OpCode::OpReturn]
        },
{
    assert forall|j: int| 0 <= j < tokens.len() implies !(#[trigger] tokens[j].kind is Comment) by {
        assert(j == 0 || j == 1 || j == 2 || j == 3 || j == 4 || j == 5);
    }
    lemma_no_comments(tokens, 0);
    let toks = significant(tokens);
    assert(toks.len() == 6);
    assert(forall|j: int| 0 <= j < 6 ==> #[trigger] toks[j] == (tokens[j], false));
    let (k1, k2) = (tokens[1].kind, tokens[3].kind);
    let (r1, r2) = (precedence_of(k1).rank(), precedence_of(k2).rank());
    assert(precedence_of(k1).next().rank() == r1 + 1);
    assert(precedence_of(k2).next().rank() == r2 + 1);
    let v = |j: int| Value::Number(tokens[j].kind->Number_0);
    let s0 = start();
    let c0 = emit(Emitted { pos: 1, constants: seq![v(0)], ..s0 }, OpCode::OpConstant(0), tokens[0].col, tokens[0].len);
    assert(parse_prec(toks, s0, 1) == infix_loop(toks, c0, 1));
    let c1 = emit(Emitted { pos: 3, constants: c0.constants.push(v(2)), ..c0 }, OpCode::OpConstant(1), tokens[2].col, tokens[2].len);
    let c2_of = |st: Emitted| emit(Emitted { pos: 5, constants: st.constants.push(v(4)), ..st }, OpCode::OpConstant(2), tokens[4].col, tokens[4].len);
    let with_op = |st: Emitted, k: TokenKind, t: Token| if negated(k) {
        emit(emit(st, binary_op(k), t.col, t.len), OpCode::OpNot, t.col, t.len)
    } else {
        emit(st, binary_op(k), t.col, t.len)
    };
    assert(infix_loop(toks, c2_of(c1), r2 + 1) == Ok::<Emitted, Diagnostic>(c2_of(c1)));
    assert(parse_prec(toks, advanced(Emitted { pos: 3, ..c1 }), r2 + 1) == Ok::<Emitted, Diagnostic>(c2_of(c1)));
    let fin = if r2 > r1 {
        let inner = with_op(c2_of(c1), k2, tokens[3]);
        assert(apply_binary(toks, Emitted { pos: 4, ..c1 }) == Ok::<Emitted, Diagnostic>(inner));
        assert(infix_loop(toks, inner, r1 + 1) == Ok::<Emitted, Diagnostic>(inner));
        assert(infix_loop(toks, c1, r1 + 1) == Ok::<Emitted, Diagnostic>(inner));
        assert(parse_prec(toks, Emitted { pos: 2, ..c0 }, r1 + 1) == Ok::<Emitted, Diagnostic>(inner));
        let outer = with_op(inner, k1, tokens[1]);
        assert(apply_binary(toks, Emitted { pos: 2, ..c0 }) == Ok::<Emitted, Diagnostic>(outer));
        assert(infix_loop(toks, outer, 1) == Ok::<Emitted, Diagnostic>(outer));
        assert(infix_loop(toks, c0, 1) == Ok::<Emitted, Diagnostic>(outer));
        outer
    } else {
        assert(infix_loop(toks, c1, r1 + 1) == Ok::<Emitted, Diagnostic>(c1));
        assert(parse_prec(toks, Emitted { pos: 2, ..c0 }, r1 + 1) == Ok::<Emitted, Diagnostic>(c1));
        let left = with_op(c1, k1, tokens[1]);
        assert(apply_binary(toks, Emitted { pos: 2, ..c0 }) == Ok::<Emitted, Diagnostic>(left));
        let right = with_op(c2_of(left), k2, tokens[3]);
        assert(infix_loop(toks, c2_of(left), r2 + 1) == Ok::<Emitted, Diagnostic>(c2_of(left)));
        assert(apply_binary(toks, Emitted { pos: 4, ..left }) == Ok::<Emitted, Diagnostic>(right));
        assert(infix_loop(toks, right, 1) == Ok::<Emitted, Diagnostic>(right));
        assert(infix_loop(toks, left, 1) == Ok::<Emitted, Diagnostic>(right));
        assert(infix_loop(toks, c0, 1) == Ok::<Emitted, Diagnostic>(right));
        right
    };
    assert(program(tokens) == Ok::<Emitted, Diagnostic>(emit(advanced(fin), OpCode::OpReturn, tokens[5].col, 0)));
    assert(ops(program(tokens)->Ok_0.code) =~= if r2 > r1 {
        seq![OpCode::OpConstant(0), OpCode::OpConstant(1), OpCode::OpConstant(2)] + operator_code(k2)
            + operator_code(k1) + seq![OpCode::OpReturn]
    } else {
        seq![OpCode::OpConstant(0), OpCode::OpConstant(1)] + operator_code(k1) + seq![OpCode::OpConstant(2)]
            + operator_code(k2) + seq![OpCode::OpReturn]
    });
}

proof fn lemma_significant_ends(t: Seq<Token>, i: int, after: bool)
    requires
        0 <= i < t.len(),
        !(t.last().kind is Comment),
    ensures
        significant_from(t, i, after).len() > 0,
        significant_from(t, i, after).last().0 == t.last(),
    decreases t.len() - i,
{
    if i + 1 < t.len() {
        lemma_significant_ends(t, i + 1, t[i].kind is Comment);
    }
    if !(t[i].kind is Comment) {
        let rest = significant_from(t, i + 1, false);
        assert((seq![(t[i], after)] + rest).last() == if rest.len() > 0 {
            rest.last()
        } else {
            (t[i], after)
        });
    }
}

/// Compiles a token stream into a chunk in one pass, by precedence climbing.
pub struct Compiler {
    tokens: Vec<(Token, bool)>,
    pub chunk: Chunk,
    ptr: usize,
}

impl Compiler {
    /// The significant tokens, each with whether a comment stands right before it.
    pub closed spec fn toks(&self) -> Seq<(Token, bool)> {
        self.tokens@
    }

    /// The position in the tokens, and the chunk's instructions and constants.
    pub closed spec fn emitted(&self) -> Emitted {
        Emitted { pos: self.ptr as int, code: self.chunk.code@, constants: self.chunk.constants@ }
    }

    pub closed spec fn wf(&self) -> bool {
        &&& 0 < self.tokens@.len() <= usize::MAX
        &&& self.tokens@.last().0.kind is EOI
        &&& self.ptr <= self.tokens@.len()
    }

    /// The source line that the chunk is for.
    pub closed spec fn line(&self) -> usize {
        self.chunk.line
    }

    /// Compilation has not gone past the end of input.
    pub closed spec fn ready(&self) -> bool {
        self.wf() && self.ptr < self.tokens@.len()
    }

    /// `new` keeps the tokens and the line of `old`, and is well formed.
    pub closed spec fn kept(old: Compiler, new: Compiler) -> bool {
        &&& new.wf()
        &&& new.tokens == old.tokens
        &&& new.chunk.line == old.chunk.line
    }

    /// A compiler at the start of `tokens`, a stream that ends with the end of input token,
    /// with an empty chunk for line 1. Comments are set aside here.
    pub fn new(tokens: Vec<Token>) -> (r: Compiler)
        requires
            tokens@.len() > 0,
            tokens@.last().kind is EOI,
        ensures
            r.ready(),
            r.toks() == significant(tokens@),
            r.emitted() == start(),
            r.line() == 1,
    {
        let mut kept: Vec<(Token, bool)> = Vec::new();
        let mut after = false;
        let mut i: usize = 0;
        let n = tokens.len();
        while i < n
            invariant
                n == tokens@.len(),
                i <= tokens@.len(),
                kept@.len() <= i,
                kept@ + significant_from(tokens@, i as int, after) == significant(tokens@),
            decreases tokens@.len() - i,
        {
            if matches!(tokens[i].kind, TokenKind::Comment) {
                after = true;
            } else {
                let ghost before = kept@;
                let ghost rest = significant_from(tokens@, i + 1, false);
                kept.push((tokens[i].duplicate(), after));
                assert(kept@ + rest =~= before + (seq![(tokens@[i as int], after)] + rest));
                after = false;
            }
            i = i + 1;
        }
        assert(kept@ =~= significant(tokens@));
        proof {
            lemma_significant_ends(tokens@, 0, false);
        }
        let r = Compiler { tokens: kept, chunk: Chunk::new(1), ptr: 0 };
        assert(r.emitted().code =~= start().code);
        assert(r.emitted().constants =~= start().constants);
        r
    }

    /// Compiles the whole token stream: nothing for an empty one, else one expression,
    /// which must run to the end of input, and a return. Stops at the first error.
    pub fn compile(&mut self) -> (r: Result<(), Error>)
        requires
            old(self).ready(),
        ensures
            Self::kept(*old(self), *final(self)),
            final(self).line() == old(self).line(),
            match compile_from(old(self).toks(), old(self).emitted()) {
                Ok(st) => r is Ok && final(self).emitted() == st,
                Err(e) => r is Err && r->Err_0@ == e,
            },
    {
        if matches!(self.tokens[self.ptr].0.kind, TokenKind::EOI) {
            return Ok(());
        }
        match self.parse_precedence(Precedence::Assignment) {
            Err(e) => {
                return Err(e);
            },
            Ok(()) => {},
        }
        match self.consume(TokenKind::EOI) {
            Err(e) => Err(e),
            Ok(end) => {
                self.chunk.write(OpCode::OpReturn, end, 0);
                Ok(())
            },
        }
    }

    /// Hands over the chunk.
    pub fn into_chunk(self) -> (r: Chunk)
        ensures
            r.code@ == self.emitted().code,
            r.constants@ == self.emitted().constants,
            r.line == self.line(),
    {
        self.chunk
    }

    /// Whether the current token is a binary operator that binds at least as tightly as
    /// `prec`.
    fn binds(&self, prec: Precedence) -> (r: bool)
        requires
            self.wf(),
        ensures
            r == (self.ptr < self.tokens@.len() && 1 <= precedence_of(
                self.tokens@[self.ptr as int].0.kind,
            ).rank() && prec.rank() <= precedence_of(self.tokens@[self.ptr as int].0.kind).rank()),
    {
        if self.ptr < self.tokens.len() {
            let p = get_rule(&self.tokens[self.ptr].0.kind).prec;
            p.at_least(Precedence::Assignment) && p.at_least(prec)
        } else {
            false
        }
    }

    fn parse_precedence(&mut self, prec: Precedence) -> (r: Result<(), Error>)
        requires
            old(self).ready(),
            prec.rank() >= 1,
        ensures
            Self::kept(*old(self), *final(self)),
            match parse_prec(old(self).toks(), old(self).emitted(), prec.rank()) {
                Ok(st) => r is Ok && final(self).emitted() == st,
                Err(e) => r is Err && r->Err_0@ == e,
            },
            r is Ok ==> old(self).emitted().pos < final(self).emitted().pos < final(self).toks().len(),
        decreases old(self).toks().len() - old(self).emitted().pos, 0nat,
    {
        let p = self.ptr;
        self.ptr = p + 1;
        let rule = get_rule(&self.tokens[p].0.kind);
        match rule.prefix {
            None => {
                let t = &self.tokens[p].0;
                Err(Error::ExpectedExpression(t.line, t.col, t.len))
            },
            Some(pre) => {
                let r = match pre {
                    Prefix::Grouping => self.grouping(),
                    Prefix::Unary => self.unary(),
                    Prefix::Literal => self.literal(),
                    Prefix::Number => self.number(),
                    Prefix::String => self.string(),
                };
                match r {
                    Err(e) => {
                        return Err(e);
                    },
                    Ok(()) => {},
                }
                let ghost st2 = self.emitted();
                while self.binds(prec)
                    invariant
                        Self::kept(*old(self), *self),
                        p == old(self).ptr,
                        p < self.ptr < self.tokens@.len(),
                        parse_prec(old(self).toks(), old(self).emitted(), prec.rank()) == infix_loop(
                            self.toks(),
                            st2,
                            prec.rank(),
                        ),
                        prec.rank() >= 1,
                        infix_loop(self.toks(), self.emitted(), prec.rank()) == infix_loop(
                            self.toks(),
                            st2,
                            prec.rank(),
                        ),
                    decreases self.tokens@.len() - self.ptr,
                {
                    self.ptr = self.ptr + 1;
                    match self.binary() {
                        Err(e) => {
                            return Err(e);
                        },
                        Ok(()) => {},
                    }
                }
                Ok(())
            },
        }
    }

    /// Takes a token of the kind expected, `)` or the end of input, and returns its column.
    fn consume(&mut self, expected: TokenKind) -> (r: Result<usize, Error>)
        requires
            old(self).ready(),
            expected is RightParen || expected is EOI,
        ensures
            Self::kept(*old(self), *final(self)),
            match consume(old(self).toks(), old(self).emitted(), expected.lexeme()) {
                Ok(res) => r == Ok::<usize, Error>(res.1) && final(self).emitted() == res.0,
                Err(e) => r is Err && r->Err_0@ == e,
            },
    {
        let p = self.ptr;
        let same = match (&self.tokens[p].0.kind, &expected) {
            (TokenKind::RightParen, TokenKind::RightParen) => true,
            (TokenKind::EOI, TokenKind::EOI) => true,
            _ => false,
        };
        let t = &self.tokens[p].0;
        if same {
            let col = t.col;
            self.ptr = p + 1;
            Ok(col)
        } else if matches!(t.kind, TokenKind::EOI) && !matches!(expected, TokenKind::EOI) {
            if self.tokens[p].1 && p >= 1 {
                let b = &self.tokens[p - 1].0;
                Err(Error::ExpectedToken(expected, b.line, b.col, 1))
            } else {
                Err(Error::ExpectedToken(expected, t.line, t.col, 0))
            }
        } else {
            Err(Error::ExpectedToken(expected, t.line, t.col, t.len))
        }
    }

    fn emit_constant(&mut self, v: Value, line: usize, col: usize, len: usize) -> (r: Result<(), Error>)
        requires
            old(self).wf(),
        ensures
            Self::kept(*old(self), *final(self)),
            final(self).ptr == old(self).ptr,
            match emit_constant(old(self).emitted(), v, line, col, len) {
                Ok(st) => r is Ok && final(self).emitted() == st,
                Err(e) => r is Err && r->Err_0@ == e,
            },
    {
        if self.chunk.constants.len() < MAX_CONSTANTS {
            let idx = self.chunk.add_constant(v);
            self.chunk.write(OpCode::OpConstant(idx), col, len);
            Ok(())
        } else {
            Err(Error::TooManyConstants(line, col, len))
        }
    }

    /// Emits `true`, `false` or `nil` for the literal just taken.
    pub(crate) fn literal(&mut self) -> (r: Result<(), Error>)
        requires
            old(self).ready(),
            old(self).emitted().pos >= 1,
            prefix_of(old(self).toks()[old(self).emitted().pos - 1].0.kind) == Some(Prefix::Literal),
        ensures
            Self::kept(*old(self), *final(self)),
            match apply_prefix(old(self).toks(), old(self).emitted(), Prefix::Literal) {
                Ok(st) => r is Ok && final(self).emitted() == st,
                Err(e) => r is Err && r->Err_0@ == e,
            },
            r is Ok ==> old(self).emitted().pos <= final(self).emitted().pos < final(self).toks().len(),
    {
        let t = &self.tokens[self.ptr - 1].0;
        let op = match t.kind {
            TokenKind::False => OpCode::OpFalse,
            TokenKind::True => OpCode::OpTrue,
            _ => OpCode::OpNil,
        };
        let (col, len) = (t.col, t.len);
        self.chunk.write(op, col, len);
        Ok(())
    }

    /// Emits the number just taken as a constant.
    pub(crate) fn number(&mut self) -> (r: Result<(), Error>)
        requires
            old(self).ready(),
            old(self).emitted().pos >= 1,
            prefix_of(old(self).toks()[old(self).emitted().pos - 1].0.kind) == Some(Prefix::Number),
        ensures
            Self::kept(*old(self), *final(self)),
            match apply_prefix(old(self).toks(), old(self).emitted(), Prefix::Number) {
                Ok(st) => r is Ok && final(self).emitted() == st,
                Err(e) => r is Err && r->Err_0@ == e,
            },
            r is Ok ==> old(self).emitted().pos <= final(self).emitted().pos < final(self).toks().len(),
    {
        let t = &self.tokens[self.ptr - 1].0;
        let bits = match t.kind {
            TokenKind::Number(b) => b,
            _ => 0,
        };
        let (line, col, len) = (t.line, t.col, t.len);
        self.emit_constant(Value::Number(bits), line, col, len)
    }

    /// Emits the string just taken as a constant.
    pub(crate) fn string(&mut self) -> (r: Result<(), Error>)
        requires
            old(self).ready(),
            old(self).emitted().pos >= 1,
            prefix_of(old(self).toks()[old(self).emitted().pos - 1].0.kind) == Some(Prefix::String),
        ensures
            Self::kept(*old(self), *final(self)),
            match apply_prefix(old(self).toks(), old(self).emitted(), Prefix::String) {
                Ok(st) => r is Ok && final(self).emitted() == st,
                Err(e) => r is Err && r->Err_0@ == e,
            },
            r is Ok ==> old(self).emitted().pos <= final(self).emitted().pos < final(self).toks().len(),
    {
        let t = &self.tokens[self.ptr - 1].0;
        let text = match &t.kind {
            TokenKind::String(s) => s.clone(),
            _ => String::new(),
        };
        let (line, col, len) = (t.line, t.col, t.len);
        self.emit_constant(Value::String(text), line, col, len)
    }

    /// Compiles a parenthesised expression, after its `(`.
    pub(crate) fn grouping(&mut self) -> (r: Result<(), Error>)
        requires
            old(self).ready(),
            old(self).emitted().pos >= 1,
        ensures
            Self::kept(*old(self), *final(self)),
            match apply_prefix(old(self).toks(), old(self).emitted(), Prefix::Grouping) {
                Ok(st) => r is Ok && final(self).emitted() == st,
                Err(e) => r is Err && r->Err_0@ == e,
            },
            r is Ok ==> old(self).emitted().pos <= final(self).emitted().pos < final(self).toks().len(),
        decreases old(self).toks().len() - old(self).emitted().pos, 1nat,
    {
        match self.parse_precedence(Precedence::Assignment) {
            Err(e) => {
                return Err(e);
            },
            Ok(()) => {},
        }
        match self.consume(TokenKind::RightParen) {
            Err(e) => Err(e),
            Ok(_) => Ok(()),
        }
    }

    /// Compiles the operand of the prefix operator just taken, then the operator.
    pub(crate) fn unary(&mut self) -> (r: Result<(), Error>)
        requires
            old(self).ready(),
            old(self).emitted().pos >= 1,
        ensures
            Self::kept(*old(self), *final(self)),
            match apply_prefix(old(self).toks(), old(self).emitted(), Prefix::Unary) {
                Ok(st) => r is Ok && final(self).emitted() == st,
                Err(e) => r is Err && r->Err_0@ == e,
            },
            r is Ok ==> old(self).emitted().pos <= final(self).emitted().pos < final(self).toks().len(),
        decreases old(self).toks().len() - old(self).emitted().pos, 1nat,
    {
        let p = self.ptr - 1;
        match self.parse_precedence(Precedence::Unary) {
            Err(e) => {
                return Err(e);
            },
            Ok(()) => {},
        }
        let t = &self.tokens[p].0;
        let op = match t.kind {
            TokenKind::Minus => OpCode::OpNegate,
            _ => OpCode::OpNot,
        };
        let (col, len) = (t.col, t.len);
        self.chunk.write(op, col, len);
        Ok(())
    }

    /// Compiles the right operand of the binary operator just taken, then the operator.
    pub(crate) fn binary(&mut self) -> (r: Result<(), Error>)
        requires
            old(self).ready(),
            old(self).emitted().pos >= 1,
            precedence_of(old(self).toks()[old(self).emitted().pos - 1].0.kind).rank() >= 1,
        ensures
            Self::kept(*old(self), *final(self)),
            match apply_binary(old(self).toks(), old(self).emitted()) {
                Ok(st) => r is Ok && final(self).emitted() == st,
                Err(e) => r is Err && r->Err_0@ == e,
            },
            r is Ok ==> old(self).emitted().pos <= final(self).emitted().pos < final(self).toks().len(),
        decreases old(self).toks().len() - old(self).emitted().pos, 1nat,
    {
        let p = self.ptr - 1;
        let rule = get_rule(&self.tokens[p].0.kind);
        match self.parse_precedence(rule.prec.shift()) {
            Err(e) => {
                return Err(e);
            },
            Ok(()) => {},
        }
        let t = &self.tokens[p].0;
        let op = match t.kind {
            TokenKind::Plus => OpCode::OpAdd,
            TokenKind::Minus => OpCode::OpSub,
            TokenKind::Asterisk => OpCode::OpMul,
            TokenKind::Slash => OpCode::OpDiv,
            TokenKind::Percent => OpCode::OpMod,
            TokenKind::Hat => OpCode::OpPow,
            TokenKind::Equals => OpCode::OpEqual,
            TokenKind::Greater => OpCode::OpGreater,
            TokenKind::Less => OpCode::OpLess,
            TokenKind::NotEquals => OpCode::OpEqual,
            TokenKind::GreaterEq => OpCode::OpLess,
            _ => OpCode::OpGreater,
        };
        let flip = matches!(t.kind, TokenKind::NotEquals | TokenKind::GreaterEq | TokenKind::LessEq);
        let (col, len) = (t.col, t.len);
        self.chunk.write(op, col, len);
        if flip {
            self.chunk.write(OpCode::OpNot, col, len);
        }
        Ok(())
    }
}

} // verus!
