use vstd::prelude::*;
use crate::value::Value;

verus! {

/// One bytecode instruction.
#[derive(Debug, Clone, Copy, PartialEq, Eq, Structural)]
pub enum OpCode {
    /// Pushes the constant at this index of the pool.
    OpConstant(u16),
    OpAdd,
    OpSub,
    OpMul,
    OpDiv,
    OpMod,
    OpPow,
    OpNegate,
    OpNot,
    OpTrue,
    OpFalse,
    OpNil,
    OpEqual,
    OpGreater,
    OpLess,
    OpReturn,
}

impl OpCode {
    /// The instruction's name in a disassembly.
    pub open spec fn spec_mnemonic(self) -> Seq<char> {
        match self {
            OpCode::OpConstant(_) => "OP_CONSTANT"@,
            OpCode::OpAdd => "OP_ADD"@,
            OpCode::OpSub => "OP_SUB"@,
            OpCode::OpMul => "OP_MUL"@,
            OpCode::OpDiv => "OP_DIV"@,
            OpCode::OpMod => "OP_MOD"@,
            OpCode::OpPow => "OP_POW"@,
            OpCode::OpTrue => "OP_TRUE"@,
            OpCode::OpFalse => "OP_FALSE"@,
            OpCode::OpNil => "OP_NIL"@,
            OpCode::OpReturn => "OP_RETURN"@,
            OpCode::OpNegate => "OP_NEGATE"@,
            OpCode::OpNot => "OP_NOT"@,
            OpCode::OpGreater => "OP_GREATER"@,
            OpCode::OpLess => "OP_LESS"@,
            OpCode::OpEqual => "OP_EQUAL"@,
        }
    }

    /// The instruction's name in a disassembly.
    pub fn mnemonic(&self) -> (r: &'static str)
        ensures
            r@ == self.spec_mnemonic(),
    {
        match self {
            OpCode::OpConstant(_) => "OP_CONSTANT",
            OpCode::OpAdd => "OP_ADD",
            OpCode::OpSub => "OP_SUB",
            OpCode::OpMul => "OP_MUL",
            OpCode::OpDiv => "OP_DIV",
            OpCode::OpMod => "OP_MOD",
            OpCode::OpPow => "OP_POW",
            OpCode::OpTrue => "OP_TRUE",
            OpCode::OpFalse => "OP_FALSE",
            OpCode::OpNil => "OP_NIL",
            OpCode::OpReturn => "OP_RETURN",
            OpCode::OpNegate => "OP_NEGATE",
            OpCode::OpNot => "OP_NOT",
            OpCode::OpGreater => "OP_GREATER",
            OpCode::OpLess => "OP_LESS",
            OpCode::OpEqual => "OP_EQUAL",
        }
    }
}

/// How many values an instruction takes off the stack.
pub open spec fn pops(op: OpCode) -> int {
    match op {
        OpCode::OpConstant(_) | OpCode::OpTrue | OpCode::OpFalse | OpCode::OpNil => 0,
        OpCode::OpNegate | OpCode::OpNot | OpCode::OpReturn => 1,
        _ => 2,
    }
}

/// Running `code` from instruction `i` on a stack of `depth` values never takes a value
/// from an empty stack, nor names a constant past the end of a pool of `pool` constants.
/// Nothing after a return runs.
pub open spec fn runs_from(code: Seq<(usize, usize, OpCode)>, pool: int, i: int, depth: int) -> bool
    decreases code.len() - i,
{
    if i < 0 || i >= code.len() {
        true
    } else {
        let op = code[i].2;
        &&& depth >= pops(op)
        &&& (op is OpConstant ==> (op->OpConstant_0 as int) < pool)
        &&& (op is OpReturn || runs_from(code, pool, i + 1, depth - pops(op) + 1))
    }
}

/// The stack height that running `code[i..j]` from height `depth` leaves, with a pool of
/// `pool` constants; `None` where an instruction there takes from an empty stack, names a
/// constant past the pool, or returns.
pub open spec fn stack_effect(code: Seq<(usize, usize, OpCode)>, pool: int, i: int, j: int, depth: int) -> Option<int>
    decreases j - i,
{
    if i >= j {
        Some(depth)
    } else {
        let op = code[i].2;
        if depth < pops(op) || op is OpReturn || (op is OpConstant && (op->OpConstant_0 as int) >= pool) {
            None
        } else {
            stack_effect(code, pool, i + 1, j, depth - pops(op) + 1)
        }
    }
}

pub(crate) proof fn lemma_effect_append(code: Seq<(usize, usize, OpCode)>, pool: int, i: int, j: int, k: int, d: int)
    requires
        i <= j <= k,
        stack_effect(code, pool, i, j, d) is Some,
    ensures
        stack_effect(code, pool, i, k, d) == stack_effect(code, pool, j, k, stack_effect(code, pool, i, j, d)->0),
    decreases j - i,
{
    if i < j {
        let op = code[i].2;
        lemma_effect_append(code, pool, i + 1, j, k, d - pops(op) + 1);
    }
}

pub(crate) proof fn lemma_effect_shift(code: Seq<(usize, usize, OpCode)>, pool: int, i: int, j: int, d: int, x: int)
    requires
        x >= 0,
        stack_effect(code, pool, i, j, d) is Some,
    ensures
        stack_effect(code, pool, i, j, d + x) == Some(stack_effect(code, pool, i, j, d)->0 + x),
    decreases j - i,
{
    if i < j {
        let op = code[i].2;
        lemma_effect_shift(code, pool, i + 1, j, d - pops(op) + 1, x);
    }
}

/// A longer code sequence with the same beginning, and a larger pool, leave the effect of
/// a stretch of that beginning as it was.
pub(crate) proof fn lemma_effect_extend(code: Seq<(usize, usize, OpCode)>, more: Seq<(usize, usize, OpCode)>, pool: int, bigger: int, i: int, j: int, d: int)
    requires
        0 <= i,
        j <= code.len() <= more.len(),
        more.subrange(0, code.len() as int) == code,
        pool <= bigger,
        stack_effect(code, pool, i, j, d) is Some,
    ensures
        stack_effect(more, bigger, i, j, d) == stack_effect(code, pool, i, j, d),
    decreases j - i,
{
    if i < j {
        assert(more[i] == more.subrange(0, code.len() as int)[i]);
        let op = code[i].2;
        lemma_effect_extend(code, more, pool, bigger, i + 1, j, d - pops(op) + 1);
    }
}

/// A stretch that leaves a height from which the rest of the code runs can itself run.
pub(crate) proof fn lemma_effect_runs(code: Seq<(usize, usize, OpCode)>, pool: int, i: int, j: int, d: int)
    requires
        0 <= i <= j,
        stack_effect(code, pool, i, j, d) is Some,
        runs_from(code, pool, j, stack_effect(code, pool, i, j, d)->0),
    ensures
        runs_from(code, pool, i, d),
    decreases j - i,
{
    if i < j {
        let op = code[i].2;
        lemma_effect_runs(code, pool, i + 1, j, d - pops(op) + 1);
    }
}

/// The most constants a chunk holds: an index must fit in 16 bits.
pub const MAX_CONSTANTS: usize = 65536;

/// Compiled code: instructions, each with the column and length of the source span that
/// produced it, and the pool of constants they refer to.
#[derive(Debug, Clone, PartialEq)]
pub struct Chunk {
    pub code: Vec<(usize, usize, OpCode)>,
    pub constants: Vec<Value>,
    pub line: usize,
}

impl Chunk {
    /// An empty chunk for source line `line`.
    pub fn new(line: usize) -> (r: Chunk)
        ensures
            r.code@ == Seq::<(usize, usize, OpCode)>::empty(),
            r.constants@ == Seq::<Value>::empty(),
            r.line == line,
    {
        Chunk { code: Vec::new(), constants: Vec::with_capacity(256), line }
    }

    /// The chunk can run on a stack of `depth` values.
    pub open spec fn fits(&self, depth: int) -> bool {
        runs_from(self.code@, self.constants@.len() as int, 0, depth)
    }

    /// Whether the chunk can run on a stack of `depth` values.
    pub fn can_run(&self, depth: usize) -> (r: bool)
        ensures
            r == self.fits(depth as int),
    {
        let n = self.code.len();
        let mut i: usize = 0;
        let mut d: u128 = depth as u128;
        while i < n
            invariant
                n == self.code@.len(),
                i <= n,
                d <= depth + i,
                runs_from(self.code@, self.constants@.len() as int, i as int, d as int)
                    == self.fits(depth as int),
            decreases n - i,
        {
            let op = self.code[i].2;
            let p: u128 = match op {
                OpCode::OpConstant(_) | OpCode::OpTrue | OpCode::OpFalse | OpCode::OpNil => 0,
                OpCode::OpNegate | OpCode::OpNot | OpCode::OpReturn => 1,
                _ => 2,
            };
            if d < p {
                return false;
            }
            if let OpCode::OpConstant(idx) = op {
                if idx as usize >= self.constants.len() {
                    return false;
                }
            }
            if let OpCode::OpReturn = op {
                return true;
            }
            d = d - p + 1;
            i = i + 1;
        }
        true
    }

    /// Appends an instruction.
    pub fn write(&mut self, code: OpCode, col: usize, len: usize)
        ensures
            final(self).code@ == old(self).code@.push((col, len, code)),
            final(self).constants == old(self).constants,
            final(self).line == old(self).line,
    {
        self.code.push((col, len, code));
    }

    /// Appends a constant to the pool and returns its index. Equal constants are not
    /// merged.
    pub fn add_constant(&mut self, value: Value) -> (r: u16)
        requires
            old(self).constants@.len() < MAX_CONSTANTS,
        ensures
            r as int == old(self).constants@.len(),
            final(self).constants@ == old(self).constants@.push(value),
            final(self).code == old(self).code,
            final(self).line == old(self).line,
    {
        let idx = self.constants.len();
        self.constants.push(value);
        idx as u16
    }
}

} // verus!
