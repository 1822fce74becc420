//! Bytecode: instructions, the constants they refer to, and the source line
//! of each instruction.
use vstd::prelude::*;

verus! {

/// The most constants a chunk can hold: an instruction names a constant by
/// one byte.
pub const MAX_CONSTANTS: usize = 256;

/// The bit that tells a negative number from a positive one.
pub const SIGN_BIT: u64 = 0x8000_0000_0000_0000;

/// A value of the language. Numbers are the only kind so far.
#[derive(Debug, Clone, Copy)]
pub enum Value {
    /// A double-precision number, held as its IEEE 754 bit pattern.
    Number(u64),
}

impl Value {
    /// The number with the opposite sign: the same bits but for the sign
    /// bit.
    pub open spec fn negated(self) -> Value {
        match self {
            Value::Number(bits) => Value::Number(bits ^ SIGN_BIT),
        }
    }

    /// Changes the sign of a number. This is the IEEE 754 negation: zeros,
    /// infinities and NaNs have their sign changed like any other number.
    pub fn negate(self) -> (r: Value)
        ensures
            r == self.negated(),
    {
        match self {
            Value::Number(bits) => Value::Number(bits ^ SIGN_BIT),
        }
    }
}

/// One instruction.
#[derive(Debug, Copy, Clone)]
pub enum Op {
    /// Push the constant at this index of the pool.
    Constant(u8),
    Add,
    Subtract,
    Multiply,
    Divide,
    Negate,
    Return,
}

/// A sequence of instructions with its constant pool. `lines[i]` is the
/// source line that `code[i]` was compiled from.
#[derive(Debug)]
pub struct Chunk {
    pub code: Vec<Op>,
    pub constants: Vec<Value>,
    pub lines: Vec<usize>,
}

impl Chunk {
    /// Every instruction has its line, and every constant can be named by
    /// one byte.
    pub open spec fn wf(&self) -> bool {
        &&& self.lines@.len() == self.code@.len()
        &&& self.constants@.len() <= MAX_CONSTANTS
    }

    pub fn new() -> (chunk: Self)
        ensures
            chunk.code@.len() == 0,
            chunk.constants@.len() == 0,
            chunk.lines@.len() == 0,
            chunk.wf(),
    {
        Self { code: Vec::new(), constants: Vec::new(), lines: Vec::new() }
    }

    pub fn read(&self, index: usize) -> (op: Op)
        requires
            index < self.code@.len(),
        ensures
            op == self.code@[index as int],
    {
        self.code[index]
    }

    /// Appends an instruction together with its source line.
    pub fn write(&mut self, op: Op, line: usize)
        ensures
            final(self).code@ == old(self).code@.push(op),
            final(self).lines@ == old(self).lines@.push(line),
            final(self).constants@ == old(self).constants@,
            old(self).wf() ==> final(self).wf(),
    {
        self.code.push(op);
        self.lines.push(line);
    }

    pub fn read_constant(&self, index: u8) -> (value: Value)
        requires
            index < self.constants@.len(),
        ensures
            value == self.constants@[index as int],
    {
        self.constants[index as usize]
    }

    /// Appends a constant to the pool and returns the length of the pool
    /// after that. The constant itself stands at that length less one.
    ///
    /// The pool must have room: see `try_add_constant` for a pool that may
    /// be full.
    pub fn add_constant(&mut self, value: Value) -> (len: usize)
        requires
            old(self).constants@.len() < MAX_CONSTANTS,
        ensures
            final(self).constants@ == old(self).constants@.push(value),
            len == old(self).constants@.len() + 1,
            final(self).constants@[len - 1] == value,
            final(self).code@ == old(self).code@,
            final(self).lines@ == old(self).lines@,
            old(self).wf() ==> final(self).wf(),
    {
        self.constants.push(value);
        self.constants.len()
    }

    /// Appends a constant to the pool if the pool has room for it, and
    /// returns the length of the pool after that. A full pool is left as
    /// it is and `None` is returned: every index that one byte can name is
    /// taken.
    pub fn try_add_constant(&mut self, value: Value) -> (len: Option<usize>)
        ensures
            old(self).constants@.len() < MAX_CONSTANTS ==> {
                &&& len == Some((old(self).constants@.len() + 1) as usize)
                &&& final(self).constants@ == old(self).constants@.push(value)
            },
            old(self).constants@.len() >= MAX_CONSTANTS ==> {
                &&& len is None
                &&& final(self).constants@ == old(self).constants@
            },
            final(self).code@ == old(self).code@,
            final(self).lines@ == old(self).lines@,
            old(self).wf() ==> final(self).wf(),
    {
        if self.constants.len() < MAX_CONSTANTS {
            Some(self.add_constant(value))
        } else {
            None
        }
    }
}

} // verus!
