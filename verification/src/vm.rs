//! The stack machine that runs a chunk of bytecode.
//!
//! The machine holds numbers as bit patterns and never computes with them:
//! the four arithmetic operations are done by an arithmetic unit that the
//! caller hands in, a function from an operator and its two operands to
//! the result.
use crate::chunk::{Chunk, Op, Value};
use crate::error::DiabloError;
use vstd::prelude::*;

verus! {

/// The room that a new machine reserves for its stack.
pub const STACK_CAPACITY: usize = 256;

/// A machine: the chunk it runs, its stack, and the index of the next
/// instruction.
pub struct Vm {
    pub chunk: Chunk,
    pub stack: Vec<Value>,
    pub ip: usize,
}

/// How a run ended: its result, and the stack and the instruction index
/// that it left behind.
pub struct Halt {
    pub result: Result<Value, DiabloError>,
    pub stack: Seq<Value>,
    pub ip: int,
}

/// The line to report when no instruction is left to run: that of the last
/// instruction, or 0 for a chunk without instructions.
pub open spec fn end_line(chunk: Chunk) -> usize {
    if chunk.lines@.len() > 0 {
        chunk.lines@.last()
    } else {
        0
    }
}

/// What running `chunk` from instruction `ip` on with `stack` comes to,
/// where `f` is what the arithmetic unit computes.
///
/// Each instruction is fetched, the index moves on, and the instruction is
/// done. A constant that is not in the pool, an operand that is not on the
/// stack, or the end of the code before a `Return` is a fault at the line
/// of that instruction. A fault leaves the stack as it was.
pub open spec fn run_from(
    chunk: Chunk,
    stack: Seq<Value>,
    ip: int,
    f: spec_fn(Op, Value, Value) -> Value,
) -> Halt
    decreases chunk.code@.len() - ip,
{
    if ip < 0 || ip >= chunk.code@.len() {
        Halt { result: Err(DiabloError::RuntimeError { line: end_line(chunk) }), stack, ip }
    } else {
        let fault = Halt {
            result: Err(DiabloError::RuntimeError { line: chunk.lines@[ip] }),
            stack,
            ip: ip + 1,
        };
        let n = stack.len() as int;
        match chunk.code@[ip] {
            Op::Constant(index) => if index < chunk.constants@.len() {
                run_from(chunk, stack.push(chunk.constants@[index as int]), ip + 1, f)
            } else {
                fault
            },
            Op::Negate => if n >= 1 {
                run_from(chunk, stack.drop_last().push(stack.last().negated()), ip + 1, f)
            } else {
                fault
            },
            Op::Return => if n >= 1 {
                Halt { result: Ok(stack.last()), stack: stack.drop_last(), ip: ip + 1 }
            } else {
                fault
            },
            op => if n >= 2 {
                run_from(
                    chunk,
                    stack.take(n - 2).push(f(op, stack[n - 2], stack[n - 1])),
                    ip + 1,
                    f,
                )
            } else {
                fault
            },
        }
    }
}

/// The four operators that the arithmetic unit is asked to apply.
pub open spec fn arithmetic(op: Op) -> bool {
    op is Add || op is Subtract || op is Multiply || op is Divide
}

/// Whether two runs took the same course: they ended at the same
/// instruction, with stacks of the same height, and either both with a
/// value or both with the same fault.
pub open spec fn same_course(one: Halt, other: Halt) -> bool {
    &&& one.ip == other.ip
    &&& one.stack.len() == other.stack.len()
    &&& one.result is Ok <==> other.result is Ok
    &&& one.result is Err ==> one.result == other.result
}

/// Whether the arithmetic unit `alu` computes `f`: whatever it returns for
/// an operator and two operands is what `f` gives for them.
pub open spec fn computes<A: Fn(Op, Value, Value) -> Value>(
    alu: A,
    f: spec_fn(Op, Value, Value) -> Value,
) -> bool {
    forall|op: Op, a: Value, b: Value, r: Value| #[trigger]
        alu.ensures((op, a, b), r) ==> r == f(op, a, b)
}

/// A `Return` that finds nothing on the stack is a fault at its line,
/// whatever the arithmetic unit computes.
pub proof fn lemma_return_without_value(
    chunk: Chunk,
    ip: int,
    f: spec_fn(Op, Value, Value) -> Value,
)
    requires
        0 <= ip < chunk.code@.len(),
        chunk.code@[ip] is Return,
    ensures
        run_from(chunk, Seq::empty(), ip, f) == (Halt {
            result: Err(DiabloError::RuntimeError { line: chunk.lines@[ip] }),
            stack: Seq::empty(),
            ip: ip + 1,
        }),
{
}

/// A run fails only by a fault of the machine: never with a
/// `CompileError`.
pub proof fn lemma_run_fails_at_run_time(
    chunk: Chunk,
    stack: Seq<Value>,
    ip: int,
    f: spec_fn(Op, Value, Value) -> Value,
)
    ensures
        run_from(chunk, stack, ip, f).result is Err ==> run_from(
            chunk,
            stack,
            ip,
            f,
        ).result->Err_0 is RuntimeError,
    decreases chunk.code@.len() - ip,
{
    if 0 <= ip < chunk.code@.len() {
        let n = stack.len() as int;
        match chunk.code@[ip] {
            Op::Constant(index) => {
                if index < chunk.constants@.len() {
                    lemma_run_fails_at_run_time(
                        chunk,
                        stack.push(chunk.constants@[index as int]),
                        ip + 1,
                        f,
                    );
                }
            },
            Op::Negate => {
                if n >= 1 {
                    lemma_run_fails_at_run_time(
                        chunk,
                        stack.drop_last().push(stack.last().negated()),
                        ip + 1,
                        f,
                    );
                }
            },
            Op::Return => {},
            op => {
                if n >= 2 {
                    lemma_run_fails_at_run_time(
                        chunk,
                        stack.take(n - 2).push(f(op, stack[n - 2], stack[n - 1])),
                        ip + 1,
                        f,
                    );
                }
            },
        }
    }
}

/// The numbers decide nothing about the course of a run: from the same
/// instruction and with stacks of the same height, two runs take the same
/// course whatever the stacks hold and whatever the arithmetic units
/// compute.
pub proof fn lemma_course(
    chunk: Chunk,
    stack: Seq<Value>,
    other: Seq<Value>,
    ip: int,
    f: spec_fn(Op, Value, Value) -> Value,
    g: spec_fn(Op, Value, Value) -> Value,
)
    requires
        stack.len() == other.len(),
    ensures
        same_course(run_from(chunk, stack, ip, f), run_from(chunk, other, ip, g)),
    decreases chunk.code@.len() - ip,
{
    if 0 <= ip < chunk.code@.len() {
        let n = stack.len() as int;
        match chunk.code@[ip] {
            Op::Constant(index) => {
                if index < chunk.constants@.len() {
                    let c = chunk.constants@[index as int];
                    lemma_course(chunk, stack.push(c), other.push(c), ip + 1, f, g);
                }
            },
            Op::Negate => {
                if n >= 1 {
                    lemma_course(
                        chunk,
                        stack.drop_last().push(stack.last().negated()),
                        other.drop_last().push(other.last().negated()),
                        ip + 1,
                        f,
                        g,
                    );
                }
            },
            Op::Return => {},
            op => {
                if n >= 2 {
                    lemma_course(
                        chunk,
                        stack.take(n - 2).push(f(op, stack[n - 2], stack[n - 1])),
                        other.take(n - 2).push(g(op, other[n - 2], other[n - 1])),
                        ip + 1,
                        f,
                        g,
                    );
                }
            },
        }
    }
}

/// What interpreting comes to once the front end has answered with
/// `compiled`: a failure of the front end is a `CompileError` and the
/// machine stays as it was; a chunk is run from its first instruction on
/// an empty stack.
pub open spec fn interpreted<A: Fn(Op, Value, Value) -> Value>(
    alu: A,
    compiled: Result<Chunk, DiabloError>,
    before: Vm,
    after: Vm,
    result: Result<Value, DiabloError>,
) -> bool {
    match compiled {
        Err(_) => {
            &&& result == Err::<Value, DiabloError>(DiabloError::CompileError)
            &&& after.chunk == before.chunk
            &&& after.stack@ == before.stack@
            &&& after.ip == before.ip
        },
        Ok(chunk) => {
            &&& after.chunk == chunk
            &&& result is Err ==> result->Err_0 is RuntimeError
            &&& forall|f: spec_fn(Op, Value, Value) -> Value| #[trigger]
                computes(alu, f) ==> (Halt { result, stack: after.stack@, ip: after.ip as int })
                    == run_from(chunk, Seq::empty(), 0, f)
            &&& forall|f: spec_fn(Op, Value, Value) -> Value|
                same_course(
                    Halt { result, stack: after.stack@, ip: after.ip as int },
                    #[trigger] run_from(chunk, Seq::empty(), 0, f),
                )
        },
    }
}

impl Vm {
    pub fn new(chunk: Chunk) -> (vm: Self)
        ensures
            vm.chunk == chunk,
            vm.stack@ == Seq::<Value>::empty(),
            vm.ip == 0,
    {
        let stack: Vec<Value> = Vec::with_capacity(STACK_CAPACITY);
        assert(stack@ =~= Seq::empty());
        Self { chunk, stack, ip: 0 }
    }

    /// Compiles a source text with the front end `compile` and runs what
    /// was compiled.
    ///
    /// Each text starts on a machine of its own state: once the text has
    /// compiled, its chunk takes the place of the one before, the stack is
    /// emptied and the run starts at the first instruction. Nothing that an
    /// earlier text left on the stack is seen by a later one. A text that
    /// does not compile leaves the machine as it was.
    pub fn interpret<C, A>(&mut self, source: &str, compile: C, alu: A) -> (result: Result<
        Value,
        DiabloError,
    >) where C: FnOnce(&str) -> Result<Chunk, DiabloError>, A: Fn(Op, Value, Value) -> Value
        requires
            compile.requires((source,)),
            forall|chunk: Chunk|
                compile.ensures((source,), Ok::<Chunk, DiabloError>(chunk)) ==> chunk.wf(),
            forall|op: Op, a: Value, b: Value| arithmetic(op) ==> alu.requires((op, a, b)),
        ensures
            exists|compiled: Result<Chunk, DiabloError>|
                compile.ensures((source,), compiled) && interpreted(
                    alu,
                    compiled,
                    *old(self),
                    *final(self),
                    result,
                ),
    {
        let compiled = compile(source);
        let ghost answer = compiled;
        let result = match compiled {
            Err(_) => Err(DiabloError::CompileError),
            Ok(chunk) => {
                self.chunk = chunk;
                self.stack.clear();
                self.ip = 0;
                self.run(alu)
            },
        };
        assert(interpreted(alu, answer, *old(self), *self, result));
        result
    }

    /// Runs the chunk from the next instruction on, until a `Return` hands
    /// out the value on top of the stack or an instruction faults.
    pub fn run<A: Fn(Op, Value, Value) -> Value>(&mut self, alu: A) -> (result: Result<
        Value,
        DiabloError,
    >)
        requires
            old(self).chunk.wf(),
            forall|op: Op, a: Value, b: Value| arithmetic(op) ==> alu.requires((op, a, b)),
        ensures
            final(self).chunk == old(self).chunk,
            forall|f: spec_fn(Op, Value, Value) -> Value| #[trigger]
                computes(alu, f) ==> (Halt {
                    result,
                    stack: final(self).stack@,
                    ip: final(self).ip as int,
                }) == run_from(old(self).chunk, old(self).stack@, old(self).ip as int, f),
            result is Err ==> result->Err_0 is RuntimeError,
            forall|f: spec_fn(Op, Value, Value) -> Value|
                same_course(
                    Halt { result, stack: final(self).stack@, ip: final(self).ip as int },
                    #[trigger] run_from(old(self).chunk, old(self).stack@, old(self).ip as int, f),
                ),
    {
        let unit = &alu;
        loop
            invariant
                unit == &alu,
                forall|f: spec_fn(Op, Value, Value) -> Value|
                    same_course(
                        run_from(self.chunk, self.stack@, self.ip as int, f),
                        #[trigger] run_from(
                            old(self).chunk,
                            old(self).stack@,
                            old(self).ip as int,
                            f,
                        ),
                    ),
                self.chunk == old(self).chunk,
                self.chunk.wf(),
                forall|op: Op, a: Value, b: Value| arithmetic(op) ==> alu.requires((op, a, b)),
                forall|f: spec_fn(Op, Value, Value) -> Value| #[trigger]
                    computes(alu, f) ==> run_from(self.chunk, self.stack@, self.ip as int, f)
                        == run_from(old(self).chunk, old(self).stack@, old(self).ip as int, f),
            decreases self.chunk.code.len() - self.ip,
        {
            if self.ip >= self.chunk.code.len() {
                let line: usize = if self.chunk.lines.len() > 0 {
                    self.chunk.lines[self.chunk.lines.len() - 1]
                } else {
                    0
                };
                return Err(DiabloError::RuntimeError { line });
            }
            let line: usize = self.chunk.lines[self.ip];
            let ghost before = self.stack@;
            let ghost at = self.ip as int;
            match self.read_op() {
                Op::Constant(index) => {
                    if index as usize >= self.chunk.constants.len() {
                        return Err(DiabloError::RuntimeError { line });
                    }
                    let constant = self.chunk.read_constant(index);
                    self.push(constant);
                },
                Op::Add => {
                    if self.stack.len() < 2 {
                        return Err(DiabloError::RuntimeError { line });
                    }
                    let apply = |a: Value, b: Value| -> (r: Value)
                        requires
                            unit.requires((Op::Add, a, b)),
                        ensures
                            unit.ensures((Op::Add, a, b), r),
                        {
                            unit(Op::Add, a, b)
                        };
                    self.binary_op(apply);
                },
                Op::Subtract => {
                    if self.stack.len() < 2 {
                        return Err(DiabloError::RuntimeError { line });
                    }
                    let apply = |a: Value, b: Value| -> (r: Value)
                        requires
                            unit.requires((Op::Subtract, a, b)),
                        ensures
                            unit.ensures((Op::Subtract, a, b), r),
                        {
                            unit(Op::Subtract, a, b)
                        };
                    self.binary_op(apply);
                },
                Op::Multiply => {
                    if self.stack.len() < 2 {
                        return Err(DiabloError::RuntimeError { line });
                    }
                    let apply = |a: Value, b: Value| -> (r: Value)
                        requires
                            unit.requires((Op::Multiply, a, b)),
                        ensures
                            unit.ensures((Op::Multiply, a, b), r),
                        {
                            unit(Op::Multiply, a, b)
                        };
                    self.binary_op(apply);
                },
                Op::Divide => {
                    if self.stack.len() < 2 {
                        return Err(DiabloError::RuntimeError { line });
                    }
                    let apply = |a: Value, b: Value| -> (r: Value)
                        requires
                            unit.requires((Op::Divide, a, b)),
                        ensures
                            unit.ensures((Op::Divide, a, b), r),
                        {
                            unit(Op::Divide, a, b)
                        };
                    self.binary_op(apply);
                },
                Op::Negate => {
                    if self.stack.len() < 1 {
                        return Err(DiabloError::RuntimeError { line });
                    }
                    let value = self.pop().negate();
                    self.push(value);
                },
                Op::Return => {
                    if self.stack.len() < 1 {
                        return Err(DiabloError::RuntimeError { line });
                    }
                    return Ok(self.pop());
                },
            }
            proof {
                assert forall|f: spec_fn(Op, Value, Value) -> Value|
                    computes(alu, f) implies run_from(self.chunk, self.stack@, self.ip as int, f)
                    == run_from(self.chunk, before, at, f) by {
                    let n = before.len() as int;
                    let op = self.chunk.code@[at];
                    if arithmetic(op) {
                        assert(self.stack@.last() == f(op, before[n - 2], before[n - 1]));
                        assert(self.stack@ =~= before.take(n - 2).push(
                            f(op, before[n - 2], before[n - 1]),
                        ));
                    }
                }
                assert forall|f: spec_fn(Op, Value, Value) -> Value|
                    same_course(
                        run_from(self.chunk, self.stack@, self.ip as int, f),
                        #[trigger] run_from(
                            old(self).chunk,
                            old(self).stack@,
                            old(self).ip as int,
                            f,
                        ),
                    ) by {
                    let n = before.len() as int;
                    let op = self.chunk.code@[at];
                    if arithmetic(op) {
                        lemma_course(
                            self.chunk,
                            self.stack@,
                            before.take(n - 2).push(f(op, before[n - 2], before[n - 1])),
                            at + 1,
                            f,
                            f,
                        );
                    }
                    assert(same_course(
                        run_from(self.chunk, self.stack@, self.ip as int, f),
                        run_from(self.chunk, before, at, f),
                    ));
                }
            }
        }
    }

    /// Applies `op` to the two values on top of the stack, the lower one as
    /// its left operand, and leaves the result in their place.
    pub fn binary_op<F: Fn(Value, Value) -> Value>(&mut self, op: F)
        requires
            old(self).stack@.len() >= 2,
            op.requires(
                (
                    old(self).stack@[old(self).stack@.len() - 2],
                    old(self).stack@[old(self).stack@.len() - 1],
                ),
            ),
        ensures
            final(self).stack@.len() == old(self).stack@.len() - 1,
            final(self).stack@.drop_last() == old(self).stack@.take(old(self).stack@.len() - 2),
            op.ensures(
                (
                    old(self).stack@[old(self).stack@.len() - 2],
                    old(self).stack@[old(self).stack@.len() - 1],
                ),
                final(self).stack@.last(),
            ),
            final(self).chunk == old(self).chunk,
            final(self).ip == old(self).ip,
    {
        let b = self.pop();
        let a = self.pop();
        self.push(op(a, b));
        assert(self.stack@.drop_last() =~= old(self).stack@.take(old(self).stack@.len() - 2));
    }

    pub fn push(&mut self, value: Value)
        ensures
            final(self).stack@ == old(self).stack@.push(value),
            final(self).chunk == old(self).chunk,
            final(self).ip == old(self).ip,
    {
        self.stack.push(value);
    }

    pub fn pop(&mut self) -> (value: Value)
        requires
            old(self).stack@.len() > 0,
        ensures
            value == old(self).stack@.last(),
            final(self).stack@ == old(self).stack@.drop_last(),
            final(self).chunk == old(self).chunk,
            final(self).ip == old(self).ip,
    {
        self.stack.pop().unwrap()
    }

    /// Fetches the next instruction and moves on to the one after it.
    pub fn read_op(&mut self) -> (op: Op)
        requires
            old(self).ip < old(self).chunk.code@.len(),
        ensures
            op == old(self).chunk.code@[old(self).ip as int],
            final(self).ip == old(self).ip + 1,
            final(self).chunk == old(self).chunk,
            final(self).stack@ == old(self).stack@,
    {
        let op = self.chunk.read(self.ip);
        assert(self.chunk.code.len() == self.chunk.code@.len());
        self.ip += 1;
        op
    }
}

} // verus!
