//! A listing of a chunk for the human eye.
use crate::chunk::{Chunk, Op, Value};
use vstd::prelude::*;

verus! {

/// One line of a listing: the name of the instruction, and the constant
/// that it pushes if it pushes one. An instruction that names a constant
/// which the pool does not hold is listed without one.
#[derive(Debug, Clone, Copy)]
pub struct Listing {
    pub name: &'static str,
    pub constant: Option<Value>,
}

/// What the listing says of an instruction that it does not know.
pub const NOT_FOUND: &'static str = "[!] Instruction Not Found";

/// The name under which an instruction is listed. Each instruction has a
/// name of its own; one that the listing does not know, as may come to be
/// when instructions are added, is listed as not found.
#[allow(unreachable_patterns)]
pub open spec fn listed_name(op: Op) -> Seq<char> {
    match op {
        Op::Constant(_) => "OP_CONSTANT"@,
        Op::Add => "OP_ADD"@,
        Op::Subtract => "OP_SUBTRACT"@,
        Op::Multiply => "OP_MULTIPLY"@,
        Op::Divide => "OP_DIVIDE"@,
        Op::Negate => "OP_NEGATE"@,
        Op::Return => "OP_RETURN"@,
        _ => NOT_FOUND@,
    }
}

/// The constant that an instruction is listed with.
pub open spec fn listed_constant(chunk: Chunk, op: Op) -> Option<Value> {
    match op {
        Op::Constant(index) if index < chunk.constants@.len() => Some(
            chunk.constants@[index as int],
        ),
        _ => None,
    }
}

/// Lists the instructions of a chunk in their order, one line each.
#[allow(unreachable_patterns)]
pub fn disassemble_chunk(chunk: &Chunk) -> (listing: Vec<Listing>)
    ensures
        listing@.len() == chunk.code@.len(),
        forall|i: int|
            0 <= i < listing@.len() ==> {
                &&& (#[trigger] listing@[i]).name@ == listed_name(chunk.code@[i])
                &&& listing@[i].constant == listed_constant(*chunk, chunk.code@[i])
            },
{
    let mut listing: Vec<Listing> = Vec::new();
    let mut i: usize = 0;
    while i < chunk.code.len()
        invariant
            i <= chunk.code@.len(),
            listing@.len() == i,
            forall|k: int|
                0 <= k < i ==> {
                    &&& (#[trigger] listing@[k]).name@ == listed_name(chunk.code@[k])
                    &&& listing@[k].constant == listed_constant(*chunk, chunk.code@[k])
                },
        decreases chunk.code@.len() - i,
    {
        let line = match chunk.read(i) {
            Op::Constant(index) => Listing {
                name: "OP_CONSTANT",
                constant: if (index as usize) < chunk.constants.len() {
                    Some(chunk.read_constant(index))
                } else {
                    None
                },
            },
            Op::Add => Listing { name: "OP_ADD", constant: None },
            Op::Subtract => Listing { name: "OP_SUBTRACT", constant: None },
            Op::Multiply => Listing { name: "OP_MULTIPLY", constant: None },
            Op::Divide => Listing { name: "OP_DIVIDE", constant: None },
            Op::Negate => Listing { name: "OP_NEGATE", constant: None },
            Op::Return => Listing { name: "OP_RETURN", constant: None },
            _ => Listing { name: NOT_FOUND, constant: None },
        };
        listing.push(line);
        i += 1;
    }
    listing
}

} // verus!
