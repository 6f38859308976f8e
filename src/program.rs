//! Programs of the virtual machine: a builder for instruction sequences and
//! their bytecode.

use vstd::prelude::*;
use crate::encoding::{le32, write_bytes, write_u32_le};
use crate::types::{string_bytes, String, VMError};

verus! {

/// Opcode of `push`.
pub const OP_PUSH: u8 = 0x00;
/// Opcode of `program`.
pub const OP_PROGRAM: u8 = 0x01;
/// Opcode of `drop`.
pub const OP_DROP: u8 = 0x02;
/// Opcode of `cloak`.
pub const OP_CLOAK: u8 = 0x18;
/// Opcode of `call`.
pub const OP_CALL: u8 = 0x1d;

/// An instruction of the virtual machine.
#[derive(Debug)]
pub enum Instruction {
    /// Pushes a data item.
    Push(String),
    /// Pushes a program item.
    Program(ProgramItem),
    /// Drops the top item.
    Drop,
    /// Merges and splits `m` values into `n` values.
    Cloak(usize, usize),
    /// Calls a program against a predicate.
    Call,
}

/// A builder type for assembling a sequence of instructions.
#[derive(Debug)]
pub struct Program(pub Vec<Instruction>);

/// A view of a program.
#[derive(Debug)]
pub enum ProgramItem {
    /// The verifier's view: bytecode as it is.
    Bytecode(Vec<u8>),
    /// The prover's view: a program.
    Program(Program),
}

/// The bytecode of one instruction: its opcode, then its immediate data, each
/// byte string preceded by its length.
pub open spec fn instruction_bytes(i: Instruction) -> Seq<u8>
    decreases i, 0int,
{
    match i {
        Instruction::Push(s) => seq![OP_PUSH] + le32(string_bytes(s).len()) + string_bytes(s),
        Instruction::Program(item) => {
            let b = item_bytes(item);
            seq![OP_PROGRAM] + le32(b.len()) + b
        },
        Instruction::Drop => seq![OP_DROP],
        Instruction::Cloak(m, n) => seq![OP_CLOAK] + le32(m as nat) + le32(n as nat),
        Instruction::Call => seq![OP_CALL],
    }
}

/// The bytecode of a program item: bytecode as it is, a program encoded.
pub open spec fn item_bytes(p: ProgramItem) -> Seq<u8>
    decreases p, 0int,
{
    match p {
        ProgramItem::Bytecode(b) => b@,
        ProgramItem::Program(prog) => program_bytes_from(prog, 0),
    }
}

/// The bytecode of the instructions of `p` from index `n` on.
pub open spec fn program_bytes_from(p: Program, n: int) -> Seq<u8>
    decreases p, p.0@.len() - n,
{
    if 0 <= n < p.0@.len() {
        instruction_bytes(p.0@[n]) + program_bytes_from(p, n + 1)
    } else {
        Seq::empty()
    }
}

/// The bytecode of a program: its instructions' bytecode, one after another.
pub open spec fn program_bytes(p: Program) -> Seq<u8> {
    program_bytes_from(p, 0)
}

impl Instruction {
    /// Encodes the instruction.
    pub fn encode(&self, buf: &mut Vec<u8>)
        ensures
            final(buf)@ == old(buf)@ + instruction_bytes(*self),
        decreases self, 0int,
    {
        let ghost start = buf@;
        match self {
            Instruction::Push(s) => {
                let mut data: Vec<u8> = Vec::new();
                s.encode(&mut data);
                buf.push(OP_PUSH);
                write_u32_le(data.len(), buf);
                write_bytes(&data, buf);
            },
            Instruction::Program(item) => {
                let mut data: Vec<u8> = Vec::new();
                item.encode(&mut data);
                buf.push(OP_PROGRAM);
                write_u32_le(data.len(), buf);
                write_bytes(&data, buf);
            },
            Instruction::Drop => buf.push(OP_DROP),
            Instruction::Cloak(m, n) => {
                buf.push(OP_CLOAK);
                write_u32_le(*m, buf);
                write_u32_le(*n, buf);
            },
            Instruction::Call => buf.push(OP_CALL),
        }
        proof {
            assert(buf@ =~= start + instruction_bytes(*self));
        }
    }
}

impl ProgramItem {
    /// Encodes the program item.
    pub fn encode(&self, buf: &mut Vec<u8>)
        ensures
            final(buf)@ == old(buf)@ + item_bytes(*self),
        decreases self, 0int,
    {
        match self {
            ProgramItem::Program(prog) => prog.encode(buf),
            ProgramItem::Bytecode(bytes) => write_bytes(bytes, buf),
        }
    }

    /// Encodes the program item into a bytecode array.
    pub fn to_bytes(&self) -> (r: Vec<u8>)
        ensures
            r@ == item_bytes(*self),
    {
        let mut buf: Vec<u8> = Vec::new();
        self.encode(&mut buf);
        proof {
            assert(buf@ =~= item_bytes(*self));
        }
        buf
    }

    /// Downcasts a program item into a program.
    pub fn to_program(self) -> (r: Result<Program, VMError>)
        ensures
            match self {
                ProgramItem::Program(p) => r == Ok::<Program, VMError>(p),
                ProgramItem::Bytecode(_) => r == Err::<Program, VMError>(VMError::TypeNotProgram),
            },
    {
        match self {
            ProgramItem::Program(prog) => Ok(prog),
            ProgramItem::Bytecode(_) => Err(VMError::TypeNotProgram),
        }
    }

    /// Downcasts a program item into its bytecode; a program is refused.
    pub fn to_bytecode(self) -> (r: Result<Vec<u8>, VMError>)
        ensures
            match self {
                ProgramItem::Program(_) => r == Err::<Vec<u8>, VMError>(VMError::TypeNotProgram),
                ProgramItem::Bytecode(b) => r == Ok::<Vec<u8>, VMError>(b),
            },
    {
        match self {
            ProgramItem::Program(_) => Err(VMError::TypeNotProgram),
            ProgramItem::Bytecode(bytes) => Ok(bytes),
        }
    }
}

impl From<Program> for ProgramItem {
    fn from(x: Program) -> (r: ProgramItem) {
        ProgramItem::Program(x)
    }
}

impl vstd::std_specs::convert::FromSpecImpl<Program> for ProgramItem {
    open spec fn obeys_from_spec() -> bool {
        true
    }

    open spec fn from_spec(x: Program) -> ProgramItem {
        ProgramItem::Program(x)
    }
}

impl Program {
    /// Encodes the program's instructions one after another.
    pub fn encode(&self, buf: &mut Vec<u8>)
        ensures
            final(buf)@ == old(buf)@ + program_bytes(*self),
        decreases self, 1int,
    {
        let ghost start = buf@;
        let mut n: usize = 0;
        while n < self.0.len()
            invariant
                n <= self.0@.len(),
                buf@ + program_bytes_from(*self, n as int) == start + program_bytes(*self),
            decreases self.0.len() - n,
        {
            let ghost before = buf@;
            self.0[n].encode(buf);
            proof {
                let i = instruction_bytes(self.0@[n as int]);
                let rest = program_bytes_from(*self, n + 1);
                assert(program_bytes_from(*self, n as int) == i + rest);
                assert(before + (i + rest) =~= (before + i) + rest);
            }
            n = n + 1;
        }
        proof {
            assert(buf@ + program_bytes_from(*self, n as int) =~= buf@);
        }
    }

    /// Creates an empty program.
    pub fn new() -> (r: Program)
        ensures
            r.0@ == Seq::<Instruction>::empty(),
    {
        Program(Vec::new())
    }

    /// Creates an empty program, hands it to `builder` to add the instructions, and
    /// returns what the builder gives back.
    pub fn build<F: FnOnce(Program) -> Program>(builder: F) -> (r: Program)
        requires
            forall|p: Program| p.0@.len() == 0 ==> builder.requires((p,)),
        ensures
            exists|p: Program| p.0@.len() == 0 && builder.ensures((p,), r),
    {
        let program = Self::new();
        builder(program)
    }

    /// Serializes the program into bytecode.
    pub fn to_bytes(&self) -> (r: Vec<u8>)
        ensures
            r@ == program_bytes(*self),
    {
        let mut buf: Vec<u8> = Vec::new();
        self.encode(&mut buf);
        proof {
            assert(buf@ =~= program_bytes(*self));
        }
        buf
    }

    /// Converts the program to a plain vector of instructions.
    pub fn to_vec(self) -> (r: Vec<Instruction>)
        ensures
            r@ == self.0@,
    {
        self.0
    }

    /// Adds a `push` instruction with an immediate data item.
    pub fn push(&mut self, data: String)
        ensures
            final(self).0@ == old(self).0@.push(Instruction::Push(data)),
    {
        self.0.push(Instruction::Push(data));
    }

    /// Adds a `program` instruction with an immediate program item.
    pub fn program(&mut self, prog: ProgramItem)
        ensures
            final(self).0@ == old(self).0@.push(Instruction::Program(prog)),
    {
        self.0.push(Instruction::Program(prog));
    }

    /// Adds a `drop` instruction.
    pub fn drop(&mut self)
        ensures
            final(self).0@ == old(self).0@.push(Instruction::Drop),
    {
        self.0.push(Instruction::Drop);
    }

    /// Adds a `cloak` instruction merging and splitting `m` values into `n`.
    pub fn cloak(&mut self, m: usize, n: usize)
        ensures
            final(self).0@ == old(self).0@.push(Instruction::Cloak(m, n)),
    {
        self.0.push(Instruction::Cloak(m, n));
    }

    /// Adds a `call` instruction.
    pub fn call(&mut self)
        ensures
            final(self).0@ == old(self).0@.push(Instruction::Call),
    {
        self.0.push(Instruction::Call);
    }
}

} // verus!
