use vstd::prelude::*;

use crate::text::{chars_of, decimal, push_char, push_decimal, push_str};

verus! {

broadcast use vstd::std_specs::vec::group_vec_axioms;

/// An error of the bytecode machine.
#[derive(Debug, PartialEq, Eq, Structural)]
pub enum InterpreterError {
    /// A byte that is no operation.
    UnknownOp,
}

impl InterpreterError {
    /// The error's message.
    pub fn message(&self) -> (s: String)
        ensures
            s@ == "Unknown Op"@,
    {
        String::from_str("Unknown Op")
    }
}

/// An operation of the bytecode machine.
#[derive(Debug, Clone, Copy, PartialEq, Eq, Structural)]
pub enum OpCode {
    Return,
}

/// The byte that encodes an operation.
pub open spec fn op_byte(op: OpCode) -> u8 {
    match op {
        OpCode::Return => 0,
    }
}

/// The operation a byte encodes, if it encodes one.
pub open spec fn decode(b: u8) -> Result<OpCode, InterpreterError> {
    if b == 0 {
        Ok(OpCode::Return)
    } else {
        Err(InterpreterError::UnknownOp)
    }
}

impl OpCode {
    /// The operation `b` encodes.
    pub fn try_from_byte(b: u8) -> (r: Result<OpCode, InterpreterError>)
        ensures
            r == decode(b),
    {
        if b == 0 {
            Ok(OpCode::Return)
        } else {
            Err(InterpreterError::UnknownOp)
        }
    }

    /// The byte that encodes the operation.
    pub fn to_byte(&self) -> (b: u8)
        ensures
            b == op_byte(*self),
    {
        match self {
            OpCode::Return => 0,
        }
    }

    /// The operation's name, in capitals with underscores.
    pub fn name(&self) -> (s: String)
        ensures
            match *self {
                OpCode::Return => s@ == "RETURN"@,
            },
    {
        match self {
            OpCode::Return => String::from_str("RETURN"),
        }
    }
}

/// A decoded byte always encodes back to itself, and every operation
/// decodes from its byte.
pub proof fn law_decode_encode(b: u8, op: OpCode)
    ensures
        decode(b) matches Ok(o) ==> op_byte(o) == b,
        decode(op_byte(op)) == Ok::<OpCode, InterpreterError>(op),
{
}

/// A piece of bytecode.
pub struct Chunk {
    code: Vec<u8>,
}

impl View for Chunk {
    type V = Seq<u8>;

    closed spec fn view(&self) -> Seq<u8> {
        self.code@
    }
}

/// One line of a disassembly: the offset, padded to four digits, and the
/// operation's name, or the error where the byte encodes none.
pub struct Row {
    pub offset: String,
    pub text: Result<String, String>,
}

/// `s`, with zeros in front up to `width` characters.
pub open spec fn zero_padded(s: Seq<char>, width: nat) -> Seq<char> {
    Seq::new(if s.len() < width { (width - s.len()) as nat } else { 0 }, |i: int| '0') + s
}

/// The text of the operation at a byte, or its error.
pub open spec fn row_text(b: u8) -> Result<Seq<char>, Seq<char>> {
    match decode(b) {
        Ok(OpCode::Return) => Ok("RETURN"@),
        Err(_) => Err("Unknown Op"@),
    }
}

/// `offset` in four digits at least, zeros in front.
pub fn padded_offset(offset: usize) -> (s: String)
    ensures
        s@ == zero_padded(decimal(offset as nat), 4),
{
    let mut digits = String::new();
    push_decimal(&mut digits, offset);
    let count = chars_of(digits.as_str()).len();
    let mut s = String::new();
    let mut i: usize = count;
    while i < 4
        invariant
            count == digits@.len(),
            count <= i,
            i <= 4 || i == count,
            s@ == Seq::new((i - count) as nat, |j: int| '0'),
        decreases 4 - i,
    {
        push_char(&mut s, '0');
        i = i + 1;
        assert(s@ =~= Seq::new((i - count) as nat, |j: int| '0'));
    }
    proof {
        assert(digits@ =~= decimal(offset as nat));
        let pad: nat = if count < 4 { (4 - count) as nat } else { 0 };
        assert(s@ =~= Seq::new(pad, |j: int| '0'));
    }
    push_str(&mut s, digits.as_str());
    s
}

impl Chunk {
    /// An empty chunk.
    pub fn new() -> (c: Chunk)
        ensures
            c@ == Seq::<u8>::empty(),
    {
        Chunk { code: Vec::new() }
    }

    /// Appends a byte.
    pub fn write(&mut self, b: u8)
        ensures
            final(self)@ == old(self)@.push(b),
    {
        self.code.push(b);
    }

    proof fn lemma_len_fits(&self)
        ensures
            self@.len() <= usize::MAX,
    {
        assert(self.code@.len() == self.code.len());
    }

    /// The number of bytes.
    pub fn len(&self) -> (n: usize)
        ensures
            n == self@.len(),
    {
        self.code.len()
    }

    /// The byte at `offset`.
    pub fn byte(&self, offset: usize) -> (b: u8)
        requires
            offset < self@.len(),
        ensures
            b == self@[offset as int],
    {
        self.code[offset]
    }

    /// The row for the instruction at `offset`, and the offset of the next
    /// one.
    pub fn disassemble_instruction(&self, offset: usize) -> (r: (Row, usize))
        requires
            offset < self@.len(),
        ensures
            r.0.offset@ == zero_padded(decimal(offset as nat), 4),
            match (r.0.text, row_text(self@[offset as int])) {
                (Ok(t), Ok(u)) => t@ == u,
                (Err(t), Err(u)) => t@ == u,
                _ => false,
            },
            r.1 == offset + 1,
    {
        let text = match OpCode::try_from_byte(self.code[offset]) {
            Ok(op) => Ok(op.name()),
            Err(e) => Err(e.message()),
        };
        proof {
            self.lemma_len_fits();
        }
        (Row { offset: padded_offset(offset), text }, offset + 1)
    }

    /// A listing of the chunk under a header with its name: one row per
    /// byte.
    pub fn disassemble(&self, name: &str) -> (r: (String, Vec<Row>))
        ensures
            r.0@ == "== "@ + name@ + " =="@,
            r.1@.len() == self@.len(),
            forall|i: int|
                0 <= i < self@.len() ==> {
                    &&& (#[trigger] r.1@[i]).offset@ == zero_padded(decimal(i as nat), 4)
                    &&& match (r.1@[i].text, row_text(self@[i])) {
                        (Ok(t), Ok(u)) => t@ == u,
                        (Err(t), Err(u)) => t@ == u,
                        _ => false,
                    }
                },
    {
        let mut header = String::new();
        push_str(&mut header, "== ");
        push_str(&mut header, name);
        push_str(&mut header, " ==");
        let mut rows: Vec<Row> = Vec::new();
        let mut offset: usize = 0;
        while offset < self.code.len()
            invariant
                offset <= self@.len(),
                rows@.len() == offset,
                forall|i: int|
                    0 <= i < offset ==> {
                        &&& (#[trigger] rows@[i]).offset@ == zero_padded(decimal(i as nat), 4)
                        &&& match (rows@[i].text, row_text(self@[i])) {
                            (Ok(t), Ok(u)) => t@ == u,
                            (Err(t), Err(u)) => t@ == u,
                            _ => false,
                        }
                    },
            decreases self@.len() - offset,
        {
            let (row, next) = self.disassemble_instruction(offset);
            rows.push(row);
            offset = next;
        }
        (header, rows)
    }
}

/// The bytecode machine: the chunk it runs and the offset of the next
/// instruction.
pub struct Vm<'a> {
    chunk: &'a Chunk,
    ip: usize,
}

impl<'a> Vm<'a> {
    pub closed spec fn chunk_spec(&self) -> Seq<u8> {
        self.chunk@
    }

    pub closed spec fn ip_spec(&self) -> usize {
        self.ip
    }

    /// A machine about to run `chunk` from its start.
    pub fn new(chunk: &'a Chunk) -> (vm: Vm<'a>)
        ensures
            vm.chunk_spec() == chunk@,
            vm.ip_spec() == 0,
    {
        Vm { chunk, ip: 0 }
    }

    /// Runs `c` from its start: it succeeds where the first byte is a
    /// `RETURN`, and fails with `UnknownOp` where it encodes no operation.
    pub fn interpret(&mut self, c: &'a Chunk) -> (r: Result<(), InterpreterError>)
        requires
            c@.len() > 0,
        ensures
            final(self).chunk_spec() == c@,
            final(self).ip_spec() == 1,
            r is Ok <==> c@[0] == 0,
            r is Err ==> r == Err::<(), InterpreterError>(InterpreterError::UnknownOp),
    {
        self.chunk = c;
        self.ip = 0;
        self.run()
    }

    /// Runs the instruction at the current offset. The one operation there
    /// is returns, so it is also the last one run.
    fn run(&mut self) -> (r: Result<(), InterpreterError>)
        requires
            old(self).ip_spec() < old(self).chunk_spec().len(),
        ensures
            final(self).chunk_spec() == old(self).chunk_spec(),
            final(self).ip_spec() == old(self).ip_spec() + 1,
            r == (match decode(old(self).chunk_spec()[old(self).ip_spec() as int]) {
                Ok(_) => Ok::<(), InterpreterError>(()),
                Err(e) => Err(e),
            }),
    {
        proof {
            self.chunk.lemma_len_fits();
        }
        let instruction = self.chunk.byte(self.ip);
        self.ip = self.ip + 1;
        match OpCode::try_from_byte(instruction) {
            Ok(OpCode::Return) => Ok(()),
            Err(e) => Err(e),
        }
    }
}

} // verus!
