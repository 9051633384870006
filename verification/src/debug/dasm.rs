//! Listings of bytecode.

use vstd::prelude::*;
use vstd::string::StringExecFns;
use crate::codegen::chunk::ChunkBuf;
use crate::codegen::opcodes::OpCode;
use crate::utils::{decimal, write_decimal};

verus! {

/// One instruction of a chunk: where it starts, its operation, and its
/// operand (0 where the operation takes none).
#[derive(Debug, Clone, Copy, PartialEq, Eq, Structural)]
pub struct Instruction {
    pub offset: usize,
    pub opcode: OpCode,
    pub operand: u16,
}

/// The operand of `len` bytes that starts at `at`: the low byte first.
pub open spec fn operand_at(code: Seq<u8>, at: int, len: nat) -> u16 {
    if len == 1 {
        code[at] as u16
    } else if len == 2 {
        (code[at] + 256 * code[at + 1]) as u16
    } else {
        0
    }
}

/// The instruction that starts at `at`, if the byte there stands for an
/// operation and the bytes of its operand follow.
pub open spec fn decode_at(code: Seq<u8>, at: int) -> Option<Instruction> {
    if 0 <= at < code.len() {
        match OpCode::spec_from_byte(code[at]) {
            Some(opcode) => if at + 1 + opcode.spec_operand_len() <= code.len() {
                Some(
                    Instruction {
                        offset: at as usize,
                        opcode,
                        operand: operand_at(code, at + 1, opcode.spec_operand_len()),
                    },
                )
            } else {
                None
            },
            None => None,
        }
    } else {
        None
    }
}

impl Instruction {
    /// Where the next instruction starts.
    pub open spec fn end(&self) -> int {
        self.offset + 1 + self.opcode.spec_operand_len()
    }

    /// The instruction as a line of a listing: its name, and its operand if
    /// it takes one.
    pub open spec fn spec_text(&self) -> Seq<char> {
        if self.opcode.spec_operand_len() > 0 {
            self.opcode.spec_mnemonic() + " "@ + decimal(self.operand as nat)
        } else {
            self.opcode.spec_mnemonic()
        }
    }

    pub fn text(&self) -> (text: String)
        ensures
            text@ == self.spec_text(),
    {
        let mut text = String::from_str(self.opcode.mnemonic());
        if self.opcode.operand_len() > 0 {
            text.append(" ");
            write_decimal(self.operand as u64, &mut text);
        }
        text
    }
}

/// Reads the instruction that starts at `at`.
pub fn decode(code: &[u8], at: usize) -> (instr: Option<Instruction>)
    ensures
        instr == decode_at(code@, at as int),
{
    if at >= code.len() {
        return None;
    }
    let opcode = match OpCode::from_byte(code[at]) {
        Some(opcode) => opcode,
        None => {
            return None;
        },
    };
    let len = opcode.operand_len();
    if len > code.len() - at - 1 {
        return None;
    }
    let operand: u16 = if len == 1 {
        code[at + 1] as u16
    } else if len == 2 {
        code[at + 1] as u16 + 256 * (code[at + 2] as u16)
    } else {
        0
    };
    Some(Instruction { offset: at, opcode, operand })
}

/// The instructions of `code` from `at` on, if the bytes from there to the
/// end are instructions one after the other.
pub open spec fn listing(code: Seq<u8>, at: int) -> Option<Seq<Instruction>>
    decreases code.len() - at,
{
    if at >= code.len() {
        Some(Seq::empty())
    } else {
        match decode_at(code, at) {
            Some(instr) => match listing(code, at + 1 + instr.opcode.spec_operand_len()) {
                Some(rest) => Some(seq![instr] + rest),
                None => None,
            },
            None => None,
        }
    }
}

/// The first place from `at` on where no instruction can be read, in code
/// that is no run of instructions from there.
pub open spec fn fault(code: Seq<u8>, at: int) -> int
    decreases code.len() - at,
{
    if at >= code.len() {
        at
    } else {
        match decode_at(code, at) {
            Some(instr) => fault(code, at + 1 + instr.opcode.spec_operand_len()),
            None => at,
        }
    }
}

/// Reads the instructions of `code`. If a byte stands for no operation, or
/// the code ends inside an operand, the place of that instruction is told
/// instead.
pub fn disassemble(code: &[u8]) -> (result: Result<Vec<Instruction>, usize>)
    ensures
        match result {
            Ok(instrs) => listing(code@, 0) == Some(instrs@),
            Err(at) => listing(code@, 0).is_none() && at == fault(code@, 0),
        },
{
    let mut instrs: Vec<Instruction> = Vec::new();
    let mut at: usize = 0;
    while at < code.len()
        invariant
            at <= code@.len(),
            fault(code@, 0) == fault(code@, at as int),
            listing(code@, 0) == match listing(code@, at as int) {
                Some(rest) => Some(instrs@ + rest),
                None => None,
            },
        decreases code@.len() - at,
    {
        let opcode = match OpCode::from_byte(code[at]) {
            Some(opcode) => opcode,
            None => {
                return Err(at);
            },
        };
        let len = opcode.operand_len();
        if len > code.len() - at - 1 {
            return Err(at);
        }
        let operand: u16 = if len == 1 {
            code[at + 1] as u16
        } else if len == 2 {
            code[at + 1] as u16 + 256 * (code[at + 2] as u16)
        } else {
            0
        };
        let instr = Instruction { offset: at, opcode, operand };
        proof {
            assert(decode_at(code@, at as int) == Some(instr));
            match listing(code@, instr.end()) {
                Some(rest) => {
                    assert(instrs@.push(instr) + rest =~= instrs@ + (seq![instr] + rest));
                },
                None => {},
            }
        }
        instrs.push(instr);
        at = at + 1 + len;
    }
    proof {
        assert(instrs@ + Seq::<Instruction>::empty() =~= instrs@);
    }
    Ok(instrs)
}

/// Lists the instructions of a chunk.
pub struct Disassembler<'c> {
    code: &'c [u8],
}

impl<'c> Disassembler<'c> {
    pub closed spec fn code(&self) -> Seq<u8> {
        self.code@
    }

    pub fn new(chunk: &'c ChunkBuf) -> (dasm: Disassembler<'c>)
        ensures
            dasm.code() == chunk@,
    {
        Disassembler { code: chunk.as_slice() }
    }

    /// The instructions of the chunk, or the place where they stop being
    /// instructions.
    pub fn instructions(&self) -> (result: Result<Vec<Instruction>, usize>)
        ensures
            match result {
                Ok(instrs) => listing(self.code(), 0) == Some(instrs@),
                Err(at) => listing(self.code(), 0).is_none() && at == fault(self.code(), 0),
            },
    {
        disassemble(self.code)
    }
}

/// The lines of a listing: for each instruction its offset, a space, and
/// the instruction, with a line feed behind it.
pub open spec fn listing_text(instrs: Seq<Instruction>) -> Seq<char>
    decreases instrs.len(),
{
    if instrs.len() == 0 {
        Seq::empty()
    } else {
        listing_text(instrs.drop_last()) + decimal(instrs.last().offset as nat) + " "@
            + instrs.last().spec_text() + "\n"@
    }
}

/// The listing of `instrs` as text.
pub fn format_listing(instrs: &Vec<Instruction>) -> (text: String)
    ensures
        text@ == listing_text(instrs@),
{
    let mut text = String::new();
    let mut i: usize = 0;
    while i < instrs.len()
        invariant
            i <= instrs@.len(),
            text@ == listing_text(instrs@.take(i as int)),
        decreases instrs@.len() - i,
    {
        proof {
            assert(instrs@.take(i + 1).drop_last() =~= instrs@.take(i as int));
        }
        write_decimal(instrs[i].offset as u64, &mut text);
        text.append(" ");
        let line = instrs[i].text();
        text.append(line.as_str());
        text.append("\n");
        i += 1;
    }
    assert(instrs@.take(i as int) =~= instrs@);
    text
}

} // verus!
