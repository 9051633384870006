//! Jumps: emitted with a gap for the distance, which is filled in once the
//! place to jump to is known.

use vstd::prelude::*;
use crate::codegen::chunk::{patched, ChunkBuf};
use crate::codegen::opcodes::OpCode;
use crate::debug::dasm::{decode_at, listing, operand_at};

verus! {

/// The farthest that a jump can go forward.
pub const JUMP_MAX: usize = 0x7FFF;

/// The farthest that a jump can go back.
pub const JUMP_BACK_MAX: usize = 0x8000;

/// A jump that was emitted: the place where its instruction starts.
#[derive(Debug, Clone, Copy, PartialEq, Eq, Structural)]
pub struct JumpSite {
    pub offset: usize,
}

/// The distance that the operand `operand` of a jump tells: a number of 16
/// bits in two's complement.
pub open spec fn distance(operand: u16) -> int {
    if operand < 0x8000 {
        operand as int
    } else {
        operand - 0x1_0000
    }
}

/// The place that the jump at `at` goes to: as far from the end of its
/// instruction as its operand tells.
pub open spec fn jump_target(code: Seq<u8>, at: int) -> int {
    at + 3 + distance(operand_at(code, at + 1, 2))
}

/// Whether reading instructions from `from` on comes to `at`: `at` is where
/// an instruction starts, or where the code ends after the last one.
pub open spec fn reaches(code: Seq<u8>, from: int, at: int) -> bool
    decreases code.len() - from,
{
    if from >= at || from >= code.len() {
        from == at
    } else {
        match decode_at(code, from) {
            Some(instr) => reaches(code, from + 1 + instr.opcode.spec_operand_len(), at),
            None => false,
        }
    }
}

/// Whether an instruction of `code` starts at `at`, or the code ends there
/// after its last instruction.
pub open spec fn instruction_start(code: Seq<u8>, at: int) -> bool {
    reaches(code, 0, at)
}

/// The two bytes of the operand that tells `distance`, the low byte first.
pub open spec fn operand_bytes(operand: u16) -> Seq<u8> {
    seq![(operand % 256) as u8, (operand / 256) as u8]
}

/// Code that is a run of instructions ends where an instruction could start.
pub proof fn lemma_end_is_start(code: Seq<u8>, from: int)
    requires
        0 <= from <= code.len(),
        listing(code, from).is_some(),
    ensures
        reaches(code, from, code.len() as int),
    decreases code.len() - from,
{
    if from < code.len() {
        let instr = decode_at(code, from).unwrap();
        lemma_end_is_start(code, from + 1 + instr.opcode.spec_operand_len());
    }
}

/// Instructions that follow a run of instructions start where that run
/// says: what is added behind code does not move the starts inside it.
pub proof fn lemma_reaches_extended(code: Seq<u8>, more: Seq<u8>, from: int, at: int)
    requires
        0 <= from <= at <= code.len(),
        reaches(code, from, at),
    ensures
        reaches(code + more, from, at),
    decreases code.len() - from,
{
    if from < at {
        let instr = decode_at(code, from).unwrap();
        let len = instr.opcode.spec_operand_len();
        assert((code + more)[from] == code[from]);
        if len >= 1 {
            assert((code + more)[from + 1] == code[from + 1]);
        }
        if len >= 2 {
            assert((code + more)[from + 2] == code[from + 2]);
        }
        assert(decode_at(code + more, from) == Some(instr));
        lemma_reaches_monotone(code, from + 1 + len, at);
        lemma_reaches_extended(code, more, from + 1 + len, at);
    }
}

/// Filling in the operand of the instruction at `site` moves no
/// instruction: the same places are starts before and after, and a run of
/// instructions stays one.
pub proof fn lemma_patch_keeps_starts(code: Seq<u8>, site: int, operand: Seq<u8>, from: int, at: int)
    requires
        0 <= from <= code.len(),
        0 <= site,
        operand.len() == 2,
        site + 3 <= code.len(),
        decode_at(code, site) matches Some(instr) && instr.opcode.spec_operand_len() == 2,
        reaches(code, 0, site),
        from <= site ==> reaches(code, from, site),
        from > site ==> from >= site + 3,
    ensures
        reaches(code, from, at) == reaches(patched(code, site + 1, 2, operand), from, at),
        listing(code, from).is_some() == listing(patched(code, site + 1, 2, operand), from).is_some(),
    decreases code.len() - from,
{
    let after = patched(code, site + 1, 2, operand);
    assert(after.len() == code.len());
    if from < code.len() {
        assert(after[from] == code[from]);
        let op = OpCode::spec_from_byte(code[from]);
        if op.is_some() {
            let len = op.unwrap().spec_operand_len();
            if from + 1 + len <= code.len() {
                let next = from + 1 + len;
                if from < site {
                    // an instruction before the jump ends at or before it
                    assert(next <= site) by {
                        lemma_reaches_monotone(code, next, site);
                    }
                } else if from == site {
                    assert(next == site + 3);
                }
                assert(decode_at(code, from).is_some());
                assert(decode_at(after, from).is_some());
                assert(decode_at(after, from).unwrap().opcode == decode_at(code, from).unwrap().opcode);
                lemma_patch_keeps_starts(code, site, operand, next, at);
            }
        }
    }
}

/// Reading from `from` comes to `at` only if `from` is not behind `at`.
pub proof fn lemma_reaches_monotone(code: Seq<u8>, from: int, at: int)
    requires
        reaches(code, from, at),
    ensures
        from <= at,
    decreases code.len() - from,
{
    if from < at && from < code.len() {
        let instr = decode_at(code, from).unwrap();
        lemma_reaches_monotone(code, from + 1 + instr.opcode.spec_operand_len(), at);
    }
}

/// Emits the jump `opcode` with a gap for its distance, and tells where it
/// stands.
pub fn emit_jump(chunk: &mut ChunkBuf, opcode: OpCode) -> (site: JumpSite)
    requires
        opcode.spec_is_jump(),
    ensures
        site.offset == old(chunk)@.len(),
        final(chunk)@ == old(chunk)@ + seq![opcode.spec_byte(), 0u8, 0u8],
        final(chunk).symbol() == old(chunk).symbol(),
        decode_at(final(chunk)@, site.offset as int) matches Some(instr) && instr.opcode == opcode,
        listing(old(chunk)@, 0).is_some() ==> instruction_start(final(chunk)@, site.offset as int),
{
    let offset = chunk.len();
    let bytes: [u8; 3] = [opcode.byte(), 0u8, 0u8];
    chunk.extend_bytes(bytes.as_slice());
    proof {
        let added = seq![opcode.spec_byte(), 0u8, 0u8];
        assert(chunk@ =~= old(chunk)@ + added);
        OpCode::lemma_byte_round_trip(opcode);
        assert(chunk@[offset as int] == opcode.spec_byte());
        if listing(old(chunk)@, 0).is_some() {
            lemma_end_is_start(old(chunk)@, 0);
            lemma_reaches_extended(old(chunk)@, added, 0, offset as int);
        }
    }
    JumpSite { offset }
}

/// Lets the jump at `site` go to the end of the chunk, where the next
/// instruction will start. A jump that would have to go farther than its
/// operand can tell is left as it is.
pub fn patch_jump(chunk: &mut ChunkBuf, site: JumpSite) -> (done: bool)
    requires
        site.offset + 3 <= old(chunk)@.len(),
    ensures
        final(chunk).symbol() == old(chunk).symbol(),
        final(chunk)@.len() == old(chunk)@.len(),
        done == (old(chunk)@.len() - (site.offset + 3) <= JUMP_MAX),
        done ==> final(chunk)@ == patched(
            old(chunk)@,
            site.offset + 1,
            2,
            operand_bytes((old(chunk)@.len() - (site.offset + 3)) as u16),
        ) && jump_target(final(chunk)@, site.offset as int) == final(chunk)@.len(),
        !done ==> final(chunk)@ == old(chunk)@,
{
    let len = chunk.len();
    let far = len - (site.offset + 3);
    if far > JUMP_MAX {
        return false;
    }
    let operand = far as u16;
    let bytes: [u8; 2] = [(operand % 256) as u8, (operand / 256) as u8];
    assert(bytes@ =~= operand_bytes(operand));
    chunk.patch_bytes(site.offset + 1, bytes.as_slice());
    proof {
        assert(chunk@[site.offset + 1] == bytes@[0]);
        assert(chunk@[site.offset + 2] == bytes@[1]);
    }
    true
}

/// Emits the jump `opcode` back to `target`, a place in the chunk. Nothing
/// is emitted if that is farther than the operand can tell.
/// The bytes of the jump `opcode` that stands at `at` and goes back to
/// `target`: the operation, and the distance back as its operand.
pub open spec fn back_jump(opcode: OpCode, at: int, target: int) -> Seq<u8> {
    let back = at + 3 - target;
    seq![opcode.spec_byte()] + operand_bytes(
        if back == 0 {
            0u16
        } else {
            (0x1_0000 - back) as u16
        },
    )
}

pub fn emit_jump_back(chunk: &mut ChunkBuf, opcode: OpCode, target: usize) -> (emitted: bool)
    requires
        opcode.spec_is_jump(),
        target <= old(chunk)@.len(),
        old(chunk)@.len() + 3 <= usize::MAX,
    ensures
        final(chunk).symbol() == old(chunk).symbol(),
        emitted == (old(chunk)@.len() + 3 - target <= JUMP_BACK_MAX),
        emitted ==> final(chunk)@ == old(chunk)@ + back_jump(
            opcode,
            old(chunk)@.len() as int,
            target as int,
        ),
        emitted ==> final(chunk)@.len() == old(chunk)@.len() + 3 && final(chunk)@.take(
            old(chunk)@.len() as int,
        ) == old(chunk)@ && (decode_at(final(chunk)@, old(chunk)@.len() as int) matches Some(instr)
            && instr.opcode == opcode) && jump_target(final(chunk)@, old(chunk)@.len() as int)
            == target,
        !emitted ==> final(chunk)@ == old(chunk)@,
{
    let len = chunk.len();
    let back = len + 3 - target;
    if back > JUMP_BACK_MAX {
        return false;
    }
    let operand: u16 = if back == 0 {
        0
    } else {
        (0x1_0000 - back) as u16
    };
    let bytes: [u8; 3] = [opcode.byte(), (operand % 256) as u8, (operand / 256) as u8];
    chunk.extend_bytes(bytes.as_slice());
    proof {
        OpCode::lemma_byte_round_trip(opcode);
        assert(bytes@ =~= back_jump(opcode, len as int, target as int));
        assert(chunk@.take(len as int) =~= old(chunk)@);
        assert(chunk@[len as int] == opcode.spec_byte());
    }
    true
}

/// A jump that was patched lands where an instruction starts: after
/// `patch_jump`, the place that the jump at `site` goes to is the end of the
/// code, and in code that is a run of instructions that is where the next
/// one starts. Patching moves no instruction.
pub proof fn lemma_patched_jump_lands_on_start(code: Seq<u8>, site: int, operand: u16)
    requires
        0 <= site,
        site + 3 <= code.len(),
        listing(code, 0).is_some(),
        instruction_start(code, site),
        decode_at(code, site) matches Some(instr) && instr.opcode.spec_is_jump(),
        distance(operand) == code.len() - (site + 3),
    ensures
        ({
            let after = patched(code, site + 1, 2, operand_bytes(operand));
            &&& listing(after, 0).is_some()
            &&& jump_target(after, site) == after.len()
            &&& instruction_start(after, jump_target(after, site))
            &&& forall|at: int| instruction_start(code, at) == instruction_start(after, at)
        }),
{
    let bytes = operand_bytes(operand);
    let after = patched(code, site + 1, 2, bytes);
    assert(after.len() == code.len());
    assert(after[site + 1] == bytes[0]);
    assert(after[site + 2] == bytes[1]);
    assert(operand_at(after, site + 1, 2) == operand);
    lemma_patch_keeps_starts(code, site, bytes, 0, 0);
    lemma_end_is_start(after, 0);
    assert forall|at: int| instruction_start(code, at) == instruction_start(after, at) by {
        lemma_patch_keeps_starts(code, site, bytes, 0, at);
    }
}

} // verus!
