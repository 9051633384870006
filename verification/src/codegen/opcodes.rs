//! The instructions of the virtual machine: one byte that tells the
//! operation, then the bytes of its operand, the low byte first.

use vstd::prelude::*;
use vstd::std_specs::convert::FromSpecImpl;

verus! {

/// The index of an upvalue of a function.
pub type UpvalueIndex = u16;

/// The operation of an instruction.
#[derive(Debug, Clone, Copy, PartialEq, Eq, Hash, Structural)]
pub enum OpCode {
    Return,
    Pop,
    Dup,
    LoadConst,
    LoadConstWide,
    Nil,
    Empty,
    True,
    False,
    LoadLocal,
    LoadLocalWide,
    StoreLocal,
    StoreLocalWide,
    LoadGlobal,
    StoreGlobal,
    InsertGlobal,
    InsertGlobalMut,
    LoadUpvalue,
    StoreUpvalue,
    CloseUpvalue,
    Tuple,
    Call,
    Neg,
    Pos,
    Inv,
    Not,
    Mul,
    Div,
    Mod,
    Add,
    Sub,
    LShift,
    RShift,
    And,
    Xor,
    Or,
    LT,
    GT,
    LE,
    GE,
    EQ,
    NE,
    Jump,
    JumpIfFalse,
    JumpIfTrue,
    Echo,
    Assert,
}

impl OpCode {
    /// The byte that stands for the operation.
    pub open spec fn spec_byte(&self) -> u8 {
        match self {
            OpCode::Return => 0,
            OpCode::Pop => 1,
            OpCode::Dup => 2,
            OpCode::LoadConst => 3,
            OpCode::LoadConstWide => 4,
            OpCode::Nil => 5,
            OpCode::Empty => 6,
            OpCode::True => 7,
            OpCode::False => 8,
            OpCode::LoadLocal => 9,
            OpCode::LoadLocalWide => 10,
            OpCode::StoreLocal => 11,
            OpCode::StoreLocalWide => 12,
            OpCode::LoadGlobal => 13,
            OpCode::StoreGlobal => 14,
            OpCode::InsertGlobal => 15,
            OpCode::InsertGlobalMut => 16,
            OpCode::LoadUpvalue => 17,
            OpCode::StoreUpvalue => 18,
            OpCode::CloseUpvalue => 19,
            OpCode::Tuple => 20,
            OpCode::Call => 21,
            OpCode::Neg => 22,
            OpCode::Pos => 23,
            OpCode::Inv => 24,
            OpCode::Not => 25,
            OpCode::Mul => 26,
            OpCode::Div => 27,
            OpCode::Mod => 28,
            OpCode::Add => 29,
            OpCode::Sub => 30,
            OpCode::LShift => 31,
            OpCode::RShift => 32,
            OpCode::And => 33,
            OpCode::Xor => 34,
            OpCode::Or => 35,
            OpCode::LT => 36,
            OpCode::GT => 37,
            OpCode::LE => 38,
            OpCode::GE => 39,
            OpCode::EQ => 40,
            OpCode::NE => 41,
            OpCode::Jump => 42,
            OpCode::JumpIfFalse => 43,
            OpCode::JumpIfTrue => 44,
            OpCode::Echo => 45,
            OpCode::Assert => 46,
        }
    }

    /// The operation that `byte` stands for, if it stands for one.
    pub open spec fn spec_from_byte(byte: u8) -> Option<OpCode> {
        if byte == 0 {
            Some(OpCode::Return)
        } else if byte == 1 {
            Some(OpCode::Pop)
        } else if byte == 2 {
            Some(OpCode::Dup)
        } else if byte == 3 {
            Some(OpCode::LoadConst)
        } else if byte == 4 {
            Some(OpCode::LoadConstWide)
        } else if byte == 5 {
            Some(OpCode::Nil)
        } else if byte == 6 {
            Some(OpCode::Empty)
        } else if byte == 7 {
            Some(OpCode::True)
        } else if byte == 8 {
            Some(OpCode::False)
        } else if byte == 9 {
            Some(OpCode::LoadLocal)
        } else if byte == 10 {
            Some(OpCode::LoadLocalWide)
        } else if byte == 11 {
            Some(OpCode::StoreLocal)
        } else if byte == 12 {
            Some(OpCode::StoreLocalWide)
        } else if byte == 13 {
            Some(OpCode::LoadGlobal)
        } else if byte == 14 {
            Some(OpCode::StoreGlobal)
        } else if byte == 15 {
            Some(OpCode::InsertGlobal)
        } else if byte == 16 {
            Some(OpCode::InsertGlobalMut)
        } else if byte == 17 {
            Some(OpCode::LoadUpvalue)
        } else if byte == 18 {
            Some(OpCode::StoreUpvalue)
        } else if byte == 19 {
            Some(OpCode::CloseUpvalue)
        } else if byte == 20 {
            Some(OpCode::Tuple)
        } else if byte == 21 {
            Some(OpCode::Call)
        } else if byte == 22 {
            Some(OpCode::Neg)
        } else if byte == 23 {
            Some(OpCode::Pos)
        } else if byte == 24 {
            Some(OpCode::Inv)
        } else if byte == 25 {
            Some(OpCode::Not)
        } else if byte == 26 {
            Some(OpCode::Mul)
        } else if byte == 27 {
            Some(OpCode::Div)
        } else if byte == 28 {
            Some(OpCode::Mod)
        } else if byte == 29 {
            Some(OpCode::Add)
        } else if byte == 30 {
            Some(OpCode::Sub)
        } else if byte == 31 {
            Some(OpCode::LShift)
        } else if byte == 32 {
            Some(OpCode::RShift)
        } else if byte == 33 {
            Some(OpCode::And)
        } else if byte == 34 {
            Some(OpCode::Xor)
        } else if byte == 35 {
            Some(OpCode::Or)
        } else if byte == 36 {
            Some(OpCode::LT)
        } else if byte == 37 {
            Some(OpCode::GT)
        } else if byte == 38 {
            Some(OpCode::LE)
        } else if byte == 39 {
            Some(OpCode::GE)
        } else if byte == 40 {
            Some(OpCode::EQ)
        } else if byte == 41 {
            Some(OpCode::NE)
        } else if byte == 42 {
            Some(OpCode::Jump)
        } else if byte == 43 {
            Some(OpCode::JumpIfFalse)
        } else if byte == 44 {
            Some(OpCode::JumpIfTrue)
        } else if byte == 45 {
            Some(OpCode::Echo)
        } else if byte == 46 {
            Some(OpCode::Assert)
        } else {
            None
        }
    }

    /// The number of operand bytes that follow the operation.
    pub open spec fn spec_operand_len(&self) -> nat {
        match self {
            OpCode::LoadConst | OpCode::LoadLocal | OpCode::StoreLocal | OpCode::Tuple | OpCode::Call => 1,
            OpCode::LoadConstWide | OpCode::LoadLocalWide | OpCode::StoreLocalWide | OpCode::LoadUpvalue | OpCode::StoreUpvalue | OpCode::CloseUpvalue | OpCode::Jump | OpCode::JumpIfFalse | OpCode::JumpIfTrue => 2,
            _ => 0,
        }
    }

    /// The name of the operation in listings.
    pub open spec fn spec_mnemonic(&self) -> Seq<char> {
        match self {
            OpCode::Return => "OP_RETURN"@,
            OpCode::Pop => "OP_POP"@,
            OpCode::Dup => "OP_DUP"@,
            OpCode::LoadConst => "OP_LDCONST"@,
            OpCode::LoadConstWide => "OP_LDCONST_16"@,
            OpCode::Nil => "OP_NIL"@,
            OpCode::Empty => "OP_EMPTY"@,
            OpCode::True => "OP_TRUE"@,
            OpCode::False => "OP_FALSE"@,
            OpCode::LoadLocal => "OP_LDLOCAL"@,
            OpCode::LoadLocalWide => "OP_LDLOCAL_16"@,
            OpCode::StoreLocal => "OP_STLOCAL"@,
            OpCode::StoreLocalWide => "OP_STLOCAL_16"@,
            OpCode::LoadGlobal => "OP_LDGLOBAL"@,
            OpCode::StoreGlobal => "OP_STGLOBAL"@,
            OpCode::InsertGlobal => "OP_IN_GLOBAL_IM"@,
            OpCode::InsertGlobalMut => "OP_IN_GLOBAL_MUT"@,
            OpCode::LoadUpvalue => "OP_LDUPVAL"@,
            OpCode::StoreUpvalue => "OP_STUPVAL"@,
            OpCode::CloseUpvalue => "OP_CLUPVAL"@,
            OpCode::Tuple => "OP_TUPLE"@,
            OpCode::Call => "OP_CALL"@,
            OpCode::Neg => "OP_NEG"@,
            OpCode::Pos => "OP_POS"@,
            OpCode::Inv => "OP_INV"@,
            OpCode::Not => "OP_NOT"@,
            OpCode::Mul => "OP_MUL"@,
            OpCode::Div => "OP_DIV"@,
            OpCode::Mod => "OP_MOD"@,
            OpCode::Add => "OP_ADD"@,
            OpCode::Sub => "OP_SUB"@,
            OpCode::LShift => "OP_SHL"@,
            OpCode::RShift => "OP_SHR"@,
            OpCode::And => "OP_AND"@,
            OpCode::Xor => "OP_XOR"@,
            OpCode::Or => "OP_OR"@,
            OpCode::LT => "OP_LT"@,
            OpCode::GT => "OP_GT"@,
            OpCode::LE => "OP_LE"@,
            OpCode::GE => "OP_GE"@,
            OpCode::EQ => "OP_EQ"@,
            OpCode::NE => "OP_NE"@,
            OpCode::Jump => "OP_JUMP"@,
            OpCode::JumpIfFalse => "OP_JUMP_FALSE"@,
            OpCode::JumpIfTrue => "OP_JUMP_TRUE"@,
            OpCode::Echo => "OP_ECHO"@,
            OpCode::Assert => "OP_ASSERT"@,
        }
    }

    /// Whether the operation is a jump: its operand tells how far.
    pub open spec fn spec_is_jump(&self) -> bool {
        matches!(self, OpCode::Jump | OpCode::JumpIfFalse | OpCode::JumpIfTrue)
    }

    #[verifier::when_used_as_spec(spec_byte)]
    pub fn byte(&self) -> (byte: u8)
        ensures
            byte == self.spec_byte(),
    {
        match self {
            OpCode::Return => 0,
            OpCode::Pop => 1,
            OpCode::Dup => 2,
            OpCode::LoadConst => 3,
            OpCode::LoadConstWide => 4,
            OpCode::Nil => 5,
            OpCode::Empty => 6,
            OpCode::True => 7,
            OpCode::False => 8,
            OpCode::LoadLocal => 9,
            OpCode::LoadLocalWide => 10,
            OpCode::StoreLocal => 11,
            OpCode::StoreLocalWide => 12,
            OpCode::LoadGlobal => 13,
            OpCode::StoreGlobal => 14,
            OpCode::InsertGlobal => 15,
            OpCode::InsertGlobalMut => 16,
            OpCode::LoadUpvalue => 17,
            OpCode::StoreUpvalue => 18,
            OpCode::CloseUpvalue => 19,
            OpCode::Tuple => 20,
            OpCode::Call => 21,
            OpCode::Neg => 22,
            OpCode::Pos => 23,
            OpCode::Inv => 24,
            OpCode::Not => 25,
            OpCode::Mul => 26,
            OpCode::Div => 27,
            OpCode::Mod => 28,
            OpCode::Add => 29,
            OpCode::Sub => 30,
            OpCode::LShift => 31,
            OpCode::RShift => 32,
            OpCode::And => 33,
            OpCode::Xor => 34,
            OpCode::Or => 35,
            OpCode::LT => 36,
            OpCode::GT => 37,
            OpCode::LE => 38,
            OpCode::GE => 39,
            OpCode::EQ => 40,
            OpCode::NE => 41,
            OpCode::Jump => 42,
            OpCode::JumpIfFalse => 43,
            OpCode::JumpIfTrue => 44,
            OpCode::Echo => 45,
            OpCode::Assert => 46,
        }
    }

    #[verifier::when_used_as_spec(spec_from_byte)]
    pub fn from_byte(byte: u8) -> (opcode: Option<OpCode>)
        ensures
            opcode == OpCode::spec_from_byte(byte),
    {
        if byte == 0 {
            Some(OpCode::Return)
        } else if byte == 1 {
            Some(OpCode::Pop)
        } else if byte == 2 {
            Some(OpCode::Dup)
        } else if byte == 3 {
            Some(OpCode::LoadConst)
        } else if byte == 4 {
            Some(OpCode::LoadConstWide)
        } else if byte == 5 {
            Some(OpCode::Nil)
        } else if byte == 6 {
            Some(OpCode::Empty)
        } else if byte == 7 {
            Some(OpCode::True)
        } else if byte == 8 {
            Some(OpCode::False)
        } else if byte == 9 {
            Some(OpCode::LoadLocal)
        } else if byte == 10 {
            Some(OpCode::LoadLocalWide)
        } else if byte == 11 {
            Some(OpCode::StoreLocal)
        } else if byte == 12 {
            Some(OpCode::StoreLocalWide)
        } else if byte == 13 {
            Some(OpCode::LoadGlobal)
        } else if byte == 14 {
            Some(OpCode::StoreGlobal)
        } else if byte == 15 {
            Some(OpCode::InsertGlobal)
        } else if byte == 16 {
            Some(OpCode::InsertGlobalMut)
        } else if byte == 17 {
            Some(OpCode::LoadUpvalue)
        } else if byte == 18 {
            Some(OpCode::StoreUpvalue)
        } else if byte == 19 {
            Some(OpCode::CloseUpvalue)
        } else if byte == 20 {
            Some(OpCode::Tuple)
        } else if byte == 21 {
            Some(OpCode::Call)
        } else if byte == 22 {
            Some(OpCode::Neg)
        } else if byte == 23 {
            Some(OpCode::Pos)
        } else if byte == 24 {
            Some(OpCode::Inv)
        } else if byte == 25 {
            Some(OpCode::Not)
        } else if byte == 26 {
            Some(OpCode::Mul)
        } else if byte == 27 {
            Some(OpCode::Div)
        } else if byte == 28 {
            Some(OpCode::Mod)
        } else if byte == 29 {
            Some(OpCode::Add)
        } else if byte == 30 {
            Some(OpCode::Sub)
        } else if byte == 31 {
            Some(OpCode::LShift)
        } else if byte == 32 {
            Some(OpCode::RShift)
        } else if byte == 33 {
            Some(OpCode::And)
        } else if byte == 34 {
            Some(OpCode::Xor)
        } else if byte == 35 {
            Some(OpCode::Or)
        } else if byte == 36 {
            Some(OpCode::LT)
        } else if byte == 37 {
            Some(OpCode::GT)
        } else if byte == 38 {
            Some(OpCode::LE)
        } else if byte == 39 {
            Some(OpCode::GE)
        } else if byte == 40 {
            Some(OpCode::EQ)
        } else if byte == 41 {
            Some(OpCode::NE)
        } else if byte == 42 {
            Some(OpCode::Jump)
        } else if byte == 43 {
            Some(OpCode::JumpIfFalse)
        } else if byte == 44 {
            Some(OpCode::JumpIfTrue)
        } else if byte == 45 {
            Some(OpCode::Echo)
        } else if byte == 46 {
            Some(OpCode::Assert)
        } else {
            None
        }
    }

    pub fn operand_len(&self) -> (len: usize)
        ensures
            len == self.spec_operand_len(),
    {
        match self {
            OpCode::LoadConst | OpCode::LoadLocal | OpCode::StoreLocal | OpCode::Tuple | OpCode::Call => 1,
            OpCode::LoadConstWide | OpCode::LoadLocalWide | OpCode::StoreLocalWide | OpCode::LoadUpvalue | OpCode::StoreUpvalue | OpCode::CloseUpvalue | OpCode::Jump | OpCode::JumpIfFalse | OpCode::JumpIfTrue => 2,
            _ => 0,
        }
    }

    pub fn mnemonic(&self) -> (name: &'static str)
        ensures
            name@ == self.spec_mnemonic(),
    {
        match self {
            OpCode::Return => "OP_RETURN",
            OpCode::Pop => "OP_POP",
            OpCode::Dup => "OP_DUP",
            OpCode::LoadConst => "OP_LDCONST",
            OpCode::LoadConstWide => "OP_LDCONST_16",
            OpCode::Nil => "OP_NIL",
            OpCode::Empty => "OP_EMPTY",
            OpCode::True => "OP_TRUE",
            OpCode::False => "OP_FALSE",
            OpCode::LoadLocal => "OP_LDLOCAL",
            OpCode::LoadLocalWide => "OP_LDLOCAL_16",
            OpCode::StoreLocal => "OP_STLOCAL",
            OpCode::StoreLocalWide => "OP_STLOCAL_16",
            OpCode::LoadGlobal => "OP_LDGLOBAL",
            OpCode::StoreGlobal => "OP_STGLOBAL",
            OpCode::InsertGlobal => "OP_IN_GLOBAL_IM",
            OpCode::InsertGlobalMut => "OP_IN_GLOBAL_MUT",
            OpCode::LoadUpvalue => "OP_LDUPVAL",
            OpCode::StoreUpvalue => "OP_STUPVAL",
            OpCode::CloseUpvalue => "OP_CLUPVAL",
            OpCode::Tuple => "OP_TUPLE",
            OpCode::Call => "OP_CALL",
            OpCode::Neg => "OP_NEG",
            OpCode::Pos => "OP_POS",
            OpCode::Inv => "OP_INV",
            OpCode::Not => "OP_NOT",
            OpCode::Mul => "OP_MUL",
            OpCode::Div => "OP_DIV",
            OpCode::Mod => "OP_MOD",
            OpCode::Add => "OP_ADD",
            OpCode::Sub => "OP_SUB",
            OpCode::LShift => "OP_SHL",
            OpCode::RShift => "OP_SHR",
            OpCode::And => "OP_AND",
            OpCode::Xor => "OP_XOR",
            OpCode::Or => "OP_OR",
            OpCode::LT => "OP_LT",
            OpCode::GT => "OP_GT",
            OpCode::LE => "OP_LE",
            OpCode::GE => "OP_GE",
            OpCode::EQ => "OP_EQ",
            OpCode::NE => "OP_NE",
            OpCode::Jump => "OP_JUMP",
            OpCode::JumpIfFalse => "OP_JUMP_FALSE",
            OpCode::JumpIfTrue => "OP_JUMP_TRUE",
            OpCode::Echo => "OP_ECHO",
            OpCode::Assert => "OP_ASSERT",
        }
    }

    #[verifier::when_used_as_spec(spec_is_jump)]
    pub fn is_jump(&self) -> (jump: bool)
        ensures
            jump == self.spec_is_jump(),
    {
        matches!(self, OpCode::Jump | OpCode::JumpIfFalse | OpCode::JumpIfTrue)
    }

    /// A byte stands for the operation that it was made from, and for no
    /// other.
    pub proof fn lemma_byte_round_trip(op: OpCode)
        ensures
            OpCode::spec_from_byte(op.spec_byte()) == Some(op),
    {
    }

    /// An operation is made from the byte that stands for it.
    pub proof fn lemma_from_byte(byte: u8)
        ensures
            OpCode::spec_from_byte(byte) matches Some(op) ==> op.spec_byte() == byte,
    {
    }
}

impl From<OpCode> for u8 {
    fn from(opcode: OpCode) -> (byte: u8) {
        opcode.byte()
    }
}

impl FromSpecImpl<OpCode> for u8 {
    open spec fn obeys_from_spec() -> bool {
        true
    }

    open spec fn from_spec(opcode: OpCode) -> u8 {
        opcode.spec_byte()
    }
}

} // verus!
