use sphinx_lang::codegen::chunk::{ChunkBuf, ChunkBuilder, Constant, Program, UnloadedProgram};
use sphinx_lang::codegen::errors::{CompileError, ErrorKind};
use sphinx_lang::codegen::jumps::{emit_jump, emit_jump_back, patch_jump, JumpSite};
use sphinx_lang::codegen::opcodes::OpCode;
use sphinx_lang::debug::dasm::{disassemble, Instruction};
use sphinx_lang::runtime::strings::{InternSymbol, Interner, StringTable};
use sphinx_lang::runtime::variant::Variant;

#[test]
fn chunk_buf_takes_bytes() {
    let mut buf = ChunkBuf::new();
    assert_eq!(buf.len(), 0);
    buf.push_byte(OpCode::Pop);
    buf.push_byte(7u8);
    buf.extend_bytes(&[1, 2, 3]);
    assert_eq!(buf.len(), 5);
    assert_eq!(buf.as_slice(), &[OpCode::Pop.byte(), 7, 1, 2, 3]);
    buf.as_mut_slice()[1] = 9;
    assert_eq!(buf.as_slice(), &[OpCode::Pop.byte(), 9, 1, 2, 3]);
    assert_eq!(ChunkBuf::default().len(), 0);
}

#[test]
fn chunk_buf_patches_and_resizes() {
    let mut buf = ChunkBuf::new();
    buf.extend_bytes(&[10, 11, 12, 13, 14, 15]);
    buf.patch_bytes(2, &[0xAA, 0xBB]);
    assert_eq!(buf.as_slice(), &[10, 11, 0xAA, 0xBB, 14, 15]);
    buf.patch_bytes(6, &[]);
    assert_eq!(buf.as_slice(), &[10, 11, 0xAA, 0xBB, 14, 15]);
    // a patch that grows: what was inside it is overwritten
    buf.resize_patch(2, 2, 4);
    assert_eq!(buf.as_slice(), &[10, 11, 0, 0, 0, 0, 14, 15]);
    // a patch that shrinks
    buf.resize_patch(1, 5, 1);
    assert_eq!(buf.as_slice(), &[10, 0, 14, 15]);
    // at the very end
    buf.resize_patch(4, 0, 2);
    assert_eq!(buf.as_slice(), &[10, 0, 14, 15, 0, 0]);
    buf.resize_patch(0, 6, 0);
    assert_eq!(buf.len(), 0);
}

#[test]
fn the_same_constant_gets_the_same_id() {
    let mut builder = ChunkBuilder::new();
    let one = builder.get_or_insert_const(Constant::Integer(1)).unwrap();
    let float = builder.get_or_insert_const(Constant::Float(1.5f64.to_le_bytes())).unwrap();
    let two = builder.get_or_insert_const(Constant::from(2i64)).unwrap();
    let function = builder.get_or_insert_const(Constant::Function(1, 2)).unwrap();
    let string = builder.get_or_insert_const(Constant::from(0usize)).unwrap();
    assert_eq!((one, float, two, function, string), (0, 1, 2, 3, 4));

    assert_eq!(builder.get_or_insert_const(Constant::Integer(1)), Ok(one));
    assert_eq!(builder.get_or_insert_const(Constant::Float(1.5f64.to_le_bytes())), Ok(float));
    assert_eq!(builder.get_or_insert_const(Constant::Integer(2)), Ok(two));
    assert_eq!(builder.get_or_insert_const(Constant::Function(1, 2)), Ok(function));
    assert_eq!(builder.get_or_insert_const(Constant::String(0)), Ok(string));
    // constants that look alike are told apart
    assert_eq!(builder.get_or_insert_const(Constant::Function(2, 1)), Ok(5));
    assert_eq!(builder.get_or_insert_const(Constant::Integer(0)), Ok(6));
    assert_eq!(builder.get_or_insert_const(Constant::Float(0f64.to_le_bytes())), Ok(7));
    assert_eq!(builder.get_or_insert_const(Constant::Float((-0f64).to_le_bytes())), Ok(8));
    assert_eq!(builder.get_or_insert_const(Constant::Integer(i64::MIN)), Ok(9));
    assert_eq!(builder.get_or_insert_const(Constant::Integer(i64::MAX)), Ok(10));
    assert_eq!(builder.get_or_insert_const(Constant::Integer(-1)), Ok(11));
    assert_eq!(builder.get_or_insert_const(Constant::String(usize::MAX)), Ok(12));
    assert_eq!(builder.get_or_insert_const(Constant::Integer(i64::MIN)), Ok(9));
}

#[test]
fn string_constants_are_interned_first() {
    let mut builder = ChunkBuilder::new();
    let hello = builder.get_or_insert_str("hello").unwrap();
    let world = builder.get_or_insert_str("world").unwrap();
    assert_ne!(hello, world);
    assert_eq!(builder.get_or_insert_str("hello"), Ok(hello));
    assert_eq!(builder.get_or_insert_str("world"), Ok(world));
    // the constant holds the position of the string among the strings
    assert_eq!(builder.get_or_insert_const(Constant::String(0)), Ok(hello));
    assert_eq!(builder.get_or_insert_const(Constant::from(InternSymbol::try_from_usize(1).unwrap())), Ok(world));

    let mut strings = Interner::new();
    strings.get_or_intern("first");
    strings.get_or_intern("second");
    let mut builder = ChunkBuilder::with_strings(strings);
    assert_eq!(builder.get_or_insert_str("third"), Ok(0));
    assert_eq!(builder.get_or_insert_const(Constant::String(2)), Ok(0));
    let program = builder.build();
    assert_eq!(program.iter_strings(), vec!["first", "second", "third"]);
}

#[test]
fn the_constant_pool_has_a_limit() {
    let mut builder = ChunkBuilder::new();
    for value in 0..0x1_0000i64 {
        assert_eq!(builder.get_or_insert_const(Constant::Integer(value)), Ok(value as u16));
    }
    assert_eq!(
        builder.get_or_insert_const(Constant::Integer(0x1_0000)),
        Err(CompileError { kind: ErrorKind::ConstPoolLimit, symbol: None })
    );
    // what is in the pool is still found
    assert_eq!(builder.get_or_insert_const(Constant::Integer(0xFFFF)), Ok(0xFFFF));
    assert_eq!(builder.get_or_insert_const(Constant::Integer(0)), Ok(0));
    assert_eq!(
        builder.get_or_insert_str("late").unwrap_err().kind(),
        &ErrorKind::ConstPoolLimit
    );
    assert_eq!(ErrorKind::ConstPoolLimit.message(), "constant pool limit reached");
}

#[test]
fn the_number_of_chunks_has_a_limit() {
    let mut builder = ChunkBuilder::new();
    for id in 1..0x1_0000u32 {
        assert_eq!(builder.new_chunk(), Ok(id as u16));
    }
    assert_eq!(
        builder.new_chunk(),
        Err(CompileError { kind: ErrorKind::ChunkCountLimit, symbol: None })
    );
    assert_eq!(ErrorKind::ChunkCountLimit.message(), "chunk count limit reached");
    builder.chunk_mut(0xFFFF).push_byte(OpCode::Return);
    let program = builder.build();
    let ids = program.chunk_ids();
    assert_eq!(ids.len(), 0x1_0000);
    assert_eq!(ids[0xFFFF], 0xFFFF);
    assert_eq!(program.chunk(0xFFFF), &[OpCode::Return.byte()]);
    assert_eq!(program.chunk(0), &[] as &[u8]);
}

fn sample() -> UnloadedProgram {
    let mut builder = ChunkBuilder::new();
    let greeting = builder.get_or_insert_str("héllo").unwrap();
    let answer = builder.get_or_insert_const(Constant::Integer(42)).unwrap();
    let empty = builder.get_or_insert_str("").unwrap();
    let half = builder.get_or_insert_const(Constant::Float(0.5f64.to_le_bytes())).unwrap();
    assert_eq!((greeting, answer, empty, half), (0, 1, 2, 3));
    builder.chunk_mut(0).extend_bytes(&[OpCode::LoadConst.byte(), 0, OpCode::Echo.byte()]);
    let second = builder.new_chunk().unwrap();
    builder.chunk_mut(second).extend_bytes(&[OpCode::LoadConst.byte(), 1, OpCode::Return.byte()]);
    let third = builder.new_chunk().unwrap();
    assert_eq!((second, third), (1, 2));
    builder.build()
}

#[test]
fn a_built_program_holds_chunks_and_strings() {
    let program = sample();
    assert_eq!(program.chunk_ids(), vec![0, 1, 2]);
    assert_eq!(program.chunk(0), &[OpCode::LoadConst.byte(), 0, OpCode::Echo.byte()]);
    assert_eq!(program.chunk(1), &[OpCode::LoadConst.byte(), 1, OpCode::Return.byte()]);
    assert_eq!(program.chunk(2), &[] as &[u8]);
    assert_eq!(program.string(0), "héllo");
    assert_eq!(program.string(1), "");
    assert_eq!(program.iter_strings(), vec!["héllo", ""]);
    assert_eq!(program.lookup_const(0u16), &Constant::String(0));
    assert_eq!(program.lookup_const(1u16), &Constant::Integer(42));
    assert_eq!(program.lookup_const(2u8), &Constant::String(1));
}

#[test]
fn loading_interns_the_strings_of_a_program() {
    let mut table = StringTable::new();
    table.get_or_intern("taken");
    table.get_or_intern("");
    let program = Program::load(sample(), &mut table);
    // the table grew by the one new string
    assert_eq!(table.len(), 3);
    assert_eq!(table.resolve(&InternSymbol::try_from_usize(0).unwrap()), "taken");
    assert_eq!(table.resolve(&InternSymbol::try_from_usize(2).unwrap()), "héllo");

    assert_eq!(program.chunk(0), &[OpCode::LoadConst.byte(), 0, OpCode::Echo.byte()]);
    assert_eq!(program.chunk(1), &[OpCode::LoadConst.byte(), 1, OpCode::Return.byte()]);
    assert_eq!(program.chunk(2), &[] as &[u8]);
    assert_eq!(program.lookup_const(1u16), &Constant::Integer(42));

    match program.lookup_value(0u16) {
        Variant::String(symbol) => assert_eq!(table.resolve(&symbol), "héllo"),
        other => panic!("unexpected value {:?}", other),
    }
    match program.lookup_value(2u16) {
        Variant::String(symbol) => assert_eq!(table.resolve(&symbol), ""),
        other => panic!("unexpected value {:?}", other),
    }
    assert!(matches!(program.lookup_value(1u16), Variant::Integer(42)));
    match program.lookup_value(3u16) {
        Variant::Float(bytes) => assert_eq!(f64::from_le_bytes(bytes), 0.5),
        other => panic!("unexpected value {:?}", other),
    }
}

#[test]
fn unloading_gives_the_program_back() {
    let mut table = StringTable::new();
    table.get_or_intern("in the way");
    let loaded = Program::load(sample(), &mut table);
    let program = loaded.unload(&table);
    let fresh = sample();
    assert_eq!(program.chunk_ids(), fresh.chunk_ids());
    for id in fresh.chunk_ids() {
        assert_eq!(program.chunk(id), fresh.chunk(id));
    }
    assert_eq!(program.iter_strings(), fresh.iter_strings());
    for id in 0..4u16 {
        assert_eq!(program.lookup_const(id), fresh.lookup_const(id));
    }
    // and it can be loaded again, into another table
    let mut other = StringTable::new();
    let again = Program::load(program, &mut other);
    assert_eq!(other.len(), 2);
    assert_eq!(again.chunk(1), fresh.chunk(1));
}

#[test]
fn a_patched_jump_lands_behind_the_code_in_between() {
    let mut buf = ChunkBuf::new();
    buf.push_byte(OpCode::True);
    let site = emit_jump(&mut buf, OpCode::JumpIfFalse);
    assert_eq!(site, JumpSite { offset: 1 });
    assert_eq!(buf.as_slice(), &[OpCode::True.byte(), OpCode::JumpIfFalse.byte(), 0, 0]);
    buf.extend_bytes(&[OpCode::LoadConst.byte(), 3, OpCode::Echo.byte()]);
    assert!(patch_jump(&mut buf, site));
    assert_eq!(
        buf.as_slice(),
        &[
            OpCode::True.byte(),
            OpCode::JumpIfFalse.byte(),
            3,
            0,
            OpCode::LoadConst.byte(),
            3,
            OpCode::Echo.byte()
        ]
    );
    buf.push_byte(OpCode::Return);
    let instructions = disassemble(buf.as_slice()).unwrap();
    let jump = instructions[1];
    assert_eq!(jump, Instruction { offset: 1, opcode: OpCode::JumpIfFalse, operand: 3 });
    let target = jump.offset + 3 + jump.operand as usize;
    assert!(instructions.iter().any(|instr| instr.offset == target));
    assert_eq!(instructions.last().unwrap().offset, target);

    // a jump over nothing
    let mut buf = ChunkBuf::new();
    let site = emit_jump(&mut buf, OpCode::Jump);
    assert!(patch_jump(&mut buf, site));
    assert_eq!(buf.as_slice(), &[OpCode::Jump.byte(), 0, 0]);
}

#[test]
fn a_jump_goes_no_farther_than_its_operand_tells() {
    let mut buf = ChunkBuf::new();
    let site = emit_jump(&mut buf, OpCode::Jump);
    buf.extend_bytes(&vec![OpCode::Pop.byte(); 0x7FFF]);
    let mut longer = ChunkBuf::new();
    let far = emit_jump(&mut longer, OpCode::Jump);
    longer.extend_bytes(&vec![OpCode::Pop.byte(); 0x8000]);

    assert!(patch_jump(&mut buf, site));
    assert_eq!(&buf.as_slice()[..3], &[OpCode::Jump.byte(), 0xFF, 0x7F]);
    assert!(!patch_jump(&mut longer, far));
    assert_eq!(&longer.as_slice()[..3], &[OpCode::Jump.byte(), 0, 0]);
}

#[test]
fn a_jump_back_lands_on_the_start_of_the_loop() {
    let mut buf = ChunkBuf::new();
    buf.push_byte(OpCode::Nil);
    let start = buf.len();
    buf.extend_bytes(&[OpCode::Dup.byte(), OpCode::Pop.byte()]);
    assert!(emit_jump_back(&mut buf, OpCode::Jump, start));
    // five bytes back from the end of the jump: -5 in two's complement
    assert_eq!(
        buf.as_slice(),
        &[OpCode::Nil.byte(), OpCode::Dup.byte(), OpCode::Pop.byte(), OpCode::Jump.byte(), 0xFB, 0xFF]
    );
    let instructions = disassemble(buf.as_slice()).unwrap();
    let jump = instructions[3];
    let target = jump.offset as i64 + 3 + (jump.operand as i16) as i64;
    assert_eq!(target, start as i64);

    let mut far = ChunkBuf::new();
    far.extend_bytes(&vec![OpCode::Pop.byte(); 0x8000 - 3]);
    assert!(emit_jump_back(&mut far, OpCode::JumpIfTrue, 0));
    assert_eq!(&far.as_slice()[0x8000 - 3..], &[OpCode::JumpIfTrue.byte(), 0x00, 0x80]);
    let mut too_far = ChunkBuf::new();
    too_far.extend_bytes(&vec![OpCode::Pop.byte(); 0x8000 - 2]);
    assert!(!emit_jump_back(&mut too_far, OpCode::JumpIfTrue, 0));
    assert_eq!(too_far.len(), 0x8000 - 2);
}
