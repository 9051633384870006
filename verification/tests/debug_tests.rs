use sphinx_lang::codegen::chunk::{ChunkBuilder, Constant};
use sphinx_lang::codegen::opcodes::OpCode;
use sphinx_lang::debug::dasm::{disassemble, format_listing, Disassembler, Instruction};
use sphinx_lang::debug::symbol::table::{DebugSymbolTable, SymbolTableEntry};
use sphinx_lang::debug::symbol::{resolve_symbol, DebugSymbol, ResolvedSymbol};
use sphinx_lang::debug::traceback::{resolve_site, resolve_trace, TraceSite};
use sphinx_lang::source::{ModuleSource, SourceType};

#[test]
fn debug_symbols_test_symbol_resolution() {
    let text = r#"example
        code this example
        another example"#;

    let module = ModuleSource::new("<test>", SourceType::String(text.to_string()));

    let symbols = vec![
        DebugSymbol::from((0, 7)),
        DebugSymbol::from((0, 20)),
        DebugSymbol::from((13, 24)),
    ];

    let symbol_table = module.resolve_symbols(&symbols).unwrap();

    for (k, v) in symbols.iter().zip(symbol_table.iter()) {
        match v {
            Some(symbol) => println!("{:?} => {:?}", k, symbol),
            _ => println!("{:?} => {:?}", k, v),
        }
    }

    assert_eq!(
        symbol_table[0],
        Some(ResolvedSymbol { symbol: symbols[0], lineno: 1, lines_start: 0, lines_end: 7 })
    );
    assert_eq!(
        symbol_table[1],
        Some(ResolvedSymbol { symbol: symbols[1], lineno: 1, lines_start: 0, lines_end: 33 })
    );
    assert_eq!(
        symbol_table[2],
        Some(ResolvedSymbol { symbol: symbols[2], lineno: 2, lines_start: 8, lines_end: 33 })
    );
}

#[test]
fn dasm_test_opcode_const() {
    let mut builder = ChunkBuilder::new();

    let id = builder.get_or_insert_const(Constant::Float(1.2f64.to_le_bytes())).unwrap();
    builder.chunk_mut(0).push_byte(OpCode::LoadConst);
    builder.chunk_mut(0).push_byte(id as u8);

    let id = builder.get_or_insert_const(Constant::Integer(1)).unwrap();
    builder.chunk_mut(0).push_byte(OpCode::LoadConstWide);
    builder.chunk_mut(0).extend_bytes(&id.to_le_bytes());

    builder.chunk_mut(0).push_byte(OpCode::Return);

    let dasm = Disassembler::new(builder.chunk(0));
    println!("== dasm_test_opcode_const ==");
    let instructions = dasm.instructions().unwrap();
    println!("{}", format_listing(&instructions));

    assert_eq!(
        instructions,
        vec![
            Instruction { offset: 0, opcode: OpCode::LoadConst, operand: 0 },
            Instruction { offset: 2, opcode: OpCode::LoadConstWide, operand: 1 },
            Instruction { offset: 5, opcode: OpCode::Return, operand: 0 },
        ]
    );
    assert_eq!(format_listing(&instructions), "0 OP_LDCONST 0\n2 OP_LDCONST_16 1\n5 OP_RETURN\n");
}

#[test]
fn listings_stop_at_what_is_no_instruction() {
    assert_eq!(disassemble(&[]), Ok(vec![]));
    // a wide operand, the low byte first
    assert_eq!(
        disassemble(&[OpCode::LoadConstWide.byte(), 0x34, 0x12]),
        Ok(vec![Instruction { offset: 0, opcode: OpCode::LoadConstWide, operand: 0x1234 }])
    );
    // the code ends inside an operand
    assert_eq!(disassemble(&[OpCode::Pop.byte(), OpCode::LoadConstWide.byte(), 1]), Err(1));
    // a byte that stands for no operation
    assert_eq!(disassemble(&[OpCode::Pop.byte(), 0xFF, 0]), Err(1));
    assert_eq!(Instruction { offset: 0, opcode: OpCode::Jump, operand: 300 }.text(), "OP_JUMP 300");
    assert_eq!(Instruction { offset: 0, opcode: OpCode::Add, operand: 0 }.text(), "OP_ADD");
}

#[test]
fn opcodes_and_bytes_stand_for_each_other() {
    let mut seen = 0;
    for byte in 0..=255u8 {
        if let Some(opcode) = OpCode::from_byte(byte) {
            assert_eq!(opcode.byte(), byte);
            assert_eq!(u8::from(opcode), byte);
            assert!(opcode.operand_len() <= 2);
            assert!(opcode.mnemonic().starts_with("OP_"));
            seen += 1;
        }
    }
    assert_eq!(seen, 47);
    assert_eq!(OpCode::LoadConst.operand_len(), 1);
    assert_eq!(OpCode::LoadConstWide.operand_len(), 2);
    assert_eq!(OpCode::Return.operand_len(), 0);
    assert!(OpCode::Jump.is_jump());
    assert!(OpCode::JumpIfFalse.is_jump());
    assert!(OpCode::JumpIfTrue.is_jump());
    assert!(!OpCode::Call.is_jump());
}

#[test]
fn symbols_resolve_to_their_lines() {
    let text: Vec<char> = "ab\ncd\n\nef".chars().collect();
    // inside the second line
    assert_eq!(
        resolve_symbol(&text, DebugSymbol::new(4, 5)),
        Some(ResolvedSymbol {
            symbol: DebugSymbol::new(4, 5),
            lineno: 2,
            lines_start: 3,
            lines_end: 5
        })
    );
    // an empty symbol at the very end
    assert_eq!(
        resolve_symbol(&text, DebugSymbol::new(9, 9)),
        Some(ResolvedSymbol {
            symbol: DebugSymbol::new(9, 9),
            lineno: 4,
            lines_start: 7,
            lines_end: 9
        })
    );
    // over several lines
    let resolved = resolve_symbol(&text, DebugSymbol::new(1, 4)).unwrap();
    assert_eq!((resolved.lineno, resolved.lines_start, resolved.lines_end), (1, 0, 5));
    assert_eq!(resolved.start_col(), 1);
    assert!(!resolved.is_single_line(&text));
    assert!(resolve_symbol(&text, DebugSymbol::new(3, 5)).unwrap().is_single_line(&text));
    // outside the text, or the wrong way round
    assert_eq!(resolve_symbol(&text, DebugSymbol::new(4, 10)), None);
    assert_eq!(resolve_symbol(&text, DebugSymbol::new(5, 4)), None);
    let symbol = DebugSymbol::new(2, 6);
    assert_eq!((symbol.start(), symbol.end()), (2, 6));

    let file = ModuleSource::new("script", SourceType::File("script.sph".to_string()));
    assert_eq!(file.name(), "script");
    assert!(file.source_chars().is_none());
    assert!(file.resolve_symbols(&vec![symbol]).is_none());
    let held = ModuleSource::new("<cmd>", SourceType::String("ab".to_string()));
    assert_eq!(held.source_chars(), Some(vec!['a', 'b']));
    assert!(matches!(held.source(), SourceType::String(text) if text == "ab"));
}

#[test]
fn symbol_table_keeps_offsets_rising() {
    let mut table = DebugSymbolTable::new();
    assert!(table.can_insert(0));
    table.insert(0, Some(DebugSymbol::new(0, 3)));
    assert!(!table.can_insert(0));
    assert!(table.can_insert(1));
    table.insert(4, None);
    table.insert(9, Some(DebugSymbol::new(5, 8)));
    assert!(!table.can_insert(9));
    assert!(!table.can_insert(3));

    assert_eq!(table.lookup(0), Some(&DebugSymbol::new(0, 3)));
    assert_eq!(table.lookup(4), None);
    assert_eq!(table.lookup(9), Some(&DebugSymbol::new(5, 8)));
    assert_eq!(table.lookup(5), None);
    assert_eq!(table.lookup(10), None);

    let entries = table.iter();
    assert_eq!(
        entries,
        vec![(0, Some(DebugSymbol::new(0, 3))), (4, None), (9, Some(DebugSymbol::new(5, 8)))]
    );
    for pair in entries.windows(2) {
        assert!(pair[0].0 < pair[1].0);
    }
    assert_eq!(table.symbols(), vec![DebugSymbol::new(0, 3), DebugSymbol::new(5, 8)]);
    assert_eq!(DebugSymbolTable::default().iter(), vec![]);
    let entry = SymbolTableEntry { offset: 1, symbol: None };
    assert_eq!(entry, entry.clone());
}

#[test]
fn trace_sites_resolve_through_the_table_of_their_chunk() {
    let mut first = DebugSymbolTable::new();
    first.insert(2, Some(DebugSymbol::new(0, 13)));
    first.insert(5, None);
    let second = DebugSymbolTable::new();
    let tables = vec![first, second];

    assert_eq!(
        resolve_site(&tables, &TraceSite { chunk_id: 0, offset: 2 }),
        Some(DebugSymbol::new(0, 13))
    );
    assert_eq!(resolve_site(&tables, &TraceSite { chunk_id: 0, offset: 5 }), None);
    assert_eq!(resolve_site(&tables, &TraceSite { chunk_id: 0, offset: 3 }), None);
    assert_eq!(resolve_site(&tables, &TraceSite { chunk_id: 1, offset: 2 }), None);
    assert_eq!(resolve_site(&tables, &TraceSite { chunk_id: 7, offset: 2 }), None);
    assert_eq!(
        resolve_trace(
            &tables,
            &vec![TraceSite { chunk_id: 0, offset: 2 }, TraceSite { chunk_id: 1, offset: 0 }]
        ),
        vec![Some(DebugSymbol::new(0, 13)), None]
    );
}
