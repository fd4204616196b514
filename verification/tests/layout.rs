use dcpu16::assembly::layout::{find_symbol, resolve_opcode, substitute_operand};
use dcpu16::{
    assemble_program, disassm, parse, Assemble, AssemblyError, Block, Layout, LayoutError,
    LayoutProgress, Opcode, Operand, Register, Statement,
};

fn assemble(source: &str) -> Result<Layout, LayoutError> {
    let statements = parse(source).unwrap();
    let mut layout = Layout::new();
    for statement in &statements {
        assert!(layout.word_bound() <= usize::MAX - 3);
        layout.handle_statement(statement)?;
    }
    layout.finalize()?;
    Ok(layout)
}

fn label(name: &str) -> Operand {
    Operand::Label(name.to_string())
}

#[test]
fn label_resolution() {
    let layout =
        assemble(":top SET A, top\n SUB A, 1\n IFN A, 0\n SET PC, top").unwrap();
    assert_eq!(layout.symbol(&"top".to_string()), Some(0));
    let ops = disassm(layout.code()).unwrap();
    assert_eq!(
        ops,
        vec![
            Opcode::SET(Operand::Register(Register::A), Operand::Literal(0)),
            Opcode::SUB(Operand::Register(Register::A), Operand::Literal(1)),
            Opcode::IFN(Operand::Register(Register::A), Operand::Literal(0)),
            Opcode::SET(Operand::Pc, Operand::Literal(0)),
        ]
    );
    assert_eq!(ops[0].get_operands().0, &Operand::Literal(0));
    assert_eq!(ops[3].get_operands().0, &Operand::Literal(0));
}

#[test]
fn label_positions_are_word_indices() {
    let layout = assemble(
        ":first SET [0x1000], 0x20\n:second SET A, 1\n:third :fourth SET B, second\n:end",
    )
    .unwrap();
    assert_eq!(layout.symbol(&"first".to_string()), Some(0));
    assert_eq!(layout.symbol(&"second".to_string()), Some(3));
    assert_eq!(layout.symbol(&"third".to_string()), Some(4));
    assert_eq!(layout.symbol(&"fourth".to_string()), Some(4));
    assert_eq!(layout.symbol(&"end".to_string()), Some(5));
    assert_eq!(layout.symbol(&"nowhere".to_string()), None);
    let code = layout.code();
    assert_eq!(code.len(), 5);
    // each label points at the first word of the statement after it
    assert_eq!(code[0], 0x7fc1);
    assert_eq!(code[3], 0x8801);
    let third = layout.symbol(&"third".to_string()).unwrap();
    assert_eq!(
        code[third],
        Opcode::SET(Operand::Register(Register::B), Operand::Literal(3))
            .assemble()
            .unwrap()[0]
    );
    assert_eq!(
        disassm(&code[4..].to_vec()),
        Ok(vec![Opcode::SET(
            Operand::Register(Register::B),
            Operand::Literal(3)
        )])
    );
}

#[test]
fn forward_reference_is_deferred() {
    let mut layout = Layout::new();
    let jump = Statement::Instruction(Opcode::SET(Operand::Pc, label("end")));
    layout
        .handle_statement(&Statement::Instruction(Opcode::SET(
            Operand::Register(Register::A),
            Operand::Literal(0x1234),
        )))
        .unwrap();
    assert_eq!(layout.code(), &vec![0x7c01, 0x1234]);
    assert_eq!(layout.word_bound(), 2);
    layout.handle_statement(&jump).unwrap();
    // the block was sealed and a new one begun
    assert_eq!(layout.code(), &vec![]);
    assert_eq!(layout.word_bound(), 5);
    layout
        .handle_statement(&Statement::LabelDef("end".to_string()))
        .unwrap();
    layout
        .handle_statement(&Statement::Instruction(Opcode::SET(
            Operand::Register(Register::B),
            Operand::Literal(2),
        )))
        .unwrap();
    layout.finalize().unwrap();
    // the label is at the start of the second block, whose base address
    // is the size of the first block: the words of the deferred
    // instruction do not count
    assert_eq!(layout.symbol(&"end".to_string()), Some(2));
    assert_eq!(layout.code()[2], 0x8f81);
    assert_eq!(
        disassm(layout.code()),
        Ok(vec![
            Opcode::SET(Operand::Register(Register::A), Operand::Literal(0x1234)),
            Opcode::SET(Operand::Pc, Operand::Literal(2)),
            Opcode::SET(Operand::Register(Register::B), Operand::Literal(2)),
        ])
    );
    assert_eq!(layout.word_bound(), layout.code().len());
}

#[test]
fn assembled_program_decodes_to_its_statements() {
    let source = ":start SET A, data\n ADD [data], 1\n SET B, [data+1]\n IFE B, [X+data]\n JSR later\n SET PUSH, [start+data]\n:later SET PC, POP\n:data";
    let layout = assemble(source).unwrap();
    let ops = disassm(layout.code()).unwrap();
    let data = layout.symbol(&"data".to_string()).unwrap() as u16;
    let later = layout.symbol(&"later".to_string()).unwrap() as u16;
    assert_eq!(
        ops,
        vec![
            Opcode::SET(Operand::Register(Register::A), Operand::Literal(data)),
            Opcode::ADD(Operand::LiteralDeref(data), Operand::Literal(1)),
            Opcode::SET(
                Operand::Register(Register::B),
                Operand::LiteralDeref(data.wrapping_add(1))
            ),
            Opcode::IFE(
                Operand::Register(Register::B),
                Operand::RegisterPlusDeref(Register::X, data)
            ),
            Opcode::JSR(Operand::Literal(later)),
            Opcode::SET(Operand::Push, Operand::LiteralDeref(data)),
            Opcode::SET(Operand::Pc, Operand::Pop),
        ]
    );
}

#[test]
fn redefined_symbol_in_one_block() {
    assert_eq!(
        assemble(":a SET A, 1\n:b SET [0x1000], 0x20\n:a").err(),
        Some(LayoutError::RedefinedSymbol("a".to_string(), 4, 0))
    );
}

#[test]
fn redefined_symbol_across_blocks() {
    // `x` is defined at 1 in the first block; `SET A, far` is deferred, and
    // `x` is defined again at offset 1 of the second block, whose base is 1.
    assert_eq!(
        assemble("SET A, 1\n:x SET A, far\n SET B, 1\n:x\n:far").err(),
        Some(LayoutError::RedefinedSymbol("x".to_string(), 2, 1))
    );
}

#[test]
fn missing_symbol() {
    assert_eq!(
        assemble("SET A, nowhere").err(),
        Some(LayoutError::MissingSymbol("nowhere".to_string()))
    );
    assert_eq!(
        assemble(":here SET [here+there], [there+here]").err(),
        Some(LayoutError::MissingSymbol("there".to_string()))
    );
}

#[test]
fn assembly_errors_surface() {
    let mut layout = Layout::new();
    let bad = Statement::Instruction(Opcode::SET(Operand::Pop, Operand::Literal(1)));
    assert_eq!(
        layout.handle_statement(&bad),
        Err(LayoutError::AssemblyError(AssemblyError::PopInBOp))
    );
    assert_eq!(layout.code(), &vec![]);
    // a deferred instruction fails only when it is resolved
    let late = Statement::Instruction(Opcode::SET(Operand::Pop, label("x")));
    layout.handle_statement(&late).unwrap();
    layout
        .handle_statement(&Statement::LabelDef("x".to_string()))
        .unwrap();
    assert_eq!(
        layout.finalize(),
        Err(LayoutError::AssemblyError(AssemblyError::PopInBOp))
    );
}

#[test]
fn block_labels_and_statements() {
    let mut block = Block::new();
    assert_eq!(block.size(), 0);
    assert_eq!(block.define_label(&"zero".to_string(), None), Ok(()));
    assert_eq!(
        block.handle_statement(&Opcode::SET(Operand::Register(Register::A), label("zero"))),
        Ok(LayoutProgress::Continue)
    );
    assert_eq!(block.code(), &vec![0x8401]);
    assert_eq!(block.define_label(&"far".to_string(), Some(0x1_0005)), Ok(()));
    assert_eq!(
        block.define_label(&"zero".to_string(), Some(7)),
        Err(LayoutError::RedefinedSymbol("zero".to_string(), 7, 0))
    );
    assert_eq!(
        block.define_label(&"zero".to_string(), None),
        Err(LayoutError::RedefinedSymbol("zero".to_string(), 1, 0))
    );
    assert_eq!(
        block.handle_statement(&Opcode::JSR(label("unknown"))),
        Ok(LayoutProgress::Deferred)
    );
    assert_eq!(block.size(), 1);
    // positions are taken modulo 65536
    assert_eq!(
        block.handle_label_operand(label("far")),
        Some(Operand::Literal(5))
    );
    assert_eq!(
        block.handle_label_operand(Operand::LabelPlusDeref("far".to_string(), 0xffff)),
        Some(Operand::LiteralDeref(4))
    );
    assert_eq!(
        block.handle_label_operand(Operand::LabelPlusLabelDeref(
            "far".to_string(),
            "far".to_string()
        )),
        Some(Operand::LiteralDeref(10))
    );
    assert_eq!(
        block.handle_label_operand(Operand::LabelDeref("zero".to_string())),
        Some(Operand::LiteralDeref(0))
    );
    assert_eq!(
        block.handle_label_operand(Operand::RegisterPlusLabelDeref(
            Register::J,
            "far".to_string()
        )),
        Some(Operand::RegisterPlusDeref(Register::J, 5))
    );
    assert_eq!(block.handle_label_operand(label("unknown")), None);
    assert_eq!(block.handle_label_operand(Operand::Pop), Some(Operand::Pop));
    assert_eq!(block.symbol(&"far".to_string()), Some(0x1_0005));
}

#[test]
fn block_join() {
    let mut first = Block::new();
    first
        .handle_statement(&Opcode::SET(
            Operand::Register(Register::A),
            Operand::Literal(0x100),
        ))
        .unwrap();
    first.define_label(&"a".to_string(), None).unwrap();
    let mut second = Block::new();
    second.define_label(&"b".to_string(), None).unwrap();
    second
        .handle_statement(&Opcode::SET(Operand::Register(Register::B), label("b")))
        .unwrap();
    second.define_label(&"c".to_string(), None).unwrap();
    assert_eq!(first.join(&mut second), Ok(()));
    assert_eq!(first.code(), &vec![0x7c01, 0x100, 0x8421]);
    assert_eq!(first.symbol(&"a".to_string()), Some(2));
    assert_eq!(first.symbol(&"b".to_string()), Some(2));
    assert_eq!(first.symbol(&"c".to_string()), Some(3));
    assert_eq!(second.size(), 0);
    assert_eq!(second.symbol(&"b".to_string()), None);

    let mut third = Block::new();
    third.define_label(&"new".to_string(), None).unwrap();
    third.define_label(&"c".to_string(), None).unwrap();
    assert_eq!(
        first.join(&mut third),
        Err(LayoutError::RedefinedSymbol("c".to_string(), 3, 3))
    );
    // nothing changed
    assert_eq!(first.symbol(&"new".to_string()), None);
    assert_eq!(third.symbol(&"c".to_string()), Some(0));
    assert_eq!(first.size(), 3);
}

#[test]
fn symbol_lookup_helpers() {
    let symbols = vec![("one".to_string(), 1usize), ("two".to_string(), 2)];
    assert_eq!(find_symbol(&symbols, &"two".to_string()), Some(2));
    assert_eq!(find_symbol(&symbols, &"three".to_string()), None);
    assert_eq!(
        substitute_operand(&symbols, &label("one")),
        Ok(Operand::Literal(1))
    );
    assert_eq!(
        substitute_operand(&symbols, &label("three")),
        Err("three".to_string())
    );
    assert_eq!(
        resolve_opcode(
            &symbols,
            &Opcode::ADD(label("two"), Operand::LabelDeref("one".to_string()))
        ),
        Ok(Opcode::ADD(Operand::Literal(2), Operand::LiteralDeref(1)))
    );
    // operand a is looked at first
    assert_eq!(
        resolve_opcode(&symbols, &Opcode::ADD(label("x"), label("y"))),
        Err("y".to_string())
    );
}

#[test]
fn finalize_twice_changes_nothing() {
    let mut layout = assemble(":top SET A, top\nSET B, end\n:end").unwrap();
    let code = layout.code().clone();
    assert_eq!(layout.finalize(), Ok(()));
    assert_eq!(layout.code(), &code);
    assert_eq!(layout.symbol(&"end".to_string()), Some(1));
}

#[test]
fn whole_programs() {
    let source = ":loop SET A, [data]\n IFE A, 0\n SET PC, end\n ADD B, A\n ADD [loop + 1], 1\n SET PC, loop\n:end SET PC, end\n:data";
    let statements = parse(source).unwrap();
    let program = assemble_program(&statements).unwrap();
    let layout = assemble(source).unwrap();
    assert_eq!(program.code(), layout.code());
    assert_eq!(program.symbol(&"loop".to_string()), Some(0));
    assert_eq!(
        program.symbol(&"end".to_string()),
        layout.symbol(&"end".to_string())
    );
    assert_eq!(
        assemble_program(&parse("SET A, 1 :x :x").unwrap()).err(),
        Some(LayoutError::RedefinedSymbol("x".to_string(), 1, 1))
    );
    assert_eq!(
        assemble_program(&parse("SET A, nowhere").unwrap()).err(),
        Some(LayoutError::MissingSymbol("nowhere".to_string()))
    );
    assert_eq!(assemble_program(&vec![]).unwrap().size(), 0);
}

#[test]
fn program_is_the_encoded_instructions() {
    // `far` is used before it is defined, so the second instruction is
    // deferred; `near` is known where it is used
    let source = ":near SET A, near\n SET B, [far]\n:mid ADD A, [mid + 1]\n SET PC, near\n:far";
    let program = assemble_program(&parse(source).unwrap()).unwrap();
    let far = program.symbol(&"far".to_string()).unwrap() as u16;
    // the second block starts behind the first, which has one word
    assert_eq!(program.symbol(&"mid".to_string()), Some(1));
    let resolved = vec![
        Opcode::SET(Operand::Register(Register::A), Operand::Literal(0)),
        Opcode::SET(Operand::Register(Register::B), Operand::LiteralDeref(far)),
        // within its block `mid` is at offset 0
        Opcode::ADD(Operand::Register(Register::A), Operand::LiteralDeref(1)),
        // `near` is not defined in the second block: deferred, and resolved
        // with the table of all symbols
        Opcode::SET(Operand::Pc, Operand::Literal(0)),
    ];
    let mut words = vec![];
    for op in &resolved {
        words.extend(op.assemble().unwrap());
    }
    assert_eq!(program.code(), &words);
    assert_eq!(disassm(program.code()), Ok(resolved));
}

#[test]
fn labels_defined_once_assemble() {
    // every label is defined once and every use has a definition
    let source = "JSR main\n:data SET PUSH, [data + 2]\n:main SET A, POP\n IFE [main], data\n SET PC, stop\n:stop SET PC, stop";
    assert!(assemble_program(&parse(source).unwrap()).is_ok());
    // a second definition, a label without one, or POP as a destination
    assert!(assemble_program(&parse("JSR main\n:main\n:main").unwrap()).is_err());
    assert!(assemble_program(&parse("JSR main").unwrap()).is_err());
    assert!(
        assemble_program(&vec![Statement::Instruction(Opcode::SET(
            Operand::Pop,
            Operand::Label("main".to_string())
        )), Statement::LabelDef("main".to_string())])
        .is_err()
    );
}
