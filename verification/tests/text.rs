use dcpu16::parser::emit_operand;
use dcpu16::{
    parse, AssemblyError, DcpuError, DcpuErrorKind, DcpuVMError, HardwareInfo, LayoutError,
    Opcode, Operand, ParseError, Register, Statement,
};

#[test]
fn operand_text() {
    let cases = [
        (Operand::Register(Register::A), "A"),
        (Operand::RegisterDeref(Register::J), "[J]"),
        (Operand::RegisterPlusDeref(Register::X, 0x12), "[X + 0x12]"),
        (
            Operand::RegisterPlusLabelDeref(Register::Y, "table".to_string()),
            "[Y + table]",
        ),
        (Operand::Push, "PUSH"),
        (Operand::Pop, "POP"),
        (Operand::Peek, "[SP]"),
        (Operand::Pick(0xabcd), "[SP + 0xabcd]"),
        (Operand::Sp, "SP"),
        (Operand::Pc, "PC"),
        (Operand::Ex, "EX"),
        (Operand::Literal(0), "0x0"),
        (Operand::Literal(9), "0x9"),
        (Operand::Literal(10), "0xa"),
        (Operand::Literal(0x10), "0x10"),
        (Operand::Literal(0xffff), "0xffff"),
        (Operand::LiteralDeref(0x1000), "[0x1000]"),
        (Operand::Label("loop".to_string()), "loop"),
        (Operand::LabelDeref("data".to_string()), "[data]"),
        (Operand::LabelPlusDeref("data".to_string(), 0), "[data+0]"),
        (Operand::LabelPlusDeref("data".to_string(), 65535), "[data+65535]"),
        (
            Operand::LabelPlusLabelDeref("data".to_string(), "index".to_string()),
            "[data+index]",
        ),
    ];
    for (operand, text) in cases {
        assert_eq!(operand.to_text(), text);
        // what is written can be read, but for `[SP + n]`, which the
        // grammar does not have
        if !matches!(operand, Operand::Pick(_)) {
            assert_eq!(emit_operand(text), Ok(operand));
        }
    }
    assert_eq!(Register::Z.name(), "Z");
}

#[test]
fn opcode_text() {
    let program = vec![
        Opcode::SET(Operand::Register(Register::A), Operand::Literal(0x30)),
        Opcode::IFN(
            Operand::RegisterPlusDeref(Register::B, 2),
            Operand::LabelDeref("xs".to_string()),
        ),
        Opcode::STD(Operand::Push, Operand::Pop),
        Opcode::JSR(Operand::Label("sub".to_string())),
        Opcode::RFI(Operand::Literal(0)),
        Opcode::HWI(Operand::Register(Register::I)),
    ];
    let expected = [
        "SET A, 0x30",
        "IFN [B + 0x2], [xs]",
        "STD PUSH, POP",
        "JSR sub",
        "RFI 0x0",
        "HWI I",
    ];
    let mut source = String::new();
    for (op, text) in program.iter().zip(expected) {
        assert_eq!(op.to_text(), text);
        source.push_str(&op.to_text());
        source.push('\n');
    }
    // what is written can be read
    let statements: Vec<Statement> = program.into_iter().map(Statement::Instruction).collect();
    assert_eq!(parse(&source), Ok(statements));
}

#[test]
fn error_messages() {
    assert_eq!(
        DcpuError {
            reason: DcpuErrorKind::EmptyIterator
        }
        .message(),
        "Someone passed in an empty iterator!"
    );
    assert_eq!(
        DcpuVMError::OutOfBoundsMemory.message(),
        "Address out of bounds. Maybe external hardware tried to read too much RAM"
    );
    assert_eq!(
        DcpuVMError::DisassemblyFailed(DcpuError {
            reason: DcpuErrorKind::ReservedOpcode(0x18)
        })
        .message(),
        "Disassembly error: Reserved opcode found 18"
    );
    assert_eq!(
        AssemblyError::PushInAOp.message(),
        "Invalid operand A. Cannot put PUSH there."
    );
    assert_eq!(
        AssemblyError::CannotAssembleLabels("x".to_string()).message(),
        "Label not resolved to literal yet: x"
    );
    assert_eq!(
        LayoutError::RedefinedSymbol("top".to_string(), 0x1f, 0).message(),
        "Symbol redefined: top, @ 1f, previously @ 0"
    );
    assert_eq!(
        LayoutError::MissingSymbol("end".to_string()).message(),
        "Missing symbol: end"
    );
    assert_eq!(
        LayoutError::AssemblyError(AssemblyError::PopInBOp).message(),
        "Assembly failed: Invalid operand B. Cannot put POP there."
    );
    assert_eq!(
        ParseError::ExceedsLiteralSize(0x12345).message(),
        "Literal 12345 exceeds maximum size ffff"
    );
    assert_eq!(
        ParseError::GrammarError(12, "expected `,`".to_string()).message(),
        "Parse Error: expected `,` at offset 12"
    );
    assert_eq!(
        ParseError::ParseIntError("99999999999".to_string()).message(),
        "Failed to parse literal 99999999999"
    );
    assert_eq!(
        ParseError::InvalidDeref("PC".to_string()).message(),
        "Invalid deref on PC"
    );
}

#[test]
fn hardware_info_text() {
    assert_eq!(
        HardwareInfo {
            manufacturer: 0x904b3115,
            model: 0x12d0b402,
            version: 1
        }
        .to_text(),
        "Manufacturer ID: 904b3115, Model: 12d0b402, Version: 01"
    );
    assert_eq!(
        HardwareInfo {
            manufacturer: 0x1f,
            model: 0,
            version: 0x100
        }
        .to_text(),
        "Manufacturer ID: 001f, Model: 0000, Version: 100"
    );
}
