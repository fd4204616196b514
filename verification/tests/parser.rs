use dcpu16::parser::{
    emit_hex_literal, emit_int_literal, emit_label_def, emit_opcode_double, emit_opcode_single,
    emit_operand, parse_register,
};
use dcpu16::{parse, Opcode, Operand, ParseError, Register, Statement};

#[test]
fn int_literal() {
    assert!(emit_int_literal("-123").is_ok());
    assert!(emit_int_literal("123").is_ok());
    assert_eq!(
        emit_int_literal("-1234"),
        Ok(Operand::Literal(-1234i32 as u16))
    );
    assert_eq!(
        emit_int_literal("65536"),
        Err(ParseError::ExceedsLiteralSize(65536))
    );
    assert_eq!(emit_int_literal("12345"), Ok(Operand::Literal(12345u16)));
}

#[test]
fn hex_literal() {
    assert_eq!(emit_hex_literal("#ABCD"), Ok(Operand::Literal(0xABCD)));
    assert_eq!(emit_hex_literal("#FF11"), Ok(Operand::Literal(0xFF11)));
    assert_eq!(emit_hex_literal("0x1111"), Ok(Operand::Literal(0x1111)));
    assert_eq!(
        emit_hex_literal("0x1234"),
        Ok(Operand::Literal(0x1234 as u16))
    );
    assert_eq!(
        emit_hex_literal("0x12345"),
        Err(ParseError::ExceedsLiteralSize(0x12345))
    );
}

#[test]
fn labels() {
    assert_eq!(
        emit_label_def(":foo_bar1234"),
        Ok(Statement::LabelDef("foo_bar1234".to_string()))
    );
    assert_eq!(
        emit_label_def(":this_is_a_test"),
        Ok(Statement::LabelDef("this_is_a_test".to_string()))
    );
}

#[test]
fn opcode_single() {
    assert_eq!(
        emit_opcode_single("JSR #1234"),
        Ok(Statement::Instruction(Opcode::JSR(Operand::Literal(0x1234))))
    );
    assert_eq!(
        emit_opcode_single("JSR 1234"),
        Ok(Statement::Instruction(Opcode::JSR(Operand::Literal(1234))))
    );
    assert_eq!(
        emit_opcode_single("IAG [some_label]"),
        Ok(Statement::Instruction(Opcode::IAG(Operand::LabelDeref(
            "some_label".to_string()
        ))))
    );
}

#[test]
fn opcode_double() {
    assert_eq!(
        emit_opcode_double("SET PUSH, [some_label]"),
        Ok(Statement::Instruction(Opcode::SET(
            Operand::Push,
            Operand::LabelDeref("some_label".to_string())
        )))
    );
    assert_eq!(
        emit_opcode_double("SET [some_label], #10"),
        Ok(Statement::Instruction(Opcode::SET(
            Operand::LabelDeref("some_label".to_string()),
            Operand::Literal(0x10)
        )))
    );
}

#[test]
fn operand() {
    assert_eq!(
        emit_operand("I"),
        Ok(Operand::Register(Register::I))
    );
    assert_eq!(emit_operand("A"), Ok(Operand::Register(Register::A)));
    assert_eq!(emit_operand("pc"), Ok(Operand::Pc));
    assert_eq!(
        emit_operand("some_label"),
        Ok(Operand::Label(String::from("some_label")))
    );
    assert_eq!(emit_operand("0x1234"), Ok(Operand::Literal(0x1234)));
    assert_eq!(
        emit_operand("0x12345"),
        Err(ParseError::ExceedsLiteralSize(0x12345))
    );
    assert_eq!(emit_operand("[SP]"), Ok(Operand::Peek));
    assert_eq!(emit_operand("[0x1234]"), Ok(Operand::LiteralDeref(0x1234)));
    assert_eq!(
        emit_operand("[PC]"),
        Err(ParseError::InvalidDeref("PC".to_string()))
    );
    assert_eq!(
        emit_operand("[A+0x12]"),
        Ok(Operand::RegisterPlusDeref(Register::A, 0x12))
    );
    assert_eq!(
        emit_operand("[foobar+0x12]"),
        Ok(Operand::LabelPlusDeref("foobar".to_string(), 0x12))
    );
    assert_eq!(
        emit_operand("[A+foobar]"),
        Ok(Operand::RegisterPlusLabelDeref(
            Register::A,
            "foobar".to_string()
        ))
    );
    assert_eq!(
        emit_operand("[testing + foobar]"),
        Ok(Operand::LabelPlusLabelDeref(
            "testing".to_string(),
            "foobar".to_string()
        ))
    );
}

#[test]
fn statement() {
    assert_eq!(
        parse("SET PC, some_label"),
        Ok(vec![Statement::Instruction(Opcode::SET(
            Operand::Pc,
            Operand::Label("some_label".to_string())
        ))])
    );
    assert_eq!(
        parse(":some_label"),
        Ok(vec![Statement::LabelDef("some_label".to_string())])
    );
    assert_eq!(
        parse("IAG some_label"),
        Ok(vec![Statement::Instruction(Opcode::IAG(Operand::Label(
            "some_label".to_string()
        )))])
    );
}

#[test]
fn full() {
    assert_eq!(
        parse(";testing\n:some_label SET PC, some_label ;another test\n;awdawdawd"),
        Ok(vec![
            Statement::LabelDef("some_label".to_string()),
            Statement::Instruction(Opcode::SET(
                Operand::Pc,
                Operand::Label("some_label".to_string())
            )),
        ])
    );
    let simple_asm = "; a small program\n:start\n    SET A, 0x30\n    SET C, #30\n    SET B, 123 ; decimal\n    JSR start\n";
    let statements = parse(simple_asm).unwrap();
    assert_eq!(
        statements,
        vec![
            Statement::LabelDef("start".to_string()),
            Statement::Instruction(Opcode::SET(
                Operand::Register(Register::A),
                Operand::Literal(0x30)
            )),
            Statement::Instruction(Opcode::SET(
                Operand::Register(Register::C),
                Operand::Literal(0x30)
            )),
            Statement::Instruction(Opcode::SET(
                Operand::Register(Register::B),
                Operand::Literal(123)
            )),
            Statement::Instruction(Opcode::JSR(Operand::Label("start".to_string())))
        ]
    );
}

#[test]
fn empty_programs() {
    assert_eq!(parse(""), Ok(vec![]));
    assert_eq!(parse("  \n\t ; nothing here"), Ok(vec![]));
    assert_eq!(parse(";"), Ok(vec![]));
}

#[test]
fn every_mnemonic() {
    let binary = [
        "SET", "ADD", "SUB", "MUL", "MLI", "DIV", "DVI", "MOD", "MDI", "AND", "BOR", "XOR",
        "SHR", "ASR", "SHL", "IFB", "IFC", "IFE", "IFN", "IFG", "IFA", "IFL", "IFU", "ADX",
        "SBX", "STI", "STD",
    ];
    for name in binary {
        let text = format!("{} A, 1", name);
        let stmts = parse(&text).unwrap();
        assert_eq!(stmts.len(), 1);
        match &stmts[0] {
            Statement::Instruction(op) => {
                assert_eq!(op.binary_op().unwrap().mnemonic(), name);
                assert_eq!(
                    op.get_operands(),
                    (
                        &Operand::Literal(1),
                        Some(&Operand::Register(Register::A))
                    )
                );
            }
            _ => panic!("no instruction"),
        }
    }
    let special = ["JSR", "INT", "IAG", "IAS", "RFI", "IAQ", "HWN", "HWQ", "HWI"];
    for name in special {
        let text = format!("{} [X]", name);
        let stmts = parse(&text).unwrap();
        match &stmts[0] {
            Statement::Instruction(op) => {
                assert_eq!(op.special_op().unwrap().mnemonic(), name);
                assert_eq!(
                    op.get_operands(),
                    (&Operand::RegisterDeref(Register::X), None)
                );
            }
            _ => panic!("no instruction"),
        }
    }
    assert_eq!(
        parse("IAQ 1"),
        Ok(vec![Statement::Instruction(Opcode::IAQ(Operand::Literal(1)))])
    );
    assert_eq!(
        parse("IAS 1"),
        Ok(vec![Statement::Instruction(Opcode::IAS(Operand::Literal(1)))])
    );
}

#[test]
fn mnemonics_are_case_sensitive() {
    assert!(matches!(
        parse("set A, 1"),
        Err(ParseError::GrammarError(0, _))
    ));
    assert!(matches!(
        parse("SET a, 1 Set B, 2"),
        Err(ParseError::GrammarError(9, _))
    ));
}

#[test]
fn registers_are_case_insensitive() {
    assert_eq!(
        parse("SET a, [b]\nSET sp, Ex\nSET [z+2], pC"),
        Ok(vec![
            Statement::Instruction(Opcode::SET(
                Operand::Register(Register::A),
                Operand::RegisterDeref(Register::B)
            )),
            Statement::Instruction(Opcode::SET(Operand::Sp, Operand::Ex)),
            Statement::Instruction(Opcode::SET(
                Operand::RegisterPlusDeref(Register::Z, 2),
                Operand::Pc
            )),
        ])
    );
}

#[test]
fn push_and_pop_in_context() {
    assert_eq!(
        parse("SET PUSH, POP"),
        Ok(vec![Statement::Instruction(Opcode::SET(
            Operand::Push,
            Operand::Pop
        ))])
    );
    assert_eq!(
        parse("JSR POP"),
        Ok(vec![Statement::Instruction(Opcode::JSR(Operand::Pop))])
    );
    assert!(matches!(
        parse("SET POP, 1"),
        Err(ParseError::GrammarError(4, _))
    ));
    assert!(matches!(
        parse("SET A, PUSH"),
        Err(ParseError::GrammarError(7, _))
    ));
    assert!(matches!(
        parse("JSR PUSH"),
        Err(ParseError::GrammarError(4, _))
    ));
}

#[test]
fn literal_limits() {
    assert_eq!(emit_int_literal("65535"), Ok(Operand::Literal(0xffff)));
    assert_eq!(emit_int_literal("0"), Ok(Operand::Literal(0)));
    assert_eq!(emit_int_literal("-1"), Ok(Operand::Literal(0xffff)));
    assert_eq!(emit_int_literal("-65535"), Ok(Operand::Literal(1)));
    assert_eq!(
        emit_int_literal("-65536"),
        Err(ParseError::ExceedsLiteralSize(65536))
    );
    assert_eq!(
        emit_int_literal("2147483647"),
        Err(ParseError::ExceedsLiteralSize(2147483647))
    );
    assert_eq!(
        emit_int_literal("2147483648"),
        Err(ParseError::ParseIntError("2147483648".to_string()))
    );
    assert_eq!(
        emit_int_literal("-2147483648"),
        Err(ParseError::ExceedsLiteralSize(0x8000_0000))
    );
    assert_eq!(
        emit_int_literal("-2147483649"),
        Err(ParseError::ParseIntError("-2147483649".to_string()))
    );
    assert_eq!(
        emit_int_literal("99999999999999999999999999"),
        Err(ParseError::ParseIntError(
            "99999999999999999999999999".to_string()
        ))
    );
    assert_eq!(emit_hex_literal("0xffff"), Ok(Operand::Literal(0xffff)));
    assert_eq!(emit_hex_literal("#FfFf"), Ok(Operand::Literal(0xffff)));
    assert_eq!(
        emit_hex_literal("0x10000"),
        Err(ParseError::ExceedsLiteralSize(0x10000))
    );
    assert_eq!(
        emit_hex_literal("0xffffffff"),
        Err(ParseError::ExceedsLiteralSize(0xffff_ffff))
    );
    assert_eq!(
        emit_hex_literal("0x100000000"),
        Err(ParseError::ParseIntError("0x100000000".to_string()))
    );
    assert!(matches!(
        emit_hex_literal("0x"),
        Err(ParseError::GrammarError(2, _))
    ));
    assert!(matches!(
        emit_int_literal("-"),
        Err(ParseError::GrammarError(1, _))
    ));
}

#[test]
fn invalid_derefs() {
    assert_eq!(
        emit_operand("[ex]"),
        Err(ParseError::InvalidDeref("ex".to_string()))
    );
    assert_eq!(
        emit_operand("[SP+1]"),
        Err(ParseError::InvalidDeref("SP".to_string()))
    );
    assert_eq!(
        emit_operand("[PC + here]"),
        Err(ParseError::InvalidDeref("PC".to_string()))
    );
    assert_eq!(
        parse_register("PC".to_string()),
        Err(ParseError::InvalidDeref("PC".to_string()))
    );
    assert_eq!(parse_register("j".to_string()), Ok(Register::J));
}

#[test]
fn grammar_errors() {
    assert_eq!(
        parse("SET A 1"),
        Err(ParseError::GrammarError(6, "expected `,`".to_string()))
    );
    assert_eq!(
        parse("SET [A, 1"),
        Err(ParseError::GrammarError(6, "expected `]`".to_string()))
    );
    assert_eq!(
        parse(": x"),
        Err(ParseError::GrammarError(
            1,
            "expected a label name".to_string()
        ))
    );
    assert_eq!(
        parse("SET A, ?"),
        Err(ParseError::GrammarError(
            7,
            "expected a register, a label or a number".to_string()
        ))
    );
    assert_eq!(
        parse("SET A,"),
        Err(ParseError::GrammarError(
            6,
            "expected a register, a label or a number".to_string()
        ))
    );
    assert_eq!(
        parse("SET [1+A], 1"),
        Err(ParseError::GrammarError(
            5,
            "a number in brackets cannot have an offset".to_string()
        ))
    );
    assert_eq!(
        parse("NOP"),
        Err(ParseError::GrammarError(
            0,
            "expected a label definition or an instruction".to_string()
        ))
    );
    assert_eq!(
        parse("\n  123"),
        Err(ParseError::GrammarError(
            3,
            "expected a label definition or an instruction".to_string()
        ))
    );
    assert_eq!(
        emit_operand("A B"),
        Err(ParseError::GrammarError(
            2,
            "unexpected text after the end".to_string()
        ))
    );
    assert!(emit_opcode_single("SET A, 1").is_err());
    assert!(emit_opcode_double("JSR 1").is_err());
}

#[test]
fn blanks_and_comments_between_tokens() {
    assert_eq!(
        parse("SET[A],1"),
        Ok(vec![Statement::Instruction(Opcode::SET(
            Operand::RegisterDeref(Register::A),
            Operand::Literal(1)
        ))])
    );
    assert_eq!(
        parse("SET ; destination\n  [ A + 0x10 ] ; comma next\n , -1"),
        Ok(vec![Statement::Instruction(Opcode::SET(
            Operand::RegisterPlusDeref(Register::A, 0x10),
            Operand::Literal(0xffff)
        ))])
    );
    assert_eq!(
        parse("SET A, 1; caf\u{e9}\r\nSET B, 2"),
        Ok(vec![
            Statement::Instruction(Opcode::SET(
                Operand::Register(Register::A),
                Operand::Literal(1)
            )),
            Statement::Instruction(Opcode::SET(
                Operand::Register(Register::B),
                Operand::Literal(2)
            )),
        ])
    );
}

#[test]
fn words_that_are_only_almost_keywords() {
    assert_eq!(
        emit_operand("Apple"),
        Ok(Operand::Label("Apple".to_string()))
    );
    assert_eq!(emit_operand("SPX"), Ok(Operand::Label("SPX".to_string())));
    assert_eq!(emit_operand("_x9"), Ok(Operand::Label("_x9".to_string())));
    assert_eq!(
        emit_operand("[A+B]"),
        Ok(Operand::RegisterPlusLabelDeref(Register::A, "B".to_string()))
    );
    assert_eq!(
        emit_operand("[pop]"),
        Ok(Operand::LabelDeref("pop".to_string()))
    );
}
