use dcpu16::assembly::assemble::{
    build_op, build_operand, build_special_op, is_short_literal, to_short_literal,
};
use dcpu16::disassemble::{from_short_literal, get_operand, handle_special_op};
use dcpu16::{
    disassm, disassm_one, Assemble, AssemblyError, BinaryOp, DcpuError, DcpuErrorKind,
    MemIterator, Opcode, Operand, Register, SpecialOp, WordCursor, WordStream,
};

fn decode_first(words: &Vec<u16>) -> Result<(Opcode, usize), DcpuError> {
    let mut itr = WordCursor::new(words, 1);
    disassm_one(words[0], &mut itr)
}

#[test]
fn short_literal() {
    assert_eq!(
        build_operand(true, &Operand::Literal(0xFFFF)),
        Ok((0x20 << 10, None))
    );
}

#[test]
fn short_literal_range() {
    assert!(is_short_literal(0xFFFF));
    assert!(is_short_literal(0));
    assert!(is_short_literal(30));
    assert!(!is_short_literal(31));
    assert!(!is_short_literal(0xFFFE));
    assert_eq!(to_short_literal(0xFFFF), 0x20);
    assert_eq!(to_short_literal(0), 0x21);
    assert_eq!(to_short_literal(30), 0x3f);
    assert_eq!(from_short_literal(0x20), 0xFFFF);
    assert_eq!(from_short_literal(0x21), 0);
    assert_eq!(from_short_literal(0x3f), 30);
}

#[test]
fn short_literal_only_as_a() {
    assert_eq!(
        build_operand(false, &Operand::Literal(1)),
        Ok((0x1f << 5, Some(1)))
    );
    assert_eq!(build_operand(true, &Operand::Literal(1)), Ok((0x22 << 10, None)));
    assert_eq!(
        build_operand(true, &Operand::Literal(31)),
        Ok((0x1f << 10, Some(31)))
    );
}

#[test]
fn short_literal_encoding() {
    // SET A, 1: the literal 1 has the inline code 0x22.
    let op = Opcode::SET(Operand::Register(Register::A), Operand::Literal(1));
    let words = op.assemble().unwrap();
    assert_eq!(words, vec![0x8801]);
    assert_eq!(decode_first(&words), Ok((op, 0)));
    // The word 0x8401 holds the inline code 0x21, which is the literal 0.
    assert_eq!(
        decode_first(&vec![0x8401]),
        Ok((
            Opcode::SET(Operand::Register(Register::A), Operand::Literal(0)),
            0
        ))
    );
}

#[test]
fn next_word_literal() {
    let op = Opcode::SET(Operand::LiteralDeref(0x1000), Operand::Literal(0x20));
    let words = op.assemble().unwrap();
    assert_eq!(words, vec![0x7fc1, 0x0020, 0x1000]);
    assert_eq!(decode_first(&words), Ok((op, 2)));
}

#[test]
fn negative_short_literal_bit_pattern() {
    let op = Opcode::ADD(Operand::Register(Register::B), Operand::Literal(0xFFFF));
    let words = op.assemble().unwrap();
    assert_eq!(words, vec![0x8022]);
    assert_eq!(decode_first(&words), Ok((op, 0)));
}

#[test]
fn encode_errors() {
    assert_eq!(
        Opcode::SET(Operand::Register(Register::A), Operand::Push).assemble(),
        Err(AssemblyError::PushInAOp)
    );
    assert_eq!(
        Opcode::SET(Operand::Pop, Operand::Register(Register::A)).assemble(),
        Err(AssemblyError::PopInBOp)
    );
    assert_eq!(
        Opcode::JSR(Operand::Label("far".to_string())).assemble(),
        Err(AssemblyError::CannotAssembleLabels("far".to_string()))
    );
    assert_eq!(
        Opcode::SET(
            Operand::RegisterPlusLabelDeref(Register::X, "tab".to_string()),
            Operand::Literal(0)
        )
        .assemble(),
        Err(AssemblyError::CannotAssembleLabels("tab".to_string()))
    );
    // An error of operand a comes before one of operand b.
    assert_eq!(
        Opcode::SET(Operand::Pop, Operand::Push).assemble(),
        Err(AssemblyError::PushInAOp)
    );
}

#[test]
fn build_op_masks_opcode() {
    assert_eq!(
        build_op(0x21, &Operand::Register(Register::A), &Operand::Register(Register::B)),
        build_op(0x01, &Operand::Register(Register::A), &Operand::Register(Register::B))
    );
    assert_eq!(
        build_op(0x01, &Operand::Register(Register::A), &Operand::Register(Register::B)),
        Ok(vec![0x0401])
    );
    assert_eq!(
        build_special_op(0x01, &Operand::Literal(0x1234)),
        Ok(vec![0x7c20, 0x1234])
    );
}

#[test]
fn push_and_pop_share_a_code() {
    let op = Opcode::SET(Operand::Push, Operand::Pop);
    let words = op.assemble().unwrap();
    assert_eq!(words, vec![0x6301]);
    assert_eq!(decode_first(&words), Ok((op, 0)));
}

#[test]
fn decode_reserved_opcodes() {
    for word in [0x0018u16, 0x0019, 0x001c, 0x001d] {
        assert_eq!(
            decode_first(&vec![word]),
            Err(DcpuError {
                reason: DcpuErrorKind::ReservedOpcode(word)
            })
        );
    }
    // special opcodes: only 0x01, 0x08..0x0c and 0x10..0x12 exist
    for special in 0u16..32 {
        let word = special << 5;
        let known = [0x01, 0x08, 0x09, 0x0a, 0x0b, 0x0c, 0x10, 0x11, 0x12].contains(&special);
        assert_eq!(decode_first(&vec![word]).is_ok(), known);
        if !known {
            assert_eq!(
                decode_first(&vec![word]),
                Err(DcpuError {
                    reason: DcpuErrorKind::ReservedOpcode(word)
                })
            );
        }
    }
}

#[test]
fn decode_special_opcodes() {
    let cases = [
        (0x01u16, Opcode::JSR(Operand::Register(Register::A))),
        (0x08, Opcode::INT(Operand::Register(Register::A))),
        (0x09, Opcode::IAG(Operand::Register(Register::A))),
        (0x0a, Opcode::IAS(Operand::Register(Register::A))),
        (0x0b, Opcode::RFI(Operand::Register(Register::A))),
        (0x0c, Opcode::IAQ(Operand::Register(Register::A))),
        (0x10, Opcode::HWN(Operand::Register(Register::A))),
        (0x11, Opcode::HWQ(Operand::Register(Register::A))),
        (0x12, Opcode::HWI(Operand::Register(Register::A))),
    ];
    for (code, op) in cases {
        assert_eq!(decode_first(&vec![code << 5]), Ok((op.clone(), 0)));
        assert_eq!(op.assemble(), Ok(vec![code << 5]));
        assert_eq!(handle_special_op(code << 5, None), Ok((op, false)));
    }
}

#[test]
fn decode_missing_next_word() {
    assert_eq!(
        decode_first(&vec![0x7fc1]),
        Err(DcpuError {
            reason: DcpuErrorKind::MissingNextWord
        })
    );
    assert_eq!(
        decode_first(&vec![0x7fc1, 0x0020]),
        Err(DcpuError {
            reason: DcpuErrorKind::MissingNextWord
        })
    );
    assert_eq!(
        get_operand(true, 0x7c00, None),
        Err(DcpuError {
            reason: DcpuErrorKind::MissingNextWord
        })
    );
    assert_eq!(
        get_operand(true, 0x7c00, Some(7)),
        Ok((Operand::Literal(7), true))
    );
    assert_eq!(get_operand(false, 0x0300, None), Ok((Operand::Push, false)));
    assert_eq!(get_operand(true, 0x6000, None), Ok((Operand::Pop, false)));
}

#[test]
fn disassm_one_takes_words_from_the_stream() {
    let words = vec![0x7fc1, 0x0020, 0x1000, 0x8801];
    let mut itr = WordCursor::new(&words, 1);
    let first = disassm_one(words[0], &mut itr).unwrap();
    assert_eq!(first.1, 2);
    assert_eq!(itr.index(), 3);
    assert_eq!(itr.peek(), Some(0x8801));
    assert_eq!(itr.next(), Some(0x8801));
    assert_eq!(itr.next(), None);
}

#[test]
fn disassm_decodes_every_word() {
    let words = vec![0x7c01, 0x0030, 0x7fc1, 0x0020, 0x1000, 0x8801];
    assert_eq!(
        disassm(&words),
        Ok(vec![
            Opcode::SET(Operand::Register(Register::A), Operand::Literal(0x30)),
            Opcode::SET(Operand::LiteralDeref(0x1000), Operand::Literal(0x20)),
            Opcode::SET(Operand::Register(Register::A), Operand::Literal(1)),
        ])
    );
    // the all-zero word is no end marker
    assert_eq!(
        disassm(&vec![0x8801, 0x0000, 0x8801]),
        Err(DcpuError {
            reason: DcpuErrorKind::ReservedOpcode(0)
        })
    );
    assert_eq!(
        disassm(&vec![]),
        Err(DcpuError {
            reason: DcpuErrorKind::EmptyIterator
        })
    );
}

fn all_operands() -> Vec<Operand> {
    let mut v = vec![
        Operand::Push,
        Operand::Pop,
        Operand::Peek,
        Operand::Pick(0),
        Operand::Pick(0xffff),
        Operand::Sp,
        Operand::Pc,
        Operand::Ex,
        Operand::Literal(0),
        Operand::Literal(30),
        Operand::Literal(31),
        Operand::Literal(0xffff),
        Operand::Literal(0xfffe),
        Operand::LiteralDeref(0),
        Operand::LiteralDeref(0x1234),
    ];
    for n in 0..8 {
        let r = Register::from_index(n);
        v.push(Operand::Register(r));
        v.push(Operand::RegisterDeref(r));
        v.push(Operand::RegisterPlusDeref(r, 0x10 + n));
    }
    v
}

#[test]
fn encode_decode_round_trip() {
    let binary = [
        BinaryOp::SET,
        BinaryOp::ADD,
        BinaryOp::SUB,
        BinaryOp::MUL,
        BinaryOp::MLI,
        BinaryOp::DIV,
        BinaryOp::DVI,
        BinaryOp::MOD,
        BinaryOp::MDI,
        BinaryOp::AND,
        BinaryOp::BOR,
        BinaryOp::XOR,
        BinaryOp::SHR,
        BinaryOp::ASR,
        BinaryOp::SHL,
        BinaryOp::IFB,
        BinaryOp::IFC,
        BinaryOp::IFE,
        BinaryOp::IFN,
        BinaryOp::IFG,
        BinaryOp::IFA,
        BinaryOp::IFL,
        BinaryOp::IFU,
        BinaryOp::ADX,
        BinaryOp::SBX,
        BinaryOp::STI,
        BinaryOp::STD,
    ];
    let special = [
        SpecialOp::JSR,
        SpecialOp::INT,
        SpecialOp::IAG,
        SpecialOp::IAS,
        SpecialOp::RFI,
        SpecialOp::IAQ,
        SpecialOp::HWN,
        SpecialOp::HWQ,
        SpecialOp::HWI,
    ];
    let operands = all_operands();
    let mut accepted = 0;
    for a in &operands {
        for kind in special {
            let op = Opcode::special(kind, a.clone());
            if let Ok(words) = op.assemble() {
                assert!(1 <= words.len() && words.len() <= 2);
                assert_eq!(decode_first(&words), Ok((op, words.len() - 1)));
                accepted += 1;
            } else {
                assert_eq!(*a, Operand::Push);
            }
        }
        for b in &operands {
            for kind in binary {
                let op = Opcode::binary(kind, b.clone(), a.clone());
                if let Ok(words) = op.assemble() {
                    assert!(1 <= words.len() && words.len() <= 3);
                    assert_eq!(decode_first(&words), Ok((op, words.len() - 1)));
                    accepted += 1;
                } else {
                    assert!(*a == Operand::Push || *b == Operand::Pop);
                }
            }
        }
    }
    assert_eq!(accepted, 38 * 9 + 38 * 38 * 27);
}

#[test]
fn opcode_operands() {
    let op = Opcode::ADD(Operand::Register(Register::B), Operand::Literal(5));
    assert_eq!(op.num_operands(), 2);
    assert_eq!(
        op.get_operands(),
        (&Operand::Literal(5), Some(&Operand::Register(Register::B)))
    );
    // the opcode stays, whatever it is
    assert_eq!(
        op.set_operands(None, Operand::Literal(6)),
        Opcode::ADD(Operand::Register(Register::B), Operand::Literal(6))
    );
    assert_eq!(
        op.set_operands(Some(Operand::Sp), Operand::Pop),
        Opcode::ADD(Operand::Sp, Operand::Pop)
    );
    let jsr = Opcode::JSR(Operand::Label("f".to_string()));
    assert_eq!(jsr.num_operands(), 1);
    assert_eq!(jsr.get_operands(), (&Operand::Label("f".to_string()), None));
    assert_eq!(
        jsr.set_operands(Some(Operand::Sp), Operand::Literal(3)),
        Opcode::JSR(Operand::Literal(3))
    );
    assert_eq!(op.binary_op(), Some(BinaryOp::ADD));
    assert_eq!(op.special_op(), None);
    assert_eq!(jsr.special_op(), Some(SpecialOp::JSR));
}

#[test]
fn opcode_numbers() {
    assert_eq!(BinaryOp::SET.code(), 0x01);
    assert_eq!(BinaryOp::IFU.code(), 0x17);
    assert_eq!(BinaryOp::ADX.code(), 0x1a);
    assert_eq!(BinaryOp::STD.code(), 0x1f);
    assert_eq!(BinaryOp::from_code(0x18), None);
    assert_eq!(BinaryOp::from_code(0x1b), Some(BinaryOp::SBX));
    assert_eq!(SpecialOp::HWI.code(), 0x12);
    assert_eq!(SpecialOp::from_code(0x02), None);
    assert_eq!(BinaryOp::MLI.mnemonic(), "MLI");
    assert_eq!(SpecialOp::IAQ.mnemonic(), "IAQ");
    assert!(BinaryOp::IFB.is_branch());
    assert!(!BinaryOp::ADX.is_branch());
}

#[test]
fn register_numbers() {
    let names = ["A", "B", "C", "X", "Y", "Z", "I", "J"];
    for n in 0..8u16 {
        let r = Register::from_index(n);
        assert_eq!(r.index(), n as usize);
        assert_eq!(Register::from_str(&names[n as usize].to_string()), Some(r));
        assert_eq!(
            Register::from_str(&names[n as usize].to_lowercase()),
            Some(r)
        );
    }
    assert_eq!(Register::from_str(&"".to_string()), None);
    assert_eq!(Register::from_str(&"AB".to_string()), None);
    assert_eq!(Register::from_str(&"D".to_string()), None);
}

#[test]
fn mem_iterator_wraps_around() {
    let mut ram = vec![0u16; 0x10000];
    ram[0xffff] = 7;
    ram[0] = 8;
    ram[1] = 9;
    let mut it = MemIterator::new(&ram, 0xffff, 0xffff);
    assert_eq!(it.peek(), Some(7));
    assert_eq!(it.next(), Some(7));
    assert_eq!(it.next(), Some(8));
    assert_eq!(it.next(), Some(9));
    let mut it = MemIterator::new(&ram, 0x10001, 0xffff);
    assert_eq!(it.next(), Some(9));
}

#[test]
fn decode_across_the_end_of_memory() {
    let mut ram = vec![0u16; 0x10000];
    ram[0xffff] = 0x7fc1;
    ram[0] = 0x0020;
    ram[1] = 0x1000;
    let mut it = MemIterator::new(&ram, 0xffff, 0xffff);
    let inst = it.next().unwrap();
    assert_eq!(
        disassm_one(inst, &mut it),
        Ok((
            Opcode::SET(Operand::LiteralDeref(0x1000), Operand::Literal(0x20)),
            2
        ))
    );
    assert_eq!(it.next(), Some(0));
}

#[test]
fn decode_error_messages() {
    assert_eq!(
        DcpuError {
            reason: DcpuErrorKind::MissingNextWord
        }
        .message(),
        "Missing next word needed by opcode"
    );
    assert_eq!(
        DcpuError {
            reason: DcpuErrorKind::ReservedOpcode(3)
        }
        .message(),
        "Reserved opcode found 3"
    );
    assert_eq!(
        DcpuError {
            reason: DcpuErrorKind::ReservedOpcode(0x1c)
        }
        .message(),
        "Reserved opcode found 1c"
    );
}
