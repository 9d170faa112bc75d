use simtpu::isa::codec::{CodecError, ParamCodec};
use simtpu::isa::define::InstructionError;
use simtpu::isa::Instruction;

fn all_instructions() -> Vec<Instruction> {
    vec![
        Instruction::LoadW { src_addr: 0xdeadbeef, rows: 3, cols: 0xffff },
        Instruction::LoadA { src_addr: 1, len: 2 },
        Instruction::Matmul { cycles: 305419896 },
        Instruction::Bias { bias_addr: 7, len: 8 },
        Instruction::Act { fn_id: 255, param_addr: 0x01020304 },
        Instruction::Store { dst_addr: 9, len: 10 },
        Instruction::Sync {},
    ]
}

#[test]
fn encode_then_decode_gives_each_instruction_back() {
    for instruction in all_instructions() {
        let mut bytes = Vec::new();
        instruction.encode(&mut bytes);
        bytes.extend_from_slice(&[0xaa, 0xbb]);
        let mut input: &[u8] = &bytes;
        let decoded = Instruction::decode(&mut input).unwrap();
        assert_eq!(decoded, instruction);
        assert_eq!(input, &[0xaa, 0xbb]);
    }
}

#[test]
fn encode_appends_opcode_then_little_endian_operands() {
    let mut out = vec![0x99];
    Instruction::LoadW { src_addr: 0x11223344, rows: 0x5566, cols: 0x7788 }.encode(&mut out);
    assert_eq!(out, vec![0x99, 0x10, 0x44, 0x33, 0x22, 0x11, 0x66, 0x55, 0x88, 0x77]);
}

#[test]
fn opcodes_and_mnemonics() {
    let expected = [
        (0x10, "LOAD_W"),
        (0x11, "LOAD_A"),
        (0x12, "MATMUL"),
        (0x13, "BIAS"),
        (0x14, "ACT"),
        (0x15, "STORE"),
        (0x16, "SYNC"),
    ];
    for (instruction, (op, mn)) in all_instructions().iter().zip(expected.iter()) {
        assert_eq!(instruction.opcode(), *op);
        assert_eq!(instruction.mnemonic(), *mn);
    }
}

#[test]
fn decode_empty_input_is_eof() {
    let mut input: &[u8] = &[];
    assert!(matches!(Instruction::decode(&mut input), Err(InstructionError::UnexpectedEof)));
}

#[test]
fn decode_unknown_opcode_consumes_it() {
    let bytes = [0x42u8, 1, 2];
    let mut input: &[u8] = &bytes;
    assert!(matches!(Instruction::decode(&mut input), Err(InstructionError::UnknownOpcode(0x42))));
    assert_eq!(input, &[1, 2]);
}

#[test]
fn decode_truncated_operand_names_its_type() {
    let bytes = [0x10u8, 1, 2, 3, 4, 5];
    let mut input: &[u8] = &bytes;
    match Instruction::decode(&mut input) {
        Err(InstructionError::DecodeOperand { mnemonic: "LOAD_W", source: CodecError::UnexpectedEof { ty: "u16" } }) => {},
        other => panic!("unexpected {:?}", other),
    }
    assert_eq!(input, &[5]);
}

#[test]
fn parse_assembly_reads_operands() {
    assert_eq!(
        Instruction::parse_assembly("\tACT 0x7f\u{a0}  +12").unwrap(),
        Instruction::Act { fn_id: 0x7f, param_addr: 12 }
    );
    assert_eq!(Instruction::parse_assembly("SYNC").unwrap(), Instruction::Sync {});
    assert_eq!(Instruction::parse_assembly("MATMUL 0xffffffff").unwrap(), Instruction::Matmul { cycles: u32::MAX });
}

#[test]
fn parse_assembly_errors() {
    assert!(matches!(Instruction::parse_assembly("   "), Err(InstructionError::UnexpectedEof)));
    assert!(matches!(Instruction::parse_assembly("SYNC now"), Err(InstructionError::TooManyOperands { mnemonic: "SYNC" })));
    assert!(matches!(
        Instruction::parse_assembly("LOAD_A 1"),
        Err(InstructionError::MissingOperand { mnemonic: "LOAD_A", parameter: "len" })
    ));
    assert!(matches!(
        Instruction::parse_assembly("MATMUL 4294967296"),
        Err(InstructionError::InvalidOperand { mnemonic: "MATMUL", source: CodecError::InvalidValue { ty: "u32", .. } })
    ));
    assert!(matches!(Instruction::parse_assembly("matmul 1"), Err(InstructionError::UnknownMnemonic(_))));
}

#[test]
fn param_codec_round_trips_signed_and_unsigned() {
    let mut out = Vec::new();
    ParamCodec::encode(-2i16, &mut out);
    ParamCodec::encode(0x0102030405060708u64, &mut out);
    ParamCodec::encode(i64::MIN, &mut out);
    assert_eq!(&out[0..2], &[0xfe, 0xff]);
    assert_eq!(&out[2..10], &[8, 7, 6, 5, 4, 3, 2, 1]);
    let mut input: &[u8] = &out;
    assert_eq!(<i16 as ParamCodec>::decode(&mut input).unwrap(), -2);
    assert_eq!(<u64 as ParamCodec>::decode(&mut input).unwrap(), 0x0102030405060708);
    assert_eq!(<i64 as ParamCodec>::decode(&mut input).unwrap(), i64::MIN);
    assert!(input.is_empty());
    assert!(matches!(<i8 as ParamCodec>::decode(&mut input), Err(CodecError::UnexpectedEof { ty: "i8" })));
}

#[test]
fn param_codec_parses_like_from_str_radix() {
    assert_eq!(<i8 as ParamCodec>::parse("-128").unwrap(), -128);
    assert!(<i8 as ParamCodec>::parse("128").is_err());
    assert_eq!(<i32 as ParamCodec>::parse("0x-10").unwrap(), -16);
    assert_eq!(<u16 as ParamCodec>::parse("0XfF").unwrap(), 255);
    assert_eq!(<u8 as ParamCodec>::parse("+7").unwrap(), 7);
    assert!(<u8 as ParamCodec>::parse("-0").is_err());
    assert_eq!(<i16 as ParamCodec>::parse("-0").unwrap(), 0);
    assert!(<u32 as ParamCodec>::parse("").is_err());
    assert!(<u32 as ParamCodec>::parse("+").is_err());
    assert!(<u32 as ParamCodec>::parse("0x").is_err());
    assert!(<u32 as ParamCodec>::parse(" 1").is_err());
    assert_eq!(<u64 as ParamCodec>::parse("18446744073709551615").unwrap(), u64::MAX);
    assert!(<u64 as ParamCodec>::parse("18446744073709551616").is_err());
    assert_eq!(<i64 as ParamCodec>::parse("-9223372036854775808").unwrap(), i64::MIN);
    match <u8 as ParamCodec>::parse("1x") {
        Err(CodecError::InvalidValue { ty, value }) => {
            assert_eq!(ty, "u8");
            assert_eq!(value, "1x");
        },
        other => panic!("unexpected {:?}", other),
    }
}
