use simtpu::assembler::{assemble, AssemblerError};
use simtpu::isa::codec::CodecError;
use simtpu::isa::define::InstructionError;

#[test]
fn assembles_matmul_with_little_endian_cycles() {
    let binary = assemble("MATMUL 305419896").unwrap();
    let expected = [
        b'S', b'T', b'P', b'U', // Magic
        5, 0, 0, 0, // InstrCount = 5
        0x12, 0x78, 0x56, 0x34, 0x12, // Instructions
    ];
    assert_eq!(binary, expected);
}

#[test]
fn ignores_blank_lines_and_comments() {
    let source = "\n# warm up\n  MATMUL 1  # one cycle\n\nMATMUL 2\n";
    let binary = assemble(source).unwrap();
    let expected = [
        b'S', b'T', b'P', b'U', // Magic
        10, 0, 0, 0, // InstrCount = 10
        0x12, 0x01, 0x00, 0x00, 0x00, // MATMUL 1
        0x12, 0x02, 0x00, 0x00, 0x00, // MATMUL 2
    ];
    assert_eq!(binary, expected);
}

#[test]
fn reports_missing_operand_and_source_line() {
    let error = assemble("\n\nMATMUL").unwrap_err();
    assert!(matches!(
        error,
        AssemblerError::ParseError {
            line: 3,
            source: InstructionError::MissingOperand {
                mnemonic: "MATMUL",
                parameter: "cycles",
            },
        }
    ));
}

#[test]
fn reports_invalid_operand_and_source_line() {
    let error = assemble("MATMUL nope").unwrap_err();
    assert!(matches!(
        error,
        AssemblerError::ParseError {
            line: 1,
            source: InstructionError::InvalidOperand {
                mnemonic: "MATMUL",
                ..
            },
        }
    ));
}

#[test]
fn assembles_every_instruction_with_hex_and_decimal_operands() {
    let source = "LOAD_W 0x10 2 3\nLOAD_A 0X20 4\nBIAS 5 6\nACT 7 0x01020304\nSTORE 8 9\nSYNC\n";
    let binary = assemble(source).unwrap();
    let expected = [
        b'S', b'T', b'P', b'U', 37, 0, 0, 0, //
        0x10, 0x10, 0, 0, 0, 2, 0, 3, 0, //
        0x11, 0x20, 0, 0, 0, 4, 0, //
        0x13, 5, 0, 0, 0, 6, 0, //
        0x14, 7, 0x04, 0x03, 0x02, 0x01, //
        0x15, 8, 0, 0, 0, 9, 0, //
        0x16,
    ];
    assert_eq!(binary, expected);
}

#[test]
fn data_sections_follow_the_code() {
    let source = ".data ff\n.byte 1, -1, 256\nSYNC\n";
    let binary = assemble(source).unwrap();
    let expected = [
        b'S', b'T', b'P', b'U', 1, 0, 0, 0, 0x16, //
        0xff, 0, 0, 0, 3, 0, 0, 0, 1, 0xff, 0,
    ];
    assert_eq!(binary, expected);
}

#[test]
fn crlf_line_endings_count_lines() {
    let error = assemble("SYNC\r\nSYNC\r\nMATMUL\r\n").unwrap_err();
    assert!(matches!(error, AssemblerError::ParseError { line: 3, .. }));
}

#[test]
fn byte_directive_without_data_address_is_refused() {
    assert!(matches!(
        assemble("SYNC\n.byte 1").unwrap_err(),
        AssemblerError::DataWithoutAddress { line: 2 }
    ));
}

#[test]
fn data_directive_consumes_its_address() {
    assert!(matches!(
        assemble(".data 10\n.byte 1\n.byte 2").unwrap_err(),
        AssemblerError::DataWithoutAddress { line: 3 }
    ));
}

#[test]
fn invalid_data_address_is_refused() {
    assert!(matches!(assemble(".data 0x10").unwrap_err(), AssemblerError::InvalidDataAddress { line: 1 }));
    assert!(matches!(assemble(".data").unwrap_err(), AssemblerError::InvalidDataAddress { line: 1 }));
    assert!(matches!(assemble(".data 100000000").unwrap_err(), AssemblerError::InvalidDataAddress { line: 1 }));
}

#[test]
fn invalid_byte_is_refused() {
    assert!(matches!(assemble(".data 0\n.byte 1,,2").unwrap_err(), AssemblerError::InvalidByte { line: 2 }));
    assert!(matches!(assemble(".data 0\n.byte 4294967296").unwrap_err(), AssemblerError::InvalidByte { line: 2 }));
    assert!(matches!(assemble(".data 0\n.byte").unwrap_err(), AssemblerError::InvalidByte { line: 2 }));
}

#[test]
fn unknown_mnemonic_is_reported_with_its_text() {
    match assemble("  FOO 1 2").unwrap_err() {
        AssemblerError::ParseError { line: 1, source: InstructionError::UnknownMnemonic(m) } => assert_eq!(m, "FOO"),
        other => panic!("unexpected {:?}", other),
    }
}

#[test]
fn too_many_operands_are_refused() {
    assert!(matches!(
        assemble("MATMUL 1 2").unwrap_err(),
        AssemblerError::ParseError { line: 1, source: InstructionError::TooManyOperands { mnemonic: "MATMUL" } }
    ));
}

#[test]
fn out_of_range_operand_is_invalid() {
    match assemble("ACT 256 0").unwrap_err() {
        AssemblerError::ParseError {
            line: 1,
            source: InstructionError::InvalidOperand { mnemonic: "ACT", source: CodecError::InvalidValue { ty, value } },
        } => {
            assert_eq!(ty, "u8");
            assert_eq!(value, "256");
        },
        other => panic!("unexpected {:?}", other),
    }
}
