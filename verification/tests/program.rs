use simtpu::assembler::assemble;
use simtpu::isa::define::InstructionError;
use simtpu::isa::Instruction;
use simtpu::program::{program_format, ProgramError, ProgramFormat};
use simtpu::Program;

#[test]
fn assembled_program_reads_back() {
    let source = "LOAD_W 1 2 3\n.data 1f\n.byte 5, 6\nMATMUL 9\n.data 0\n.byte -2\nSYNC\n";
    let binary = assemble(source).unwrap();
    let mut program = Program::new(None);
    program.decode_binary(&binary).unwrap();
    assert_eq!(
        program.instructions(),
        &[
            Instruction::LoadW { src_addr: 1, rows: 2, cols: 3 },
            Instruction::Matmul { cycles: 9 },
            Instruction::Sync {},
        ]
    );
    assert_eq!(program.data(), &[(0x1f, vec![5, 6]), (0, vec![0xfe])]);
}

#[test]
fn decode_binary_appends_to_existing_instructions() {
    let mut program = Program::new(Some(vec![Instruction::Sync {}]));
    program.decode_binary(&assemble("MATMUL 3").unwrap()).unwrap();
    assert_eq!(program.instructions(), &[Instruction::Sync {}, Instruction::Matmul { cycles: 3 }]);
}

#[test]
fn decode_binary_rejects_bad_headers() {
    let mut program = Program::new(None);
    assert!(matches!(program.decode_binary(b"STPU\x00\x00\x00"), Err(ProgramError::InvalidBinaryFormat)));
    assert!(matches!(program.decode_binary(b"XTPU\x00\x00\x00\x00"), Err(ProgramError::InvalidBinaryFormat)));
    assert!(matches!(program.decode_binary(b"STPU\x02\x00\x00\x00\x16"), Err(ProgramError::InvalidBinaryFormat)));
    assert!(program.instructions().is_empty());
    program.decode_binary(b"STPU\x00\x00\x00\x00").unwrap();
    assert!(program.instructions().is_empty());
}

#[test]
fn decode_binary_keeps_what_was_read_before_an_error() {
    let mut program = Program::new(None);
    let r = program.decode_binary(b"STPU\x02\x00\x00\x00\x16\x99");
    assert!(matches!(r, Err(ProgramError::DecodeFailed(InstructionError::UnknownOpcode(0x99)))));
    assert_eq!(program.instructions(), &[Instruction::Sync {}]);

    let mut program = Program::new(None);
    let r = program.decode_binary(b"STPU\x00\x00\x00\x00\x01\x00\x00\x00\x01\x00\x00\x00\x07\x02\x00\x00\x00\x05\x00\x00\x00\x01");
    assert!(matches!(r, Err(ProgramError::InvalidBinaryFormat)));
    assert_eq!(program.data(), &[(1, vec![7])]);

    let mut program = Program::new(None);
    let r = program.decode_binary(b"STPU\x00\x00\x00\x00\x01\x00\x00");
    assert!(matches!(r, Err(ProgramError::InvalidBinaryFormat)));
    assert!(program.data().is_empty());
}

#[test]
fn program_formats_by_extension() {
    assert_eq!(program_format(Some("asm")).unwrap(), ProgramFormat::Assembly);
    assert_eq!(program_format(Some("txt")).unwrap(), ProgramFormat::Assembly);
    assert_eq!(program_format(Some("bin")).unwrap(), ProgramFormat::Binary);
    assert!(matches!(program_format(Some("BIN")), Err(ProgramError::UnsupportedFormat)));
    assert!(matches!(program_format(None), Err(ProgramError::UnsupportedFormat)));
}
