//! Errors of instruction decoding and of reading assembly.
use vstd::prelude::*;
use crate::isa::codec::CodecError;

verus! {

#[derive(Debug)]
pub enum InstructionError {
    UnexpectedEof,
    UnknownOpcode(u8),
    UnknownMnemonic(String),
    MissingOperand { mnemonic: &'static str, parameter: &'static str },
    TooManyOperands { mnemonic: &'static str },
    InvalidOperand { mnemonic: &'static str, source: CodecError },
    DecodeOperand { mnemonic: &'static str, source: CodecError },
}

} // verus!
