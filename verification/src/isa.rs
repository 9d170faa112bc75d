//! The instruction set: each instruction is an opcode byte followed by its
//! operands, least significant byte first.
pub mod codec;
pub mod define;

use vstd::prelude::*;
use crate::isa::codec::{CodecError, ParamCodec, le_bytes, le_value, lemma_pow256, lemma_le_roundtrip, lemma_le_value_bound, operand_value};
use crate::text::{words, word_spans, str_chars, span_is};
use vstd::string::StrSliceExecFns;
use crate::isa::define::InstructionError;
use crate::word::wrap;

verus! {

#[derive(Debug, Clone, PartialEq, Eq, Structural)]
pub enum Instruction {
    LoadW { src_addr: u32, rows: u16, cols: u16 },
    LoadA { src_addr: u32, len: u16 },
    Matmul { cycles: u32 },
    Bias { bias_addr: u32, len: u16 },
    Act { fn_id: u8, param_addr: u32 },
    Store { dst_addr: u32, len: u16 },
    Sync {},
}

/// The encoding of an operand.
pub open spec fn operand_bytes<T: ParamCodec>(v: T) -> Seq<u8> {
    le_bytes((v.val() % T::modulus()) as nat, T::size())
}

/// The `u16` held little-endian at `b[off..off + 2]`.
pub open spec fn u16_at(b: Seq<u8>, off: int) -> u16 {
    le_value(b.subrange(off, off + 2)) as u16
}

/// The `u32` held little-endian at `b[off..off + 4]`.
pub open spec fn u32_at(b: Seq<u8>, off: int) -> u32 {
    le_value(b.subrange(off, off + 4)) as u32
}

/// Running out of bytes in the middle of an operand of type `ty`.
pub open spec fn operand_eof(mnemonic: &'static str, ty: &'static str) -> InstructionError {
    InstructionError::DecodeOperand { mnemonic, source: CodecError::UnexpectedEof { ty } }
}

/// What decoding the bytes `b` gives, and how many bytes it consumes.
pub open spec fn decode_spec(b: Seq<u8>) -> (Result<Instruction, InstructionError>, int) {
    if b.len() == 0 {
        (Err(InstructionError::UnexpectedEof), 0)
    } else if b[0] == 0x10 {
        if b.len() < 5 {
            (Err(operand_eof("LOAD_W", "u32")), 1)
        } else if b.len() < 7 {
            (Err(operand_eof("LOAD_W", "u16")), 5)
        } else if b.len() < 9 {
            (Err(operand_eof("LOAD_W", "u16")), 7)
        } else {
            (Ok(Instruction::LoadW { src_addr: u32_at(b, 1), rows: u16_at(b, 5), cols: u16_at(b, 7) }), 9)
        }
    } else if b[0] == 0x11 {
        if b.len() < 5 {
            (Err(operand_eof("LOAD_A", "u32")), 1)
        } else if b.len() < 7 {
            (Err(operand_eof("LOAD_A", "u16")), 5)
        } else {
            (Ok(Instruction::LoadA { src_addr: u32_at(b, 1), len: u16_at(b, 5) }), 7)
        }
    } else if b[0] == 0x12 {
        if b.len() < 5 {
            (Err(operand_eof("MATMUL", "u32")), 1)
        } else {
            (Ok(Instruction::Matmul { cycles: u32_at(b, 1) }), 5)
        }
    } else if b[0] == 0x13 {
        if b.len() < 5 {
            (Err(operand_eof("BIAS", "u32")), 1)
        } else if b.len() < 7 {
            (Err(operand_eof("BIAS", "u16")), 5)
        } else {
            (Ok(Instruction::Bias { bias_addr: u32_at(b, 1), len: u16_at(b, 5) }), 7)
        }
    } else if b[0] == 0x14 {
        if b.len() < 2 {
            (Err(operand_eof("ACT", "u8")), 1)
        } else if b.len() < 6 {
            (Err(operand_eof("ACT", "u32")), 2)
        } else {
            (Ok(Instruction::Act { fn_id: b[1], param_addr: u32_at(b, 2) }), 6)
        }
    } else if b[0] == 0x15 {
        if b.len() < 5 {
            (Err(operand_eof("STORE", "u32")), 1)
        } else if b.len() < 7 {
            (Err(operand_eof("STORE", "u16")), 5)
        } else {
            (Ok(Instruction::Store { dst_addr: u32_at(b, 1), len: u16_at(b, 5) }), 7)
        }
    } else if b[0] == 0x16 {
        (Ok(Instruction::Sync {  }), 1)
    } else {
        (Err(InstructionError::UnknownOpcode(b[0])), 1)
    }
}

impl Instruction {
    pub open spec fn spec_opcode(self) -> u8 {
        match self {
            Instruction::LoadW { .. } => 0x10,
            Instruction::LoadA { .. } => 0x11,
            Instruction::Matmul { .. } => 0x12,
            Instruction::Bias { .. } => 0x13,
            Instruction::Act { .. } => 0x14,
            Instruction::Store { .. } => 0x15,
            Instruction::Sync {  } => 0x16,
        }
    }

    pub open spec fn spec_mnemonic(self) -> &'static str {
        match self {
            Instruction::LoadW { .. } => "LOAD_W",
            Instruction::LoadA { .. } => "LOAD_A",
            Instruction::Matmul { .. } => "MATMUL",
            Instruction::Bias { .. } => "BIAS",
            Instruction::Act { .. } => "ACT",
            Instruction::Store { .. } => "STORE",
            Instruction::Sync {  } => "SYNC",
        }
    }

    /// The machine code of the instruction: its opcode, then its operands.
    pub open spec fn encoding(self) -> Seq<u8> {
        seq![self.spec_opcode()] + match self {
            Instruction::LoadW { src_addr, rows, cols } => operand_bytes(src_addr) + operand_bytes(rows)
                + operand_bytes(cols),
            Instruction::LoadA { src_addr, len } => operand_bytes(src_addr) + operand_bytes(len),
            Instruction::Matmul { cycles } => operand_bytes(cycles),
            Instruction::Bias { bias_addr, len } => operand_bytes(bias_addr) + operand_bytes(len),
            Instruction::Act { fn_id, param_addr } => operand_bytes(fn_id) + operand_bytes(param_addr),
            Instruction::Store { dst_addr, len } => operand_bytes(dst_addr) + operand_bytes(len),
            Instruction::Sync {  } => Seq::empty(),
        }
    }

    pub fn mnemonic(&self) -> (r: &'static str)
        ensures
            r == self.spec_mnemonic(),
    {
        match self {
            Instruction::LoadW { .. } => "LOAD_W",
            Instruction::LoadA { .. } => "LOAD_A",
            Instruction::Matmul { .. } => "MATMUL",
            Instruction::Bias { .. } => "BIAS",
            Instruction::Act { .. } => "ACT",
            Instruction::Store { .. } => "STORE",
            Instruction::Sync {  } => "SYNC",
        }
    }

    pub fn opcode(&self) -> (r: u8)
        ensures
            r == self.spec_opcode(),
    {
        match self {
            Instruction::LoadW { .. } => 0x10,
            Instruction::LoadA { .. } => 0x11,
            Instruction::Matmul { .. } => 0x12,
            Instruction::Bias { .. } => 0x13,
            Instruction::Act { .. } => 0x14,
            Instruction::Store { .. } => 0x15,
            Instruction::Sync {  } => 0x16,
        }
    }

    pub fn encode(&self, out: &mut Vec<u8>)
        ensures
            final(out)@ == old(out)@ + self.encoding(),
    {
        out.push(self.opcode());
        match self {
            Instruction::LoadW { src_addr, rows, cols } => {
                ParamCodec::encode(*src_addr, out);
                ParamCodec::encode(*rows, out);
                ParamCodec::encode(*cols, out);
            },
            Instruction::LoadA { src_addr, len } => {
                ParamCodec::encode(*src_addr, out);
                ParamCodec::encode(*len, out);
            },
            Instruction::Matmul { cycles } => {
                ParamCodec::encode(*cycles, out);
            },
            Instruction::Bias { bias_addr, len } => {
                ParamCodec::encode(*bias_addr, out);
                ParamCodec::encode(*len, out);
            },
            Instruction::Act { fn_id, param_addr } => {
                ParamCodec::encode(*fn_id, out);
                ParamCodec::encode(*param_addr, out);
            },
            Instruction::Store { dst_addr, len } => {
                ParamCodec::encode(*dst_addr, out);
                ParamCodec::encode(*len, out);
            },
            Instruction::Sync {  } => {},
        }
    }
}


/// Reading operand `k` of an instruction (word `k + 1` of the line) as a `T`
/// fails: the word is missing or is not a literal of `T`.
pub open spec fn operand_fails<T: ParamCodec>(toks: Seq<Seq<char>>, k: int) -> bool {
    toks.len() <= k + 1 || operand_value(
        toks[k + 1],
        T::min_val() < 0,
        T::min_val(),
        T::min_val() + T::modulus() - 1,
    ) is None
}

/// The value of operand `k`, where reading it succeeds.
pub open spec fn operand_at<T: ParamCodec>(toks: Seq<Seq<char>>, k: int) -> int {
    operand_value(toks[k + 1], T::min_val() < 0, T::min_val(), T::min_val() + T::modulus() - 1)->0
}

/// The error reported where reading operand `k` as a `T` fails.
pub open spec fn operand_error<T: ParamCodec>(
    toks: Seq<Seq<char>>,
    k: int,
    mnemonic: &'static str,
    parameter: &'static str,
    e: InstructionError,
) -> bool {
    if toks.len() <= k + 1 {
        e == InstructionError::MissingOperand { mnemonic, parameter }
    } else {
        e matches InstructionError::InvalidOperand { mnemonic: m, source: CodecError::InvalidValue { ty, value } }
            && m == mnemonic && ty == T::name() && value@ == toks[k + 1]
    }
}

/// After the operands of an instruction, the line must end.
pub open spec fn operands_end(
    toks: Seq<Seq<char>>,
    n: int,
    mnemonic: &'static str,
    ok: Instruction,
    r: Result<Instruction, InstructionError>,
) -> bool {
    if toks.len() > n + 1 {
        r == Err::<Instruction, InstructionError>(InstructionError::TooManyOperands { mnemonic })
    } else {
        r == Ok::<Instruction, InstructionError>(ok)
    }
}

/// What reading the words `toks` of an assembly line gives: the mnemonic,
/// then each operand in turn, then nothing more.
pub open spec fn parse_assembly_spec(toks: Seq<Seq<char>>, r: Result<Instruction, InstructionError>) -> bool {
    if toks.len() == 0 {
        r == Err::<Instruction, InstructionError>(InstructionError::UnexpectedEof)
    } else if toks[0] == "LOAD_W"@ {
        if operand_fails::<u32>(toks, 0) {
            r matches Err(e) && operand_error::<u32>(toks, 0, "LOAD_W", "src_addr", e)
        } else if operand_fails::<u16>(toks, 1) {
            r matches Err(e) && operand_error::<u16>(toks, 1, "LOAD_W", "rows", e)
        } else if operand_fails::<u16>(toks, 2) {
            r matches Err(e) && operand_error::<u16>(toks, 2, "LOAD_W", "cols", e)
        } else {
            operands_end(toks, 3, "LOAD_W", Instruction::LoadW {
                src_addr: operand_at::<u32>(toks, 0) as u32,
                rows: operand_at::<u16>(toks, 1) as u16,
                cols: operand_at::<u16>(toks, 2) as u16,
            }, r)
        }
    } else if toks[0] == "LOAD_A"@ {
        if operand_fails::<u32>(toks, 0) {
            r matches Err(e) && operand_error::<u32>(toks, 0, "LOAD_A", "src_addr", e)
        } else if operand_fails::<u16>(toks, 1) {
            r matches Err(e) && operand_error::<u16>(toks, 1, "LOAD_A", "len", e)
        } else {
            operands_end(toks, 2, "LOAD_A", Instruction::LoadA {
                src_addr: operand_at::<u32>(toks, 0) as u32,
                len: operand_at::<u16>(toks, 1) as u16,
            }, r)
        }
    } else if toks[0] == "MATMUL"@ {
        if operand_fails::<u32>(toks, 0) {
            r matches Err(e) && operand_error::<u32>(toks, 0, "MATMUL", "cycles", e)
        } else {
            operands_end(toks, 1, "MATMUL", Instruction::Matmul { cycles: operand_at::<u32>(toks, 0) as u32 }, r)
        }
    } else if toks[0] == "BIAS"@ {
        if operand_fails::<u32>(toks, 0) {
            r matches Err(e) && operand_error::<u32>(toks, 0, "BIAS", "bias_addr", e)
        } else if operand_fails::<u16>(toks, 1) {
            r matches Err(e) && operand_error::<u16>(toks, 1, "BIAS", "len", e)
        } else {
            operands_end(toks, 2, "BIAS", Instruction::Bias {
                bias_addr: operand_at::<u32>(toks, 0) as u32,
                len: operand_at::<u16>(toks, 1) as u16,
            }, r)
        }
    } else if toks[0] == "ACT"@ {
        if operand_fails::<u8>(toks, 0) {
            r matches Err(e) && operand_error::<u8>(toks, 0, "ACT", "fn_id", e)
        } else if operand_fails::<u32>(toks, 1) {
            r matches Err(e) && operand_error::<u32>(toks, 1, "ACT", "param_addr", e)
        } else {
            operands_end(toks, 2, "ACT", Instruction::Act {
                fn_id: operand_at::<u8>(toks, 0) as u8,
                param_addr: operand_at::<u32>(toks, 1) as u32,
            }, r)
        }
    } else if toks[0] == "STORE"@ {
        if operand_fails::<u32>(toks, 0) {
            r matches Err(e) && operand_error::<u32>(toks, 0, "STORE", "dst_addr", e)
        } else if operand_fails::<u16>(toks, 1) {
            r matches Err(e) && operand_error::<u16>(toks, 1, "STORE", "len", e)
        } else {
            operands_end(toks, 2, "STORE", Instruction::Store {
                dst_addr: operand_at::<u32>(toks, 0) as u32,
                len: operand_at::<u16>(toks, 1) as u16,
            }, r)
        }
    } else if toks[0] == "SYNC"@ {
        operands_end(toks, 0, "SYNC", Instruction::Sync {  }, r)
    } else {
        r matches Err(InstructionError::UnknownMnemonic(m)) && m@ == toks[0]
    }
}

/// The instruction an assembly line with words `toks` stands for, or `None`
/// where reading it fails.
pub open spec fn parse_outcome(toks: Seq<Seq<char>>) -> Option<Instruction> {
    if toks.len() == 0 {
        None
    } else if toks[0] == "LOAD_W"@ {
        if operand_fails::<u32>(toks, 0) || operand_fails::<u16>(toks, 1) || operand_fails::<u16>(toks, 2)
            || toks.len() > 4 {
            None
        } else {
            Some(
                Instruction::LoadW {
                    src_addr: operand_at::<u32>(toks, 0) as u32,
                    rows: operand_at::<u16>(toks, 1) as u16,
                    cols: operand_at::<u16>(toks, 2) as u16,
                },
            )
        }
    } else if toks[0] == "LOAD_A"@ {
        if operand_fails::<u32>(toks, 0) || operand_fails::<u16>(toks, 1) || toks.len() > 3 {
            None
        } else {
            Some(
                Instruction::LoadA {
                    src_addr: operand_at::<u32>(toks, 0) as u32,
                    len: operand_at::<u16>(toks, 1) as u16,
                },
            )
        }
    } else if toks[0] == "MATMUL"@ {
        if operand_fails::<u32>(toks, 0) || toks.len() > 2 {
            None
        } else {
            Some(Instruction::Matmul { cycles: operand_at::<u32>(toks, 0) as u32 })
        }
    } else if toks[0] == "BIAS"@ {
        if operand_fails::<u32>(toks, 0) || operand_fails::<u16>(toks, 1) || toks.len() > 3 {
            None
        } else {
            Some(
                Instruction::Bias {
                    bias_addr: operand_at::<u32>(toks, 0) as u32,
                    len: operand_at::<u16>(toks, 1) as u16,
                },
            )
        }
    } else if toks[0] == "ACT"@ {
        if operand_fails::<u8>(toks, 0) || operand_fails::<u32>(toks, 1) || toks.len() > 3 {
            None
        } else {
            Some(
                Instruction::Act {
                    fn_id: operand_at::<u8>(toks, 0) as u8,
                    param_addr: operand_at::<u32>(toks, 1) as u32,
                },
            )
        }
    } else if toks[0] == "STORE"@ {
        if operand_fails::<u32>(toks, 0) || operand_fails::<u16>(toks, 1) || toks.len() > 3 {
            None
        } else {
            Some(
                Instruction::Store {
                    dst_addr: operand_at::<u32>(toks, 0) as u32,
                    len: operand_at::<u16>(toks, 1) as u16,
                },
            )
        }
    } else if toks[0] == "SYNC"@ {
        if toks.len() > 1 {
            None
        } else {
            Some(Instruction::Sync {  })
        }
    } else {
        None
    }
}

/// A line reads as an instruction exactly when `parse_outcome` says so.
pub proof fn lemma_parse_outcome(toks: Seq<Seq<char>>, r: Result<Instruction, InstructionError>)
    requires
        parse_assembly_spec(toks, r),
    ensures
        parse_outcome(toks) matches Some(i) ==> r == Ok::<Instruction, InstructionError>(i),
        parse_outcome(toks) is None ==> r is Err,
{
}


/// Reads operand `k` of an instruction: word `k + 1` of `line`.
fn read_operand<T: ParamCodec>(
    line: &str,
    spans: &Vec<(usize, usize)>,
    k: usize,
    mnemonic: &'static str,
    parameter: &'static str,
) -> (r: Result<T, InstructionError>)
    requires
        k < 8,
        spans@.len() == words(line@).len(),
        forall|j: int|
            0 <= j < spans@.len() ==> {
                &&& (#[trigger] spans@[j]).0 < spans@[j].1 <= line@.len()
                &&& line@.subrange(spans@[j].0 as int, spans@[j].1 as int) == words(line@)[j]
            },
    ensures
        operand_fails::<T>(words(line@), k as int) ==> (r matches Err(e) && operand_error::<T>(
            words(line@),
            k as int,
            mnemonic,
            parameter,
            e,
        )),
        !operand_fails::<T>(words(line@), k as int) ==> (r matches Ok(v) && v.val() == operand_at::<T>(
            words(line@),
            k as int,
        )),
{
    if k + 1 >= spans.len() {
        return Err(InstructionError::MissingOperand { mnemonic, parameter });
    }
    let (a, b) = spans[k + 1];
    let word = line.substring_char(a, b);
    match T::parse(word) {
        Ok(v) => Ok(v),
        Err(source) => Err(InstructionError::InvalidOperand { mnemonic, source }),
    }
}

impl Instruction {
    /// Reads one line of assembly: a mnemonic followed by its operands,
    /// separated by whitespace.
    pub fn parse_assembly(line: &str) -> (r: Result<Self, InstructionError>)
        ensures
            parse_assembly_spec(words(line@), r),
    {
        let chars = str_chars(line);
        let spans = word_spans(&chars, 0, chars.len());
        assert(chars@.subrange(0, chars@.len() as int) == line@);
        if spans.len() == 0 {
            return Err(InstructionError::UnexpectedEof);
        }
        let (a, b) = spans[0];
        if span_is(&chars, a, b, "LOAD_W") {
                let src_addr: u32 = match read_operand(line, &spans, 0, "LOAD_W", "src_addr") {
                    Ok(v) => v,
                    Err(e) => return Err(e),
                };
                let rows: u16 = match read_operand(line, &spans, 1, "LOAD_W", "rows") {
                    Ok(v) => v,
                    Err(e) => return Err(e),
                };
                let cols: u16 = match read_operand(line, &spans, 2, "LOAD_W", "cols") {
                    Ok(v) => v,
                    Err(e) => return Err(e),
                };
                if spans.len() > 4 {
                    return Err(InstructionError::TooManyOperands { mnemonic: "LOAD_W" });
                }
                Ok(Instruction::LoadW { src_addr, rows, cols })
        } else if span_is(&chars, a, b, "LOAD_A") {
                let src_addr: u32 = match read_operand(line, &spans, 0, "LOAD_A", "src_addr") {
                    Ok(v) => v,
                    Err(e) => return Err(e),
                };
                let len: u16 = match read_operand(line, &spans, 1, "LOAD_A", "len") {
                    Ok(v) => v,
                    Err(e) => return Err(e),
                };
                if spans.len() > 3 {
                    return Err(InstructionError::TooManyOperands { mnemonic: "LOAD_A" });
                }
                Ok(Instruction::LoadA { src_addr, len })
        } else if span_is(&chars, a, b, "MATMUL") {
                let cycles: u32 = match read_operand(line, &spans, 0, "MATMUL", "cycles") {
                    Ok(v) => v,
                    Err(e) => return Err(e),
                };
                if spans.len() > 2 {
                    return Err(InstructionError::TooManyOperands { mnemonic: "MATMUL" });
                }
                Ok(Instruction::Matmul { cycles })
        } else if span_is(&chars, a, b, "BIAS") {
                let bias_addr: u32 = match read_operand(line, &spans, 0, "BIAS", "bias_addr") {
                    Ok(v) => v,
                    Err(e) => return Err(e),
                };
                let len: u16 = match read_operand(line, &spans, 1, "BIAS", "len") {
                    Ok(v) => v,
                    Err(e) => return Err(e),
                };
                if spans.len() > 3 {
                    return Err(InstructionError::TooManyOperands { mnemonic: "BIAS" });
                }
                Ok(Instruction::Bias { bias_addr, len })
        } else if span_is(&chars, a, b, "ACT") {
                let fn_id: u8 = match read_operand(line, &spans, 0, "ACT", "fn_id") {
                    Ok(v) => v,
                    Err(e) => return Err(e),
                };
                let param_addr: u32 = match read_operand(line, &spans, 1, "ACT", "param_addr") {
                    Ok(v) => v,
                    Err(e) => return Err(e),
                };
                if spans.len() > 3 {
                    return Err(InstructionError::TooManyOperands { mnemonic: "ACT" });
                }
                Ok(Instruction::Act { fn_id, param_addr })
        } else if span_is(&chars, a, b, "STORE") {
                let dst_addr: u32 = match read_operand(line, &spans, 0, "STORE", "dst_addr") {
                    Ok(v) => v,
                    Err(e) => return Err(e),
                };
                let len: u16 = match read_operand(line, &spans, 1, "STORE", "len") {
                    Ok(v) => v,
                    Err(e) => return Err(e),
                };
                if spans.len() > 3 {
                    return Err(InstructionError::TooManyOperands { mnemonic: "STORE" });
                }
                Ok(Instruction::Store { dst_addr, len })
        } else if span_is(&chars, a, b, "SYNC") {

                if spans.len() > 1 {
                    return Err(InstructionError::TooManyOperands { mnemonic: "SYNC" });
                }
                Ok(Instruction::Sync {  })
        } else {
            let mnemonic = line.substring_char(a, b);
            Err(InstructionError::UnknownMnemonic(mnemonic.to_owned()))
        }
    }

    /// Decodes one instruction from the front of `input`, leaving `input` at
    /// what follows the bytes consumed.
    pub fn decode(input: &mut &[u8]) -> (r: Result<Self, InstructionError>)
        ensures
            r == decode_spec(old(input)@).0,
            final(input)@ == old(input)@.skip(decode_spec(old(input)@).1),
    {
        let ghost b = input@;
        proof {
            lemma_pow256();
        }
        let opcode = match input.first() {
            Some(x) => *x,
            None => {
                assert(b.skip(0) == b);
                return Err(InstructionError::UnexpectedEof);
            },
        };
        *input = vstd::slice::slice_subrange(*input, 1, input.len());
        assert(input@ == b.skip(1));
        match opcode {
            0x10 => {
                let src_addr = match <u32 as ParamCodec>::decode(input) {
                    Ok(v) => v,
                    Err(source) => return Err(InstructionError::DecodeOperand { mnemonic: "LOAD_W", source }),
                };
                assert(b.skip(1).take(4) == b.subrange(1, 5) && b.skip(1).skip(4) == b.skip(5));
                proof {
                    lemma_le_value_bound(b.subrange(1, 5));
                }
                let rows = match <u16 as ParamCodec>::decode(input) {
                    Ok(v) => v,
                    Err(source) => return Err(InstructionError::DecodeOperand { mnemonic: "LOAD_W", source }),
                };
                assert(b.skip(5).take(2) == b.subrange(5, 7) && b.skip(5).skip(2) == b.skip(7));
                proof {
                    lemma_le_value_bound(b.subrange(5, 7));
                }
                let cols = match <u16 as ParamCodec>::decode(input) {
                    Ok(v) => v,
                    Err(source) => return Err(InstructionError::DecodeOperand { mnemonic: "LOAD_W", source }),
                };
                assert(b.skip(7).take(2) == b.subrange(7, 9) && b.skip(7).skip(2) == b.skip(9));
                proof {
                    lemma_le_value_bound(b.subrange(7, 9));
                }
                Ok(Instruction::LoadW { src_addr, rows, cols })
            },
            0x11 => {
                let src_addr = match <u32 as ParamCodec>::decode(input) {
                    Ok(v) => v,
                    Err(source) => return Err(InstructionError::DecodeOperand { mnemonic: "LOAD_A", source }),
                };
                assert(b.skip(1).take(4) == b.subrange(1, 5) && b.skip(1).skip(4) == b.skip(5));
                proof {
                    lemma_le_value_bound(b.subrange(1, 5));
                }
                let len = match <u16 as ParamCodec>::decode(input) {
                    Ok(v) => v,
                    Err(source) => return Err(InstructionError::DecodeOperand { mnemonic: "LOAD_A", source }),
                };
                assert(b.skip(5).take(2) == b.subrange(5, 7) && b.skip(5).skip(2) == b.skip(7));
                proof {
                    lemma_le_value_bound(b.subrange(5, 7));
                }
                Ok(Instruction::LoadA { src_addr, len })
            },
            0x12 => {
                let cycles = match <u32 as ParamCodec>::decode(input) {
                    Ok(v) => v,
                    Err(source) => return Err(InstructionError::DecodeOperand { mnemonic: "MATMUL", source }),
                };
                assert(b.skip(1).take(4) == b.subrange(1, 5) && b.skip(1).skip(4) == b.skip(5));
                proof {
                    lemma_le_value_bound(b.subrange(1, 5));
                }
                Ok(Instruction::Matmul { cycles })
            },
            0x13 => {
                let bias_addr = match <u32 as ParamCodec>::decode(input) {
                    Ok(v) => v,
                    Err(source) => return Err(InstructionError::DecodeOperand { mnemonic: "BIAS", source }),
                };
                assert(b.skip(1).take(4) == b.subrange(1, 5) && b.skip(1).skip(4) == b.skip(5));
                proof {
                    lemma_le_value_bound(b.subrange(1, 5));
                }
                let len = match <u16 as ParamCodec>::decode(input) {
                    Ok(v) => v,
                    Err(source) => return Err(InstructionError::DecodeOperand { mnemonic: "BIAS", source }),
                };
                assert(b.skip(5).take(2) == b.subrange(5, 7) && b.skip(5).skip(2) == b.skip(7));
                proof {
                    lemma_le_value_bound(b.subrange(5, 7));
                }
                Ok(Instruction::Bias { bias_addr, len })
            },
            0x14 => {
                let fn_id = match <u8 as ParamCodec>::decode(input) {
                    Ok(v) => v,
                    Err(source) => return Err(InstructionError::DecodeOperand { mnemonic: "ACT", source }),
                };
                assert(b.skip(1).take(1) == b.subrange(1, 2) && b.skip(1).skip(1) == b.skip(2));
                proof {
                    lemma_le_value_bound(b.subrange(1, 2));
                }
                assert(le_value(b.subrange(1, 2)) == b[1] as nat) by {
                    assert(b.subrange(1, 2).drop_first().len() == 0);
                    reveal_with_fuel(le_value, 2);
                }
                let param_addr = match <u32 as ParamCodec>::decode(input) {
                    Ok(v) => v,
                    Err(source) => return Err(InstructionError::DecodeOperand { mnemonic: "ACT", source }),
                };
                assert(b.skip(2).take(4) == b.subrange(2, 6) && b.skip(2).skip(4) == b.skip(6));
                proof {
                    lemma_le_value_bound(b.subrange(2, 6));
                }
                Ok(Instruction::Act { fn_id, param_addr })
            },
            0x15 => {
                let dst_addr = match <u32 as ParamCodec>::decode(input) {
                    Ok(v) => v,
                    Err(source) => return Err(InstructionError::DecodeOperand { mnemonic: "STORE", source }),
                };
                assert(b.skip(1).take(4) == b.subrange(1, 5) && b.skip(1).skip(4) == b.skip(5));
                proof {
                    lemma_le_value_bound(b.subrange(1, 5));
                }
                let len = match <u16 as ParamCodec>::decode(input) {
                    Ok(v) => v,
                    Err(source) => return Err(InstructionError::DecodeOperand { mnemonic: "STORE", source }),
                };
                assert(b.skip(5).take(2) == b.subrange(5, 7) && b.skip(5).skip(2) == b.skip(7));
                proof {
                    lemma_le_value_bound(b.subrange(5, 7));
                }
                Ok(Instruction::Store { dst_addr, len })
            },
            0x16 => Ok(Instruction::Sync {  }),
            opcode => Err(InstructionError::UnknownOpcode(opcode)),
        }
    }
}

/// An operand's bytes read back little-endian give its value, as a
/// non-negative residue.
pub proof fn lemma_operand_roundtrip<T: ParamCodec>(v: T)
    ensures
        operand_bytes(v).len() == T::size(),
        le_value(operand_bytes(v)) == v.val() % T::modulus(),
{
    T::lemma_codec();
    v.lemma_word(v);
    lemma_le_roundtrip((v.val() % T::modulus()) as nat, T::size());
}

/// Decoding the bytes of an operand gives the operand back.
pub proof fn lemma_operand_decode_encode<T: ParamCodec>(v: T)
    ensures
        operand_bytes(v).len() == T::size(),
        wrap(le_value(operand_bytes(v)) as int, T::min_val(), T::modulus()) == v.val(),
{
    lemma_operand_roundtrip(v);
    v.lemma_word(v);
    let m = T::modulus();
    let lo = T::min_val();
    vstd::arithmetic::div_mod::lemma_add_mod_noop_right(-lo, v.val(), m);
    vstd::arithmetic::div_mod::lemma_small_mod((v.val() - lo) as nat, m as nat);
}

/// Decoding the machine code of an instruction, whatever follows it, gives
/// the instruction back and consumes exactly its bytes.
pub proof fn lemma_decode_encoding(i: Instruction, rest: Seq<u8>)
    ensures
        decode_spec(i.encoding() + rest) == (Ok::<Instruction, InstructionError>(i), i.encoding().len() as int),
{
    let b = i.encoding() + rest;
    lemma_pow256();
    match i {
        Instruction::LoadW { src_addr, rows, cols } => {
            lemma_operand_roundtrip(src_addr);
            lemma_operand_roundtrip(rows);
            lemma_operand_roundtrip(cols);
            assert(b.subrange(1, 5) == operand_bytes(src_addr));
            assert(b.subrange(5, 7) == operand_bytes(rows));
            assert(b.subrange(7, 9) == operand_bytes(cols));
        },
        Instruction::LoadA { src_addr, len } => {
            lemma_operand_roundtrip(src_addr);
            lemma_operand_roundtrip(len);
            assert(b.subrange(1, 5) == operand_bytes(src_addr));
            assert(b.subrange(5, 7) == operand_bytes(len));
        },
        Instruction::Matmul { cycles } => {
            lemma_operand_roundtrip(cycles);
            assert(b.subrange(1, 5) == operand_bytes(cycles));
        },
        Instruction::Bias { bias_addr, len } => {
            lemma_operand_roundtrip(bias_addr);
            lemma_operand_roundtrip(len);
            assert(b.subrange(1, 5) == operand_bytes(bias_addr));
            assert(b.subrange(5, 7) == operand_bytes(len));
        },
        Instruction::Act { fn_id, param_addr } => {
            lemma_operand_roundtrip(fn_id);
            lemma_operand_roundtrip(param_addr);
            assert(b.subrange(1, 2) == operand_bytes(fn_id));
            assert(b[1] == operand_bytes(fn_id)[0]);
            assert(le_value(operand_bytes(fn_id)) == operand_bytes(fn_id)[0] as nat) by {
                assert(operand_bytes(fn_id).drop_first().len() == 0);
                reveal_with_fuel(le_value, 2);
            }
            assert(b.subrange(2, 6) == operand_bytes(param_addr));
        },
        Instruction::Store { dst_addr, len } => {
            lemma_operand_roundtrip(dst_addr);
            lemma_operand_roundtrip(len);
            assert(b.subrange(1, 5) == operand_bytes(dst_addr));
            assert(b.subrange(5, 7) == operand_bytes(len));
        },
        Instruction::Sync {  } => {},
    }
}

} // verus!
