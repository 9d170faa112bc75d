//! A program: the instructions to execute and the data sections to place in
//! memory, read from the binary that the assembler writes.
use vstd::prelude::*;
use crate::assembler::AssemblerError;
use crate::isa::{Instruction, decode_spec};
use crate::isa::codec::{le_value, le_read, lemma_pow256};
use crate::isa::define::InstructionError;
use crate::types::VAddr;
use crate::text::{span_is, str_chars};

verus! {

#[verifier::external_type_specification]
#[verifier::external_body]
pub struct ExIoError(std::io::Error);

pub struct Program {
    instructions: Vec<Instruction>,
    data: Vec<(VAddr, Vec<u8>)>,
}

#[derive(Debug)]
pub enum ProgramError {
    UnsupportedFormat,
    InvalidBinaryFormat,
    ReadAsmFailed(std::io::Error),
    WriteBinFailed(std::io::Error),
    ReadBinFailed(std::io::Error),
    AssembleFailed(AssemblerError),
    DecodeFailed(InstructionError),
}

/// How a program file is read, by its extension.
#[derive(Debug, Clone, Copy, PartialEq, Eq, Structural)]
pub enum ProgramFormat {
    /// Assembly text, assembled into a binary that is then read.
    Assembly,
    /// A program binary.
    Binary,
}

/// The format of a program file with extension `ext`: `asm` and `txt` are
/// assembly, `bin` is a binary; anything else, or no extension, is refused.
pub open spec fn format_spec(ext: Option<Seq<char>>) -> Result<ProgramFormat, ()> {
    match ext {
        Some(e) => if e == "asm"@ || e == "txt"@ {
            Ok(ProgramFormat::Assembly)
        } else if e == "bin"@ {
            Ok(ProgramFormat::Binary)
        } else {
            Err(())
        },
        None => Err(()),
    }
}

/// Chooses how to read a program file from its extension.
pub fn program_format(ext: Option<&str>) -> (r: Result<ProgramFormat, ProgramError>)
    ensures
        match format_spec(
            match ext {
                Some(e) => Some(e@),
                None => None,
            },
        ) {
            Ok(f) => r matches Ok(g) && g == f,
            Err(()) => r matches Err(ProgramError::UnsupportedFormat),
        },
{
    match ext {
        None => Err(ProgramError::UnsupportedFormat),
        Some(e) => {
            let chars = str_chars(e);
            let n = chars.len();
            assert(chars@.subrange(0, n as int) == e@);
            if span_is(&chars, 0, n, "asm") || span_is(&chars, 0, n, "txt") {
                Ok(ProgramFormat::Assembly)
            } else if span_is(&chars, 0, n, "bin") {
                Ok(ProgramFormat::Binary)
            } else {
                Err(ProgramError::UnsupportedFormat)
            }
        },
    }
}

/// Decoding instructions one after another until the bytes run out: the
/// instructions decoded, and the error that stopped decoding, if any.
pub open spec fn decode_all(b: Seq<u8>) -> (Seq<Instruction>, Option<InstructionError>)
    decreases b.len(),
{
    if b.len() == 0 {
        (Seq::empty(), None)
    } else {
        match decode_spec(b).0 {
            Ok(i) => {
                let n = decode_spec(b).1;
                if 0 < n <= b.len() {
                    let (rest, e) = decode_all(b.skip(n));
                    (seq![i] + rest, e)
                } else {
                    (Seq::empty(), None)
                }
            },
            Err(e) => (Seq::empty(), Some(e)),
        }
    }
}

/// Reading data sections, each an address, a length and that many bytes:
/// the sections read, and whether the bytes ran out inside one.
pub open spec fn data_sections(b: Seq<u8>) -> (Seq<(u32, Seq<u8>)>, bool)
    decreases b.len(),
{
    if b.len() == 0 {
        (Seq::empty(), true)
    } else if b.len() < 8 {
        (Seq::empty(), false)
    } else {
        let len = le_value(b.subrange(4, 8)) as int;
        if b.len() - 8 < len {
            (Seq::empty(), false)
        } else {
            let (rest, ok) = data_sections(b.skip(8 + len));
            (seq![(le_value(b.subrange(0, 4)) as u32, b.subrange(8, 8 + len))] + rest, ok)
        }
    }
}

/// The magic that starts a program binary.
pub open spec fn magic() -> Seq<u8> {
    seq![0x53u8, 0x54u8, 0x50u8, 0x55u8]
}

/// The data sections held in `data`.
pub open spec fn sections_view(data: Seq<(VAddr, Vec<u8>)>) -> Seq<(u32, Seq<u8>)> {
    data.map_values(|p: (VAddr, Vec<u8>)| (p.0, p.1@))
}

impl Program {
    pub closed spec fn spec_instructions(&self) -> Seq<Instruction> {
        self.instructions@
    }

    pub closed spec fn spec_data(&self) -> Seq<(u32, Seq<u8>)> {
        sections_view(self.data@)
    }

    pub fn new(instructions: Option<Vec<Instruction>>) -> (r: Self)
        ensures
            r.spec_instructions() == (match instructions {
                Some(v) => v@,
                None => Seq::empty(),
            }),
            r.spec_data() == Seq::<(u32, Seq<u8>)>::empty(),
    {
        let instructions = match instructions {
            Some(v) => v,
            None => Vec::new(),
        };
        let r = Self { instructions, data: Vec::new() };
        assert(r.spec_data() == Seq::<(u32, Seq<u8>)>::empty());
        r
    }

    /// Reads a program binary: the magic `STPU`, the byte count of the
    /// machine code, the machine code, then the data sections. Instructions
    /// and sections are added to those the program already holds, as far as
    /// they could be read.
    pub fn decode_binary(&mut self, binary: &[u8]) -> (r: Result<(), ProgramError>)
        ensures
            ({
                let b = binary@;
                if b.len() < 8 || b.take(4) != magic() || b.len() - 8 < le_value(b.subrange(4, 8)) {
                    &&& r == Err::<(), ProgramError>(ProgramError::InvalidBinaryFormat)
                    &&& final(self).spec_instructions() == old(self).spec_instructions()
                    &&& final(self).spec_data() == old(self).spec_data()
                } else {
                    let n = le_value(b.subrange(4, 8)) as int;
                    let (is, err) = decode_all(b.subrange(8, 8 + n));
                    &&& final(self).spec_instructions() == old(self).spec_instructions() + is
                    &&& match err {
                        Some(e) => {
                            &&& r == Err::<(), ProgramError>(ProgramError::DecodeFailed(e))
                            &&& final(self).spec_data() == old(self).spec_data()
                        },
                        None => {
                            let (ds, ok) = data_sections(b.skip(8 + n));
                            &&& final(self).spec_data() == old(self).spec_data() + ds
                            &&& r == (if ok {
                                Ok::<(), ProgramError>(())
                            } else {
                                Err(ProgramError::InvalidBinaryFormat)
                            })
                        },
                    }
                }
            }),
    {
        let ghost b = binary@;
        proof {
            lemma_pow256();
        }
        if binary.len() < 8 {
            return Err(ProgramError::InvalidBinaryFormat);
        }
        if binary[0] != 0x53 || binary[1] != 0x54 || binary[2] != 0x50 || binary[3] != 0x55 {
            proof {
                if b.take(4) == magic() {
                    assert(b.take(4)[0] == b[0] && b.take(4)[1] == b[1] && b.take(4)[2] == b[2] && b.take(4)[3] == b[3]);
                }
            }
            return Err(ProgramError::InvalidBinaryFormat);
        }
        assert(b.take(4) == magic());
        let count = le_read(binary, 4, 4) as usize;
        if binary.len() - 8 < count {
            return Err(ProgramError::InvalidBinaryFormat);
        }
        let ghost n = count as int;
        let ghost old_instructions = self.spec_instructions();
        let ghost old_data = self.spec_data();
        let ghost whole = b.subrange(8, 8 + n);
        let mut instr_slice = vstd::slice::slice_subrange(binary, 8, 8 + count);
        while !instr_slice.is_empty()
            invariant
                b == binary@,
                b.len() >= 8,
                b.take(4) == magic(),
                n == le_value(b.subrange(4, 8)) as int,
                b.len() - 8 >= n,
                whole == b.subrange(8, 8 + n),
                old_instructions == old(self).spec_instructions(),
                old_data == old(self).spec_data(),
                self.instructions@ + decode_all(instr_slice@).0 == old_instructions + decode_all(whole).0,
                decode_all(instr_slice@).1 == decode_all(whole).1,
                self.spec_data() == old_data,
            decreases instr_slice@.len(),
        {
            let ghost cur = instr_slice@;
            match Instruction::decode(&mut instr_slice) {
                Ok(instruction) => {
                    let ghost pre = self.instructions@;
                    self.instructions.push(instruction);
                    assert(pre + decode_all(cur).0 == self.instructions@ + decode_all(instr_slice@).0);
                },
                Err(e) => {
                    assert(decode_all(cur).0 == Seq::<Instruction>::empty());
                    assert(self.instructions@ + Seq::<Instruction>::empty() == self.instructions@);
                    return Err(ProgramError::DecodeFailed(e));
                },
            }
        }
        assert(self.instructions@ + Seq::<Instruction>::empty() == self.instructions@);
        let mut offset: usize = 8 + count;
        let ghost total = data_sections(b.skip(8 + n));
        assert(b.skip(offset as int) == b.skip(8 + n));
        while offset < binary.len()
            invariant
                8 + n <= offset <= b.len(),
                b == binary@,
                b.len() >= 8,
                b.take(4) == magic(),
                n == le_value(b.subrange(4, 8)) as int,
                b.len() - 8 >= n,
                whole == b.subrange(8, 8 + n),
                old_instructions == old(self).spec_instructions(),
                old_data == old(self).spec_data(),
                total == data_sections(b.skip(8 + n)),
                decode_all(whole).1 is None,
                self.instructions@ == old_instructions + decode_all(whole).0,
                self.spec_data() + data_sections(b.skip(offset as int)).0 == old_data + total.0,
                data_sections(b.skip(offset as int)).1 == total.1,
            decreases b.len() - offset,
        {
            let ghost rest = b.skip(offset as int);
            proof {
                lemma_pow256();
            }
            if binary.len() - offset < 8 {
                assert(self.spec_data() + Seq::<(u32, Seq<u8>)>::empty() == self.spec_data());
                return Err(ProgramError::InvalidBinaryFormat);
            }
            assert(rest.subrange(0, 4) == b.subrange(offset as int, offset + 4));
            assert(rest.subrange(4, 8) == b.subrange(offset + 4, offset + 8));
            let addr = le_read(binary, offset, 4) as VAddr;
            offset = offset + 4;
            let len = le_read(binary, offset, 4) as usize;
            offset = offset + 4;
            if binary.len() - offset < len {
                assert(self.spec_data() + Seq::<(u32, Seq<u8>)>::empty() == self.spec_data());
                return Err(ProgramError::InvalidBinaryFormat);
            }
            let bytes = vstd::slice::slice_to_vec(vstd::slice::slice_subrange(binary, offset, offset + len));
            assert(rest.subrange(8, 8 + len) == bytes@);
            assert(rest.skip(8 + len) == b.skip(offset + len));
            offset = offset + len;
            let ghost pre = self.data@;
            self.data.push((addr, bytes));
            assert(sections_view(self.data@) == sections_view(pre).push((addr, bytes@)));
        }
        assert(b.skip(offset as int).len() == 0);
        assert(self.spec_data() + Seq::<(u32, Seq<u8>)>::empty() == self.spec_data());
        Ok(())
    }

    pub fn instructions(&self) -> (r: &[Instruction])
        ensures
            r@ == self.spec_instructions(),
    {
        self.instructions.as_slice()
    }

    pub fn data(&self) -> (r: &[(VAddr, Vec<u8>)])
        ensures
            sections_view(r@) == self.spec_data(),
    {
        self.data.as_slice()
    }
}

} // verus!
