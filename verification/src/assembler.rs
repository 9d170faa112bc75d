//! The assembler: turns assembly text into the program binary.
//!
//! A line holds an instruction, a `.data <hex address>` directive, or a
//! `.byte <list>` directive giving the bytes to place at the address named by
//! the `.data` line before it; `#` starts a comment. The binary is the magic
//! `STPU`, the byte count of the machine code, the machine code, and then each
//! data section as its address, its length and its bytes, all integers
//! little-endian.
use vstd::prelude::*;
use crate::isa::Instruction;
use crate::isa::define::InstructionError;
use crate::isa::codec::{ParamCodec, le_bytes, le_value, lemma_le_roundtrip, lemma_pow256};
use crate::isa::lemma_decode_encoding;
use crate::program::{decode_all, data_sections, magic};
use crate::isa::{parse_assembly_spec, parse_outcome, lemma_parse_outcome};
use crate::text::{
    comma_pieces, comma_scan, comment_span_end, comment_start, int_from_str, line_spans, lines,
    parse_int_span, span_is, str_chars, trim, trim_span, words,
};
use vstd::string::StrSliceExecFns;

verus! {

#[derive(Debug)]
pub enum AssemblerError {
    ParseError { line: usize, source: InstructionError },
    InvalidDataAddress { line: usize },
    DataWithoutAddress { line: usize },
    InvalidByte { line: usize },
}

/// What the assembler has gathered so far: the instructions, the data
/// sections, and the address named by a `.data` line awaiting its bytes.
pub struct AsmState {
    pub instrs: Seq<Instruction>,
    pub data: Seq<(u32, Seq<u8>)>,
    pub addr: Option<u32>,
}

/// The text of a line that the assembler reads: what precedes any comment,
/// without surrounding whitespace.
pub open spec fn code_of(line: Seq<char>) -> Seq<char> {
    trim(line.take(comment_start(line)))
}

pub open spec fn starts_with(s: Seq<char>, prefix: Seq<char>) -> bool {
    s.len() >= prefix.len() && s.take(prefix.len() as int) == prefix
}

/// The bytes of a `.byte` list: comma-separated decimal `i32` literals, each
/// kept modulo 256; `None` where one does not read.
pub open spec fn byte_list(pieces: Seq<Seq<char>>) -> Option<Seq<u8>>
    decreases pieces.len(),
{
    if pieces.len() == 0 {
        Some(Seq::empty())
    } else {
        match (
            byte_list(pieces.drop_last()),
            int_from_str(trim(pieces.last()), 10, true, -0x8000_0000, 0x7fff_ffff),
        ) {
            (Some(bs), Some(v)) => Some(bs.push((v % 256) as u8)),
            _ => None,
        }
    }
}

/// The effect of one line on what has been gathered; `None` where the line
/// is in error.
pub open spec fn asm_line(s: AsmState, line: Seq<char>) -> Option<AsmState> {
    let code = code_of(line);
    if code.len() == 0 {
        Some(s)
    } else if starts_with(code, ".data"@) {
        match int_from_str(trim(code.skip(5)), 16, false, 0, 0xffff_ffff) {
            Some(a) => Some(AsmState { addr: Some(a as u32), ..s }),
            None => None,
        }
    } else if starts_with(code, ".byte"@) {
        match (s.addr, byte_list(comma_pieces(trim(code.skip(5))))) {
            (Some(a), Some(bs)) => Some(AsmState { data: s.data.push((a, bs)), addr: None, ..s }),
            _ => None,
        }
    } else {
        match parse_outcome(words(code)) {
            Some(i) => Some(AsmState { instrs: s.instrs.push(i), ..s }),
            None => None,
        }
    }
}

/// The error reported for line number `n` (counting from one), in error.
pub open spec fn asm_line_error(s: AsmState, line: Seq<char>, n: usize, e: AssemblerError) -> bool {
    let code = code_of(line);
    if starts_with(code, ".data"@) {
        e == AssemblerError::InvalidDataAddress { line: n }
    } else if starts_with(code, ".byte"@) {
        if s.addr is None {
            e == AssemblerError::DataWithoutAddress { line: n }
        } else {
            e == AssemblerError::InvalidByte { line: n }
        }
    } else {
        e matches AssemblerError::ParseError { line, source } && line == n && parse_assembly_spec(
            words(code),
            Err(source),
        )
    }
}

pub open spec fn asm_start() -> AsmState {
    AsmState { instrs: Seq::empty(), data: Seq::empty(), addr: None }
}

/// Reading the lines in order: the state after them all, or the index of
/// the first line in error with the state before it.
pub open spec fn asm_fold(ls: Seq<Seq<char>>) -> Result<AsmState, (int, AsmState)>
    decreases ls.len(),
{
    if ls.len() == 0 {
        Ok(asm_start())
    } else {
        match asm_fold(ls.drop_last()) {
            Ok(s) => match asm_line(s, ls.last()) {
                Some(t) => Ok(t),
                None => Err((ls.len() - 1, s)),
            },
            Err(e) => Err(e),
        }
    }
}

/// The machine code of the instructions `is`, one after another.
pub open spec fn encodings(is: Seq<Instruction>) -> Seq<u8>
    decreases is.len(),
{
    if is.len() == 0 {
        Seq::empty()
    } else {
        encodings(is.drop_last()) + is.last().encoding()
    }
}

/// The data sections as the binary holds them.
pub open spec fn data_image(data: Seq<(u32, Seq<u8>)>) -> Seq<u8>
    decreases data.len(),
{
    if data.len() == 0 {
        Seq::empty()
    } else {
        let (a, bs) = data.last();
        data_image(data.drop_last()) + le_bytes(a as nat, 4) + le_bytes(bs.len() % 0x1_0000_0000, 4)
            + bs
    }
}

/// The program binary: magic, machine-code byte count, machine code, data.
pub open spec fn binary_image(code: Seq<u8>, data: Seq<(u32, Seq<u8>)>) -> Seq<u8> {
    seq![0x53u8, 0x54u8, 0x50u8, 0x55u8] + le_bytes(code.len() % 0x1_0000_0000, 4) + code + data_image(data)
}

/// The data sections held in `data`.
pub open spec fn data_view(data: Seq<(u32, Vec<u8>)>) -> Seq<(u32, Seq<u8>)> {
    data.map_values(|p: (u32, Vec<u8>)| (p.0, p.1@))
}

/// Appends `bytes`.
fn append_bytes(out: &mut Vec<u8>, bytes: &Vec<u8>)
    ensures
        final(out)@ == old(out)@ + bytes@,
{
    let mut i: usize = 0;
    while i < bytes.len()
        invariant
            i <= bytes@.len(),
            out@ == old(out)@ + bytes@.take(i as int),
        decreases bytes@.len() - i,
    {
        assert(bytes@.take(i + 1) == bytes@.take(i as int).push(bytes@[i as int]));
        out.push(bytes[i]);
        i = i + 1;
    }
    assert(bytes@.take(i as int) == bytes@);
}

/// Reads one element of a `.byte` list, `v[lo..hi]`, as a byte.
fn parse_byte(v: &Vec<char>, lo: usize, hi: usize) -> (r: Option<u8>)
    requires
        lo <= hi <= v@.len(),
    ensures
        match int_from_str(trim(v@.subrange(lo as int, hi as int)), 10, true, -0x8000_0000, 0x7fff_ffff) {
            Some(x) => r == Some((x % 256) as u8),
            None => r is None,
        },
{
    let (a, b) = trim_span(v, lo, hi);
    match parse_int_span(v, a, b, 10, true, -0x8000_0000, 0x7fff_ffff) {
        None => None,
        Some(x) => {
            let y: i128 = x + 0x1_0000_0000;
            proof {
                vstd::arithmetic::div_mod::lemma_mod_multiples_vanish(0x100_0000, x as int, 256);
            }
            Some((y % 256) as u8)
        },
    }
}

/// Adds the piece `v[start..i]` to the byte list read so far.
fn add_piece(v: &Vec<char>, start: usize, i: usize, out: &mut Vec<u8>, failed: &mut bool, Ghost(done): Ghost<Seq<Seq<char>>>)
    requires
        start <= i <= v@.len(),
        byte_list(done) == (if *old(failed) { None } else { Some(old(out)@) }),
    ensures
        byte_list(done.push(v@.subrange(start as int, i as int))) == (if *final(failed) {
            None
        } else {
            Some(final(out)@)
        }),
{
    let ghost pieces = done.push(v@.subrange(start as int, i as int));
    assert(pieces.drop_last() == done);
    if !*failed {
        match parse_byte(v, start, i) {
            None => {
                *failed = true;
            },
            Some(byte) => {
                out.push(byte);
            },
        }
    }
}

/// Reads the byte list `v[lo..hi]`.
fn parse_byte_list(v: &Vec<char>, lo: usize, hi: usize) -> (r: Option<Vec<u8>>)
    requires
        lo <= hi <= v@.len(),
    ensures
        match byte_list(comma_pieces(v@.subrange(lo as int, hi as int))) {
            Some(bs) => r matches Some(out) && out@ == bs,
            None => r is None,
        },
{
    let mut out: Vec<u8> = Vec::new();
    let mut failed = false;
    let mut start = lo;
    let mut i = lo;
    while i < hi
        invariant
            lo <= start <= i <= hi <= v@.len(),
            ({
                let (done, cur) = comma_scan(v@.subrange(lo as int, i as int));
                &&& byte_list(done) == (if failed { None } else { Some(out@) })
                &&& cur == v@.subrange(start as int, i as int)
            }),
        decreases hi - i,
    {
        assert(v@.subrange(lo as int, i + 1).drop_last() == v@.subrange(lo as int, i as int));
        if v[i] == ',' {
            let ghost (done, cur) = comma_scan(v@.subrange(lo as int, i as int));
            add_piece(v, start, i, &mut out, &mut failed, Ghost(done));
            start = i + 1;
        } else {
            assert(v@.subrange(start as int, i + 1) == v@.subrange(start as int, i as int).push(v@[i as int]));
        }
        i = i + 1;
    }
    let ghost (done, cur) = comma_scan(v@.subrange(lo as int, hi as int));
    add_piece(v, start, hi, &mut out, &mut failed, Ghost(done));
    if failed {
        None
    } else {
        Some(out)
    }
}

/// Assembles one line, `v[lo..hi]`, the line numbered `line_no`.
fn assemble_line(
    source: &str,
    v: &Vec<char>,
    lo: usize,
    hi: usize,
    line_no: usize,
    code: &mut Vec<u8>,
    data: &mut Vec<(u32, Vec<u8>)>,
    addr: &mut Option<u32>,
    Ghost(is): Ghost<Seq<Instruction>>,
) -> (r: Result<(), AssemblerError>)
    requires
        v@ == source@,
        old(code)@ == encodings(is),
        lo <= hi <= v@.len(),
    ensures
        ({
            let s = AsmState { instrs: is, data: data_view(old(data)@), addr: *old(addr) };
            let line = v@.subrange(lo as int, hi as int);
            match asm_line(s, line) {
                Some(t) => {
                    &&& r is Ok
                    &&& final(code)@ == encodings(t.instrs)
                    &&& t.data == data_view(final(data)@)
                    &&& t.addr == *final(addr)
                },
                None => r matches Err(e) && asm_line_error(s, line, line_no, e),
            }
        }),
{
    let ghost line = v@.subrange(lo as int, hi as int);
    proof {
        reveal_strlit(".data");
        reveal_strlit(".byte");
    }
    let h = comment_span_end(v, lo, hi);
    assert(v@.subrange(lo as int, h as int) == line.take(comment_start(line)));
    let (a, b) = trim_span(v, lo, h);
    let ghost c = v@.subrange(a as int, b as int);
    assert(c == code_of(line));
    if a == b {
        return Ok(());
    }
    if b - a >= 5 && span_is(v, a, a + 5, ".data") {
        assert(c.take(5) == v@.subrange(a as int, a + 5));
        assert(c.skip(5) == v@.subrange(a + 5, b as int));
        let (x, y) = trim_span(v, a + 5, b);
        match parse_int_span(v, x, y, 16, false, 0, 0xffff_ffff) {
            None => Err(AssemblerError::InvalidDataAddress { line: line_no }),
            Some(value) => {
                *addr = Some(value as u32);
                Ok(())
            },
        }
    } else if b - a >= 5 && span_is(v, a, a + 5, ".byte") {
        assert(c.take(5) == v@.subrange(a as int, a + 5));
        assert(c.skip(5) == v@.subrange(a + 5, b as int));
        assert(!starts_with(c, ".data"@));
        match *addr {
            None => Err(AssemblerError::DataWithoutAddress { line: line_no }),
            Some(at) => {
                let (x, y) = trim_span(v, a + 5, b);
                match parse_byte_list(v, x, y) {
                    None => Err(AssemblerError::InvalidByte { line: line_no }),
                    Some(bytes) => {
                        let ghost pre = data@;
                        data.push((at, bytes));
                        assert(data_view(data@) == data_view(pre).push((at, bytes@)));
                        *addr = None;
                        Ok(())
                    },
                }
            },
        }
    } else {
        proof {
            if b - a >= 5 {
                assert(c.take(5) == v@.subrange(a as int, a + 5));
            }
        }
        let text = source.substring_char(a, b);
        match Instruction::parse_assembly(text) {
            Ok(instruction) => {
                proof {
                    lemma_parse_outcome(words(c), Ok(instruction));
                }
                instruction.encode(code);
                assert(is.push(instruction).drop_last() == is);
                Ok(())
            },
            Err(e) => {
                proof {
                    lemma_parse_outcome(words(c), Err(e));
                }
                Err(AssemblerError::ParseError { line: line_no, source: e })
            },
        }
    }
}

/// Assembles `source` into the program binary.
pub fn assemble(source: &str) -> (r: Result<Vec<u8>, AssemblerError>)
    ensures
        match asm_fold(lines(source@)) {
            Ok(s) => r matches Ok(bin) && bin@ == binary_image(encodings(s.instrs), s.data),
            Err((k, s)) => r matches Err(e) && asm_line_error(s, lines(source@)[k], (k + 1) as usize, e),
        },
{
    let chars = str_chars(source);
    let spans = line_spans(&chars);
    let ghost ls = lines(source@);
    let mut instructions: Vec<u8> = Vec::new();
    let mut data: Vec<(u32, Vec<u8>)> = Vec::new();
    let mut current_data_addr: Option<u32> = None;
    let mut k: usize = 0;
    assert(data_view(data@) == Seq::<(u32, Seq<u8>)>::empty());
    assert(instructions@ == Seq::<u8>::empty());
    assert(ls.take(0) == Seq::<Seq<char>>::empty());
    while k < spans.len()
        invariant
            chars@ == source@,
            ls == lines(chars@),
            spans@.len() == ls.len(),
            forall|j: int|
                0 <= j < spans@.len() ==> {
                    &&& (#[trigger] spans@[j]).0 <= spans@[j].1 <= chars@.len()
                    &&& chars@.subrange(spans@[j].0 as int, spans@[j].1 as int) == ls[j]
                },
            k <= spans@.len(),
            asm_fold(ls.take(k as int)) matches Ok(s) && s.data == data_view(data@) && s.addr
                == current_data_addr && instructions@ == encodings(s.instrs),
        decreases spans@.len() - k,
    {
        let (lo, hi) = spans[k];
        assert(ls.take(k + 1).drop_last() == ls.take(k as int));
        let ghost is = asm_fold(ls.take(k as int))->Ok_0.instrs;
        match assemble_line(source, &chars, lo, hi, k + 1, &mut instructions, &mut data, &mut current_data_addr, Ghost(is)) {
            Ok(()) => {},
            Err(e) => {
                proof {
                    lemma_asm_fold_stops(ls, k as int);
                }
                return Err(e);
            },
        }
        k = k + 1;
    }
    assert(ls.take(k as int) == ls);
    let mut binary: Vec<u8> = Vec::new();
    binary.push(0x53);
    binary.push(0x54);
    binary.push(0x50);
    binary.push(0x55);
    let count = (instructions.len() as u64 % 0x1_0000_0000) as u32;
    ParamCodec::encode(count, &mut binary);
    append_bytes(&mut binary, &instructions);
    let ghost head = binary@;
    let mut i: usize = 0;
    while i < data.len()
        invariant
            i <= data@.len(),
            binary@ == head + data_image(data_view(data@).take(i as int)),
        decreases data@.len() - i,
    {
        assert(data_view(data@).take(i + 1).drop_last() == data_view(data@).take(i as int));
        let (addr, ref bytes) = data[i];
        ParamCodec::encode(addr, &mut binary);
        let len = (bytes.len() as u64 % 0x1_0000_0000) as u32;
        ParamCodec::encode(len, &mut binary);
        append_bytes(&mut binary, bytes);
        i = i + 1;
    }
    assert(data_view(data@).take(i as int) == data_view(data@));
    Ok(binary)
}

/// Once a line is in error, reading stops there.
proof fn lemma_asm_fold_stops(ls: Seq<Seq<char>>, k: int)
    requires
        0 <= k < ls.len(),
        asm_fold(ls.take(k)) is Ok,
        asm_line(asm_fold(ls.take(k))->Ok_0, ls[k]) is None,
    ensures
        asm_fold(ls) == Err::<AsmState, (int, AsmState)>((k, asm_fold(ls.take(k))->Ok_0)),
    decreases ls.len(),
{
    if k + 1 == ls.len() {
        assert(ls.drop_last() == ls.take(k));
    } else {
        assert(ls.drop_last().take(k) == ls.take(k));
        lemma_asm_fold_stops(ls.drop_last(), k);
    }
}

/// A line in error is one of the lines read.
proof fn lemma_asm_fold_error_index(ls: Seq<Seq<char>>)
    ensures
        asm_fold(ls) matches Err((k, _)) ==> 0 <= k < ls.len(),
    decreases ls.len(),
{
    if ls.len() > 0 {
        lemma_asm_fold_error_index(ls.drop_last());
    }
}

/// A blank line, or one that holds only a comment, leaves what has been
/// gathered as it is, the address named by a pending `.data` line included.
pub proof fn lemma_blank_line_step(s: AsmState, l: Seq<char>)
    requires
        code_of(l).len() == 0,
    ensures
        asm_line(s, l) == Some(s),
{
}

/// A blank line, or one that holds only a comment, changes nothing: inserted
/// anywhere among the lines (between a `.data` line and its `.byte` line,
/// say), it leaves the instructions, the data sections and the pending
/// address the same, so the same binary is assembled; an error is the same
/// error, reported one line further down when it comes after the inserted
/// line.
pub proof fn lemma_blank_line_changes_nothing(a: Seq<Seq<char>>, l: Seq<char>, b: Seq<Seq<char>>)
    requires
        code_of(l).len() == 0,
    ensures
        asm_fold(a + b) is Ok ==> asm_fold(a.push(l) + b) == asm_fold(a + b),
        asm_fold(a + b) matches Err((k, s)) ==> asm_fold(a.push(l) + b) == Err::<AsmState, (int, AsmState)>(
            (if k < a.len() { k } else { k + 1 }, s),
        ),
    decreases b.len(),
{
    if b.len() == 0 {
        assert(a.push(l) + b == a.push(l));
        assert(a + b == a);
        assert(a.push(l).drop_last() == a);
        lemma_asm_fold_error_index(a);
    } else {
        let b1 = b.drop_last();
        lemma_blank_line_changes_nothing(a, l, b1);
        assert((a.push(l) + b).drop_last() == a.push(l) + b1);
        assert((a.push(l) + b).last() == b.last());
        assert((a + b).drop_last() == a + b1);
        assert((a + b).last() == b.last());
    }
}

/// The machine code of a list of instructions, first instruction first.
proof fn lemma_encodings_front(is: Seq<Instruction>)
    requires
        is.len() > 0,
    ensures
        encodings(is) == is[0].encoding() + encodings(is.drop_first()),
    decreases is.len(),
{
    if is.len() == 1 {
        assert(is.drop_last() == Seq::<Instruction>::empty());
        assert(is.drop_first() == Seq::<Instruction>::empty());
    } else {
        lemma_encodings_front(is.drop_last());
        assert(is.drop_last().drop_first() == is.drop_first().drop_last());
        assert(is.drop_last()[0] == is[0]);
    }
}

/// Decoding the machine code of a list of instructions gives the list back.
pub proof fn lemma_decode_all_encodings(is: Seq<Instruction>)
    ensures
        decode_all(encodings(is)) == (is, None::<crate::isa::define::InstructionError>),
    decreases is.len(),
{
    if is.len() == 0 {
    } else {
        lemma_encodings_front(is);
        let b = encodings(is);
        let rest = encodings(is.drop_first());
        lemma_decode_encoding(is[0], rest);
        assert(b.skip(is[0].encoding().len() as int) == rest);
        lemma_decode_all_encodings(is.drop_first());
        assert(seq![is[0]] + is.drop_first() == is);
    }
}

/// The bytes of one data section.
pub open spec fn section_image(a: u32, bs: Seq<u8>) -> Seq<u8> {
    le_bytes(a as nat, 4) + le_bytes(bs.len() % 0x1_0000_0000, 4) + bs
}

proof fn lemma_data_image_front(ds: Seq<(u32, Seq<u8>)>)
    requires
        ds.len() > 0,
    ensures
        data_image(ds) == section_image(ds[0].0, ds[0].1) + data_image(ds.drop_first()),
    decreases ds.len(),
{
    if ds.len() == 1 {
        assert(ds.drop_last() == Seq::<(u32, Seq<u8>)>::empty());
        assert(ds.drop_first() == Seq::<(u32, Seq<u8>)>::empty());
    } else {
        lemma_data_image_front(ds.drop_last());
        assert(ds.drop_last().drop_first() == ds.drop_first().drop_last());
        assert(ds.drop_last()[0] == ds[0]);
    }
}

/// Reading back data sections whose lengths fit in 32 bits gives them back.
pub proof fn lemma_data_sections_image(ds: Seq<(u32, Seq<u8>)>)
    requires
        forall|i: int| 0 <= i < ds.len() ==> (#[trigger] ds[i]).1.len() < 0x1_0000_0000,
    ensures
        data_sections(data_image(ds)) == (ds, true),
    decreases ds.len(),
{
    lemma_pow256();
    if ds.len() > 0 {
        lemma_data_image_front(ds);
        let (a, bs) = ds[0];
        let b = data_image(ds);
        lemma_le_roundtrip(a as nat, 4);
        lemma_le_roundtrip(bs.len(), 4);
        assert(bs.len() % 0x1_0000_0000 == bs.len());
        assert(b.subrange(0, 4) == le_bytes(a as nat, 4));
        assert(b.subrange(4, 8) == le_bytes(bs.len(), 4));
        assert(b.subrange(8, 8 + bs.len() as int) == bs);
        assert(b.skip(8 + bs.len() as int) == data_image(ds.drop_first()));
        lemma_data_sections_image(ds.drop_first());
        assert(seq![(a, bs)] + ds.drop_first() == ds);
    } else {
        assert(data_image(ds) == Seq::<u8>::empty());
    }
}

/// Assembling a source and reading the binary back recovers the
/// instructions and data sections of the source, provided the machine code
/// and each data section are shorter than 2^32 bytes (their lengths are
/// stored in 32 bits).
pub proof fn lemma_assemble_decode_roundtrip(src: Seq<char>)
    requires
        asm_fold(lines(src)) is Ok,
        encodings(asm_fold(lines(src))->Ok_0.instrs).len() < 0x1_0000_0000,
        forall|i: int|
            0 <= i < asm_fold(lines(src))->Ok_0.data.len() ==> (#[trigger] asm_fold(
                lines(src),
            )->Ok_0.data[i]).1.len() < 0x1_0000_0000,
    ensures
        ({
            let s = asm_fold(lines(src))->Ok_0;
            let code = encodings(s.instrs);
            let b = binary_image(code, s.data);
            &&& b.len() >= 8
            &&& b.take(4) == magic()
            &&& le_value(b.subrange(4, 8)) == code.len()
            &&& b.len() - 8 >= code.len()
            &&& decode_all(b.subrange(8, 8 + code.len() as int)) == (s.instrs, None::<crate::isa::define::InstructionError>)
            &&& data_sections(b.skip(8 + code.len() as int)) == (s.data, true)
        }),
{
    lemma_pow256();
    let s = asm_fold(lines(src))->Ok_0;
    let code = encodings(s.instrs);
    let b = binary_image(code, s.data);
    lemma_le_roundtrip(code.len(), 4);
    assert(code.len() % 0x1_0000_0000 == code.len());
    assert(b.take(4) == magic());
    assert(b.subrange(4, 8) == le_bytes(code.len(), 4));
    assert(b.subrange(8, 8 + code.len() as int) == code);
    assert(b.skip(8 + code.len() as int) == data_image(s.data));
    lemma_decode_all_encodings(s.instrs);
    lemma_data_sections_image(s.data);
}

} // verus!
