//! Little-endian byte encoding and text parsing of instruction operands.
use vstd::prelude::*;
use crate::text::{int_from_str, str_chars, parse_int_span};
use crate::word::{Word, wrap};

verus! {

/// `256` to the power `n`.
pub open spec fn pow256(n: nat) -> nat
    decreases n,
{
    if n == 0 {
        1
    } else {
        256 * pow256((n - 1) as nat)
    }
}

/// The `n` low bytes of `v`, least significant first.
pub open spec fn le_bytes(v: nat, n: nat) -> Seq<u8>
    decreases n,
{
    if n == 0 {
        Seq::empty()
    } else {
        seq![(v % 256) as u8] + le_bytes(v / 256, (n - 1) as nat)
    }
}

/// The number whose bytes, least significant first, are `s`.
pub open spec fn le_value(s: Seq<u8>) -> nat
    decreases s.len(),
{
    if s.len() == 0 {
        0
    } else {
        s[0] as nat + 256 * le_value(s.drop_first())
    }
}

/// An operand as the assembler reads it: `0x` or `0X` and hexadecimal digits,
/// or else a decimal literal, for a type whose values are `min..=max`.
pub open spec fn operand_value(s: Seq<char>, signed: bool, min: int, max: int) -> Option<int> {
    if s.len() >= 2 && s[0] == '0' && (s[1] == 'x' || s[1] == 'X') {
        int_from_str(s.skip(2), 16, signed, min, max)
    } else {
        int_from_str(s, 10, signed, min, max)
    }
}

pub proof fn lemma_pow256()
    ensures
        pow256(0) == 1,
        pow256(1) == 0x100,
        pow256(2) == 0x10000,
        pow256(3) == 0x100_0000,
        pow256(4) == 0x1_0000_0000,
        pow256(5) == 0x100_0000_0000,
        pow256(6) == 0x1_0000_0000_0000,
        pow256(7) == 0x100_0000_0000_0000,
        pow256(8) == 0x1_0000_0000_0000_0000,
{
    reveal_with_fuel(pow256, 9);
}

/// A little-endian value fits in its bytes.
pub proof fn lemma_le_value_bound(s: Seq<u8>)
    ensures
        le_value(s) < pow256(s.len()),
    decreases s.len(),
{
    if s.len() > 0 {
        lemma_le_value_bound(s.drop_first());
    }
}

/// Reading back the bytes of `v` gives `v`.
pub proof fn lemma_le_roundtrip(v: nat, n: nat)
    requires
        v < pow256(n),
    ensures
        le_bytes(v, n).len() == n,
        le_value(le_bytes(v, n)) == v,
    decreases n,
{
    if n > 0 {
        lemma_le_roundtrip(v / 256, (n - 1) as nat);
        assert(le_bytes(v, n).drop_first() == le_bytes(v / 256, (n - 1) as nat));
    }
}

#[derive(Debug)]
pub enum CodecError {
    UnexpectedEof { ty: &'static str },
    InvalidValue { ty: &'static str, value: String },
}

/// An instruction operand type: its encoding is its two's-complement bits,
/// least significant byte first.
pub trait ParamCodec: Word {
    /// The width in bytes.
    spec fn size() -> nat;

    /// The type's name, as error messages give it.
    spec fn name() -> &'static str;

    proof fn lemma_codec()
        ensures
            1 <= Self::size() <= 8,
            Self::modulus() == pow256(Self::size()),
    ;

    fn encode(self, out: &mut Vec<u8>)
        ensures
            final(out)@ == old(out)@ + le_bytes((self.val() % Self::modulus()) as nat, Self::size()),
    ;

    fn decode(input: &mut &[u8]) -> (r: Result<Self, CodecError>)
        ensures
            old(input)@.len() < Self::size() ==> {
                &&& r == Err::<Self, CodecError>(CodecError::UnexpectedEof { ty: Self::name() })
                &&& final(input)@ == old(input)@
            },
            old(input)@.len() >= Self::size() ==> {
                &&& r matches Ok(v) && v.val() == wrap(
                    le_value(old(input)@.take(Self::size() as int)) as int,
                    Self::min_val(),
                    Self::modulus(),
                )
                &&& final(input)@ == old(input)@.skip(Self::size() as int)
            },
    ;

    fn parse(s: &str) -> (r: Result<Self, CodecError>)
        ensures
            match operand_value(
                s@,
                Self::min_val() < 0,
                Self::min_val(),
                Self::min_val() + Self::modulus() - 1,
            ) {
                Some(x) => r matches Ok(v) && v.val() == x,
                None => r matches Err(CodecError::InvalidValue { ty, value }) && ty == Self::name()
                    && value@ == s@,
            },
    ;
}

/// Appends the `n` low bytes of `v`, least significant first.
fn push_le(out: &mut Vec<u8>, v: u64, n: usize)
    ensures
        final(out)@ == old(out)@ + le_bytes(v as nat, n as nat),
    decreases n,
{
    if n > 0 {
        out.push((v % 256) as u8);
        push_le(out, v / 256, n - 1);
        assert(old(out)@ + le_bytes(v as nat, n as nat) == old(out)@.push((v % 256) as u8) + le_bytes(
            (v / 256) as nat,
            (n - 1) as nat,
        ));
    }
}

/// The little-endian number held by `s[start..start + n]`.
pub fn le_read(s: &[u8], start: usize, n: usize) -> (r: u64)
    requires
        start + n <= s@.len(),
        n <= 8,
    ensures
        r as nat == le_value(s@.subrange(start as int, start + n)),
        r < pow256(n as nat),
    decreases n,
{
    proof {
        lemma_pow256();
    }
    if n == 0 {
        0
    } else {
        let len = s.len();
        assert(start < len);
        let rest = le_read(s, start + 1, n - 1);
        assert(s@.subrange(start as int, start + n).drop_first() == s@.subrange(start + 1, start + n));
        assert(pow256((n - 1) as nat) <= 0x100_0000_0000_0000) by {
            reveal_with_fuel(pow256, 9);
        }
        s[start] as u64 + 256 * rest
    }
}

/// Takes `n` bytes off the front of `input` and reads them little-endian;
/// `None`, with `input` untouched, where fewer remain.
fn take_le(input: &mut &[u8], n: usize) -> (r: Option<u64>)
    requires
        n <= 8,
    ensures
        old(input)@.len() < n ==> r is None && final(input)@ == old(input)@,
        old(input)@.len() >= n ==> {
            &&& r matches Some(v) && v as nat == le_value(old(input)@.take(n as int))
            &&& final(input)@ == old(input)@.skip(n as int)
        },
{
    if input.len() < n {
        None
    } else {
        let v = le_read(*input, 0, n);
        assert(input@.subrange(0, n as int) == input@.take(n as int));
        *input = vstd::slice::slice_subrange(*input, n, input.len());
        Some(v)
    }
}

/// Reads an operand literal for a type whose values are `min..=max`.
fn parse_operand(s: &str, signed: bool, min: i128, max: i128) -> (r: Option<i128>)
    requires
        -0x1_0000_0000_0000_0000 <= min <= 0 <= max <= 0x1_0000_0000_0000_0000,
    ensures
        r matches Some(x) ==> operand_value(s@, signed, min as int, max as int) == Some(x as int),
        r is None ==> operand_value(s@, signed, min as int, max as int) is None,
{
    let chars = str_chars(s);
    let n = chars.len();
    if n >= 2 && chars[0] == '0' && (chars[1] == 'x' || chars[1] == 'X') {
        assert(chars@.subrange(2, n as int) == s@.skip(2));
        parse_int_span(&chars, 2, n, 16, signed, min, max)
    } else {
        assert(chars@.subrange(0, n as int) == s@);
        parse_int_span(&chars, 0, n, 10, signed, min, max)
    }
}

impl ParamCodec for u8 {
    open spec fn size() -> nat {
        1
    }

    open spec fn name() -> &'static str {
        "u8"
    }

    proof fn lemma_codec() {
        lemma_pow256();
    }

    fn encode(self, out: &mut Vec<u8>) {
        let bits: u64 = self as u64;
        push_le(out, bits, 1);
    }

    fn decode(input: &mut &[u8]) -> (r: Result<Self, CodecError>) {
        proof {
            lemma_pow256();
            lemma_le_value_bound(input@.take(1));
        }
        match take_le(input, 1) {
            None => Err(CodecError::UnexpectedEof { ty: "u8" }),
            Some(u) => Ok(u as u8),
        }
    }

    fn parse(s: &str) -> (r: Result<Self, CodecError>) {
        match parse_operand(s, false, 0x0, 0xff) {
            Some(x) => Ok(x as u8),
            None => Err(CodecError::InvalidValue { ty: "u8", value: s.to_owned() }),
        }
    }
}

impl ParamCodec for u16 {
    open spec fn size() -> nat {
        2
    }

    open spec fn name() -> &'static str {
        "u16"
    }

    proof fn lemma_codec() {
        lemma_pow256();
    }

    fn encode(self, out: &mut Vec<u8>) {
        let bits: u64 = self as u64;
        push_le(out, bits, 2);
    }

    fn decode(input: &mut &[u8]) -> (r: Result<Self, CodecError>) {
        proof {
            lemma_pow256();
            lemma_le_value_bound(input@.take(2));
        }
        match take_le(input, 2) {
            None => Err(CodecError::UnexpectedEof { ty: "u16" }),
            Some(u) => Ok(u as u16),
        }
    }

    fn parse(s: &str) -> (r: Result<Self, CodecError>) {
        match parse_operand(s, false, 0x0, 0xffff) {
            Some(x) => Ok(x as u16),
            None => Err(CodecError::InvalidValue { ty: "u16", value: s.to_owned() }),
        }
    }
}

impl ParamCodec for u32 {
    open spec fn size() -> nat {
        4
    }

    open spec fn name() -> &'static str {
        "u32"
    }

    proof fn lemma_codec() {
        lemma_pow256();
    }

    fn encode(self, out: &mut Vec<u8>) {
        let bits: u64 = self as u64;
        push_le(out, bits, 4);
    }

    fn decode(input: &mut &[u8]) -> (r: Result<Self, CodecError>) {
        proof {
            lemma_pow256();
            lemma_le_value_bound(input@.take(4));
        }
        match take_le(input, 4) {
            None => Err(CodecError::UnexpectedEof { ty: "u32" }),
            Some(u) => Ok(u as u32),
        }
    }

    fn parse(s: &str) -> (r: Result<Self, CodecError>) {
        match parse_operand(s, false, 0x0, 0xffffffff) {
            Some(x) => Ok(x as u32),
            None => Err(CodecError::InvalidValue { ty: "u32", value: s.to_owned() }),
        }
    }
}

impl ParamCodec for u64 {
    open spec fn size() -> nat {
        8
    }

    open spec fn name() -> &'static str {
        "u64"
    }

    proof fn lemma_codec() {
        lemma_pow256();
    }

    fn encode(self, out: &mut Vec<u8>) {
        let bits: u64 = self as u64;
        push_le(out, bits, 8);
    }

    fn decode(input: &mut &[u8]) -> (r: Result<Self, CodecError>) {
        proof {
            lemma_pow256();
            lemma_le_value_bound(input@.take(8));
        }
        match take_le(input, 8) {
            None => Err(CodecError::UnexpectedEof { ty: "u64" }),
            Some(u) => Ok(u as u64),
        }
    }

    fn parse(s: &str) -> (r: Result<Self, CodecError>) {
        match parse_operand(s, false, 0x0, 0xffffffffffffffff) {
            Some(x) => Ok(x as u64),
            None => Err(CodecError::InvalidValue { ty: "u64", value: s.to_owned() }),
        }
    }
}

impl ParamCodec for i8 {
    open spec fn size() -> nat {
        1
    }

    open spec fn name() -> &'static str {
        "i8"
    }

    proof fn lemma_codec() {
        lemma_pow256();
    }

    fn encode(self, out: &mut Vec<u8>) {
        let bits: u64 = if self >= 0 {
            self as u64
        } else {
            (self as i128 + 0x100) as u64
        };
        push_le(out, bits, 1);
    }

    fn decode(input: &mut &[u8]) -> (r: Result<Self, CodecError>) {
        proof {
            lemma_pow256();
            lemma_le_value_bound(input@.take(1));
        }
        match take_le(input, 1) {
            None => Err(CodecError::UnexpectedEof { ty: "i8" }),
            Some(u) => {
                if u >= 0x80 {
                    Ok((u as i128 - 0x100) as i8)
                } else {
                    Ok(u as i8)
                }
            },
        }
    }

    fn parse(s: &str) -> (r: Result<Self, CodecError>) {
        match parse_operand(s, true, -0x80, 0x7f) {
            Some(x) => Ok(x as i8),
            None => Err(CodecError::InvalidValue { ty: "i8", value: s.to_owned() }),
        }
    }
}

impl ParamCodec for i16 {
    open spec fn size() -> nat {
        2
    }

    open spec fn name() -> &'static str {
        "i16"
    }

    proof fn lemma_codec() {
        lemma_pow256();
    }

    fn encode(self, out: &mut Vec<u8>) {
        let bits: u64 = if self >= 0 {
            self as u64
        } else {
            (self as i128 + 0x10000) as u64
        };
        push_le(out, bits, 2);
    }

    fn decode(input: &mut &[u8]) -> (r: Result<Self, CodecError>) {
        proof {
            lemma_pow256();
            lemma_le_value_bound(input@.take(2));
        }
        match take_le(input, 2) {
            None => Err(CodecError::UnexpectedEof { ty: "i16" }),
            Some(u) => {
                if u >= 0x8000 {
                    Ok((u as i128 - 0x10000) as i16)
                } else {
                    Ok(u as i16)
                }
            },
        }
    }

    fn parse(s: &str) -> (r: Result<Self, CodecError>) {
        match parse_operand(s, true, -0x8000, 0x7fff) {
            Some(x) => Ok(x as i16),
            None => Err(CodecError::InvalidValue { ty: "i16", value: s.to_owned() }),
        }
    }
}

impl ParamCodec for i32 {
    open spec fn size() -> nat {
        4
    }

    open spec fn name() -> &'static str {
        "i32"
    }

    proof fn lemma_codec() {
        lemma_pow256();
    }

    fn encode(self, out: &mut Vec<u8>) {
        let bits: u64 = if self >= 0 {
            self as u64
        } else {
            (self as i128 + 0x100000000) as u64
        };
        push_le(out, bits, 4);
    }

    fn decode(input: &mut &[u8]) -> (r: Result<Self, CodecError>) {
        proof {
            lemma_pow256();
            lemma_le_value_bound(input@.take(4));
        }
        match take_le(input, 4) {
            None => Err(CodecError::UnexpectedEof { ty: "i32" }),
            Some(u) => {
                if u >= 0x80000000 {
                    Ok((u as i128 - 0x100000000) as i32)
                } else {
                    Ok(u as i32)
                }
            },
        }
    }

    fn parse(s: &str) -> (r: Result<Self, CodecError>) {
        match parse_operand(s, true, -0x80000000, 0x7fffffff) {
            Some(x) => Ok(x as i32),
            None => Err(CodecError::InvalidValue { ty: "i32", value: s.to_owned() }),
        }
    }
}

impl ParamCodec for i64 {
    open spec fn size() -> nat {
        8
    }

    open spec fn name() -> &'static str {
        "i64"
    }

    proof fn lemma_codec() {
        lemma_pow256();
    }

    fn encode(self, out: &mut Vec<u8>) {
        let bits: u64 = if self >= 0 {
            self as u64
        } else {
            (self as i128 + 0x10000000000000000) as u64
        };
        push_le(out, bits, 8);
    }

    fn decode(input: &mut &[u8]) -> (r: Result<Self, CodecError>) {
        proof {
            lemma_pow256();
            lemma_le_value_bound(input@.take(8));
        }
        match take_le(input, 8) {
            None => Err(CodecError::UnexpectedEof { ty: "i64" }),
            Some(u) => {
                if u >= 0x8000000000000000 {
                    Ok((u as i128 - 0x10000000000000000) as i64)
                } else {
                    Ok(u as i64)
                }
            },
        }
    }

    fn parse(s: &str) -> (r: Result<Self, CodecError>) {
        match parse_operand(s, true, -0x8000000000000000, 0x7fffffffffffffff) {
            Some(x) => Ok(x as i64),
            None => Err(CodecError::InvalidValue { ty: "i64", value: s.to_owned() }),
        }
    }
}

} // verus!
