//! Fixed-width machine words with two's-complement wrap-around arithmetic,
//! as used by the datapath of the processing elements.
use vstd::prelude::*;

verus! {

/// Wraps the mathematical integer `x` into the `modulus` values starting at `lo`.
pub open spec fn wrap(x: int, lo: int, modulus: int) -> int {
    (x - lo) % modulus + lo
}

/// The value of `x` wrapped into the range of the word type `T`.
pub open spec fn wrapped<T: Word>(x: int) -> int {
    wrap(x, T::min_val(), T::modulus())
}

/// Wrapping twice is wrapping once: adding to a wrapped value and wrapping
/// again gives the wrapped sum.
pub proof fn lemma_wrap_add(x: int, y: int, lo: int, modulus: int)
    requires
        modulus > 0,
    ensures
        wrap(wrap(x, lo, modulus) + y, lo, modulus) == wrap(x + y, lo, modulus),
{
    vstd::arithmetic::div_mod::lemma_add_mod_noop_right(y, x - lo, modulus);
    assert(wrap(x, lo, modulus) + y - lo == y + (x - lo) % modulus);
    assert(x + y - lo == y + (x - lo));
}

/// A fixed-width integer word.
pub trait Word: Copy + Sized {
    /// The mathematical value of the word.
    spec fn val(self) -> int;

    /// The smallest representable value.
    spec fn min_val() -> int;

    /// The number of representable values (two to the bit width).
    spec fn modulus() -> int;

    /// Values lie in range, and a word is determined by its value.
    proof fn lemma_word(self, other: Self)
        ensures
            Self::modulus() > 0,
            Self::min_val() <= self.val() < Self::min_val() + Self::modulus(),
            (self.val() == other.val()) == (self == other),
    ;

    /// The zero word (what `Default` gives for the primitive integers).
    fn zero() -> (r: Self)
        ensures
            r.val() == 0,
    ;

    fn wrapping_add(self, rhs: Self) -> (r: Self)
        ensures
            r.val() == wrap(self.val() + rhs.val(), Self::min_val(), Self::modulus()),
    ;

    fn wrapping_mul(self, rhs: Self) -> (r: Self)
        ensures
            r.val() == wrap(self.val() * rhs.val(), Self::min_val(), Self::modulus()),
    ;

    fn is_positive(self) -> (r: bool)
        ensures
            r == (self.val() > 0),
    ;

    fn is_negative(self) -> (r: bool)
        ensures
            r == (self.val() < 0),
    ;
}

/// Lossless conversion of a word into a word type at least as wide.
pub trait Widen<P: Word>: Word {
    fn widen(self) -> (r: P)
        ensures
            r.val() == self.val(),
    ;
}

impl<T: Word> Widen<T> for T {
    fn widen(self) -> (r: T) {
        self
    }
}

impl Word for u8 {
    open spec fn val(self) -> int {
        self as int
    }

    open spec fn min_val() -> int {
        0x0
    }

    open spec fn modulus() -> int {
        0x100
    }

    proof fn lemma_word(self, other: Self) {
    }

    fn zero() -> (r: Self) {
        0
    }

    fn wrapping_add(self, rhs: Self) -> (r: Self) {
        u8::wrapping_add(self, rhs)
    }

    fn wrapping_mul(self, rhs: Self) -> (r: Self) {
        u8::wrapping_mul(self, rhs)
    }

    fn is_positive(self) -> (r: bool) {
        self > 0
    }

    fn is_negative(self) -> (r: bool) {
        false
    }
}

impl Word for u16 {
    open spec fn val(self) -> int {
        self as int
    }

    open spec fn min_val() -> int {
        0x0
    }

    open spec fn modulus() -> int {
        0x10000
    }

    proof fn lemma_word(self, other: Self) {
    }

    fn zero() -> (r: Self) {
        0
    }

    fn wrapping_add(self, rhs: Self) -> (r: Self) {
        u16::wrapping_add(self, rhs)
    }

    fn wrapping_mul(self, rhs: Self) -> (r: Self) {
        u16::wrapping_mul(self, rhs)
    }

    fn is_positive(self) -> (r: bool) {
        self > 0
    }

    fn is_negative(self) -> (r: bool) {
        false
    }
}

impl Word for u32 {
    open spec fn val(self) -> int {
        self as int
    }

    open spec fn min_val() -> int {
        0x0
    }

    open spec fn modulus() -> int {
        0x100000000
    }

    proof fn lemma_word(self, other: Self) {
    }

    fn zero() -> (r: Self) {
        0
    }

    fn wrapping_add(self, rhs: Self) -> (r: Self) {
        u32::wrapping_add(self, rhs)
    }

    fn wrapping_mul(self, rhs: Self) -> (r: Self) {
        u32::wrapping_mul(self, rhs)
    }

    fn is_positive(self) -> (r: bool) {
        self > 0
    }

    fn is_negative(self) -> (r: bool) {
        false
    }
}

impl Word for u64 {
    open spec fn val(self) -> int {
        self as int
    }

    open spec fn min_val() -> int {
        0x0
    }

    open spec fn modulus() -> int {
        0x10000000000000000
    }

    proof fn lemma_word(self, other: Self) {
    }

    fn zero() -> (r: Self) {
        0
    }

    fn wrapping_add(self, rhs: Self) -> (r: Self) {
        u64::wrapping_add(self, rhs)
    }

    fn wrapping_mul(self, rhs: Self) -> (r: Self) {
        u64::wrapping_mul(self, rhs)
    }

    fn is_positive(self) -> (r: bool) {
        self > 0
    }

    fn is_negative(self) -> (r: bool) {
        false
    }
}

impl Word for i8 {
    open spec fn val(self) -> int {
        self as int
    }

    open spec fn min_val() -> int {
        -0x80
    }

    open spec fn modulus() -> int {
        0x100
    }

    proof fn lemma_word(self, other: Self) {
    }

    fn zero() -> (r: Self) {
        0
    }

    fn wrapping_add(self, rhs: Self) -> (r: Self) {
        i8::wrapping_add(self, rhs)
    }

    fn wrapping_mul(self, rhs: Self) -> (r: Self) {
        i8::wrapping_mul(self, rhs)
    }

    fn is_positive(self) -> (r: bool) {
        self > 0
    }

    fn is_negative(self) -> (r: bool) {
        self < 0
    }
}

impl Word for i16 {
    open spec fn val(self) -> int {
        self as int
    }

    open spec fn min_val() -> int {
        -0x8000
    }

    open spec fn modulus() -> int {
        0x10000
    }

    proof fn lemma_word(self, other: Self) {
    }

    fn zero() -> (r: Self) {
        0
    }

    fn wrapping_add(self, rhs: Self) -> (r: Self) {
        i16::wrapping_add(self, rhs)
    }

    fn wrapping_mul(self, rhs: Self) -> (r: Self) {
        i16::wrapping_mul(self, rhs)
    }

    fn is_positive(self) -> (r: bool) {
        self > 0
    }

    fn is_negative(self) -> (r: bool) {
        self < 0
    }
}

impl Word for i32 {
    open spec fn val(self) -> int {
        self as int
    }

    open spec fn min_val() -> int {
        -0x80000000
    }

    open spec fn modulus() -> int {
        0x100000000
    }

    proof fn lemma_word(self, other: Self) {
    }

    fn zero() -> (r: Self) {
        0
    }

    fn wrapping_add(self, rhs: Self) -> (r: Self) {
        i32::wrapping_add(self, rhs)
    }

    fn wrapping_mul(self, rhs: Self) -> (r: Self) {
        i32::wrapping_mul(self, rhs)
    }

    fn is_positive(self) -> (r: bool) {
        self > 0
    }

    fn is_negative(self) -> (r: bool) {
        self < 0
    }
}

impl Word for i64 {
    open spec fn val(self) -> int {
        self as int
    }

    open spec fn min_val() -> int {
        -0x8000000000000000
    }

    open spec fn modulus() -> int {
        0x10000000000000000
    }

    proof fn lemma_word(self, other: Self) {
    }

    fn zero() -> (r: Self) {
        0
    }

    fn wrapping_add(self, rhs: Self) -> (r: Self) {
        i64::wrapping_add(self, rhs)
    }

    fn wrapping_mul(self, rhs: Self) -> (r: Self) {
        i64::wrapping_mul(self, rhs)
    }

    fn is_positive(self) -> (r: bool) {
        self > 0
    }

    fn is_negative(self) -> (r: bool) {
        self < 0
    }
}

impl Widen<u16> for u8 {
    fn widen(self) -> (r: u16) {
        self as u16
    }
}

impl Widen<u32> for u8 {
    fn widen(self) -> (r: u32) {
        self as u32
    }
}

impl Widen<u64> for u8 {
    fn widen(self) -> (r: u64) {
        self as u64
    }
}

impl Widen<u32> for u16 {
    fn widen(self) -> (r: u32) {
        self as u32
    }
}

impl Widen<u64> for u16 {
    fn widen(self) -> (r: u64) {
        self as u64
    }
}

impl Widen<u64> for u32 {
    fn widen(self) -> (r: u64) {
        self as u64
    }
}

impl Widen<i16> for i8 {
    fn widen(self) -> (r: i16) {
        self as i16
    }
}

impl Widen<i32> for i8 {
    fn widen(self) -> (r: i32) {
        self as i32
    }
}

impl Widen<i64> for i8 {
    fn widen(self) -> (r: i64) {
        self as i64
    }
}

impl Widen<i32> for i16 {
    fn widen(self) -> (r: i32) {
        self as i32
    }
}

impl Widen<i64> for i16 {
    fn widen(self) -> (r: i64) {
        self as i64
    }
}

impl Widen<i64> for i32 {
    fn widen(self) -> (r: i64) {
        self as i64
    }
}

} // verus!
