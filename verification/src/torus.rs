//! The numeric substrate: fixed-width unsigned integers read as elements of
//! the discretized torus. All arithmetic wraps around the modulus `2^width`,
//! which realizes exact arithmetic in `Z / 2^width Z`.

use vstd::prelude::*;
use vstd::arithmetic::power2::{pow2, lemma2_to64};

verus! {

/// An unsigned integer type read as a torus element.
///
/// `as_int` maps a value to the mathematical integer it stores, in
/// `[0, modulus())`; every arithmetic operation is exact modular arithmetic
/// on those integers.
pub trait TorusElement: Sized + Copy {
    /// The modulus of the representation, `2^width`.
    spec fn modulus() -> int;

    /// The stored integer, in `[0, modulus())`.
    spec fn as_int(self) -> int;

    /// The modulus is a power of two strictly above 1.
    proof fn lemma_modulus()
        ensures
            Self::modulus() > 1,
            pow2(Self::bits_spec()) == Self::modulus(),
    ;

    /// The bit width, as a specification-level number.
    spec fn bits_spec() -> nat;

    /// Every value stores an integer below the modulus.
    proof fn lemma_in_range(self)
        ensures
            0 <= self.as_int() < Self::modulus(),
    ;

    /// Two values storing the same integer are the same value.
    proof fn lemma_injective(self, other: Self)
        ensures
            self.as_int() == other.as_int() ==> self == other,
    ;

    /// The bit width of the representation.
    fn bits() -> (w: u32)
        ensures
            w as nat == Self::bits_spec(),
            0 < w <= 64,
    ;

    /// The additive identity.
    fn zero() -> (r: Self)
        ensures
            r.as_int() == 0,
    ;

    /// The integer 1 as a torus element.
    fn one() -> (r: Self)
        ensures
            r.as_int() == 1,
    ;

    /// Reduces a 64-bit word into the torus, keeping the low bits.
    fn from_bits_u64(x: u64) -> (r: Self)
        ensures
            r.as_int() == (x as int) % Self::modulus(),
    ;

    /// Embeds an integer already known to lie below the modulus.
    fn from_int_u128(x: u128) -> (r: Self)
        requires
            (x as int) < Self::modulus(),
        ensures
            r.as_int() == x as int,
    ;

    /// Reads the stored integer out into a wide word.
    fn to_u128(self) -> (r: u128)
        ensures
            r as int == self.as_int(),
    ;

    /// Wraparound addition: exact addition modulo the modulus.
    fn wadd(self, o: Self) -> (r: Self)
        ensures
            r.as_int() == (self.as_int() + o.as_int()) % Self::modulus(),
    ;

    /// Wraparound subtraction: exact subtraction modulo the modulus.
    fn wsub(self, o: Self) -> (r: Self)
        ensures
            r.as_int() == (self.as_int() - o.as_int()) % Self::modulus(),
    ;

    /// Wraparound negation: the additive inverse modulo the modulus.
    fn wneg(self) -> (r: Self)
        ensures
            r.as_int() == (0 - self.as_int()) % Self::modulus(),
    ;

    /// Wraparound multiplication: exact multiplication modulo the modulus.
    fn wmul(self, o: Self) -> (r: Self)
        ensures
            r.as_int() == (self.as_int() * o.as_int()) % Self::modulus(),
    ;

    /// Value equality.
    fn eq_el(self, o: Self) -> (b: bool)
        ensures
            b <==> self.as_int() == o.as_int(),
    ;
}

/// `x` is a bit: the coefficients of binary secret keys satisfy this.
pub open spec fn is_bit(x: int) -> bool {
    x == 0 || x == 1
}

/// The distance between `a` and `b` along the torus of `m` elements: the
/// length of the shorter of the two arcs between them, at most `m / 2`.
pub open spec fn torus_dist(a: int, b: int, m: int) -> int {
    let d = (a - b) % m;
    if 2 * d <= m {
        d
    } else {
        m - d
    }
}

/// Reducing the left operand of an addition first does not change the sum
/// modulo `m`.
pub proof fn lemma_mod_add_left(x: int, y: int, m: int)
    requires
        m > 0,
    ensures
        ((x % m) + y) % m == (x + y) % m,
{
    vstd::arithmetic::div_mod::lemma_add_mod_noop_right(x % m, y, m);
    vstd::arithmetic::div_mod::lemma_mod_twice(x, m);
    vstd::arithmetic::div_mod::lemma_add_mod_noop(x, y, m);
    vstd::arithmetic::div_mod::lemma_add_mod_noop_right(x, y, m);
}

/// Reducing the left operand of a subtraction first does not change the
/// difference modulo `m`.
pub proof fn lemma_mod_sub_left(x: int, y: int, m: int)
    requires
        m > 0,
    ensures
        ((x % m) - y) % m == (x - y) % m,
{
    vstd::arithmetic::div_mod::lemma_sub_mod_noop_right(x % m, y, m);
    vstd::arithmetic::div_mod::lemma_mod_twice(x, m);
    vstd::arithmetic::div_mod::lemma_sub_mod_noop(x, y, m);
    vstd::arithmetic::div_mod::lemma_sub_mod_noop_right(x, y, m);
}

impl TorusElement for u32 {
    open spec fn modulus() -> int {
        0x1_0000_0000
    }

    open spec fn as_int(self) -> int {
        self as int
    }

    open spec fn bits_spec() -> nat {
        32
    }

    proof fn lemma_modulus() {
        lemma2_to64();
    }

    proof fn lemma_in_range(self) {
    }

    proof fn lemma_injective(self, other: Self) {
    }

    fn bits() -> (w: u32) {
        32
    }

    fn zero() -> (r: Self) {
        0
    }

    fn one() -> (r: Self) {
        1
    }

    fn from_bits_u64(x: u64) -> (r: Self) {
        (x % 0x1_0000_0000u64) as u32
    }

    fn from_int_u128(x: u128) -> (r: Self) {
        x as u32
    }

    fn to_u128(self) -> (r: u128) {
        self as u128
    }

    fn wadd(self, o: Self) -> (r: Self) {
        self.wrapping_add(o)
    }

    fn wsub(self, o: Self) -> (r: Self) {
        self.wrapping_sub(o)
    }

    fn wneg(self) -> (r: Self) {
        0u32.wrapping_sub(self)
    }

    fn wmul(self, o: Self) -> (r: Self) {
        self.wrapping_mul(o)
    }

    fn eq_el(self, o: Self) -> (b: bool) {
        self == o
    }
}

impl TorusElement for u64 {
    open spec fn modulus() -> int {
        0x1_0000_0000_0000_0000
    }

    open spec fn as_int(self) -> int {
        self as int
    }

    open spec fn bits_spec() -> nat {
        64
    }

    proof fn lemma_modulus() {
        lemma2_to64();
    }

    proof fn lemma_in_range(self) {
    }

    proof fn lemma_injective(self, other: Self) {
    }

    fn bits() -> (w: u32) {
        64
    }

    fn zero() -> (r: Self) {
        0
    }

    fn one() -> (r: Self) {
        1
    }

    fn from_bits_u64(x: u64) -> (r: Self) {
        x
    }

    fn from_int_u128(x: u128) -> (r: Self) {
        x as u64
    }

    fn to_u128(self) -> (r: u128) {
        self as u128
    }

    fn wadd(self, o: Self) -> (r: Self) {
        self.wrapping_add(o)
    }

    fn wsub(self, o: Self) -> (r: Self) {
        self.wrapping_sub(o)
    }

    fn wneg(self) -> (r: Self) {
        0u64.wrapping_sub(self)
    }

    fn wmul(self, o: Self) -> (r: Self) {
        self.wrapping_mul(o)
    }

    fn eq_el(self, o: Self) -> (b: bool) {
        self == o
    }
}

} // verus!
