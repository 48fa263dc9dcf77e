//! The numeric types that sampled values can have.

use vstd::prelude::*;

verus! {

/// The integer at distance `magnitude` from zero, below it if `negative`.
pub open spec fn signed(negative: bool, magnitude: u128) -> int {
    if negative {
        -(magnitude as int)
    } else {
        magnitude as int
    }
}

/// An integer type of at most 128 bits, seen as a range of the mathematical integers.
pub trait Numeric: Copy {
    /// The integer that this value stands for.
    spec fn as_int(self) -> int;

    /// Whether the type has a value that stands for `v`.
    spec fn fits(v: int) -> bool;

    /// Every value stands for an integer of the type's range, which 128 bits can hold.
    proof fn lemma_value_fits(x: Self)
        ensures
            Self::fits(x.as_int()),
            i128::MIN <= x.as_int() <= u128::MAX,
    ;

    /// Two values that stand for the same integer are the same value.
    proof fn lemma_injective(a: Self, b: Self)
        requires
            a.as_int() == b.as_int(),
        ensures
            a == b,
    ;

    /// The range of the type has no gaps.
    proof fn lemma_interval(lo: int, v: int, hi: int)
        requires
            Self::fits(lo),
            Self::fits(hi),
            lo <= v <= hi,
        ensures
            Self::fits(v),
    ;

    /// Whether this value is below zero.
    fn is_negative(self) -> (b: bool)
        ensures
            b == (self.as_int() < 0),
    ;

    /// The distance of this value from zero.
    fn magnitude(self) -> (m: u128)
        ensures
            self.as_int() == signed(self.as_int() < 0, m),
    ;

    /// The value at distance `magnitude` from zero, below it if `negative`.
    fn from_parts(negative: bool, magnitude: u128) -> (x: Self)
        requires
            Self::fits(signed(negative, magnitude)),
        ensures
            x.as_int() == signed(negative, magnitude),
    ;
}

impl Numeric for u8 {
    open spec fn as_int(self) -> int {
        self as int
    }

    open spec fn fits(v: int) -> bool {
        u8::MIN <= v <= u8::MAX
    }

    proof fn lemma_value_fits(x: Self) {
    }

    proof fn lemma_injective(a: Self, b: Self) {
    }

    proof fn lemma_interval(lo: int, v: int, hi: int) {
    }

    fn is_negative(self) -> (b: bool) {
        false
    }

    fn magnitude(self) -> (m: u128) {
        self as u128
    }

    fn from_parts(negative: bool, magnitude: u128) -> (x: Self) {
        magnitude as u8
    }
}

impl Numeric for u16 {
    open spec fn as_int(self) -> int {
        self as int
    }

    open spec fn fits(v: int) -> bool {
        u16::MIN <= v <= u16::MAX
    }

    proof fn lemma_value_fits(x: Self) {
    }

    proof fn lemma_injective(a: Self, b: Self) {
    }

    proof fn lemma_interval(lo: int, v: int, hi: int) {
    }

    fn is_negative(self) -> (b: bool) {
        false
    }

    fn magnitude(self) -> (m: u128) {
        self as u128
    }

    fn from_parts(negative: bool, magnitude: u128) -> (x: Self) {
        magnitude as u16
    }
}

impl Numeric for u32 {
    open spec fn as_int(self) -> int {
        self as int
    }

    open spec fn fits(v: int) -> bool {
        u32::MIN <= v <= u32::MAX
    }

    proof fn lemma_value_fits(x: Self) {
    }

    proof fn lemma_injective(a: Self, b: Self) {
    }

    proof fn lemma_interval(lo: int, v: int, hi: int) {
    }

    fn is_negative(self) -> (b: bool) {
        false
    }

    fn magnitude(self) -> (m: u128) {
        self as u128
    }

    fn from_parts(negative: bool, magnitude: u128) -> (x: Self) {
        magnitude as u32
    }
}

impl Numeric for u64 {
    open spec fn as_int(self) -> int {
        self as int
    }

    open spec fn fits(v: int) -> bool {
        u64::MIN <= v <= u64::MAX
    }

    proof fn lemma_value_fits(x: Self) {
    }

    proof fn lemma_injective(a: Self, b: Self) {
    }

    proof fn lemma_interval(lo: int, v: int, hi: int) {
    }

    fn is_negative(self) -> (b: bool) {
        false
    }

    fn magnitude(self) -> (m: u128) {
        self as u128
    }

    fn from_parts(negative: bool, magnitude: u128) -> (x: Self) {
        magnitude as u64
    }
}

impl Numeric for u128 {
    open spec fn as_int(self) -> int {
        self as int
    }

    open spec fn fits(v: int) -> bool {
        u128::MIN <= v <= u128::MAX
    }

    proof fn lemma_value_fits(x: Self) {
    }

    proof fn lemma_injective(a: Self, b: Self) {
    }

    proof fn lemma_interval(lo: int, v: int, hi: int) {
    }

    fn is_negative(self) -> (b: bool) {
        false
    }

    fn magnitude(self) -> (m: u128) {
        self as u128
    }

    fn from_parts(negative: bool, magnitude: u128) -> (x: Self) {
        magnitude as u128
    }
}

impl Numeric for usize {
    open spec fn as_int(self) -> int {
        self as int
    }

    open spec fn fits(v: int) -> bool {
        usize::MIN <= v <= usize::MAX
    }

    proof fn lemma_value_fits(x: Self) {
    }

    proof fn lemma_injective(a: Self, b: Self) {
    }

    proof fn lemma_interval(lo: int, v: int, hi: int) {
    }

    fn is_negative(self) -> (b: bool) {
        false
    }

    fn magnitude(self) -> (m: u128) {
        self as u128
    }

    fn from_parts(negative: bool, magnitude: u128) -> (x: Self) {
        magnitude as usize
    }
}

impl Numeric for i8 {
    open spec fn as_int(self) -> int {
        self as int
    }

    open spec fn fits(v: int) -> bool {
        i8::MIN <= v <= i8::MAX
    }

    proof fn lemma_value_fits(x: Self) {
    }

    proof fn lemma_injective(a: Self, b: Self) {
    }

    proof fn lemma_interval(lo: int, v: int, hi: int) {
    }

    fn is_negative(self) -> (b: bool) {
        self < 0
    }

    fn magnitude(self) -> (m: u128) {
        if self >= 0 {
            self as u128
        } else {
            (-(self + 1)) as u128 + 1
        }
    }

    fn from_parts(negative: bool, magnitude: u128) -> (x: Self) {
        if !negative || magnitude == 0 {
            magnitude as i8
        } else {
            -((magnitude - 1) as i8) - 1
        }
    }
}

impl Numeric for i16 {
    open spec fn as_int(self) -> int {
        self as int
    }

    open spec fn fits(v: int) -> bool {
        i16::MIN <= v <= i16::MAX
    }

    proof fn lemma_value_fits(x: Self) {
    }

    proof fn lemma_injective(a: Self, b: Self) {
    }

    proof fn lemma_interval(lo: int, v: int, hi: int) {
    }

    fn is_negative(self) -> (b: bool) {
        self < 0
    }

    fn magnitude(self) -> (m: u128) {
        if self >= 0 {
            self as u128
        } else {
            (-(self + 1)) as u128 + 1
        }
    }

    fn from_parts(negative: bool, magnitude: u128) -> (x: Self) {
        if !negative || magnitude == 0 {
            magnitude as i16
        } else {
            -((magnitude - 1) as i16) - 1
        }
    }
}

impl Numeric for i32 {
    open spec fn as_int(self) -> int {
        self as int
    }

    open spec fn fits(v: int) -> bool {
        i32::MIN <= v <= i32::MAX
    }

    proof fn lemma_value_fits(x: Self) {
    }

    proof fn lemma_injective(a: Self, b: Self) {
    }

    proof fn lemma_interval(lo: int, v: int, hi: int) {
    }

    fn is_negative(self) -> (b: bool) {
        self < 0
    }

    fn magnitude(self) -> (m: u128) {
        if self >= 0 {
            self as u128
        } else {
            (-(self + 1)) as u128 + 1
        }
    }

    fn from_parts(negative: bool, magnitude: u128) -> (x: Self) {
        if !negative || magnitude == 0 {
            magnitude as i32
        } else {
            -((magnitude - 1) as i32) - 1
        }
    }
}

impl Numeric for i64 {
    open spec fn as_int(self) -> int {
        self as int
    }

    open spec fn fits(v: int) -> bool {
        i64::MIN <= v <= i64::MAX
    }

    proof fn lemma_value_fits(x: Self) {
    }

    proof fn lemma_injective(a: Self, b: Self) {
    }

    proof fn lemma_interval(lo: int, v: int, hi: int) {
    }

    fn is_negative(self) -> (b: bool) {
        self < 0
    }

    fn magnitude(self) -> (m: u128) {
        if self >= 0 {
            self as u128
        } else {
            (-(self + 1)) as u128 + 1
        }
    }

    fn from_parts(negative: bool, magnitude: u128) -> (x: Self) {
        if !negative || magnitude == 0 {
            magnitude as i64
        } else {
            -((magnitude - 1) as i64) - 1
        }
    }
}

impl Numeric for i128 {
    open spec fn as_int(self) -> int {
        self as int
    }

    open spec fn fits(v: int) -> bool {
        i128::MIN <= v <= i128::MAX
    }

    proof fn lemma_value_fits(x: Self) {
    }

    proof fn lemma_injective(a: Self, b: Self) {
    }

    proof fn lemma_interval(lo: int, v: int, hi: int) {
    }

    fn is_negative(self) -> (b: bool) {
        self < 0
    }

    fn magnitude(self) -> (m: u128) {
        if self >= 0 {
            self as u128
        } else {
            (-(self + 1)) as u128 + 1
        }
    }

    fn from_parts(negative: bool, magnitude: u128) -> (x: Self) {
        if !negative || magnitude == 0 {
            magnitude as i128
        } else {
            -((magnitude - 1) as i128) - 1
        }
    }
}

impl Numeric for isize {
    open spec fn as_int(self) -> int {
        self as int
    }

    open spec fn fits(v: int) -> bool {
        isize::MIN <= v <= isize::MAX
    }

    proof fn lemma_value_fits(x: Self) {
    }

    proof fn lemma_injective(a: Self, b: Self) {
    }

    proof fn lemma_interval(lo: int, v: int, hi: int) {
    }

    fn is_negative(self) -> (b: bool) {
        self < 0
    }

    fn magnitude(self) -> (m: u128) {
        if self >= 0 {
            self as u128
        } else {
            (-(self + 1)) as u128 + 1
        }
    }

    fn from_parts(negative: bool, magnitude: u128) -> (x: Self) {
        if !negative || magnitude == 0 {
            magnitude as isize
        } else {
            -((magnitude - 1) as isize) - 1
        }
    }
}

} // verus!
