//! The numeric type of one channel of a pixel.

use vstd::prelude::*;

verus! {

/// An unsigned integer type that can serve as one channel of a pixel.
///
/// Every value has a `level`, the number it stands for, between zero and
/// `max_level`. Two values with the same level are the same value.
///
/// Implemented for `u8`, `u16`, `u32`, `u64` and `u128`.
pub trait StitchableType: Copy {
    /// The number that a channel value stands for.
    spec fn level(self) -> nat;

    /// The largest level that the type can hold.
    spec fn max_level() -> nat;

    /// The largest level is positive and fits the widest machine integer.
    proof fn max_level_in_range()
        ensures
            0 < Self::max_level() <= u128::MAX,
    ;

    /// No value exceeds the largest level.
    proof fn level_in_range(self)
        ensures
            self.level() <= Self::max_level(),
    ;

    /// A value is determined by its level.
    proof fn level_is_exact(self, other: Self)
        requires
            self.level() == other.level(),
        ensures
            self == other,
    ;

    /// Returns the maximum value of this type.
    fn maxvalue() -> (r: Self)
        ensures
            r.level() == Self::max_level(),
    ;

    /// The level of the value as a wide integer.
    fn widen(self) -> (r: u128)
        ensures
            r == self.level(),
    ;

    /// The value whose level is `v`, or the maximum value where `v` is
    /// beyond the type's range.
    fn narrow(v: u128) -> (r: Self)
        ensures
            r.level() == (if v <= Self::max_level() { v as nat } else { Self::max_level() }),
    ;
}

impl StitchableType for u8 {
    open spec fn level(self) -> nat {
        self as nat
    }

    open spec fn max_level() -> nat {
        0xff
    }

    proof fn max_level_in_range() {
    }

    proof fn level_in_range(self) {
    }

    proof fn level_is_exact(self, other: Self) {
    }

    fn maxvalue() -> u8 {
        u8::MAX
    }

    fn widen(self) -> u128 {
        self as u128
    }

    fn narrow(v: u128) -> u8 {
        if v <= 0xff {
            v as u8
        } else {
            u8::MAX
        }
    }
}

impl StitchableType for u16 {
    open spec fn level(self) -> nat {
        self as nat
    }

    open spec fn max_level() -> nat {
        0xffff
    }

    proof fn max_level_in_range() {
    }

    proof fn level_in_range(self) {
    }

    proof fn level_is_exact(self, other: Self) {
    }

    fn maxvalue() -> u16 {
        u16::MAX
    }

    fn widen(self) -> u128 {
        self as u128
    }

    fn narrow(v: u128) -> u16 {
        if v <= 0xffff {
            v as u16
        } else {
            u16::MAX
        }
    }
}

impl StitchableType for u32 {
    open spec fn level(self) -> nat {
        self as nat
    }

    open spec fn max_level() -> nat {
        0xffff_ffff
    }

    proof fn max_level_in_range() {
    }

    proof fn level_in_range(self) {
    }

    proof fn level_is_exact(self, other: Self) {
    }

    fn maxvalue() -> u32 {
        u32::MAX
    }

    fn widen(self) -> u128 {
        self as u128
    }

    fn narrow(v: u128) -> u32 {
        if v <= 0xffff_ffff {
            v as u32
        } else {
            u32::MAX
        }
    }
}

impl StitchableType for u64 {
    open spec fn level(self) -> nat {
        self as nat
    }

    open spec fn max_level() -> nat {
        0xffff_ffff_ffff_ffff
    }

    proof fn max_level_in_range() {
    }

    proof fn level_in_range(self) {
    }

    proof fn level_is_exact(self, other: Self) {
    }

    fn maxvalue() -> u64 {
        u64::MAX
    }

    fn widen(self) -> u128 {
        self as u128
    }

    fn narrow(v: u128) -> u64 {
        if v <= 0xffff_ffff_ffff_ffff {
            v as u64
        } else {
            u64::MAX
        }
    }
}

impl StitchableType for u128 {
    open spec fn level(self) -> nat {
        self as nat
    }

    open spec fn max_level() -> nat {
        0xffff_ffff_ffff_ffff_ffff_ffff_ffff_ffff
    }

    proof fn max_level_in_range() {
    }

    proof fn level_in_range(self) {
    }

    proof fn level_is_exact(self, other: Self) {
    }

    fn maxvalue() -> u128 {
        u128::MAX
    }

    fn widen(self) -> u128 {
        self
    }

    fn narrow(v: u128) -> u128 {
        v
    }
}

} // verus!
