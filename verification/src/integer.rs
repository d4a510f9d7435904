//! The integer element types that the statistics of an `EnhVec` work on.
use crate::order::{exact_eq, lawful_order, leq};
use vstd::prelude::*;

verus! {

/// Integer division of `a` by two, rounding towards zero as Rust does.
pub open spec fn half_toward_zero(a: int) -> int {
    if a >= 0 {
        a / 2
    } else {
        -((-a) / 2)
    }
}

/// [EnhVec](crate::EnhVec) type trait for all integers.
///
/// Besides the constructors `zero`, `one` and `from_usize`, it offers the checked
/// arithmetic that the statistics need, each with its exact contract over
/// the mathematical value `to_int` of an element.
pub trait Integer: Copy + Eq + Ord + PartialEq + PartialOrd + core::hash::Hash + core::ops::Add<
    Output = Self,
> + core::ops::Sub<Output = Self> + core::ops::Mul<Output = Self> + core::ops::Div<Output = Self> {
    /// The value as a mathematical integer.
    spec fn to_int(&self) -> int;

    /// The smallest value of the type.
    spec fn lowest() -> int;

    /// The largest value of the type.
    spec fn highest() -> int;

    /// The order and equality of the type are those of the integer values.
    proof fn lemma_integer()
        ensures
            lawful_order::<Self>(),
            exact_eq::<Self>(),
            Self::lowest() <= 0,
            2 <= Self::highest(),
            forall|a: Self| Self::lowest() <= #[trigger] a.to_int() <= Self::highest(),
            forall|a: Self, b: Self| #[trigger] leq(a, b) <==> a.to_int() <= b.to_int(),
            forall|a: Self, b: Self| #![trigger a.to_int(), b.to_int()] a.to_int() == b.to_int() ==> a == b,
    ;

    fn zero() -> (r: Self)
        ensures
            r.to_int() == 0,
    ;

    fn one() -> (r: Self)
        ensures
            r.to_int() == 1,
    ;

    /// The value `n` in this type: `Some` at least whenever `n` fits.
    fn from_usize(n: usize) -> (r: Option<Self>)
        ensures
            n <= Self::highest() ==> r is Some && r->0.to_int() == n,
    ;

    fn plus(self, other: Self) -> (r: Self)
        requires
            Self::lowest() <= self.to_int() + other.to_int() <= Self::highest(),
        ensures
            r.to_int() == self.to_int() + other.to_int(),
    ;

    fn minus(self, other: Self) -> (r: Self)
        requires
            Self::lowest() <= self.to_int() - other.to_int() <= Self::highest(),
        ensures
            r.to_int() == self.to_int() - other.to_int(),
    ;

    /// Divide by two, rounding towards zero.
    fn halve(self) -> (r: Self)
        ensures
            r.to_int() == half_toward_zero(self.to_int()),
    ;

    fn widen(self) -> (r: i128)
        requires
            self.to_int() <= i128::MAX,
        ensures
            r == self.to_int(),
    ;
}

impl Integer for u8 {
    open spec fn to_int(&self) -> int {
        *self as int
    }

    open spec fn lowest() -> int {
        u8::MIN as int
    }

    open spec fn highest() -> int {
        u8::MAX as int
    }

    proof fn lemma_integer() {
        broadcast use vstd::laws_cmp::group_laws_cmp, vstd::laws_eq::group_laws_eq;

    }

    fn zero() -> Self {
        0
    }

    fn one() -> Self {
        1
    }

    fn from_usize(n: usize) -> (r: Option<Self>)
        ensures
            r == if n <= u8::MAX as usize {
                Some(n as u8)
            } else {
                None
            },
    {
        if n <= u8::MAX as usize {
            Some(n as u8)
        } else {
            None
        }
    }

    fn plus(self, other: Self) -> Self {
        self + other
    }

    fn minus(self, other: Self) -> Self {
        self - other
    }

    fn halve(self) -> Self {
        self / 2
    }

    fn widen(self) -> i128 {
        self as i128
    }
}

impl Integer for u16 {
    open spec fn to_int(&self) -> int {
        *self as int
    }

    open spec fn lowest() -> int {
        u16::MIN as int
    }

    open spec fn highest() -> int {
        u16::MAX as int
    }

    proof fn lemma_integer() {
        broadcast use vstd::laws_cmp::group_laws_cmp, vstd::laws_eq::group_laws_eq;

    }

    fn zero() -> Self {
        0
    }

    fn one() -> Self {
        1
    }

    fn from_usize(n: usize) -> (r: Option<Self>)
        ensures
            r == if n <= u16::MAX as usize {
                Some(n as u16)
            } else {
                None
            },
    {
        if n <= u16::MAX as usize {
            Some(n as u16)
        } else {
            None
        }
    }

    fn plus(self, other: Self) -> Self {
        self + other
    }

    fn minus(self, other: Self) -> Self {
        self - other
    }

    fn halve(self) -> Self {
        self / 2
    }

    fn widen(self) -> i128 {
        self as i128
    }
}

impl Integer for u32 {
    open spec fn to_int(&self) -> int {
        *self as int
    }

    open spec fn lowest() -> int {
        u32::MIN as int
    }

    open spec fn highest() -> int {
        u32::MAX as int
    }

    proof fn lemma_integer() {
        broadcast use vstd::laws_cmp::group_laws_cmp, vstd::laws_eq::group_laws_eq;

    }

    fn zero() -> Self {
        0
    }

    fn one() -> Self {
        1
    }

    fn from_usize(n: usize) -> (r: Option<Self>)
        ensures
            r == if n <= u32::MAX as usize {
                Some(n as u32)
            } else {
                None
            },
    {
        if n <= u32::MAX as usize {
            Some(n as u32)
        } else {
            None
        }
    }

    fn plus(self, other: Self) -> Self {
        self + other
    }

    fn minus(self, other: Self) -> Self {
        self - other
    }

    fn halve(self) -> Self {
        self / 2
    }

    fn widen(self) -> i128 {
        self as i128
    }
}

impl Integer for u64 {
    open spec fn to_int(&self) -> int {
        *self as int
    }

    open spec fn lowest() -> int {
        u64::MIN as int
    }

    open spec fn highest() -> int {
        u64::MAX as int
    }

    proof fn lemma_integer() {
        broadcast use vstd::laws_cmp::group_laws_cmp, vstd::laws_eq::group_laws_eq;

    }

    fn zero() -> Self {
        0
    }

    fn one() -> Self {
        1
    }

    fn from_usize(n: usize) -> (r: Option<Self>)
        ensures
            r == Some(n as u64),
    {
        Some(n as u64)
    }

    fn plus(self, other: Self) -> Self {
        self + other
    }

    fn minus(self, other: Self) -> Self {
        self - other
    }

    fn halve(self) -> Self {
        self / 2
    }

    fn widen(self) -> i128 {
        self as i128
    }
}

impl Integer for u128 {
    open spec fn to_int(&self) -> int {
        *self as int
    }

    open spec fn lowest() -> int {
        u128::MIN as int
    }

    open spec fn highest() -> int {
        u128::MAX as int
    }

    proof fn lemma_integer() {
        broadcast use vstd::laws_cmp::group_laws_cmp, vstd::laws_eq::group_laws_eq;

    }

    fn zero() -> Self {
        0
    }

    fn one() -> Self {
        1
    }

    fn from_usize(n: usize) -> (r: Option<Self>)
        ensures
            r == Some(n as u128),
    {
        Some(n as u128)
    }

    fn plus(self, other: Self) -> Self {
        self + other
    }

    fn minus(self, other: Self) -> Self {
        self - other
    }

    fn halve(self) -> Self {
        self / 2
    }

    fn widen(self) -> i128 {
        self as i128
    }
}

impl Integer for usize {
    open spec fn to_int(&self) -> int {
        *self as int
    }

    open spec fn lowest() -> int {
        usize::MIN as int
    }

    open spec fn highest() -> int {
        usize::MAX as int
    }

    proof fn lemma_integer() {
        broadcast use vstd::laws_cmp::group_laws_cmp, vstd::laws_eq::group_laws_eq;

    }

    fn zero() -> Self {
        0
    }

    fn one() -> Self {
        1
    }

    fn from_usize(n: usize) -> (r: Option<Self>)
        ensures
            r == Some(n as usize),
    {
        Some(n as usize)
    }

    fn plus(self, other: Self) -> Self {
        self + other
    }

    fn minus(self, other: Self) -> Self {
        self - other
    }

    fn halve(self) -> Self {
        self / 2
    }

    fn widen(self) -> i128 {
        self as i128
    }
}

impl Integer for i8 {
    open spec fn to_int(&self) -> int {
        *self as int
    }

    open spec fn lowest() -> int {
        i8::MIN as int
    }

    open spec fn highest() -> int {
        i8::MAX as int
    }

    proof fn lemma_integer() {
        broadcast use vstd::laws_cmp::group_laws_cmp, vstd::laws_eq::group_laws_eq;

    }

    fn zero() -> Self {
        0
    }

    fn one() -> Self {
        1
    }

    fn from_usize(n: usize) -> (r: Option<Self>)
        ensures
            r == if n <= i8::MAX as usize {
                Some(n as i8)
            } else {
                None
            },
    {
        if n <= i8::MAX as usize {
            Some(n as i8)
        } else {
            None
        }
    }

    fn plus(self, other: Self) -> Self {
        self + other
    }

    fn minus(self, other: Self) -> Self {
        self - other
    }

    fn halve(self) -> Self {
        self / 2
    }

    fn widen(self) -> i128 {
        self as i128
    }
}

impl Integer for i16 {
    open spec fn to_int(&self) -> int {
        *self as int
    }

    open spec fn lowest() -> int {
        i16::MIN as int
    }

    open spec fn highest() -> int {
        i16::MAX as int
    }

    proof fn lemma_integer() {
        broadcast use vstd::laws_cmp::group_laws_cmp, vstd::laws_eq::group_laws_eq;

    }

    fn zero() -> Self {
        0
    }

    fn one() -> Self {
        1
    }

    fn from_usize(n: usize) -> (r: Option<Self>)
        ensures
            r == if n <= i16::MAX as usize {
                Some(n as i16)
            } else {
                None
            },
    {
        if n <= i16::MAX as usize {
            Some(n as i16)
        } else {
            None
        }
    }

    fn plus(self, other: Self) -> Self {
        self + other
    }

    fn minus(self, other: Self) -> Self {
        self - other
    }

    fn halve(self) -> Self {
        self / 2
    }

    fn widen(self) -> i128 {
        self as i128
    }
}

impl Integer for i32 {
    open spec fn to_int(&self) -> int {
        *self as int
    }

    open spec fn lowest() -> int {
        i32::MIN as int
    }

    open spec fn highest() -> int {
        i32::MAX as int
    }

    proof fn lemma_integer() {
        broadcast use vstd::laws_cmp::group_laws_cmp, vstd::laws_eq::group_laws_eq;

    }

    fn zero() -> Self {
        0
    }

    fn one() -> Self {
        1
    }

    fn from_usize(n: usize) -> (r: Option<Self>)
        ensures
            r == if n <= i32::MAX as usize {
                Some(n as i32)
            } else {
                None
            },
    {
        if n <= i32::MAX as usize {
            Some(n as i32)
        } else {
            None
        }
    }

    fn plus(self, other: Self) -> Self {
        self + other
    }

    fn minus(self, other: Self) -> Self {
        self - other
    }

    fn halve(self) -> Self {
        self / 2
    }

    fn widen(self) -> i128 {
        self as i128
    }
}

impl Integer for i64 {
    open spec fn to_int(&self) -> int {
        *self as int
    }

    open spec fn lowest() -> int {
        i64::MIN as int
    }

    open spec fn highest() -> int {
        i64::MAX as int
    }

    proof fn lemma_integer() {
        broadcast use vstd::laws_cmp::group_laws_cmp, vstd::laws_eq::group_laws_eq;

    }

    fn zero() -> Self {
        0
    }

    fn one() -> Self {
        1
    }

    fn from_usize(n: usize) -> (r: Option<Self>)
        ensures
            r == Some(n as i64),
    {
        Some(n as i64)
    }

    fn plus(self, other: Self) -> Self {
        self + other
    }

    fn minus(self, other: Self) -> Self {
        self - other
    }

    fn halve(self) -> Self {
        self / 2
    }

    fn widen(self) -> i128 {
        self as i128
    }
}

impl Integer for i128 {
    open spec fn to_int(&self) -> int {
        *self as int
    }

    open spec fn lowest() -> int {
        i128::MIN as int
    }

    open spec fn highest() -> int {
        i128::MAX as int
    }

    proof fn lemma_integer() {
        broadcast use vstd::laws_cmp::group_laws_cmp, vstd::laws_eq::group_laws_eq;

    }

    fn zero() -> Self {
        0
    }

    fn one() -> Self {
        1
    }

    fn from_usize(n: usize) -> (r: Option<Self>)
        ensures
            r == Some(n as i128),
    {
        Some(n as i128)
    }

    fn plus(self, other: Self) -> Self {
        self + other
    }

    fn minus(self, other: Self) -> Self {
        self - other
    }

    fn halve(self) -> Self {
        self / 2
    }

    fn widen(self) -> i128 {
        self as i128
    }
}

impl Integer for isize {
    open spec fn to_int(&self) -> int {
        *self as int
    }

    open spec fn lowest() -> int {
        isize::MIN as int
    }

    open spec fn highest() -> int {
        isize::MAX as int
    }

    proof fn lemma_integer() {
        broadcast use vstd::laws_cmp::group_laws_cmp, vstd::laws_eq::group_laws_eq;

    }

    fn zero() -> Self {
        0
    }

    fn one() -> Self {
        1
    }

    fn from_usize(n: usize) -> (r: Option<Self>)
        ensures
            r == if n <= isize::MAX as usize {
                Some(n as isize)
            } else {
                None
            },
    {
        if n <= isize::MAX as usize {
            Some(n as isize)
        } else {
            None
        }
    }

    fn plus(self, other: Self) -> Self {
        self + other
    }

    fn minus(self, other: Self) -> Self {
        self - other
    }

    fn halve(self) -> Self {
        self / 2
    }

    fn widen(self) -> i128 {
        self as i128
    }
}
} // verus!
