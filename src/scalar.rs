//! The element types a store can hold: copyable numbers with an additive
//! identity and checked addition and subtraction.
use vstd::prelude::*;

verus! {

/// An element type for the stored matrices, modelled by an integer.
pub trait Scalar: Copy + Sized {
    /// The integer that this value stands for.
    spec fn as_int(self) -> int;

    /// Whether `v` can be represented by this type.
    spec fn in_range(v: int) -> bool;

    spec fn spec_zero() -> Self;

    spec fn spec_plus(self, rhs: Self) -> Self;

    spec fn spec_minus(self, rhs: Self) -> Self;

    /// Every value is represented, and a value is determined by its integer.
    proof fn lemma_as_int(a: Self, b: Self)
        ensures
            Self::in_range(a.as_int()),
            a.as_int() == b.as_int() ==> a == b,
    ;

    /// Zero, sums and differences stand for the integers they should.
    proof fn lemma_arith(a: Self, b: Self)
        ensures
            Self::spec_zero().as_int() == 0,
            Self::in_range(a.as_int() + b.as_int()) ==> a.spec_plus(b).as_int() == a.as_int()
                + b.as_int(),
            Self::in_range(a.as_int() - b.as_int()) ==> a.spec_minus(b).as_int() == a.as_int()
                - b.as_int(),
    ;

    fn zero() -> (r: Self)
        ensures
            r == Self::spec_zero(),
    ;

    fn plus(self, rhs: Self) -> (r: Self)
        requires
            Self::in_range(self.as_int() + rhs.as_int()),
        ensures
            r == self.spec_plus(rhs),
    ;

    fn minus(self, rhs: Self) -> (r: Self)
        requires
            Self::in_range(self.as_int() - rhs.as_int()),
        ensures
            r == self.spec_minus(rhs),
    ;
}

impl Scalar for i8 {
    open spec fn as_int(self) -> int {
        self as int
    }

    open spec fn in_range(v: int) -> bool {
        i8::MIN <= v <= i8::MAX
    }

    open spec fn spec_zero() -> Self {
        0
    }

    open spec fn spec_plus(self, rhs: Self) -> Self {
        (self + rhs) as i8
    }

    open spec fn spec_minus(self, rhs: Self) -> Self {
        (self - rhs) as i8
    }

    proof fn lemma_as_int(a: Self, b: Self) {
    }

    proof fn lemma_arith(a: Self, b: Self) {
    }

    fn zero() -> (r: Self) {
        0
    }

    fn plus(self, rhs: Self) -> (r: Self) {
        self + rhs
    }

    fn minus(self, rhs: Self) -> (r: Self) {
        self - rhs
    }
}

impl Scalar for i16 {
    open spec fn as_int(self) -> int {
        self as int
    }

    open spec fn in_range(v: int) -> bool {
        i16::MIN <= v <= i16::MAX
    }

    open spec fn spec_zero() -> Self {
        0
    }

    open spec fn spec_plus(self, rhs: Self) -> Self {
        (self + rhs) as i16
    }

    open spec fn spec_minus(self, rhs: Self) -> Self {
        (self - rhs) as i16
    }

    proof fn lemma_as_int(a: Self, b: Self) {
    }

    proof fn lemma_arith(a: Self, b: Self) {
    }

    fn zero() -> (r: Self) {
        0
    }

    fn plus(self, rhs: Self) -> (r: Self) {
        self + rhs
    }

    fn minus(self, rhs: Self) -> (r: Self) {
        self - rhs
    }
}

impl Scalar for i32 {
    open spec fn as_int(self) -> int {
        self as int
    }

    open spec fn in_range(v: int) -> bool {
        i32::MIN <= v <= i32::MAX
    }

    open spec fn spec_zero() -> Self {
        0
    }

    open spec fn spec_plus(self, rhs: Self) -> Self {
        (self + rhs) as i32
    }

    open spec fn spec_minus(self, rhs: Self) -> Self {
        (self - rhs) as i32
    }

    proof fn lemma_as_int(a: Self, b: Self) {
    }

    proof fn lemma_arith(a: Self, b: Self) {
    }

    fn zero() -> (r: Self) {
        0
    }

    fn plus(self, rhs: Self) -> (r: Self) {
        self + rhs
    }

    fn minus(self, rhs: Self) -> (r: Self) {
        self - rhs
    }
}

impl Scalar for i64 {
    open spec fn as_int(self) -> int {
        self as int
    }

    open spec fn in_range(v: int) -> bool {
        i64::MIN <= v <= i64::MAX
    }

    open spec fn spec_zero() -> Self {
        0
    }

    open spec fn spec_plus(self, rhs: Self) -> Self {
        (self + rhs) as i64
    }

    open spec fn spec_minus(self, rhs: Self) -> Self {
        (self - rhs) as i64
    }

    proof fn lemma_as_int(a: Self, b: Self) {
    }

    proof fn lemma_arith(a: Self, b: Self) {
    }

    fn zero() -> (r: Self) {
        0
    }

    fn plus(self, rhs: Self) -> (r: Self) {
        self + rhs
    }

    fn minus(self, rhs: Self) -> (r: Self) {
        self - rhs
    }
}

impl Scalar for isize {
    open spec fn as_int(self) -> int {
        self as int
    }

    open spec fn in_range(v: int) -> bool {
        isize::MIN <= v <= isize::MAX
    }

    open spec fn spec_zero() -> Self {
        0
    }

    open spec fn spec_plus(self, rhs: Self) -> Self {
        (self + rhs) as isize
    }

    open spec fn spec_minus(self, rhs: Self) -> Self {
        (self - rhs) as isize
    }

    proof fn lemma_as_int(a: Self, b: Self) {
    }

    proof fn lemma_arith(a: Self, b: Self) {
    }

    fn zero() -> (r: Self) {
        0
    }

    fn plus(self, rhs: Self) -> (r: Self) {
        self + rhs
    }

    fn minus(self, rhs: Self) -> (r: Self) {
        self - rhs
    }
}

impl Scalar for u8 {
    open spec fn as_int(self) -> int {
        self as int
    }

    open spec fn in_range(v: int) -> bool {
        u8::MIN <= v <= u8::MAX
    }

    open spec fn spec_zero() -> Self {
        0
    }

    open spec fn spec_plus(self, rhs: Self) -> Self {
        (self + rhs) as u8
    }

    open spec fn spec_minus(self, rhs: Self) -> Self {
        (self - rhs) as u8
    }

    proof fn lemma_as_int(a: Self, b: Self) {
    }

    proof fn lemma_arith(a: Self, b: Self) {
    }

    fn zero() -> (r: Self) {
        0
    }

    fn plus(self, rhs: Self) -> (r: Self) {
        self + rhs
    }

    fn minus(self, rhs: Self) -> (r: Self) {
        self - rhs
    }
}

impl Scalar for u16 {
    open spec fn as_int(self) -> int {
        self as int
    }

    open spec fn in_range(v: int) -> bool {
        u16::MIN <= v <= u16::MAX
    }

    open spec fn spec_zero() -> Self {
        0
    }

    open spec fn spec_plus(self, rhs: Self) -> Self {
        (self + rhs) as u16
    }

    open spec fn spec_minus(self, rhs: Self) -> Self {
        (self - rhs) as u16
    }

    proof fn lemma_as_int(a: Self, b: Self) {
    }

    proof fn lemma_arith(a: Self, b: Self) {
    }

    fn zero() -> (r: Self) {
        0
    }

    fn plus(self, rhs: Self) -> (r: Self) {
        self + rhs
    }

    fn minus(self, rhs: Self) -> (r: Self) {
        self - rhs
    }
}

impl Scalar for u32 {
    open spec fn as_int(self) -> int {
        self as int
    }

    open spec fn in_range(v: int) -> bool {
        u32::MIN <= v <= u32::MAX
    }

    open spec fn spec_zero() -> Self {
        0
    }

    open spec fn spec_plus(self, rhs: Self) -> Self {
        (self + rhs) as u32
    }

    open spec fn spec_minus(self, rhs: Self) -> Self {
        (self - rhs) as u32
    }

    proof fn lemma_as_int(a: Self, b: Self) {
    }

    proof fn lemma_arith(a: Self, b: Self) {
    }

    fn zero() -> (r: Self) {
        0
    }

    fn plus(self, rhs: Self) -> (r: Self) {
        self + rhs
    }

    fn minus(self, rhs: Self) -> (r: Self) {
        self - rhs
    }
}

impl Scalar for u64 {
    open spec fn as_int(self) -> int {
        self as int
    }

    open spec fn in_range(v: int) -> bool {
        u64::MIN <= v <= u64::MAX
    }

    open spec fn spec_zero() -> Self {
        0
    }

    open spec fn spec_plus(self, rhs: Self) -> Self {
        (self + rhs) as u64
    }

    open spec fn spec_minus(self, rhs: Self) -> Self {
        (self - rhs) as u64
    }

    proof fn lemma_as_int(a: Self, b: Self) {
    }

    proof fn lemma_arith(a: Self, b: Self) {
    }

    fn zero() -> (r: Self) {
        0
    }

    fn plus(self, rhs: Self) -> (r: Self) {
        self + rhs
    }

    fn minus(self, rhs: Self) -> (r: Self) {
        self - rhs
    }
}

impl Scalar for usize {
    open spec fn as_int(self) -> int {
        self as int
    }

    open spec fn in_range(v: int) -> bool {
        usize::MIN <= v <= usize::MAX
    }

    open spec fn spec_zero() -> Self {
        0
    }

    open spec fn spec_plus(self, rhs: Self) -> Self {
        (self + rhs) as usize
    }

    open spec fn spec_minus(self, rhs: Self) -> Self {
        (self - rhs) as usize
    }

    proof fn lemma_as_int(a: Self, b: Self) {
    }

    proof fn lemma_arith(a: Self, b: Self) {
    }

    fn zero() -> (r: Self) {
        0
    }

    fn plus(self, rhs: Self) -> (r: Self) {
        self + rhs
    }

    fn minus(self, rhs: Self) -> (r: Self) {
        self - rhs
    }
}

} // verus!
