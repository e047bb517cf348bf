//! The numbers that lengths are measured in.
//!
//! The editing operations are written once, over any type that implements [`Scalar`]. Each
//! operation of the trait has a specification function beside it, and the contracts of the library
//! are stated over those. [`crate::fixed::Fixed`] is an exact implementation; a program can bring
//! another one, such as a wrapper around its machine floating-point type.
use vstd::prelude::*;

verus! {

/// A text, in a specification.
pub type Text = Seq<char>;

/// A whole number that is not negative, in a specification.
pub type Count = nat;

/// A number for lengths, angles and factors. Every operation comes with the function that it
/// computes, which an implementation states; it has no meaning outside of proofs.
pub trait Scalar: Copy {
    spec fn zero_spec() -> Self;

    /// Zero.
    fn zero() -> (r: Self)
        ensures
            r == Self::zero_spec(),
    ;

    spec fn highest_spec() -> Self;

    /// The largest finite number.
    fn highest() -> (r: Self)
        ensures
            r == Self::highest_spec(),
    ;

    spec fn lowest_spec() -> Self;

    /// The smallest finite number.
    fn lowest() -> (r: Self)
        ensures
            r == Self::lowest_spec(),
    ;

    spec fn plus_spec(self, other: Self) -> Self;

    /// `self + other`
    fn plus(self, other: Self) -> (r: Self)
        ensures
            r == self.plus_spec(other),
    ;

    spec fn minus_spec(self, other: Self) -> Self;

    /// `self - other`
    fn minus(self, other: Self) -> (r: Self)
        ensures
            r == self.minus_spec(other),
    ;

    spec fn times_spec(self, other: Self) -> Self;

    /// `self * other`
    fn times(self, other: Self) -> (r: Self)
        ensures
            r == self.times_spec(other),
    ;

    spec fn over_spec(self, other: Self) -> Self;

    /// `self / other`
    fn over(self, other: Self) -> (r: Self)
        ensures
            r == self.over_spec(other),
    ;

    spec fn negated_spec(self) -> Self;

    /// `-self`
    fn negated(self) -> (r: Self)
        ensures
            r == self.negated_spec(),
    ;

    spec fn remainder_spec(self, modulus: Self) -> Self;

    /// The remainder of the division of `self` by `modulus` that is not negative.
    fn remainder(self, modulus: Self) -> (r: Self)
        ensures
            r == self.remainder_spec(modulus),
    ;

    spec fn less_spec(self, other: Self) -> bool;

    /// `self < other`
    fn less(self, other: Self) -> (r: bool)
        ensures
            r == self.less_spec(other),
    ;

    spec fn same_spec(self, other: Self) -> bool;

    /// `self == other`
    fn same(self, other: Self) -> (r: bool)
        ensures
            r == self.same_spec(other),
    ;

    spec fn close_spec(self, other: Self) -> bool;

    /// Whether two angles are equal but for what the computation of them may have added.
    fn close(self, other: Self) -> (r: bool)
        ensures
            r == self.close_spec(other),
    ;

    spec fn lower_spec(self, other: Self) -> Self;

    /// The smaller of two numbers.
    fn lower(self, other: Self) -> (r: Self)
        ensures
            r == self.lower_spec(other),
    ;

    spec fn higher_spec(self, other: Self) -> Self;

    /// The larger of two numbers.
    fn higher(self, other: Self) -> (r: Self)
        ensures
            r == self.higher_spec(other),
    ;

    spec fn ratio_spec(num: i64, den: i64) -> Self;

    /// The fraction `num / den`.
    fn ratio(num: i64, den: i64) -> (r: Self)
        requires
            den > 0,
        ensures
            r == Self::ratio_spec(num, den),
    ;

    spec fn count_spec(n: u64) -> Self;

    /// A count as a number.
    fn count(n: u64) -> (r: Self)
        ensures
            r == Self::count_spec(n),
    ;

    spec fn from_nano_spec(nano: i64) -> Self;

    /// The number that `nano` millionths make.
    fn from_nano(nano: i64) -> (r: Self)
        ensures
            r == Self::from_nano_spec(nano),
    ;

    spec fn to_nano_spec(self) -> Option<i64>;

    /// The whole millionths in `self`, or `None` where there are too many of them for an `i64`.
    fn to_nano(self) -> (r: Option<i64>)
        ensures
            r == self.to_nano_spec(),
    ;

    spec fn parsed_spec(text: Text, places: Count) -> Option<Self>;

    /// The number that `text` writes, with its decimal point moved `places` to the left.
    fn parsed(text: &str, places: u8) -> (r: Option<Self>)
        ensures
            r == Self::parsed_spec(text@, places as nat),
    ;

    spec fn rounded_spec(self, places: Count) -> (bool, u64);

    /// `self` moved `places` decimal places to the left of the point and rounded to a whole number:
    /// whether that number is negative, and its magnitude.
    fn rounded(self, places: u8) -> (r: (bool, u64))
        requires
            places <= 9,
        ensures
            r == self.rounded_spec(places as nat),
    ;

    spec fn text_spec(self, places: Count) -> Text;

    /// `self` in decimal notation, with `places` digits after the point.
    fn text(self, places: u8) -> (r: String)
        requires
            1 <= places <= 9,
        ensures
            r@ == self.text_spec(places as nat),
    ;

    spec fn to_u8_spec(self) -> u8;

    /// The whole part of `self`, brought into the range of a `u8`.
    fn to_u8(self) -> (r: u8)
        ensures
            r == self.to_u8_spec(),
    ;

    spec fn norm_spec(x: Self, y: Self) -> Self;

    /// The length of the vector `(x, y)`.
    fn norm(x: Self, y: Self) -> (r: Self)
        ensures
            r == Self::norm_spec(x, y),
    ;

    spec fn angle_spec(y: Self, x: Self) -> Self;

    /// The angle from the X axis to the vector `(x, y)`, counter-clockwise, from minus to plus half
    /// a turn.
    fn angle(y: Self, x: Self) -> (r: Self)
        ensures
            r == Self::angle_spec(y, x),
    ;

    spec fn half_turn_spec() -> Self;

    /// Half a turn, in the measure of [`Scalar::angle`].
    fn half_turn() -> (r: Self)
        ensures
            r == Self::half_turn_spec(),
    ;

    spec fn quarter_turn_spec() -> Self;

    /// A quarter of a turn, in the measure of [`Scalar::angle`].
    fn quarter_turn() -> (r: Self)
        ensures
            r == Self::quarter_turn_spec(),
    ;
}

} // verus!
