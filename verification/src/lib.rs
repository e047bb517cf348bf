//! # lib_gerber_edit
//!
//! Manipulation library for RS-274X (Extended Gerber) and Excellon drill files, built on top of
//! [`gerber_parser`].
//!
//! All lengths exposed through the public API are in **millimetres**. They are numbers of a type
//! that implements [`Scalar`](scalar::Scalar).
//!
//! ## Key types
//!
//! | Type | Description |
//! |------|-------------|
//! | [`Board`](board::Board) | Collection of mixed Gerber/Excellon layers |
//! | [`GerberLayerData`](gerber::GerberLayerData) | Single RS-274X layer |
//! | [`ExcellonLayerData`](excellon_format::ExcellonLayerData) | Single drill layer |
//! | [`AsciiText`](gerber_ascii::AsciiText) | Renders vector text into a Gerber layer |
//! | [`LayerType`](layer::LayerType) | Identifies each layer (copper, silkscreen, drill …) |
//! | [`Fixed`](fixed::Fixed) | Numbers with nine decimal places |
//!
//! ## Traits
//!
//! | Trait | Description |
//! |-------|-------------|
//! | [`LayerCorners`] | Bounding box (`get_corners`) and size (`get_size`) |
//! | [`LayerTransform`] | Translate by a [`Pos`] offset |
//! | [`LayerScale`] | Scale by independent X/Y factors |
//! | [`LayerMerge`] | Merge two layers or boards of the same type |
//! | [`LayerStepAndRepeat`] | Tile a pattern across a grid |
//!
//! What holds of the library as a whole is stated and proved in [`laws`].

pub mod text;
pub mod scalar;
pub mod fixed;
pub mod table;
pub mod gerber_types;
pub mod unit_able;
pub mod error;
pub mod layer_type;
pub mod excellon_format;
pub mod gerber;
pub mod layer;
pub mod board;
pub mod gerber_ascii;
pub mod laws;

use crate::scalar::Scalar;
use vstd::prelude::*;

verus! {

/// Position in mm
#[derive(Copy, Debug, PartialEq)]
pub struct Pos<N> {
    pub x: N,
    pub y: N,
}

/// Size in mm
#[derive(Copy, Debug, PartialEq)]
pub struct Size<N> {
    pub width: N,
    pub height: N,
}

impl<N: Copy> Clone for Pos<N> {
    fn clone(&self) -> (r: Self)
        ensures
            r == *self,
    {
        *self
    }
}

impl<N: Copy> Clone for Size<N> {
    fn clone(&self) -> (r: Self)
        ensures
            r == *self,
    {
        *self
    }
}

impl<N: Scalar> Pos<N> {
    pub open spec fn origin() -> Pos<N> {
        Pos { x: N::zero_spec(), y: N::zero_spec() }
    }

    /// The text `x: …, y: …`, with three decimal places.
    pub open spec fn text_spec(self) -> Seq<char> {
        "x: "@ + self.x.text_spec(3) + ", y: "@ + self.y.text_spec(3)
    }

    /// The position as text.
    pub fn text(&self) -> (r: String)
        ensures
            r@ == self.text_spec(),
    {
        let mut out = String::new();
        out.append("x: ");
        out.append(self.x.text(3).as_str());
        out.append(", y: ");
        out.append(self.y.text(3).as_str());
        assert(out@ =~= self.text_spec());
        out
    }
}

impl<N: Scalar> Default for Pos<N> {
    fn default() -> (r: Pos<N>)
        ensures
            r == Pos::<N>::origin(),
    {
        Pos { x: N::zero(), y: N::zero() }
    }
}

impl<N: Scalar> Size<N> {
    /// The text `width: …, height: …`, with three decimal places.
    pub open spec fn text_spec(self) -> Seq<char> {
        "width: "@ + self.width.text_spec(3) + ", height: "@ + self.height.text_spec(3)
    }

    /// The size as text.
    pub fn text(&self) -> (r: String)
        ensures
            r@ == self.text_spec(),
    {
        let mut out = String::new();
        out.append("width: ");
        out.append(self.width.text(3).as_str());
        out.append(", height: ");
        out.append(self.height.text(3).as_str());
        assert(out@ =~= self.text_spec());
        out
    }
}

impl<N: Scalar> Default for Size<N> {
    fn default() -> (r: Size<N>)
        ensures
            r == (Size { width: N::zero_spec(), height: N::zero_spec() }),
    {
        Size { width: N::zero(), height: N::zero() }
    }
}

/// The box that holds nothing: any point put into it becomes both of its corners.
pub open spec fn empty_box<N: Scalar>() -> (Pos<N>, Pos<N>) {
    (
        Pos { x: N::highest_spec(), y: N::highest_spec() },
        Pos { x: N::lowest_spec(), y: N::lowest_spec() },
    )
}

/// How far the corners of a box are apart.
pub open spec fn box_size<N: Scalar>(corners: (Pos<N>, Pos<N>)) -> Size<N> {
    Size {
        width: corners.1.x.minus_spec(corners.0.x),
        height: corners.1.y.minus_spec(corners.0.y),
    }
}

/// A position turned around the origin, by quarter turns. That a positive turn is counter-clockwise
/// is the choice of this library.
pub open spec fn turned<N: Scalar>(p: Pos<N>, steps: int) -> Pos<N> {
    if steps % 4 == 0 {
        p
    } else if steps % 4 == 1 {
        Pos { x: p.y.negated_spec(), y: p.x }
    } else if steps % 4 == 2 {
        Pos { x: p.x.negated_spec(), y: p.y.negated_spec() }
    } else {
        Pos { x: p.y, y: p.x.negated_spec() }
    }
}

/// Turns the position `(x, y)` around the origin, by quarter turns. That a positive turn is
/// counter-clockwise is the choice of this library.
pub fn rotate_90<N: Scalar>(x: N, y: N, steps: i32) -> (r: (N, N))
    ensures
        (Pos { x: r.0, y: r.1 }) == turned(Pos { x, y }, steps as int),
{
    let steps: i64 = (steps as i64 + 4_294_967_296) % 4;
    if steps == 0 {
        (x, y)
    } else if steps == 1 {
        (y.negated(), x)
    } else if steps == 2 {
        (x.negated(), y.negated())
    } else {
        (y, x.negated())
    }
}

/// Bounding-box queries.
///
/// All coordinates are in millimetres.
pub trait LayerCorners<N: Scalar> {
    /// The bounding box, as its lower left and its upper right corner.
    spec fn corners(&self) -> (Pos<N>, Pos<N>);

    /// Every coordinate that counts has a value in millimetres.
    spec fn bounded(&self) -> bool;

    /// Returns the axis-aligned bounding box as `(min, max)`.
    ///
    /// Tool widths (aperture sizes) are taken into account, so the returned
    /// rectangle is the true ink boundary of the layer.
    fn get_corners(&self) -> (r: (Pos<N>, Pos<N>))
        requires
            self.bounded(),
        ensures
            r == self.corners(),
    ;

    /// Returns the bounding-box dimensions derived from [`get_corners`](Self::get_corners).
    fn get_size(&self) -> (r: Size<N>)
        requires
            self.bounded(),
        ensures
            r == box_size(self.corners()),
    {
        let (min, max) = self.get_corners();
        Size { width: max.x.minus(min.x), height: max.y.minus(min.y) }
    }
}

/// Rigid translation.
pub trait LayerTransform<N: Scalar>: View {
    /// `v` with all coordinates shifted.
    spec fn transformed(v: Self::V, by: Pos<N>) -> Self::V;

    /// Shifts all coordinates by `transform` (mm).
    fn transform(&mut self, transform: &Pos<N>)
        ensures
            final(self)@ == Self::transformed(old(self)@, *transform),
    ;
}

/// Uniform or anisotropic scaling.
pub trait LayerScale<N: Scalar>: View {
    /// `v` with all coordinates multiplied.
    spec fn scaled(v: Self::V, x: N, y: N) -> Self::V;

    /// Every product is small enough for a coordinate.
    spec fn scalable(v: Self::V, x: N, y: N) -> bool;

    /// Multiplies every X coordinate by `x` and every Y coordinate by `y`.
    fn scale(&mut self, x: N, y: N)
        requires
            Self::scalable(old(self)@, x, y),
        ensures
            final(self)@ == Self::scaled(old(self)@, x, y),
    ;
}

/// Layer concatenation.
pub trait LayerMerge: View + Sized {
    /// `v` with `other` behind it.
    spec fn merged(v: Self::V, other: Self::V) -> Self::V;

    /// The two are of one kind, and every tool that `other` selects is one that it has.
    spec fn mergeable(v: Self::V, other: Self::V) -> bool;

    /// Appends `other` into `self`.
    ///
    /// Aperture and tool IDs are remapped to avoid collisions.
    fn merge(&mut self, other: &Self)
        requires
            Self::mergeable(old(self)@, other@),
        ensures
            final(self)@ == Self::merged(old(self)@, other@),
    ;

    /// Converts `other` into `Self` and merges it.
    ///
    /// Convenience wrapper around [`merge`](Self::merge) that accepts any type
    /// that can be converted into `Self` via [`Into`].
    fn merge_from<T: Into<Self>>(&mut self, other: T)
        requires
            call_requires(T::into, (other,)),
            forall|o: Self|
                call_ensures(T::into, (other,), o) ==> Self::mergeable(old(self)@, #[trigger] o@),
        ensures
            exists|o: Self|
                call_ensures(T::into, (other,), o) && final(self)@ == Self::merged(
                    old(self)@,
                    #[trigger] o@,
                ),
    {
        let o: Self = other.into();
        self.merge(&o);
    }
}

/// Grid replication.
pub trait LayerStepAndRepeat<N: Scalar>: View {
    /// `v`, `x_repetitions` times side by side and that `y_repetitions` times one above the other.
    spec fn repeated(
        v: Self::V,
        x_repetitions: u32,
        y_repetitions: u32,
        offset: Pos<N>,
    ) -> Self::V;

    /// Every copy can be merged with those before it.
    spec fn repeatable(
        v: Self::V,
        x_repetitions: u32,
        y_repetitions: u32,
        offset: Pos<N>,
    ) -> bool;

    /// Tiles the layer `x_repetitions × y_repetitions` times.
    ///
    /// The first copy is the original; subsequent copies are offset by
    /// multiples of `offset` (mm).
    fn step_and_repeat(&mut self, x_repetitions: u32, y_repetitions: u32, offset: &Pos<N>)
        requires
            Self::repeatable(old(self)@, x_repetitions, y_repetitions, *offset),
        ensures
            final(self)@ == Self::repeated(old(self)@, x_repetitions, y_repetitions, *offset),
    ;
}

} // verus!
