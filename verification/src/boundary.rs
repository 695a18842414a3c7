//! The box that confines the particles. Its lower corner is the origin; its
//! upper corner is `(x, y, z)`.

use crate::scalar::Scalar;
use crate::scalar::FIVE_BITS;
use crate::scalar::TWO_BITS;
use crate::scalar::ZERO_BITS;
use vstd::prelude::*;

verus! {

/// The least length that a side of the box may have: `2.0`.
pub const MIN_LEN_BITS: u64 = TWO_BITS;

/// The length of each side of the default box: `5.0`.
pub const DEFAULT_LEN_BITS: u64 = FIVE_BITS;

/// Three scalars: a point or a direction in space.
#[derive(Clone, Copy, PartialEq, Eq, Structural, Debug)]
pub struct Vector3 {
    pub x: Scalar,
    pub y: Scalar,
    pub z: Scalar,
}

impl Vector3 {
    pub fn new(x: Scalar, y: Scalar, z: Scalar) -> (v: Self)
        ensures
            v == (Vector3 { x, y, z }),
    {
        Vector3 { x, y, z }
    }

    /// The vector whose three parts are `0.0`.
    pub open spec fn zero() -> Vector3 {
        Vector3 {
            x: Scalar { bits: ZERO_BITS },
            y: Scalar { bits: ZERO_BITS },
            z: Scalar { bits: ZERO_BITS },
        }
    }
}

/// The lengths of the sides of the box.
#[derive(Clone, Copy, PartialEq, Eq, Structural, Debug)]
pub struct Boundary {
    pub x: Scalar,
    pub y: Scalar,
    pub z: Scalar,
}

/// Where a coordinate lies with respect to the two walls of its axis.
#[derive(Clone, Copy, PartialEq, Eq, Structural, Debug)]
pub enum Side {
    /// Before the wall at the origin: the wall pushes towards higher values.
    Below,
    /// Between the walls, or on one: no wall pushes.
    Within,
    /// Past the far wall: the wall pushes towards lower values.
    Above,
}

/// The side of `v` on an axis whose far wall stands at `len`.
pub open spec fn side_of(v: Scalar, len: Scalar) -> Side {
    if v.spec_lt(Scalar { bits: ZERO_BITS }) {
        Side::Below
    } else if len.spec_lt(v) {
        Side::Above
    } else {
        Side::Within
    }
}

/// `len`, or the least length where `len` is shorter or no number.
pub open spec fn kept_long(len: Scalar) -> Scalar {
    if (Scalar { bits: MIN_LEN_BITS }).spec_le(len) {
        len
    } else {
        Scalar { bits: MIN_LEN_BITS }
    }
}

/// Whether `v` lies between `0.0` and `len`, both included.
pub open spec fn in_span(v: Scalar, len: Scalar) -> bool {
    (Scalar { bits: ZERO_BITS }).spec_le(v) && v.spec_le(len)
}

impl Boundary {
    /// Every side is at least the least length.
    pub open spec fn valid(self) -> bool {
        &&& (Scalar { bits: MIN_LEN_BITS }).spec_le(self.x)
        &&& (Scalar { bits: MIN_LEN_BITS }).spec_le(self.y)
        &&& (Scalar { bits: MIN_LEN_BITS }).spec_le(self.z)
    }

    /// `pos` lies in the box, faces included.
    pub open spec fn contains(self, pos: Vector3) -> bool {
        in_span(pos.x, self.x) && in_span(pos.y, self.y) && in_span(pos.z, self.z)
    }

    /// The default box, with sides of `5.0`.
    pub fn new() -> (b: Self)
        ensures
            b.x.bits == DEFAULT_LEN_BITS,
            b.y.bits == DEFAULT_LEN_BITS,
            b.z.bits == DEFAULT_LEN_BITS,
            b.valid(),
    {
        Self {
            x: Scalar::from_bits(DEFAULT_LEN_BITS),
            y: Scalar::from_bits(DEFAULT_LEN_BITS),
            z: Scalar::from_bits(DEFAULT_LEN_BITS),
        }
    }

    /// The corner with the higher coordinates.
    pub fn hi_corner(&self) -> (c: Vector3)
        ensures
            c == (Vector3 { x: self.x, y: self.y, z: self.z }),
    {
        Vector3 { x: self.x, y: self.y, z: self.z }
    }

    /// The corner with the lower coordinates: the origin.
    pub fn lo_corner(&self) -> (c: Vector3)
        ensures
            c == Vector3::zero(),
    {
        let zero = Scalar::from_bits(ZERO_BITS);
        Vector3 { x: zero, y: zero, z: zero }
    }

    /// Whether the box is large enough to be simulated in.
    pub fn is_valid(&self) -> (b: bool)
        ensures
            b == self.valid(),
    {
        let least = Scalar::from_bits(MIN_LEN_BITS);
        self.x.ge(least) && self.y.ge(least) && self.z.ge(least)
    }

    /// On which side of the walls `pos` lies, axis by axis. Only a wall that
    /// `pos` has passed pushes it back.
    pub fn sides(&self, pos: Vector3) -> (s: (Side, Side, Side))
        ensures
            s.0 == side_of(pos.x, self.x),
            s.1 == side_of(pos.y, self.y),
            s.2 == side_of(pos.z, self.z),
    {
        (side(pos.x, self.x), side(pos.y, self.y), side(pos.z, self.z))
    }

    /// Sets the sides to the given lengths, but none below the least length.
    pub fn expand_to(&mut self, x: Scalar, y: Scalar, z: Scalar)
        ensures
            final(self).x == kept_long(x),
            final(self).y == kept_long(y),
            final(self).z == kept_long(z),
            final(self).valid(),
    {
        self.x = at_least_min(x);
        self.y = at_least_min(y);
        self.z = at_least_min(z);
    }

    /// Whether `pos` lies in the box, faces included.
    pub fn contains_position(&self, pos: Vector3) -> (b: bool)
        ensures
            b == self.contains(pos),
    {
        let zero = Scalar::from_bits(ZERO_BITS);
        zero.le(pos.x) && pos.x.le(self.x) && zero.le(pos.y) && pos.y.le(self.y) && zero.le(pos.z)
            && pos.z.le(self.z)
    }
}

/// The side of `v` on an axis whose far wall stands at `len`.
fn side(v: Scalar, len: Scalar) -> (s: Side)
    ensures
        s == side_of(v, len),
{
    if v.lt(Scalar::from_bits(ZERO_BITS)) {
        Side::Below
    } else if len.lt(v) {
        Side::Above
    } else {
        Side::Within
    }
}

/// `len`, or the least length where `len` is shorter or no number.
fn at_least_min(len: Scalar) -> (r: Scalar)
    ensures
        r == kept_long(len),
{
    let least = Scalar::from_bits(MIN_LEN_BITS);
    if least.le(len) {
        len
    } else {
        least
    }
}

/// No wall pushes a particle that lies in the box, and a particle that no
/// wall pushes lies in the box unless one of the numbers involved is none.
pub proof fn lemma_no_push_inside(b: Boundary, pos: Vector3)
    ensures
        b.contains(pos) ==> side_of(pos.x, b.x) == Side::Within && side_of(pos.y, b.y)
            == Side::Within && side_of(pos.z, b.z) == Side::Within,
        !pos.x.nan() && !pos.y.nan() && !pos.z.nan() && !b.x.nan() && !b.y.nan() && !b.z.nan()
            && side_of(pos.x, b.x) == Side::Within && side_of(pos.y, b.y) == Side::Within
            && side_of(pos.z, b.z) == Side::Within ==> b.contains(pos),
{
}

} // verus!
