//! The fractal families and the rules that depend on the family alone.
use vstd::prelude::*;
use vstd::utf8::{encode_utf8, encode_utf8_decode_utf8};

verus! {

/// One of the three escape-time families.
#[derive(Clone, Copy, Debug, PartialEq, Eq, Structural)]
pub enum Variant {
    Julia,
    Mandelbrot,
    BurningShip,
}

/// How a pixel position is turned into a point of the complex plane.
#[derive(Clone, Copy, Debug, PartialEq, Eq, Structural)]
pub enum Mapping {
    /// The position is scaled and shifted so that the samples lie
    /// symmetrically around the centre of the picture.
    CenteredSymmetric,
    /// The position is offset by the corner of a fixed box, divided by the
    /// grid's extent less one, and stretched by the side of the box.
    BoundingBox,
}

/// The family that a name selects, if any: `julia`, `mandel` and `ship` are
/// the three names; every other text selects nothing.
pub open spec fn variant_named(name: Seq<char>) -> Option<Variant> {
    if name == "julia"@ {
        Some(Variant::Julia)
    } else if name == "mandel"@ {
        Some(Variant::Mandelbrot)
    } else if name == "ship"@ {
        Some(Variant::BurningShip)
    } else {
        None
    }
}

/// Whether two texts hold the same characters.
fn same_text(a: &str, b: &str) -> (same: bool)
    ensures
        same == (a@ == b@),
{
    let x = a.as_bytes();
    let y = b.as_bytes();
    proof {
        // Equal encodings decode to equal texts.
        encode_utf8_decode_utf8(a@);
        encode_utf8_decode_utf8(b@);
    }
    if x.len() != y.len() {
        return false;
    }
    let mut i: usize = 0;
    while i < x.len()
        invariant
            i <= x.len(),
            x.len() == y.len(),
            x@ == encode_utf8(a@),
            y@ == encode_utf8(b@),
            forall|j: int| 0 <= j < i ==> x@[j] == y@[j],
        decreases x.len() - i,
    {
        if x[i] != y[i] {
            return false;
        }
        i += 1;
    }
    assert(x@ =~= y@);
    true
}

impl Variant {
    /// The mapping policy of this family.
    pub open spec fn mapping_of(self) -> Mapping {
        match self {
            Variant::Julia => Mapping::CenteredSymmetric,
            Variant::Mandelbrot | Variant::BurningShip => Mapping::BoundingBox,
        }
    }

    /// Selects a family by its name.
    pub fn from_name(name: &str) -> (variant: Option<Variant>)
        ensures
            variant == variant_named(name@),
    {
        if same_text(name, "julia") {
            Some(Variant::Julia)
        } else if same_text(name, "mandel") {
            Some(Variant::Mandelbrot)
        } else if same_text(name, "ship") {
            Some(Variant::BurningShip)
        } else {
            None
        }
    }

    /// The mapping policy of this family: centred-symmetric sampling for
    /// Julia, the bounding box for the other two.
    pub fn mapping(self) -> (mapping: Mapping)
        ensures
            mapping == self.mapping_of(),
    {
        match self {
            Variant::Julia => Mapping::CenteredSymmetric,
            Variant::Mandelbrot => Mapping::BoundingBox,
            Variant::BurningShip => Mapping::BoundingBox,
        }
    }

    /// Gives the mapped point of a pixel and the caller's constant their
    /// roles in the evaluation, as the pair of the orbit's first point and
    /// of what each step adds. A Julia orbit starts at the mapped point and
    /// has the constant added; a Mandelbrot or Burning Ship orbit starts at
    /// the constant and has the mapped point added.
    pub fn roles<Z>(self, point: Z, constant: Z) -> (roles: (Z, Z))
        ensures
            self == Variant::Julia ==> roles == (point, constant),
            self != Variant::Julia ==> roles == (constant, point),
    {
        match self {
            Variant::Julia => (point, constant),
            _ => (constant, point),
        }
    }

    /// Whether a step folds both components into the non-negative quadrant
    /// before squaring (Burning Ship).
    pub fn folds(self) -> (folds: bool)
        ensures
            folds == (self == Variant::BurningShip),
    {
        match self {
            Variant::BurningShip => true,
            _ => false,
        }
    }
}

} // verus!
