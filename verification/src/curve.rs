//! The group of the secp256k1 curve, written additively.
//!
//! The group is cyclic of prime order, so a point is modelled by its discrete
//! logarithm: the multiple of the generator that it is.
use core::ops::Add;
use vstd::prelude::*;

use crate::arith;
use crate::backend;
use crate::bytes;
use crate::field::Fr;
use crate::prime;

verus! {

/// A point of the curve, kept as the limbs of its coordinates; nothing at
/// infinity.
#[derive(Clone, Copy, Debug)]
pub struct Projective {
    point: Option<([u64; 4], [u64; 4])>,
}

impl View for Projective {
    type V = int;

    /// The discrete logarithm to the base of the generator.
    open spec fn view(&self) -> int {
        backend::point_log(self.coordinates())
    }
}

/// A logarithm is a residue of the order of the group.
pub proof fn log_range(p: Projective)
    ensures
        0 <= p@ < prime::modulus(),
{
    point_log_range(p.coordinates());
}

/// A logarithm is a residue, and zero at infinity only.
pub proof fn point_log_range(p: Option<(int, int)>)
    ensures
        0 <= backend::point_log(p) < prime::modulus(),
        backend::point_log(p) == 0 <==> p is None,
{
    arith::mod_idem(backend::curve_log(p), prime::modulus() - 1);
}

/// The logarithms of some points.
pub open spec fn logs(points: Seq<Projective>) -> Seq<int> {
    Seq::new(points.len(), |i: int| points[i]@)
}

impl Projective {
    /// The coordinates; nothing at infinity.
    pub closed spec fn coordinates(&self) -> Option<(int, int)> {
        backend::coordinates(self.point)
    }

    #[verifier::type_invariant]
    spec fn is_on_curve(self) -> bool {
        backend::on_curve(backend::coordinates(self.point))
    }

    /// The generator of the group.
    pub fn generator() -> (r: Projective)
        ensures
            r@ == 1,
    {
        Projective { point: backend::curve_generator() }
    }

    /// The neutral element of the group.
    pub fn zero() -> (r: Projective)
        ensures
            r@ == 0,
    {
        Projective { point: backend::curve_zero() }
    }

    /// The point times a scalar.
    pub fn times(self, k: Fr) -> (r: Projective)
        ensures
            r@ == (self@ * k@) % prime::modulus(),
    {
        proof {
            use_type_invariant(&self);
        }
        Projective { point: backend::curve_multiple(self.point, k.to_limbs()) }
    }

    /// The point whose first coordinate is a big-endian number modulo the order
    /// of the base field, with the smaller of the two second coordinates; nothing
    /// where the curve has no such point.
    pub fn lift_be_bytes(data: &[u8]) -> (r: Option<Projective>)
        ensures
            match r {
                Some(p) => p.coordinates() == lift(data@) && p@ != 0,
                None => lift(data@) is None,
            },
            is_lift(bytes::be_value(data@) % backend::base_modulus(), lift(data@)),
    {
        let ghost x0 = bytes::be_value(data@) % backend::base_modulus();
        proof {
            arith::mod_idem(bytes::be_value(data@), backend::base_modulus());
            lift_is_smaller_root(x0);
        }
        let x = backend::base_from_be_bytes(data);
        match backend::curve_point_at(x) {
            Some(point) => {
                let p = Projective { point: Some(point) };
                proof {
                    let (u, v) = p.coordinates()->0;
                    assert(backend::is_smaller_root(u, v));
                    smaller_root_unique(x0, v, smaller_root(x0));
                    log_range(p);
                    point_log_range(p.coordinates());
                }
                Some(p)
            },
            None => None,
        }
    }
}

/// The smaller of the second coordinates of the points with first coordinate `x`,
/// where there is a point.
pub open spec fn smaller_root(x: int) -> int {
    choose|y: int| backend::is_smaller_root(x, y)
}

/// The point with first coordinate `x` and the smaller second one, where there is
/// one.
pub open spec fn lift_x(x: int) -> Option<(int, int)> {
    if exists|y: int| backend::is_smaller_root(x, y) {
        Some((x, smaller_root(x)))
    } else {
        None
    }
}

/// The point that some bytes lift to.
pub open spec fn lift(data: Seq<u8>) -> Option<(int, int)> {
    lift_x(bytes::be_value(data) % backend::base_modulus())
}

/// The point is on the curve, has first coordinate `x`, and its second one is in
/// the lower half; without a point no second coordinate fits.
pub open spec fn is_lift(x: int, p: Option<(int, int)>) -> bool {
    match p {
        Some((u, v)) => {
            &&& backend::on_curve(Some((u, v)))
            &&& u == x
            &&& 2 * v < backend::base_modulus()
        },
        None => forall|y: int| !#[trigger] backend::on_curve(Some((x, y))),
    }
}

/// There is one smaller root at most.
proof fn smaller_root_unique(x: int, y: int, z: int)
    requires
        backend::is_smaller_root(x, y),
        backend::is_smaller_root(x, z),
    ensures
        y == z,
{
    assert(backend::on_curve(Some((x, y))) && backend::on_curve(Some((x, z))));
}

/// Where there is a root, there is a smaller one.
proof fn smaller_root_exists(x: int, y: int)
    requires
        backend::on_curve(Some((x, y))),
    ensures
        exists|z: int| backend::is_smaller_root(x, z),
    decreases y,
{
    if !backend::is_smaller_root(x, y) {
        let z = choose|z: int| #[trigger] backend::on_curve(Some((x, z))) && z < y;
        smaller_root_exists(x, z);
    }
}

/// Lifting finds the point in the lower half, wherever the curve has one with that
/// first coordinate.
pub proof fn lift_is_smaller_root(x: int)
    ensures
        is_lift(x, lift_x(x)),
{
    let q = backend::base_modulus();
    match lift_x(x) {
        Some((u, v)) => {
            assert(backend::is_smaller_root(u, v));
            if v > 0 {
                let w = q - v;
                assert(w * w == v * v + q * (q - 2 * v)) by (nonlinear_arith)
                    requires
                        w == q - v,
                ;
                arith::cong_intro(w * w, v * v, q - 2 * v, q);
                assert(backend::on_curve(Some((u, w))));
            }
        },
        None => {
            assert forall|y: int| !#[trigger] backend::on_curve(Some((x, y))) by {
                if backend::on_curve(Some((x, y))) {
                    smaller_root_exists(x, y);
                }
            }
        },
    }
}

impl Add for Projective {
    type Output = Projective;

    fn add(self, rhs: Projective) -> (r: Projective)
        ensures
            r@ == (self@ + rhs@) % prime::modulus(),
    {
        proof {
            use_type_invariant(&self);
            use_type_invariant(&rhs);
        }
        Projective { point: backend::curve_sum(self.point, rhs.point) }
    }
}

impl vstd::std_specs::ops::AddSpecImpl for Projective {
    open spec fn obeys_add_spec() -> bool {
        false
    }

    open spec fn add_req(self, rhs: Projective) -> bool {
        true
    }

    open spec fn add_spec(self, rhs: Projective) -> Projective {
        arbitrary()
    }
}

impl PartialEq for Projective {
    fn eq(&self, other: &Projective) -> (r: bool) {
        proof {
            use_type_invariant(self);
            use_type_invariant(other);
        }
        backend::curve_equal(self.point, other.point)
    }
}

impl vstd::std_specs::cmp::PartialEqSpecImpl for Projective {
    open spec fn obeys_eq_spec() -> bool {
        true
    }

    open spec fn eq_spec(&self, other: &Projective) -> bool {
        self@ == other@
    }
}

impl Eq for Projective {

}

} // verus!
