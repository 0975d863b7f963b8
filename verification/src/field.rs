//! The scalar field of secp256k1 and the hash into it.
use core::ops::{Add, Mul, Neg, Sub};
use vstd::prelude::*;

use crate::arith;
use crate::backend;
use crate::bytes;
use crate::prime;

verus! {

/// An element of the scalar field, kept as the four limbs of its residue,
/// least significant first.
#[derive(Clone, Copy, Debug)]
pub struct Fr {
    limbs: [u64; 4],
}

impl View for Fr {
    type V = int;

    /// The residue.
    closed spec fn view(&self) -> int {
        backend::limbs_value(self.limbs@) % prime::modulus()
    }
}

/// The residues of a sequence of field elements.
pub open spec fn residues(s: Seq<Fr>) -> Seq<int> {
    Seq::new(s.len(), |i: int| s[i]@)
}

/// A field element is a number from zero up to the modulus.
pub broadcast proof fn residue_range(x: Fr)
    ensures
        0 <= #[trigger] x@ < prime::modulus(),
{
    arith::mod_idem(backend::limbs_value(x.limbs@), prime::modulus());
}

/// Residues are reduced coefficients.
pub proof fn residues_reduced(s: Seq<Fr>)
    ensures
        crate::poly::reduced(residues(s), prime::modulus()),
{
    broadcast use residue_range;

}

impl Fr {
    #[verifier::type_invariant]
    spec fn is_canonical(self) -> bool {
        backend::canonical(self.limbs@)
    }

    /// The limbs hold the residue itself.
    proof fn canonical_view(self)
        requires
            self.is_canonical(),
        ensures
            self@ == backend::limbs_value(self.limbs@),
    {
        arith::mod_small(backend::limbs_value(self.limbs@), prime::modulus());
    }

    /// The additive identity.
    pub fn zero() -> (r: Fr)
        ensures
            r@ == 0,
    {
        let r = Fr { limbs: [0, 0, 0, 0] };
        proof {
            r.canonical_view();
        }
        r
    }

    /// The multiplicative inverse; zero has none.
    pub fn inverse(self) -> (r: Option<Fr>)
        ensures
            r is None <==> self@ == 0,
            r matches Some(i) ==> (self@ * i@) % prime::modulus() == 1,
    {
        proof {
            use_type_invariant(&self);
            self.canonical_view();
        }
        match backend::scalar_inverse(self.limbs) {
            Some(limbs) => {
                let r = Fr { limbs };
                proof {
                    r.canonical_view();
                }
                Some(r)
            },
            None => None,
        }
    }

    /// The residue of a big-endian number.
    pub fn from_be_bytes_mod_order(data: &[u8]) -> (r: Fr)
        ensures
            r@ == bytes::be_value(data@) % prime::modulus(),
    {
        proof {
            arith::mod_idem(bytes::be_value(data@), prime::modulus());
        }
        let r = Fr { limbs: backend::scalar_from_be_bytes(data) };
        proof {
            r.canonical_view();
        }
        r
    }

    /// The limbs of the residue, least significant first.
    pub(crate) fn to_limbs(self) -> (r: [u64; 4])
        ensures
            backend::limbs_value(r@) == self@,
    {
        proof {
            use_type_invariant(&self);
            self.canonical_view();
        }
        self.limbs
    }

    /// A random element. Every element can come out; which one is left to chance.
    pub(crate) fn random() -> Fr {
        Fr { limbs: backend::scalar_random() }
    }
}

impl Add for Fr {
    type Output = Fr;

    fn add(self, rhs: Fr) -> (r: Fr)
        ensures
            r@ == (self@ + rhs@) % prime::modulus(),
    {
        proof {
            use_type_invariant(&self);
            use_type_invariant(&rhs);
            self.canonical_view();
            rhs.canonical_view();
            arith::mod_idem(self@ + rhs@, prime::modulus());
        }
        Fr { limbs: backend::scalar_sum(self.limbs, rhs.limbs) }
    }
}

impl vstd::std_specs::ops::AddSpecImpl for Fr {
    open spec fn obeys_add_spec() -> bool {
        false
    }

    open spec fn add_req(self, rhs: Fr) -> bool {
        true
    }

    open spec fn add_spec(self, rhs: Fr) -> Fr {
        arbitrary()
    }
}

impl Sub for Fr {
    type Output = Fr;

    fn sub(self, rhs: Fr) -> (r: Fr)
        ensures
            r@ == (self@ - rhs@) % prime::modulus(),
    {
        proof {
            use_type_invariant(&self);
            use_type_invariant(&rhs);
            self.canonical_view();
            rhs.canonical_view();
            arith::mod_idem(self@ - rhs@, prime::modulus());
        }
        Fr { limbs: backend::scalar_difference(self.limbs, rhs.limbs) }
    }
}

impl vstd::std_specs::ops::SubSpecImpl for Fr {
    open spec fn obeys_sub_spec() -> bool {
        false
    }

    open spec fn sub_req(self, rhs: Fr) -> bool {
        true
    }

    open spec fn sub_spec(self, rhs: Fr) -> Fr {
        arbitrary()
    }
}

impl Mul for Fr {
    type Output = Fr;

    fn mul(self, rhs: Fr) -> (r: Fr)
        ensures
            r@ == (self@ * rhs@) % prime::modulus(),
    {
        proof {
            use_type_invariant(&self);
            use_type_invariant(&rhs);
            self.canonical_view();
            rhs.canonical_view();
            arith::mod_idem(self@ * rhs@, prime::modulus());
        }
        Fr { limbs: backend::scalar_product(self.limbs, rhs.limbs) }
    }
}

impl vstd::std_specs::ops::MulSpecImpl for Fr {
    open spec fn obeys_mul_spec() -> bool {
        false
    }

    open spec fn mul_req(self, rhs: Fr) -> bool {
        true
    }

    open spec fn mul_spec(self, rhs: Fr) -> Fr {
        arbitrary()
    }
}

impl Neg for Fr {
    type Output = Fr;

    fn neg(self) -> (r: Fr)
        ensures
            r@ == (-self@) % prime::modulus(),
    {
        proof {
            use_type_invariant(&self);
            self.canonical_view();
            arith::mod_idem(-self@, prime::modulus());
        }
        Fr { limbs: backend::scalar_negation(self.limbs) }
    }
}

impl vstd::std_specs::ops::NegSpecImpl for Fr {
    open spec fn obeys_neg_spec() -> bool {
        false
    }

    open spec fn neg_req(self) -> bool {
        true
    }

    open spec fn neg_spec(self) -> Fr {
        arbitrary()
    }
}

impl From<u64> for Fr {
    fn from(x: u64) -> (r: Fr)
        ensures
            r@ == x,
    {
        let r = Fr { limbs: backend::scalar_from_u64(x) };
        proof {
            r.canonical_view();
        }
        r
    }
}

impl vstd::std_specs::convert::FromSpecImpl<u64> for Fr {
    open spec fn obeys_from_spec() -> bool {
        false
    }

    open spec fn from_spec(x: u64) -> Fr {
        arbitrary()
    }
}

impl PartialEq for Fr {
    fn eq(&self, other: &Fr) -> (r: bool) {
        proof {
            use_type_invariant(self);
            use_type_invariant(other);
            self.canonical_view();
            other.canonical_view();
        }
        self.limbs[0] == other.limbs[0] && self.limbs[1] == other.limbs[1] && self.limbs[2]
            == other.limbs[2] && self.limbs[3] == other.limbs[3]
    }
}

impl vstd::std_specs::cmp::PartialEqSpecImpl for Fr {
    open spec fn obeys_eq_spec() -> bool {
        true
    }

    open spec fn eq_spec(&self, other: &Fr) -> bool {
        self@ == other@
    }
}

impl Eq for Fr {

}

/// A copy of some field elements.
pub(crate) fn copied(s: &[Fr]) -> (r: Vec<Fr>)
    ensures
        r@ == s@,
{
    let mut out: Vec<Fr> = Vec::with_capacity(s.len());
    let mut i: usize = 0;
    while i < s.len()
        invariant
            i <= s@.len(),
            out@ == s@.take(i as int),
        decreases s@.len() - i,
    {
        out.push(s[i]);
        assert(out@ =~= s@.take(i + 1));
        i = i + 1;
    }
    assert(out@ =~= s@);
    out
}

/// Whether the first `n` of some field elements are zero.
pub(crate) fn all_zero(v: &Vec<Fr>, n: usize) -> (r: bool)
    requires
        n <= v@.len(),
    ensures
        r == forall|i: int| 0 <= i < n ==> (#[trigger] v@[i])@ == 0,
{
    let mut i: usize = 0;
    while i < n
        invariant
            i <= n,
            n <= v@.len(),
            forall|j: int| 0 <= j < i ==> (#[trigger] v@[j])@ == 0,
        decreases n - i,
    {
        if v[i] != Fr::zero() {
            return false;
        }
        i = i + 1;
    }
    true
}

/// The bytes that are hashed for the given domain and data: the length of the
/// domain in four bytes, the domain, the data.
pub open spec fn domain_separated(domain: Seq<u8>, data: Seq<u8>) -> Seq<u8> {
    bytes::be_bytes(domain.len() as int, 4) + domain + data
}

/// The field element that `domain` and `data` hash to.
pub open spec fn hash_residue(domain: Seq<u8>, data: Seq<u8>) -> int {
    bytes::be_value(backend::sha256(domain_separated(domain, data))@) % prime::modulus()
}

/// Domain-separated hash to a field element.
pub fn hash_to_field(domain: &[u8], data: &[u8]) -> (r: Fr)
    ensures
        r@ == hash_residue(domain@, data@),
{
    let mut input: Vec<u8> = bytes::be_bytes_of(domain.len() as u64, 4);
    bytes::append_bytes(&mut input, domain);
    bytes::append_bytes(&mut input, data);
    let hash = backend::sha256_digest(input.as_slice());
    Fr::from_be_bytes_mod_order(hash.as_slice())
}

/// The 32 bytes of a residue, big-endian.
pub open spec fn residue_bytes(v: int) -> Seq<u8> {
    bytes::be_bytes(v, 32)
}

/// Serializes a field element to 32 bytes, big-endian.
pub fn field_to_bytes(x: &Fr) -> (r: [u8; 32])
    ensures
        r@ == residue_bytes(x@),
{
    let mut all: Vec<u8> = bytes::be_bytes_of(x.limbs[3], 8);
    bytes::append_bytes(&mut all, bytes::be_bytes_of(x.limbs[2], 8).as_slice());
    bytes::append_bytes(&mut all, bytes::be_bytes_of(x.limbs[1], 8).as_slice());
    bytes::append_bytes(&mut all, bytes::be_bytes_of(x.limbs[0], 8).as_slice());
    proof {
        use_type_invariant(x);
        x.canonical_view();
        bytes::widths();
        let l = x.limbs@;
        let w = 0x1_0000_0000_0000_0000int;
        let high = l[3] * w + l[2];
        let upper = high * w + l[1];
        bytes::be_bytes_concat(l[3] as int, l[2] as int, 8, 8);
        bytes::be_bytes_concat(high, l[1] as int, 16, 8);
        bytes::be_bytes_concat(upper, l[0] as int, 24, 8);
        bytes::be_bytes_len(x@, 32);
    }
    let mut out: [u8; 32] = [0;32];
    let mut i: usize = 0;
    while i < 32
        invariant
            i <= 32,
            all@.len() == 32,
            out@.len() == 32,
            forall|j: int| 0 <= j < i ==> out@[j] == all@[j],
        decreases 32 - i,
    {
        out[i] = all[i];
        i = i + 1;
    }
    assert(out@ =~= all@);
    out
}

/// The encoding of a residue determines it: decoding gives the residue back.
pub proof fn residue_bytes_round_trip(v: int)
    requires
        0 <= v < prime::modulus(),
    ensures
        residue_bytes(v).len() == 32,
        bytes::be_value(residue_bytes(v)) == v,
{
    bytes::widths();
    bytes::be_bytes_len(v, 32);
    bytes::be_round_trip(v, 32);
}

/// The encoding of a residue determines it.
pub proof fn residue_bytes_determined(v: int, w: int)
    requires
        0 <= v < prime::modulus(),
        0 <= w < prime::modulus(),
        residue_bytes(v) == residue_bytes(w),
    ensures
        v == w,
{
    residue_bytes_round_trip(v);
    residue_bytes_round_trip(w);
}

/// Domains are separated: what is hashed determines the domain and the data,
/// where the domains are shorter than 2^32 bytes.
pub proof fn domains_separated(d: Seq<u8>, data: Seq<u8>, e: Seq<u8>, other: Seq<u8>)
    requires
        d.len() < 0x1_0000_0000,
        e.len() < 0x1_0000_0000,
        domain_separated(d, data) == domain_separated(e, other),
    ensures
        d == e,
        data == other,
{
    let (a, b) = (bytes::be_bytes(d.len() as int, 4), bytes::be_bytes(e.len() as int, 4));
    bytes::be_bytes_len(d.len() as int, 4);
    bytes::be_bytes_len(e.len() as int, 4);
    assert(a + d + data =~= a + (d + data));
    assert(b + e + other =~= b + (e + other));
    bytes::split(a, d + data, b, e + other);
    bytes::widths();
    bytes::be_bytes_injective(d.len() as int, e.len() as int, 4);
    bytes::split(d, data, e, other);
}

} // verus!
