use dual_gate_demo::field::{field_to_bytes, hash_to_field, Fr};
use dual_gate_demo::random::{OsScalars, PreparedScalars, ScalarSource};

fn hex(bytes: &[u8]) -> String {
    let mut out = String::new();
    for b in bytes {
        out.push_str(&format!("{:02x}", b));
    }
    out
}

fn minus_one() -> Fr {
    Fr::zero() - Fr::from(1u64)
}

#[test]
fn bytes_are_big_endian() {
    assert_eq!(
        hex(&field_to_bytes(&Fr::from(0x0102_0304_0506_0708u64))),
        "0000000000000000000000000000000000000000000000000102030405060708"
    );
    assert_eq!(
        hex(&field_to_bytes(&minus_one())),
        "fffffffffffffffffffffffffffffffebaaedce6af48a03bbfd25e8cd0364140"
    );
}

#[test]
fn bytes_round_trip() {
    for _ in 0..20 {
        let x = OsScalars::new().next_scalar();
        assert_eq!(Fr::from_be_bytes_mod_order(&field_to_bytes(&x)), x);
    }
}

#[test]
fn large_numbers_are_reduced() {
    let x = Fr::from_be_bytes_mod_order(&[0xff; 32]);
    assert_eq!(
        hex(&field_to_bytes(&x)),
        "000000000000000000000000000000014551231950b75fc4402da1732fc9bebe"
    );
    assert_eq!(Fr::from_be_bytes_mod_order(&[]), Fr::zero());
    assert_eq!(Fr::from_be_bytes_mod_order(&[1, 0]), Fr::from(256u64));
}

#[test]
fn arithmetic_wraps_at_the_modulus() {
    let five = Fr::from(5u64);
    let seven = Fr::from(7u64);
    assert_eq!(five + seven, Fr::from(12u64));
    assert_eq!(seven - five, Fr::from(2u64));
    assert_eq!(five - seven, minus_one() + minus_one());
    assert_eq!(five * seven, Fr::from(35u64));
    assert_eq!(minus_one() * minus_one(), Fr::from(1u64));
    assert_eq!(minus_one() + Fr::from(1u64), Fr::zero());
    assert_eq!(-five, Fr::zero() - five);
    assert_ne!(five, seven);
}

#[test]
fn inverses() {
    assert!(Fr::zero().inverse().is_none());
    for v in [1u64, 2, 3, 65537, u64::MAX] {
        let x = Fr::from(v);
        assert_eq!(x * x.inverse().unwrap(), Fr::from(1u64));
    }
}

#[test]
fn hash_to_field_values() {
    assert_eq!(
        hex(&field_to_bytes(&hash_to_field(b"custody-op", b""))),
        "77bdf369208a4996c996e0cc5008c49534b6a1b22c2476091bfe4ad8ee1b4752"
    );
    assert_eq!(
        hex(&field_to_bytes(&hash_to_field(b"", b"abc"))),
        "0a834ab04b1628b0b4ec20ca71e77f96a80431c1da87ebf07276c438b662206a"
    );
}

#[test]
fn domains_are_separated() {
    assert_ne!(hash_to_field(b"ab", b"c"), hash_to_field(b"a", b"bc"));
    assert_ne!(hash_to_field(b"custody-op", b"x"), hash_to_field(b"custody-affine-x", b"x"));
}

#[test]
fn random_scalars_differ() {
    let mut rng = OsScalars::new();
    let a = rng.next_scalar();
    let b = rng.next_scalar();
    assert_ne!(a, b);
}

#[test]
fn prepared_scalars_come_first() {
    let mut rng = PreparedScalars::new(vec![Fr::from(3u64), Fr::from(1u64)]);
    assert_eq!(rng.next_scalar(), Fr::from(3u64));
    assert_eq!(rng.next_scalar(), Fr::from(1u64));
    let a = rng.next_scalar();
    assert_ne!(a, rng.next_scalar());
}
