use dual_gate_demo::protocol::generate_member_key;
use dual_gate_demo::signature::{Signature, SigningKey, VerifyingKey};

fn bytes(hex: &str) -> Vec<u8> {
    (0..hex.len() / 2)
        .map(|i| u8::from_str_radix(&hex[2 * i..2 * i + 2], 16).unwrap())
        .collect()
}

fn array32(hex: &str) -> [u8; 32] {
    bytes(hex).try_into().unwrap()
}

fn array64(hex: &str) -> [u8; 64] {
    bytes(hex).try_into().unwrap()
}

// The second test vector of RFC 8032 for Ed25519.
const PUBLIC: &str = "3d4017c3e843895a92b70aa74d1b7ebc9c982ccf2ec4968cc0cd55f12af4660c";

fn signer() -> SigningKey {
    SigningKey {
        secret: [
            0x4c, 0xcd, 0x08, 0x9b, 0x28, 0xff, 0x96, 0xda, 0x9d, 0xb6, 0xc3, 0x46, 0xec, 0x11,
            0x4e, 0x0f, 0x5b, 0x8a, 0x31, 0x9f, 0x35, 0xab, 0xa6, 0x24, 0xda, 0x8c, 0xf6, 0xed,
            0x4f, 0xb8, 0xa6, 0xfb,
        ],
    }
}

#[test]
fn published_values() {
    let key = signer();
    assert_eq!(key.verifying_key().bytes, array32(PUBLIC));
    let signature = key.sign(&[0x72]);
    assert_eq!(
        signature.bytes,
        array64(
            "92a009a9f0d4cab8720e820b5f642540a2b27b5416503f8fb3762223ebdb69da\
             085ac1e43e15996e458f3613d0f11d8c387b2eaeb4302aeeb00d291612bb0c00"
        )
    );
    assert!(key.verifying_key().verify(&[0x72], &signature));
}

#[test]
fn other_messages_and_keys_do_not_verify() {
    let key = signer();
    let signature = key.sign(b"message");
    assert!(!key.verifying_key().verify(b"massage", &signature));
    let other = generate_member_key();
    assert!(!other.verifying_key.verify(b"message", &signature));
    let mut broken = signature;
    broken.bytes[0] ^= 1;
    assert!(!key.verifying_key().verify(b"message", &broken));
    assert!(!key.verifying_key().verify(b"message", &Signature { bytes: [0xff; 64] }));
}

#[test]
fn bytes_that_are_no_key_verify_nothing() {
    let signature = signer().sign(b"message");
    let mut bytes = [0u8; 32];
    bytes[0] = 2;
    assert!(!VerifyingKey { bytes }.verify(b"message", &signature));
}

#[test]
fn generated_keys_belong_together() {
    let a = generate_member_key();
    let b = generate_member_key();
    assert_eq!(a.verifying_key.bytes, a.signing_key.verifying_key().bytes);
    assert_ne!(a.signing_key.secret, b.signing_key.secret);
    let signature = a.signing_key.sign(b"message");
    assert!(a.verifying_key.verify(b"message", &signature));
}
