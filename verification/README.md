# Dual-gate custody

Threshold authorization with authenticated member contributions, verified with Verus.

Two gates must both pass over the same canonical message for a custody operation to
execute:

- **Authentication.** Each approving member signs a contribution envelope with their
  registered key.
- **Authorization.** The signed evaluation shares reconstruct the affine value
  `k1 * x + k2`, where `x` is hashed from the message and the coefficient identifier, and
  the coefficients are shared among the members so that no single party knows them.

A coefficient identifier is consumed by the operation that uses it.

## Layout

| Module | What it holds |
|---|---|
| `arith`, `prime`, `poly` | number theory, the primality of the field order, polynomials modulo a prime |
| `backend` | the calls into `ark-ff`, `ark-ec`, `sha2`, `ed25519-dalek`; the only code that is trusted |
| `bytes`, `field`, `random` | byte encodings, the scalar field and the hash into it, random elements |
| `linear`, `decoding`, `robust` | Gauss-Jordan elimination, Berlekamp-Welch decoding, and why it finds the right polynomial |
| `shamir` | secret sharing: split, reconstruct, robust reconstruction |
| `curve`, `pedersen` | the secp256k1 group and Pedersen commitments |
| `signature` | Ed25519 keys and signatures |
| `messages` | the byte strings that are hashed and signed, and what they determine |
| `setup` | joint random secret sharing |
| `protocol` | approval and authorization |
| `laws` | what holds of the library as a whole |

## What is proved

Every function states what it returns, and when. On top of that `laws` shows, among
others:

- any quorum of honest members authorizes, under every share-correctness profile, and all
  quorums reconstruct the same value;
- fewer shares than the threshold say nothing about the secret;
- robust reconstruction corrects up to `floor((m - t) / 2)` of `m` shares;
- a contribution cannot be moved to another operation;
- a consumed coefficient identifier is never accepted again;
- an accepted opening reveals the dealt shares, or a hash collision, or the logarithm of
  the second Pedersen generator.

The Pedersen functions need a second generator, which is found by hashing to the curve.
That some 32-bit counter leads to a point cannot be proved here, so the functions that
need it ask for it, and `try_jrss_setup_with_profile` and `try_authorize` look for it
first.
