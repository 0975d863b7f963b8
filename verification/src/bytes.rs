//! Big-endian byte encodings of numbers.
use vstd::arithmetic::div_mod::*;
use vstd::arithmetic::mul::*;
use vstd::arithmetic::power::*;
use vstd::prelude::*;


verus! {

/// The last `n` base-256 digits of `v`, most significant first.
pub open spec fn be_bytes(v: int, n: nat) -> Seq<u8>
    decreases n,
{
    if n == 0 {
        seq![]
    } else {
        be_bytes(v / 256, (n - 1) as nat).push((v % 256) as u8)
    }
}

/// The number that the bytes spell in base 256, most significant first.
pub open spec fn be_value(s: Seq<u8>) -> int
    decreases s.len(),
{
    if s.len() == 0 {
        0
    } else {
        be_value(s.drop_last()) * 256 + s.last()
    }
}

pub proof fn be_bytes_len(v: int, n: nat)
    ensures
        be_bytes(v, n).len() == n,
    decreases n,
{
    if n > 0 {
        be_bytes_len(v / 256, (n - 1) as nat);
    }
}

/// Decoding gives back what was encoded, as far as the width reaches.
pub proof fn be_round_trip(v: int, n: nat)
    requires
        0 <= v < pow(256, n),
    ensures
        be_value(be_bytes(v, n)) == v,
    decreases n,
{
    if n == 0 {
        lemma_pow0(256);
    } else {
        let k = (n - 1) as nat;
        lemma_pow_adds(256, 1, k);
        lemma_pow1(256);
        be_round_trip(v / 256, k);
        let s = be_bytes(v, n);
        assert(s.drop_last() =~= be_bytes(v / 256, k));
    }
}

/// Equal encodings are encodings of equal numbers.
pub proof fn be_bytes_injective(a: int, b: int, n: nat)
    requires
        0 <= a < pow(256, n),
        0 <= b < pow(256, n),
        be_bytes(a, n) == be_bytes(b, n),
    ensures
        a == b,
{
    be_round_trip(a, n);
    be_round_trip(b, n);
}

/// A number in two parts is encoded part after part.
pub proof fn be_bytes_concat(hi: int, lo: int, n: nat, k: nat)
    requires
        0 <= lo < pow(256, k),
    ensures
        be_bytes(hi * pow(256, k) + lo, n + k) =~= be_bytes(hi, n) + be_bytes(lo, k),
    decreases k,
{
    let v = hi * pow(256, k) + lo;
    if k == 0 {
        lemma_pow0(256);
    } else {
        let j = (k - 1) as nat;
        let w = pow(256, j);
        lemma_pow_adds(256, 1, j);
        lemma_pow1(256);
        assert(v == 256 * (hi * w) + lo) by (nonlinear_arith)
            requires
                v == hi * (256 * w) + lo,
        ;
        be_bytes_concat(hi, lo / 256, n, j);
        assert(v / 256 == hi * w + lo / 256);
        assert(v % 256 == lo % 256);
    }
}

/// The widths in use, as powers of 256.
pub proof fn widths()
    ensures
        pow(256, 4) == 0x1_0000_0000,
        pow(256, 8) == 0x1_0000_0000_0000_0000int,
        pow(256, 32)
            == 0x1_0000_0000_0000_0000_0000_0000_0000_0000_0000_0000_0000_0000_0000_0000_0000_0000int,
{
    lemma_pow1(256);
    lemma_pow_adds(256, 1, 1);
    assert(pow(256, 2) == 0x10000int) by (nonlinear_arith)
        requires
            pow(256, 1) == 0x100int,
            pow(256, 2) == pow(256, 1) * pow(256, 1),
    ;
    lemma_pow_adds(256, 2, 2);
    assert(pow(256, 4) == 0x100000000int) by (nonlinear_arith)
        requires
            pow(256, 2) == 0x10000int,
            pow(256, 4) == pow(256, 2) * pow(256, 2),
    ;
    lemma_pow_adds(256, 4, 4);
    assert(pow(256, 8) == 0x10000000000000000int) by (nonlinear_arith)
        requires
            pow(256, 4) == 0x100000000int,
            pow(256, 8) == pow(256, 4) * pow(256, 4),
    ;
    lemma_pow_adds(256, 8, 8);
    assert(pow(256, 16) == 0x100000000000000000000000000000000int) by (nonlinear_arith)
        requires
            pow(256, 8) == 0x10000000000000000int,
            pow(256, 16) == pow(256, 8) * pow(256, 8),
    ;
    lemma_pow_adds(256, 16, 16);
    assert(pow(256, 32) == 0x10000000000000000000000000000000000000000000000000000000000000000int) by (nonlinear_arith)
        requires
            pow(256, 16) == 0x100000000000000000000000000000000int,
            pow(256, 32) == pow(256, 16) * pow(256, 16),
    ;
}

/// The last `n` bytes of `x`, most significant first.
pub(crate) fn be_bytes_of(x: u64, n: usize) -> (r: Vec<u8>)
    ensures
        r@ == be_bytes(x as int, n as nat),
{
    let mut out: Vec<u8> = vec![0u8; n];
    let mut rest: u64 = x;
    let mut i: usize = n;
    assert(be_bytes(x as int, n as nat) =~= be_bytes(rest as int, i as nat) + out@.subrange(
        i as int,
        n as int,
    ));
    while i > 0
        invariant
            i <= n,
            out@.len() == n,
            be_bytes(x as int, n as nat) == be_bytes(rest as int, i as nat) + out@.subrange(
                i as int,
                n as int,
            ),
        decreases i,
    {
        let ghost before = out@;
        let ghost head = be_bytes(rest as int, i as nat);
        i = i - 1;
        let digit: u8 = (rest % 256) as u8;
        out.set(i, digit);
        rest = rest / 256;
        assert(head == be_bytes(rest as int, i as nat).push(digit));
        assert(out@.subrange(i as int, n as int) =~= seq![digit] + before.subrange(
            i + 1,
            n as int,
        ));
        assert(be_bytes(x as int, n as nat) =~= be_bytes(rest as int, i as nat) + out@.subrange(
            i as int,
            n as int,
        ));
    }
    assert(out@.subrange(0, n as int) =~= out@);
    out
}

/// Appends the bytes of `tail`.
pub(crate) fn append_bytes(out: &mut Vec<u8>, tail: &[u8])
    ensures
        final(out)@ == old(out)@ + tail@,
{
    out.extend_from_slice(tail);
    assert(out@ =~= old(out)@ + tail@);
}

/// Two strings in two parts each are equal only part by part, where the parts
/// on one side are equally long.
pub proof fn split(a: Seq<u8>, b: Seq<u8>, c: Seq<u8>, d: Seq<u8>)
    requires
        a + b == c + d,
        a.len() == c.len() || b.len() == d.len(),
    ensures
        a == c,
        b == d,
{
    assert((a + b).len() == (c + d).len());
    assert(a =~= (a + b).subrange(0, a.len() as int));
    assert(c =~= (c + d).subrange(0, c.len() as int));
    assert(b =~= (a + b).subrange(a.len() as int, (a + b).len() as int));
    assert(d =~= (c + d).subrange(c.len() as int, (c + d).len() as int));
}

/// The encodings of 64-bit numbers in eight bytes and of 32-bit numbers in four
/// determine them.
pub proof fn words_determined()
    ensures
        forall|a: u64, b: u64| #[trigger]
            be_bytes(a as int, 8) == #[trigger] be_bytes(b as int, 8) ==> a == b,
        forall|a: u32, b: u32| #[trigger]
            be_bytes(a as int, 4) == #[trigger] be_bytes(b as int, 4) ==> a == b,
{
    widths();
    assert forall|a: u64, b: u64| #[trigger] be_bytes(a as int, 8) == #[trigger] be_bytes(
        b as int,
        8,
    ) implies a == b by {
        be_bytes_injective(a as int, b as int, 8);
    }
    assert forall|a: u32, b: u32| #[trigger] be_bytes(a as int, 4) == #[trigger] be_bytes(
        b as int,
        4,
    ) implies a == b by {
        be_bytes_injective(a as int, b as int, 4);
    }
}

/// The bytes of a text determine it.
pub proof fn text_determined(a: Seq<char>, b: Seq<char>)
    requires
        text(a) == text(b),
    ensures
        a == b,
{
    vstd::utf8::encode_utf8_decode_utf8(a);
    vstd::utf8::encode_utf8_decode_utf8(b);
}

/// The bytes of a text.
pub open spec fn text(s: Seq<char>) -> Seq<u8> {
    vstd::utf8::encode_utf8(s)
}

/// Appends the bytes of a text.
pub(crate) fn append_text(out: &mut Vec<u8>, s: &str)
    ensures
        final(out)@ == old(out)@ + text(s@),
{
    append_bytes(out, s.as_bytes());
}

/// Whether two byte strings are equal.
pub(crate) fn equal(a: &[u8], b: &[u8]) -> (r: bool)
    ensures
        r == (a@ == b@),
{
    if a.len() != b.len() {
        return false;
    }
    let mut i: usize = 0;
    while i < a.len()
        invariant
            i <= a@.len(),
            a@.len() == b@.len(),
            forall|j: int| 0 <= j < i ==> #[trigger] a@[j] == b@[j],
        decreases a@.len() - i,
    {
        if a[i] != b[i] {
            return false;
        }
        i = i + 1;
    }
    assert(a@ =~= b@);
    true
}

} // verus!
