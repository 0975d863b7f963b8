//! What a Pedersen commitment opens to.
//!
//! Whatever opens a commitment to a polynomial is the polynomial's value, or gives
//! away the logarithm of the second generator; and nothing that opens can be changed
//! in one place. All of it is stated over the points' logarithms and the values.
use vstd::arithmetic::div_mod::*;
use vstd::arithmetic::mul::*;
use vstd::prelude::*;

use crate::arith;
use crate::field;
use crate::pedersen;
use crate::poly;
use crate::prime;
use crate::shamir::Share;

verus! {

/// A value with a blinding factor and another value with another factor give away
/// `h`: the factors differ, and `h` is the only residue that takes their difference
/// to that of the values.
pub open spec fn gives_away(h: int, v: int, b: int, w: int, c: int) -> bool {
    &&& v % prime::modulus() != w % prime::modulus()
    &&& (c - b) % prime::modulus() != 0
    &&& forall|l: int|
        (#[trigger] (l * (c - b)) - (v - w)) % prime::modulus() == 0 <==> l % prime::modulus() == h
            % prime::modulus()
}

/// A commitment is the value on the generator plus the blinding factor on the second
/// generator: it is one for the value one alone, the second generator for the factor
/// one alone, and additive in both.
pub proof fn commitment_is_linear(h: int, v: int, b: int, w: int, c: int)
    ensures
        0 <= pedersen::commit_with(h, v, b) < prime::modulus(),
        pedersen::commit_with(h, v, 0) == v % prime::modulus(),
        pedersen::commit_with(h, 0, 1) == h % prime::modulus(),
        pedersen::commit_with(h, v + w, b + c) == (pedersen::commit_with(h, v, b)
            + pedersen::commit_with(h, w, c)) % prime::modulus(),
        (pedersen::commit_with(h, v, b) - v - h * b) % prime::modulus() == 0,
{
    let m = prime::modulus();
    let (s, t) = (v + h * b, w + h * c);
    arith::mod_idem(s, m);
    arith::mod_idem(t, m);
    assert(h * 0 == 0 && h * 1 == h);
    lemma_mul_is_distributive_add(h, b, c);
    arith::cong_add(s % m, s, t % m, t, m);
    lemma_mod_equivalence(s % m, s, m);
}

/// Two openings of one commitment are the same residues, or they give away the
/// logarithm of the second generator.
pub proof fn two_openings(h: int, v: int, b: int, w: int, c: int)
    requires
        h % prime::modulus() != 0,
        (v + h * b - w - h * c) % prime::modulus() == 0,
    ensures
        ({
            &&& v % prime::modulus() == w % prime::modulus()
            &&& b % prime::modulus() == c % prime::modulus()
        }) || gives_away(h, v, b, w, c),
{
    let m = prime::modulus();
    let d = c - b;
    prime::modulus_is_prime();
    lemma_mul_is_distributive_sub(h, c, b);
    arith::mod_small(0, m);
    poly::negated_difference(h * d, v - w, m);
    assert((h * d - (v - w)) % m == 0);
    if d % m == 0 {
        arith::cong_mul(h, h, d, 0, m);
        assert(h * 0 == 0);
        arith::cong_sub(h * d, 0, h * d - (v - w), 0, m);
        lemma_mod_equivalence(v, w, m);
        lemma_mod_equivalence(c, b, m);
    } else if v % m == w % m {
        lemma_mod_equivalence(v, w, m);
        arith::cong_add(h * d - (v - w), 0, v - w, 0, m);
        arith::euclid(h, d, m);
    } else {
        assert forall|l: int| (#[trigger] (l * d) - (v - w)) % m == 0 <==> l % m == h % m by {
            lemma_mul_is_distributive_sub_other_way(d, l, h);
            if (l * d - (v - w)) % m == 0 {
                arith::cong_sub(l * d - (v - w), 0, h * d - (v - w), 0, m);
                arith::euclid(l - h, d, m);
                lemma_mod_equivalence(l, h, m);
            }
            if l % m == h % m {
                lemma_mod_equivalence(l, h, m);
                arith::cong_mul(l - h, 0, d, d, m);
                assert(0 * d == 0);
                arith::cong_add((l - h) * d, 0, h * d - (v - w), 0, m);
            }
        }
    }
}

/// A share and a blinding share verify exactly where they have one index and the
/// value on the generator plus the factor on the second generator is the committed
/// polynomial's value there.
pub proof fn shares_verify_exactly_when(h: int, logs: Seq<int>, value: Share, blind: Share)
    ensures
        pedersen::share_opens_with(h, logs, value, blind) <==> (value.index == blind.index && (
        value.value@ + h * blind.value@ - poly::eval(logs, value.index as int)) % prime::modulus()
            == 0),
{
    lemma_mod_equivalence(
        value.value@ + h * blind.value@,
        poly::eval(logs, value.index as int),
        prime::modulus(),
    );
}

/// An evaluation share and its blinding factor verify exactly where the share on the
/// generator plus the factor on the second generator is `x` times the value of the
/// first committed polynomial at the member's index plus that of the second.
pub proof fn evaluation_verifies_exactly_when(
    h: int,
    k1: Seq<int>,
    k2: Seq<int>,
    index: int,
    x: int,
    eval_share: int,
    eval_blind: int,
)
    ensures
        pedersen::evaluation_opens_with(h, k1, k2, index, x, eval_share, eval_blind) <==> (
        eval_share + h * eval_blind - poly::eval(k1, index) * x - poly::eval(k2, index))
            % prime::modulus() == 0,
{
    lemma_mod_equivalence(
        eval_share + h * eval_blind,
        poly::eval(k1, index) * x + poly::eval(k2, index),
        prime::modulus(),
    );
}

/// Each commitment of a polynomial is that of one coefficient with its blinding
/// factor.
pub proof fn committed_coefficient(
    logs: Seq<int>,
    values: Seq<int>,
    blinds: Seq<int>,
    i: int,
)
    requires
        pedersen::commits_to(logs, values, blinds),
        0 <= i < logs.len(),
    ensures
        logs.len() == values.len(),
        logs.len() == blinds.len(),
        (logs[i] - values[i] - pedersen::h_log() * blinds[i]) % prime::modulus() == 0,
{
    commitment_is_linear(pedersen::h_log(), values[i], blinds[i], 0, 0);
    assert(logs[i] == pedersen::commit_log(values[i], blinds[i]));
}

/// Verified shares are the dealt ones: where a commitment commits to two
/// polynomials, a share and a blinding share that verify are the values of the two
/// polynomials at their one index, or they give away the logarithm of the second
/// generator.
pub proof fn verified_shares_are_dealt(
    logs: Seq<int>,
    values: Seq<int>,
    blinds: Seq<int>,
    value: Share,
    blind: Share,
)
    requires
        pedersen::h_exists(),
        pedersen::commits_to(logs, values, blinds),
        pedersen::share_opens(logs, value, blind),
    ensures
        value.index == blind.index,
        ({
            &&& value.value@ == poly::eval(values, value.index as int) % prime::modulus()
            &&& blind.value@ == poly::eval(blinds, value.index as int) % prime::modulus()
        }) || gives_away(
            pedersen::h_log(),
            value.value@,
            blind.value@,
            poly::eval(values, value.index as int),
            poly::eval(blinds, value.index as int),
        ),
{
    let m = prime::modulus();
    let h = pedersen::h_log();
    let z = value.index as int;
    let (w, c) = (poly::eval(values, z), poly::eval(blinds, z));
    pedersen::committed_evaluation(logs, values, blinds, z);
    pedersen::second_generator();
    arith::mod_small(h, m);
    lemma_mod_equivalence(value.value@ + h * blind.value@, w + h * c, m);
    two_openings(h, value.value@, blind.value@, w, c);
    field::residue_range(value.value);
    field::residue_range(blind.value);
    arith::mod_small(value.value@, m);
    arith::mod_small(blind.value@, m);
}

/// The values of the two committed polynomials verify at every index.
pub proof fn dealt_shares_verify(
    logs: Seq<int>,
    values: Seq<int>,
    blinds: Seq<int>,
    value: Share,
    blind: Share,
)
    requires
        pedersen::commits_to(logs, values, blinds),
        value.index == blind.index,
        value.value@ == poly::eval(values, value.index as int) % prime::modulus(),
        blind.value@ == poly::eval(blinds, value.index as int) % prime::modulus(),
    ensures
        pedersen::share_opens(logs, value, blind),
{
    pedersen::dealt_shares_open(logs, values, blinds, value, blind);
}

/// A verified pair cannot be changed in one place: with another value, with another
/// blinding value, or with two different indices, it does not verify.
pub proof fn changed_shares_refused(
    h: int,
    logs: Seq<int>,
    value: Share,
    blind: Share,
    value2: Share,
    blind2: Share,
)
    requires
        h % prime::modulus() != 0,
        pedersen::share_opens_with(h, logs, value, blind),
        value2.index != blind2.index || (value2.index == value.index && (value2.value@
            != value.value@) != (blind2.value@ != blind.value@)),
    ensures
        !pedersen::share_opens_with(h, logs, value2, blind2),
{
    let m = prime::modulus();
    if pedersen::share_opens_with(h, logs, value2, blind2) {
        let (v, b) = (value.value@, blind.value@);
        let (w, c) = (value2.value@, blind2.value@);
        lemma_mod_equivalence(v + h * b, w + h * c, m);
        field::residue_range(value.value);
        field::residue_range(blind.value);
        field::residue_range(value2.value);
        field::residue_range(blind2.value);
        changed_opening(h, v, b, w, c);
    }
}

/// Two different pairs of residues that agree in one place open different
/// commitments.
proof fn changed_opening(h: int, v: int, b: int, w: int, c: int)
    requires
        h % prime::modulus() != 0,
        (v + h * b - w - h * c) % prime::modulus() == 0,
        0 <= v < prime::modulus(),
        0 <= w < prime::modulus(),
        0 <= b < prime::modulus(),
        0 <= c < prime::modulus(),
    ensures
        (v != w) == (b != c),
{
    let m = prime::modulus();
    arith::mod_small(v, m);
    arith::mod_small(w, m);
    arith::mod_small(b, m);
    arith::mod_small(c, m);
    arith::mod_small(0, m);
    two_openings(h, v, b, w, c);
}

/// A verified evaluation opening cannot be changed in one place, whichever second
/// generator is used.
pub proof fn changed_evaluation_opening_refused(
    h: int,
    k1: Seq<int>,
    k2: Seq<int>,
    index: int,
    x: int,
    eval_share: int,
    eval_blind: int,
    eval_share2: int,
    eval_blind2: int,
)
    requires
        h % prime::modulus() != 0,
        0 <= eval_share < prime::modulus(),
        0 <= eval_blind < prime::modulus(),
        0 <= eval_share2 < prime::modulus(),
        0 <= eval_blind2 < prime::modulus(),
        pedersen::evaluation_opens_with(h, k1, k2, index, x, eval_share, eval_blind),
        (eval_share != eval_share2) != (eval_blind != eval_blind2),
    ensures
        !pedersen::evaluation_opens_with(h, k1, k2, index, x, eval_share2, eval_blind2),
{
    if pedersen::evaluation_opens_with(h, k1, k2, index, x, eval_share2, eval_blind2) {
        lemma_mod_equivalence(
            eval_share + h * eval_blind,
            eval_share2 + h * eval_blind2,
            prime::modulus(),
        );
        changed_opening(h, eval_share, eval_blind, eval_share2, eval_blind2);
    }
}

/// Verified evaluation shares are genuine: where two commitments commit to
/// polynomials, an evaluation share and a blinding factor that verify for `x` are
/// `x` times the first polynomial's value plus the second's, and the same of the
/// blinding polynomials, or they give away the logarithm of the second generator.
pub proof fn verified_evaluations_are_genuine(
    k1: Seq<int>,
    k2: Seq<int>,
    values1: Seq<int>,
    blinds1: Seq<int>,
    values2: Seq<int>,
    blinds2: Seq<int>,
    index: int,
    x: int,
    eval_share: int,
    eval_blind: int,
)
    requires
        pedersen::h_exists(),
        pedersen::commits_to(k1, values1, blinds1),
        pedersen::commits_to(k2, values2, blinds2),
        0 <= eval_share < prime::modulus(),
        0 <= eval_blind < prime::modulus(),
        pedersen::evaluation_opens(k1, k2, index, x, eval_share, eval_blind),
    ensures
        ({
            &&& eval_share == (poly::eval(values1, index) * x + poly::eval(values2, index))
                % prime::modulus()
            &&& eval_blind == (poly::eval(blinds1, index) * x + poly::eval(blinds2, index))
                % prime::modulus()
        }) || gives_away(
            pedersen::h_log(),
            eval_share,
            eval_blind,
            poly::eval(values1, index) * x + poly::eval(values2, index),
            poly::eval(blinds1, index) * x + poly::eval(blinds2, index),
        ),
{
    let m = prime::modulus();
    let h = pedersen::h_log();
    let w = poly::eval(values1, index) * x + poly::eval(values2, index);
    let c = poly::eval(blinds1, index) * x + poly::eval(blinds2, index);
    pedersen::honest_evaluation_opens(
        k1,
        k2,
        values1,
        blinds1,
        values2,
        blinds2,
        index,
        x,
        w,
        c,
    );
    pedersen::second_generator();
    arith::mod_small(h, m);
    lemma_mod_equivalence(eval_share + h * eval_blind, w + h * c, m);
    two_openings(h, eval_share, eval_blind, w, c);
    arith::mod_small(eval_share, m);
    arith::mod_small(eval_blind, m);
}

} // verus!
