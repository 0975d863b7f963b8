//! What reconstruction recovers, told share by share.
//!
//! The laws here speak of the positions of the shares that lie on a polynomial, and
//! of the polynomial's values, and say from them what every answer is.
use vstd::arithmetic::div_mod::*;
use vstd::arithmetic::mul::*;
use vstd::prelude::*;

use crate::arith;
use crate::decoding;
use crate::field::{self, Fr};
use crate::laws;
use crate::linear;
use crate::poly;
use crate::prime;
use crate::robust;
use crate::shamir::{self, RobustReconstruction, Share};

verus! {

/// The positions, in their order, of exactly those shares whose value is that of the
/// polynomial at their index.
pub open spec fn on_polynomial(shares: Seq<Share>, p: Seq<int>, kept: Seq<int>) -> bool {
    &&& forall|k: int|
        0 <= k < kept.len() ==> 0 <= #[trigger] kept[k] < shares.len() && poly::eval(
            p,
            shares[kept[k]].index as int,
        ) % prime::modulus() == shares[kept[k]].value@
    &&& forall|j: int, k: int|
        #![trigger kept[j], kept[k]]
        0 <= j < k < kept.len() ==> kept[j] < kept[k]
    &&& forall|i: int|
        0 <= i < shares.len() && poly::eval(p, (#[trigger] shares[i]).index as int)
            % prime::modulus() == shares[i].value@ ==> kept.contains(i)
}

/// The indices of the shares at some positions.
pub open spec fn indices_at(shares: Seq<Share>, kept: Seq<int>) -> Seq<u32> {
    Seq::new(kept.len(), |k: int| shares[kept[k]].index)
}

/// A polynomial with `t` coefficients and the positions of the shares on it; the
/// others are so few that twice their number and `t` are at most all shares.
pub open spec fn is_recovery(shares: Seq<Share>, t: int, p: Seq<int>, kept: Seq<int>) -> bool {
    &&& t >= 1
    &&& p.len() == t
    &&& poly::reduced(p, prime::modulus())
    &&& on_polynomial(shares, p, kept)
    &&& 2 * (shares.len() - kept.len()) + t <= shares.len()
}

/// The positions determine the shares on the polynomial.
pub proof fn positions_of_agreeing(shares: Seq<Share>, p: Seq<int>, kept: Seq<int>)
    requires
        on_polynomial(shares, p, kept),
    ensures
        robust::agreeing(shares, p) == Seq::new(kept.len(), |k: int| shares[kept[k]]),
        shamir::indices(robust::agreeing(shares, p)) == indices_at(shares, kept),
        robust::agreeing(shares, p).len() == kept.len(),
        robust::disagreeing(shares, p).len() == shares.len() - kept.len(),
    decreases shares.len(),
{
    let on = robust::agreeing(shares, p);
    if shares.len() == 0 {
        if kept.len() > 0 {
            assert(0 <= kept[0] < shares.len());
        }
        assert(on =~= Seq::new(kept.len(), |k: int| shares[kept[k]]));
    } else {
        let init = shares.drop_last();
        let last = shares.len() - 1;
        if robust::agrees(shares.last(), p) {
            assert(shares[last] == shares.last());
            assert(kept.contains(last));
            let at = choose|k: int| 0 <= k < kept.len() && kept[k] == last;
            if at < kept.len() - 1 {
                assert(kept[at] < kept[at + 1]);
            }
            let rest = kept.drop_last();
            assert forall|i: int|
                0 <= i < init.len() && poly::eval(p, (#[trigger] init[i]).index as int)
                    % prime::modulus() == init[i].value@ implies rest.contains(i) by {
                assert(shares[i] == init[i]);
                assert(kept.contains(i));
                let k = choose|k: int| 0 <= k < kept.len() && kept[k] == i;
                assert(rest[k] == i);
            }
            assert forall|k: int| 0 <= k < rest.len() implies 0 <= #[trigger] rest[k] < init.len()
                && poly::eval(p, init[rest[k]].index as int) % prime::modulus()
                == init[rest[k]].value@ by {
                assert(kept[k] < kept[at]);
                assert(shares[kept[k]] == init[rest[k]]);
            }
            assert forall|j: int, k: int|
                #![trigger rest[j], rest[k]]
                0 <= j < k < rest.len() implies rest[j] < rest[k] by {
                assert(kept[j] < kept[k]);
            }
            positions_of_agreeing(init, p, rest);
            assert(on =~= Seq::new(kept.len(), |k: int| shares[kept[k]]));
        } else {
            assert forall|k: int| 0 <= k < kept.len() implies 0 <= #[trigger] kept[k] < init.len()
                && poly::eval(p, init[kept[k]].index as int) % prime::modulus()
                == init[kept[k]].value@ by {
                assert(shares[last] == shares.last());
                assert(kept[k] != last);
                assert(shares[kept[k]] == init[kept[k]]);
            }
            assert forall|i: int|
                0 <= i < init.len() && poly::eval(p, (#[trigger] init[i]).index as int)
                    % prime::modulus() == init[i].value@ implies kept.contains(i) by {
                assert(shares[i] == init[i]);
            }
            positions_of_agreeing(init, p, kept);
            assert(on =~= Seq::new(kept.len(), |k: int| shares[kept[k]]));
        }
    }
    robust::sides(shares, p);
    assert(shamir::indices(on) =~= indices_at(shares, kept));
}

/// Every polynomial has such positions.
pub proof fn positions_exist(shares: Seq<Share>, p: Seq<int>) -> (kept: Seq<int>)
    ensures
        on_polynomial(shares, p, kept),
    decreases shares.len(),
{
    if shares.len() == 0 {
        Seq::empty()
    } else {
        let init = shares.drop_last();
        let last = shares.len() - 1;
        let rest = positions_exist(init, p);
        assert forall|k: int| 0 <= k < rest.len() implies 0 <= #[trigger] rest[k] < last
            && shares[rest[k]] == init[rest[k]] by {}
        let kept = if poly::eval(p, shares[last].index as int) % prime::modulus()
            == shares[last].value@ {
            rest.push(last)
        } else {
            rest
        };
        assert forall|i: int|
            0 <= i < shares.len() && poly::eval(p, (#[trigger] shares[i]).index as int)
                % prime::modulus() == shares[i].value@ implies kept.contains(i) by {
            if i < last {
                assert(init[i] == shares[i]);
                assert(rest.contains(i));
                let k = choose|k: int| 0 <= k < rest.len() && rest[k] == i;
                assert(kept[k] == i);
            } else {
                assert(kept[rest.len() as int] == last);
            }
        }
        assert forall|k: int| 0 <= k < kept.len() implies 0 <= #[trigger] kept[k] < shares.len()
            && poly::eval(p, shares[kept[k]].index as int) % prime::modulus()
            == shares[kept[k]].value@ by {
            if k < rest.len() {
                assert(kept[k] == rest[k]);
                assert(shares[rest[k]] == init[rest[k]]);
            }
        }
        assert forall|j: int, k: int|
            #![trigger kept[j], kept[k]]
            0 <= j < k < kept.len() implies kept[j] < kept[k] by {
            if k < rest.len() {
                assert(rest[j] < rest[k]);
            } else {
                assert(0 <= rest[j] < last);
            }
        }
        kept
    }
}

/// Closeness, told by positions.
pub proof fn close_by_positions(shares: Seq<Share>, t: int, p: Seq<int>, kept: Seq<int>)
    requires
        on_polynomial(shares, p, kept),
    ensures
        robust::close(shares, t, p) <==> is_recovery(shares, t, p, kept),
{
    positions_of_agreeing(shares, p, kept);
}

/// Malformed shares are corrected: where a polynomial goes through all shares but so
/// few that twice their number and the threshold are at most all of them, robust
/// reconstruction gives its constant term, the indices of the shares on it, in their
/// order, and the number of the others.
pub proof fn robust_recovers(
    r: Option<RobustReconstruction>,
    shares: Seq<Share>,
    t: int,
    p: Seq<int>,
    kept: Seq<int>,
)
    requires
        shamir::distinct_indices(shares),
        shamir::is_robust(r, shares, t),
        is_recovery(shares, t, p, kept),
    ensures
        r is Some,
        r->0.secret@ == p[0],
        r->0.accepted_indices@ == indices_at(shares, kept),
        r->0.corrected_errors == shares.len() - kept.len(),
{
    close_by_positions(shares, t, p, kept);
    positions_of_agreeing(shares, p, kept);
    laws::errors_are_corrected(r, shares, t, p);
}

/// Robust reconstruction invents nothing: what it gives is recovered in that way, and
/// it gives nothing only where nothing can be recovered.
pub proof fn robust_is_sound(r: Option<RobustReconstruction>, shares: Seq<Share>, t: int) -> (w: (
    Seq<int>,
    Seq<int>,
))
    requires
        shamir::is_robust(r, shares, t),
    ensures
        match r {
            Some(d) => {
                &&& is_recovery(shares, t, w.0, w.1)
                &&& d.secret@ == w.0[0]
                &&& d.accepted_indices@ == indices_at(shares, w.1)
                &&& d.corrected_errors == shares.len() - w.1.len()
            },
            None => forall|p: Seq<int>, kept: Seq<int>| !#[trigger] is_recovery(shares, t, p, kept),
        },
{
    match r {
        Some(d) => {
            let p = choose|p: Seq<int>| #[trigger]
                robust::close(shares, t, p) && d.reads(shares, p);
            let kept = positions_exist(shares, p);
            close_by_positions(shares, t, p, kept);
            positions_of_agreeing(shares, p, kept);
            (p, kept)
        },
        None => {
            assert forall|p: Seq<int>, kept: Seq<int>| !#[trigger]
                is_recovery(shares, t, p, kept) by {
                if is_recovery(shares, t, p, kept) {
                    close_by_positions(shares, t, p, kept);
                    assert(!robust::close(shares, t, p));
                }
            }
            (Seq::empty(), Seq::empty())
        },
    }
}

/// What a stage of robust reconstruction finds, whatever the indices: a polynomial
/// with `t` coefficients on which at least `t` of the shares lie, and all but `e`.
pub proof fn stage_is_sound(shares: Seq<Share>, t: int, e: int, p: Seq<int>, kept: Seq<int>)
    requires
        robust::stage(shares, t, e, p),
        on_polynomial(shares, p, kept),
    ensures
        p.len() == t,
        poly::reduced(p, prime::modulus()),
        kept.len() >= t,
        shares.len() - kept.len() <= e,
{
    positions_of_agreeing(shares, p, kept);
}

/// As many errors are looked for as two for each and the threshold leave room for.
pub proof fn most_errors(len: int, t: int, e: int)
    requires
        t <= len,
    ensures
        e <= shamir::max_errors(len, t) <==> 2 * e + t <= len,
{
}

/// Repeated indices do not get in the way: where the shares that miss a polynomial
/// have different indices, and as many of the others as the threshold and the errors
/// together have different ones too, looking for exactly those errors finds the
/// polynomial and nothing else, and looking for more finds nothing.
pub proof fn repeated_indices_recover(
    shares: Seq<Share>,
    t: int,
    p: Seq<int>,
    kept: Seq<int>,
    some: Seq<int>,
)
    requires
        t >= 1,
        p.len() == t,
        poly::reduced(p, prime::modulus()),
        shares.len() <= u64::MAX,
        on_polynomial(shares, p, kept),
        forall|i: int, j: int|
            #![trigger shares[i], shares[j]]
            0 <= i < j < shares.len() && !kept.contains(i) && !kept.contains(j)
                ==> shares[i].index != shares[j].index,
        some.len() == t + shares.len() - kept.len(),
        forall|k: int| 0 <= k < some.len() ==> kept.contains(#[trigger] some[k]),
        forall|j: int, k: int|
            #![trigger some[j], some[k]]
            0 <= j < k < some.len() ==> shares[some[j]].index != shares[some[k]].index,
    ensures
        robust::stage(shares, t, shares.len() - kept.len(), p),
        forall|q: Seq<int>| #[trigger]
            robust::stage(shares, t, shares.len() - kept.len(), q) ==> q == p,
        forall|f: int, q: Seq<int>|
            f > shares.len() - kept.len() ==> !#[trigger] robust::stage(shares, t, f, q),
{
    let e = shares.len() - kept.len();
    let good = Seq::new(some.len(), |k: int| shares[some[k]]);
    positions_of_agreeing(shares, p, kept);
    errors_distinct(shares, p, kept);
    assert forall|k: int| 0 <= k < some.len() implies 0 <= #[trigger] some[k] < shares.len()
        && robust::agrees(shares[some[k]], p) by {
        assert(kept.contains(some[k]));
        let l = choose|l: int| 0 <= l < kept.len() && kept[l] == some[k];
        assert(0 <= kept[l] < shares.len());
    }
    assert forall|k: int| 0 <= k < good.len() implies shares.contains(#[trigger] good[k])
        && robust::agrees(good[k], p) by {
        assert(0 <= some[k] < shares.len());
        assert(shares[some[k]] == good[k]);
    }
    assert forall|j: int, k: int|
        #![trigger good[j], good[k]]
        0 <= j < k < good.len() implies good[j].index != good[k].index by {
        assert(shares[some[j]].index != shares[some[k]].index);
    }
    some_bound(shares, kept, some);
    robust::witnessed_decodes(shares, t, p, good);
    assert forall|q: Seq<int>| #[trigger] robust::stage(shares, t, e, q) implies q == p by {
        decoding::decodes_unique(shamir::points(shares), shamir::values(shares), t, e, p, q);
    }
    assert forall|f: int, q: Seq<int>| f > e implies !#[trigger] robust::stage(shares, t, f, q) by {
        robust::more_errors_decode_nothing(shares, t, p, f, q);
    }
}

/// Positions with different indices are at most as many as those that hold them.
proof fn some_bound(shares: Seq<Share>, kept: Seq<int>, some: Seq<int>)
    requires
        forall|k: int| 0 <= k < some.len() ==> kept.contains(#[trigger] some[k]),
        forall|j: int, k: int|
            #![trigger some[j], some[k]]
            0 <= j < k < some.len() ==> shares[some[j]].index != shares[some[k]].index,
    ensures
        some.len() <= kept.len(),
{
    assert(some.no_duplicates()) by {
        assert forall|j: int, k: int|
            0 <= j < some.len() && 0 <= k < some.len() && j != k implies some[j] != some[k] by {
            if j < k {
                assert(shares[some[j]].index != shares[some[k]].index);
            } else {
                assert(shares[some[k]].index != shares[some[j]].index);
            }
        }
    }
    some.unique_seq_to_set();
    kept.lemma_cardinality_of_set();
    assert(some.to_set().subset_of(kept.to_set())) by {
        assert forall|i: int| some.to_set().contains(i) implies kept.to_set().contains(i) by {
            let k = choose|k: int| 0 <= k < some.len() && some[k] == i;
            assert(kept.contains(some[k]));
        }
    }
    vstd::set_lib::lemma_len_subset(some.to_set(), kept.to_set());
}

/// Where the shares off a polynomial have different indices, so do the disagreeing.
proof fn errors_distinct(shares: Seq<Share>, p: Seq<int>, kept: Seq<int>)
    requires
        on_polynomial(shares, p, kept),
        forall|i: int, j: int|
            #![trigger shares[i], shares[j]]
            0 <= i < j < shares.len() && !kept.contains(i) && !kept.contains(j)
                ==> shares[i].index != shares[j].index,
    ensures
        shamir::distinct_indices(robust::disagreeing(shares, p)),
{
    assert forall|i: int| 0 <= i < shares.len() && kept.contains(i) implies robust::agrees(
        #[trigger] shares[i],
        p,
    ) by {
        let k = choose|k: int| 0 <= k < kept.len() && kept[k] == i;
        assert(0 <= kept[k] < shares.len());
    }
    assert forall|i: int, j: int|
        #![trigger shares[i], shares[j]]
        0 <= i < j < shares.len() && !robust::agrees(shares[i], p) && !robust::agrees(
            shares[j],
            p,
        ) implies shares[i].index != shares[j].index by {}
    disagreeing_distinct(shares, p);
}

/// The same, told by what agrees.
proof fn disagreeing_distinct(shares: Seq<Share>, p: Seq<int>)
    requires
        forall|i: int, j: int|
            #![trigger shares[i], shares[j]]
            0 <= i < j < shares.len() && !robust::agrees(shares[i], p) && !robust::agrees(
                shares[j],
                p,
            ) ==> shares[i].index != shares[j].index,
    ensures
        shamir::distinct_indices(robust::disagreeing(shares, p)),
    decreases shares.len(),
{
    if shares.len() > 0 {
        let init = shares.drop_last();
        let last = shares.len() - 1;
        assert forall|i: int, j: int|
            #![trigger init[i], init[j]]
            0 <= i < j < init.len() && !robust::agrees(init[i], p) && !robust::agrees(
                init[j],
                p,
            ) implies init[i].index != init[j].index by {
            assert(shares[i] == init[i] && shares[j] == init[j]);
        }
        disagreeing_distinct(init, p);
        if !robust::agrees(shares.last(), p) {
            let off = robust::disagreeing(init, p);
            let all = robust::disagreeing(shares, p);
            robust::sides(init, p);
            assert forall|i: int, j: int|
                #![trigger all[i], all[j]]
                0 <= i < j < all.len() implies all[i].index != all[j].index by {
                if j < off.len() {
                    assert(off[i].index != off[j].index);
                } else {
                    assert(init.contains(off[i]) && !robust::agrees(off[i], p));
                    let k = choose|k: int| 0 <= k < init.len() && init[k] == off[i];
                    assert(shares[k] == off[i]);
                    assert(shares[k].index != shares[last].index);
                }
            }
        }
    }
}

/// Shares that are all zero reconstruct zero, however many they are.
pub proof fn zeros_reconstruct_zero(shares: Seq<Share>)
    requires
        shamir::distinct_indices(shares),
        forall|i: int| 0 <= i < shares.len() ==> (#[trigger] shares[i]).value@ == 0,
    ensures
        shamir::secret_of(shares) == 0,
{
    let m = prime::modulus();
    let (xs, ys) = (shamir::points(shares), shamir::values(shares));
    prime::modulus_is_prime();
    shamir::distinct_points(shares);
    arith::mod_small(0, m);
    let p = Seq::<int>::empty();
    assert forall|x: int| #[trigger] poly::eval(p, x) == 0 by {}
    assert(poly::passes(p, xs, ys, m)) by {
        assert forall|i: int| 0 <= i < xs.len() implies poly::eval(p, #[trigger] xs[i]) % m == ys[i]
            % m by {
            assert(shares[i].value@ == 0);
        }
    }
    poly::interpolation_unique(p, xs, ys, m);
    assert(poly::eval(poly::interpolant(xs, ys, m), 0) % m == poly::eval(p, 0) % m);
}

/// A dealing hands member after member, from one, the polynomial's value at its
/// number.
pub proof fn dealing_hands_out(shares: Seq<Share>, coeffs: Seq<int>, n: nat, i: int)
    requires
        shamir::is_dealing(shares, coeffs, n),
        0 <= i < n,
    ensures
        shares.len() == n,
        shares[i].index == i + 1,
        (shares[i].value@ - poly::eval(coeffs, i + 1)) % prime::modulus() == 0,
{
    let m = prime::modulus();
    assert(shares[i].value@ == shamir::value_at(coeffs, i + 1));
    arith::mod_idem(poly::eval(coeffs, i + 1), m);
    lemma_mod_equivalence(shares[i].value@, poly::eval(coeffs, i + 1), m);
}

// ---------------------------------------------------------------------------
// Decoding, division and linear systems
// ---------------------------------------------------------------------------

/// Decoding with `e` errors finds exactly the polynomials that miss `e` shares, where
/// the indices are different and two shares for each error and `t` more are there.
pub proof fn decoding_exactly_when(
    shares: Seq<Share>,
    t: int,
    e: int,
    p: Seq<int>,
    kept: Seq<int>,
)
    requires
        shamir::distinct_indices(shares),
        shares.len() <= u64::MAX,
        t >= 1,
        e >= 0,
        t + 2 * e <= shares.len(),
        p.len() == t,
        poly::reduced(p, prime::modulus()),
        on_polynomial(shares, p, kept),
    ensures
        decoding::decodes(
            shamir::points(shares),
            shamir::values(shares),
            t,
            e,
            p,
            prime::modulus(),
        ) <==> shares.len() - kept.len() == e,
{
    let m = prime::modulus();
    let (xs, ys) = (shamir::points(shares), shamir::values(shares));
    positions_of_agreeing(shares, p, kept);
    if shares.len() - kept.len() == e {
        close_by_positions(shares, t, p, kept);
        robust::close_decodes(shares, t, p);
    }
    if decoding::decodes(xs, ys, t, e, p, m) {
        decoded_misses_few(shares, t, e, p);
        if shares.len() - kept.len() < e {
            robust::more_errors_decode_nothing(shares, t, p, e, p);
        }
    }
}

/// What is decoded with `e` errors misses at most `e` shares with different indices.
proof fn decoded_misses_few(shares: Seq<Share>, t: int, e: int, p: Seq<int>)
    requires
        shamir::distinct_indices(shares),
        t >= 1,
        e >= 0,
        decoding::decodes(
            shamir::points(shares),
            shamir::values(shares),
            t,
            e,
            p,
            prime::modulus(),
        ),
    ensures
        robust::disagreeing(shares, p).len() <= e,
{
    let m = prime::modulus();
    let (xs, ys) = (shamir::points(shares), shamir::values(shares));
    let bad = robust::disagreeing(shares, p);
    let bx = shamir::points(bad);
    let v = choose|v: Seq<int>| #[trigger]
        decoding::sole_key_solution(xs, ys, v, t + e, e, m) && decoding::is_quotient(
            v.take(t + e),
            decoding::locator(v, t + e),
            p,
            m,
        );
    let q = v.take(t + e);
    let l = decoding::locator(v, t + e);
    prime::modulus_is_prime();
    robust::sides(shares, p);
    robust::sides_distinct(shares, p);
    shamir::distinct_points(bad);
    assert forall|i: int| 0 <= i < bx.len() implies poly::eval(l, #[trigger] bx[i]) % m == 0 by {
        let s = bad[i];
        let x = bx[i];
        assert(shares.contains(s) && !robust::agrees(s, p));
        let j = choose|j: int| 0 <= j < shares.len() && shares[j] == s;
        let (f, g, y) = (poly::eval(p, x), poly::eval(l, x), s.value@);
        assert(xs[j] == x && ys[j] == y);
        assert(poly::eval(q, xs[j]) % m == (ys[j] * poly::eval(l, xs[j])) % m);
        assert(poly::eval(q, x) % m == (f * g) % m);
        lemma_mod_equivalence(y * g, f * g, m);
        lemma_mul_is_distributive_sub_other_way(g, y, f);
        arith::euclid(y - f, g, m);
        if (y - f) % m == 0 {
            lemma_mod_equivalence(y, f, m);
            field::residue_range(s.value);
            arith::mod_small(y, m);
        }
    }
    if bad.len() > e {
        poly::too_many_roots(l, bx, m);
        arith::mod_small(1, m);
        assert(l[l.len() - 1] == 1);
    }
}

/// Division is exact where the product of quotient and divisor has the dividend's
/// coefficients.
pub proof fn division_exactly_when(p: Seq<int>, d: Seq<int>, q: Seq<int>)
    requires
        d.len() > 0,
        q.len() > 0,
        p.len() == q.len() + d.len() - 1,
        p.len() <= prime::modulus(),
    ensures
        decoding::is_quotient(p, d, q, prime::modulus()) <==> forall|i: int|
            0 <= i < p.len() ==> #[trigger] p[i] % prime::modulus() == poly::times(q, d)[i]
                % prime::modulus(),
{
    let m = prime::modulus();
    let product = poly::times(q, d);
    prime::modulus_is_prime();
    poly::times_is_product(q, d);
    if decoding::is_quotient(p, d, q, m) {
        let r = poly::minus(p, product);
        poly::eval_minus(p, product, 0);
        assert forall|x: int| #[trigger] poly::eval(r, x) % m == 0 by {
            poly::eval_minus(p, product, x);
            assert(poly::eval(p, x) % m == (poly::eval(q, x) * poly::eval(d, x)) % m);
            lemma_mod_equivalence(poly::eval(p, x), poly::eval(product, x), m);
        }
        poly::zero_everywhere(r, m);
        poly::minus_vanishes(p, product, m);
    }
    if forall|i: int| 0 <= i < p.len() ==> #[trigger] p[i] % m == product[i] % m {
        assert forall|x: int| #[trigger] poly::eval(p, x) % m == (poly::eval(q, x) * poly::eval(
            d,
            x,
        )) % m by {
            poly::eval_cong(p, product, x, x, m);
        }
    }
}

/// The sum of products, term by term.
pub open spec fn sum_of_products(a: Seq<int>, b: Seq<int>, n: int) -> int {
    Seq::new(n as nat, |i: int| a[i] * b[i]).fold_left(0, |s: int, c: int| s + c)
}

/// The left-hand side of an equation is the sum of the products.
proof fn dot_is_sum(a: Seq<int>, b: Seq<int>, n: int)
    requires
        n >= 0,
    ensures
        linear::dot(a, b, n) == sum_of_products(a, b, n),
    decreases n,
{
    let s = Seq::new(n as nat, |i: int| a[i] * b[i]);
    if n > 0 {
        dot_is_sum(a, b, n - 1);
        assert(s.drop_last() =~= Seq::new((n - 1) as nat, |i: int| a[i] * b[i]));
    }
}

/// A system is solved exactly where the residues meet every equation; and they are its
/// answer exactly where, besides, no other residues do.
pub proof fn system_solved_exactly_when(rows: Seq<Seq<int>>, v: Seq<int>, n: int)
    requires
        n >= 0,
    ensures
        linear::is_solution(rows, v, n, prime::modulus()) <==> {
            &&& v.len() == n
            &&& poly::reduced(v, prime::modulus())
            &&& forall|r: int|
                0 <= r < rows.len() ==> (sum_of_products(#[trigger] rows[r], v, n) - rows[r][n])
                    % prime::modulus() == 0
        },
        linear::sole_solution(rows, v, n, prime::modulus()) <==> {
            &&& linear::is_solution(rows, v, n, prime::modulus())
            &&& forall|u: Seq<int>| #[trigger]
                linear::is_solution(rows, u, n, prime::modulus()) ==> u == v
        },
{
    let m = prime::modulus();
    assert forall|r: int| 0 <= r < rows.len() implies (linear::dot(#[trigger] rows[r], v, n) % m
        == rows[r][n] % m <==> (sum_of_products(rows[r], v, n) - rows[r][n]) % m == 0) by {
        dot_is_sum(rows[r], v, n);
        lemma_mod_equivalence(linear::dot(rows[r], v, n), rows[r][n], m);
    }
}

/// The residues in a matrix stand in its rows.
pub proof fn matrix_reads(rows: Seq<Vec<Fr>>, r: int, c: int)
    requires
        0 <= r < rows.len(),
        0 <= c < rows[r]@.len(),
    ensures
        linear::matrix(rows).len() == rows.len(),
        linear::matrix(rows)[r].len() == rows[r]@.len(),
        linear::matrix(rows)[r][c] == rows[r]@[c]@,
{
}

/// The points and values that are decoded are the indices and values of the shares.
pub proof fn shares_read(shares: Seq<Share>, i: int)
    requires
        0 <= i < shares.len(),
    ensures
        shamir::points(shares).len() == shares.len(),
        shamir::values(shares).len() == shares.len(),
        shamir::points(shares)[i] == shares[i].index,
        shamir::values(shares)[i] == shares[i].value@,
{
}

} // verus!
