//! What the random draws of a setup decide, and what they keep secret.
//!
//! The draws of any one dealer decide every coefficient of every slot, one to one,
//! whatever the others draw; and for fewer members than the threshold, the draws that
//! give them the shares they hold are as many for one secret as for another.
use vstd::arithmetic::div_mod::*;
use vstd::arithmetic::mul::*;
use vstd::prelude::*;

use crate::arith;
use crate::decoding;
use crate::laws;
use crate::pedersen;
use crate::poly;
use crate::prime;
use crate::setup::{self, SlotPolys};
use crate::shamir;

verus! {

// ---------------------------------------------------------------------------
// Places
// ---------------------------------------------------------------------------

/// The place of the `o`-th draw of dealer `j` for a slot, among all draws.
pub open spec fn place(t: int, n: int, slot: int, j: int, o: int) -> int {
    4 * t * n * slot + 4 * t * j + o
}

/// The draws of one dealer for a slot.
pub open spec fn draws_of(d: Seq<int>, t: int, n: int, slot: int, j: int) -> Seq<int> {
    Seq::new((4 * t) as nat, |o: int| d[place(t, n, slot, j, o)])
}

/// The draws from which a dealer deals the given polynomials: the two constant
/// terms, the rest of the two polynomials, the blinding polynomials.
pub open spec fn encode(p: SlotPolys) -> Seq<int> {
    seq![p.k1[0], p.k2[0]] + p.k1.skip(1) + p.k2.skip(1) + p.k1_blind + p.k2_blind
}

/// All four polynomials have `t` coefficients.
pub open spec fn has_size(p: SlotPolys, t: int) -> bool {
    &&& p.k1.len() == t
    &&& p.k2.len() == t
    &&& p.k1_blind.len() == t
    &&& p.k2_blind.len() == t
}

/// Places of a slot and a dealer are in the range of all draws, and are told apart by
/// division.
proof fn place_range(t: int, n: int, slots: int, slot: int, j: int, o: int)
    requires
        t >= 1,
        0 <= slot < slots,
        0 <= j < n,
        0 <= o < 4 * t,
    ensures
        0 <= 4 * t * j,
        4 * t * j + 4 * t <= 4 * t * n,
        0 <= 4 * t * n * slot,
        4 * t * n * slot + 4 * t * n <= 4 * t * n * slots,
        0 <= place(t, n, slot, j, o) < 4 * t * n * slots,
        place(t, n, slot, j, o) / (4 * t * n) == slot,
        (place(t, n, slot, j, o) % (4 * t * n)) / (4 * t) == j,
        (place(t, n, slot, j, o) % (4 * t * n)) % (4 * t) == o,
{
    let z = 4 * t;
    let s = 4 * t * n;
    assert(0 <= z * j && z * j + z <= z * n) by (nonlinear_arith)
        requires
            0 <= j < n,
            z >= 4,
    ;
    assert(0 <= s * slot && s * slot + s <= s * slots) by (nonlinear_arith)
        requires
            0 <= slot < slots,
            s >= 0,
    ;
    let k = place(t, n, slot, j, o);
    assert(k == s * slot + (z * j + o));
    lemma_mul_is_commutative(s, slot);
    lemma_mul_is_commutative(z, j);
    lemma_fundamental_div_mod_converse(k, s, slot, z * j + o);
    lemma_fundamental_div_mod_converse(z * j + o, z, j, o);
}

/// Every draw has a place.
proof fn place_of(t: int, n: int, slots: int, k: int) -> (r: (int, int, int))
    requires
        t >= 1,
        n >= 1,
        0 <= k < 4 * t * n * slots,
    ensures
        0 <= r.0 < slots,
        0 <= r.1 < n,
        0 <= r.2 < 4 * t,
        k == place(t, n, r.0, r.1, r.2),
        r.0 == k / (4 * t * n),
        r.1 == (k % (4 * t * n)) / (4 * t),
        r.2 == (k % (4 * t * n)) % (4 * t),
{
    let z = 4 * t;
    let s = 4 * t * n;
    assert(s >= 4) by (nonlinear_arith)
        requires
            s == z * n,
            z >= 4,
            n >= 1,
    ;
    let slot = k / s;
    let rest = k % s;
    let j = rest / z;
    let o = rest % z;
    lemma_fundamental_div_mod(k, s);
    lemma_fundamental_div_mod(rest, z);
    lemma_mod_bound(k, s);
    lemma_mod_bound(rest, z);
    lemma_div_pos_is_pos(k, s);
    lemma_div_pos_is_pos(rest, z);
    assert(slot < slots) by (nonlinear_arith)
        requires
            s * slot <= k,
            k < s * slots,
            s >= 4,
    ;
    assert(j < n) by (nonlinear_arith)
        requires
            z * j <= rest,
            rest < z * n,
            z >= 4,
    ;
    (slot, j, o)
}

/// Cutting the draws by slot and then by dealer gives the draws of the dealer.
proof fn chunks_are_draws(d: Seq<int>, t: int, n: int, slots: int, slot: int, j: int)
    requires
        t >= 1,
        0 <= slot < slots,
        0 <= j < n,
        d.len() == 4 * t * n * slots,
    ensures
        setup::chunk(setup::chunk(d, 4 * t * n, slot), 4 * t, j) == draws_of(d, t, n, slot, j),
{
    place_range(t, n, slots, slot, j, 0);
    let a = setup::chunk(d, 4 * t * n, slot);
    let b = setup::chunk(a, 4 * t, j);
    assert(a.len() == 4 * t * n);
    assert(b =~= draws_of(d, t, n, slot, j));
}

// ---------------------------------------------------------------------------
// One dealer
// ---------------------------------------------------------------------------

/// A dealer's draws and the polynomials it deals determine each other: every four
/// polynomials with `t` coefficients are dealt, from one list of `4 t` draws.
pub proof fn dealer_deals_everything(p: SlotPolys, t: int)
    requires
        t >= 1,
        has_size(p, t),
    ensures
        encode(p).len() == 4 * t,
        setup::dealer(encode(p), t) == p,
        forall|c: Seq<int>|
            c.len() == 4 * t && #[trigger] setup::dealer(c, t) == p ==> c == encode(p),
{
    let e = encode(p);
    let r = setup::dealer(e, t);
    assert(r.k1 =~= p.k1);
    assert(r.k2 =~= p.k2);
    assert(r.k1_blind =~= p.k1_blind);
    assert(r.k2_blind =~= p.k2_blind);
    assert forall|c: Seq<int>| c.len() == 4 * t && #[trigger] setup::dealer(c, t) == p implies c
        == e by {
        dealer_reads(c, t);
        assert forall|o: int| 0 <= o < 4 * t implies #[trigger] c[o] == e[o] by {
            if 2 <= o <= t {
                assert(p.k1[o - 1] == c[o]);
            } else if t < o < 2 * t {
                assert(p.k2[o - t] == c[o]);
            } else if 2 * t <= o < 3 * t {
                assert(p.k1_blind[o - 2 * t] == c[o]);
            } else if 3 * t <= o {
                assert(p.k2_blind[o - 3 * t] == c[o]);
            }
        }
        assert(c =~= e);
    }
}

/// Where each coefficient that a dealer deals stands in its draws.
pub proof fn dealer_reads(c: Seq<int>, t: int)
    requires
        t >= 1,
        c.len() == 4 * t,
    ensures
        has_size(setup::dealer(c, t), t),
        setup::dealer(c, t).k1[0] == c[0],
        setup::dealer(c, t).k2[0] == c[1],
        forall|i: int| 1 <= i < t ==> #[trigger] setup::dealer(c, t).k1[i] == c[i + 1],
        forall|i: int| 1 <= i < t ==> #[trigger] setup::dealer(c, t).k2[i] == c[t + i],
        forall|i: int| 0 <= i < t ==> #[trigger] setup::dealer(c, t).k1_blind[i] == c[2 * t + i],
        forall|i: int| 0 <= i < t ==> #[trigger] setup::dealer(c, t).k2_blind[i] == c[3 * t + i],
{
}

// ---------------------------------------------------------------------------
// The sum over the dealers
// ---------------------------------------------------------------------------

/// Every dealer counts in a sum: where one row changes, the sum changes by as much.
pub proof fn every_row_counts(rows: Seq<Seq<int>>, others: Seq<Seq<int>>, j: int, i: int)
    requires
        rows.len() == others.len(),
        0 <= j < rows.len(),
        forall|k: int| 0 <= k < rows.len() && k != j ==> #[trigger] rows[k][i] == others[k][i],
    ensures
        pedersen::column_sum(rows, i) - pedersen::column_sum(others, i) == rows[j][i]
            - others[j][i],
    decreases rows.len(),
{
    let (a, b) = (rows.drop_last(), others.drop_last());
    let last = rows.len() - 1;
    assert(rows.last() == rows[last] && others.last() == others[last]);
    if j == last {
        same_rows(a, b, i);
    } else {
        assert(rows[last][i] == others[last][i]);
        assert forall|k: int| 0 <= k < a.len() && k != j implies #[trigger] a[k][i] == b[k][i] by {
            assert(rows[k][i] == others[k][i]);
        }
        every_row_counts(a, b, j, i);
    }
}

/// Equal columns have equal sums.
proof fn same_rows(rows: Seq<Seq<int>>, others: Seq<Seq<int>>, i: int)
    requires
        rows.len() == others.len(),
        forall|k: int| 0 <= k < rows.len() ==> #[trigger] rows[k][i] == others[k][i],
    ensures
        pedersen::column_sum(rows, i) == pedersen::column_sum(others, i),
    decreases rows.len(),
{
    if rows.len() > 0 {
        let (a, b) = (rows.drop_last(), others.drop_last());
        let last = rows.len() - 1;
        assert(rows[last][i] == others[last][i]);
        assert forall|k: int| 0 <= k < a.len() implies #[trigger] a[k][i] == b[k][i] by {
            assert(rows[k][i] == others[k][i]);
        }
        same_rows(a, b, i);
    }
}

/// The draws differ in what dealer `j` draws at most.
pub open spec fn others_same(d: Seq<int>, e: Seq<int>, t: int, n: int, slots: int, j: int) -> bool {
    &&& d.len() == e.len()
    &&& forall|slot: int, i: int, o: int|
        0 <= slot < slots && 0 <= i < n && i != j && 0 <= o < 4 * t
            ==> d[#[trigger] place(t, n, slot, i, o)] == e[place(t, n, slot, i, o)]
}

/// The polynomials of two slots differ, coefficient by coefficient, as those of two
/// dealers do.
pub open spec fn differ_alike(
    a: SlotPolys,
    b: SlotPolys,
    p: SlotPolys,
    q: SlotPolys,
    t: int,
) -> bool {
    let m = prime::modulus();
    &&& forall|i: int| 0 <= i < t ==> (#[trigger] a.k1[i] - b.k1[i]) % m == (p.k1[i] - q.k1[i]) % m
    &&& forall|i: int| 0 <= i < t ==> (#[trigger] a.k2[i] - b.k2[i]) % m == (p.k2[i] - q.k2[i]) % m
    &&& forall|i: int|
        0 <= i < t ==> (#[trigger] a.k1_blind[i] - b.k1_blind[i]) % m == (p.k1_blind[i]
            - q.k1_blind[i]) % m
    &&& forall|i: int|
        0 <= i < t ==> (#[trigger] a.k2_blind[i] - b.k2_blind[i]) % m == (p.k2_blind[i]
            - q.k2_blind[i]) % m
}

/// Sums over rows that differ in one row differ as that row does.
proof fn combined_differ(rows: Seq<Seq<int>>, others: Seq<Seq<int>>, j: int, t: int)
    requires
        rows.len() == others.len(),
        0 <= j < rows.len(),
        forall|k: int| 0 <= k < rows.len() && k != j ==> #[trigger] rows[k] == others[k],
    ensures
        forall|i: int|
            0 <= i < t ==> (#[trigger] setup::combined(rows, t)[i] - setup::combined(others, t)[i])
                % prime::modulus() == (rows[j][i] - others[j][i]) % prime::modulus(),
{
    let m = prime::modulus();
    assert forall|i: int| 0 <= i < t implies (#[trigger] setup::combined(rows, t)[i]
        - setup::combined(others, t)[i]) % m == (rows[j][i] - others[j][i]) % m by {
        let (a, b) = (pedersen::column_sum(rows, i), pedersen::column_sum(others, i));
        every_row_counts(rows, others, j, i);
        arith::mod_idem(a, m);
        arith::mod_idem(b, m);
        arith::cong_sub(a % m, a, b % m, b, m);
    }
}

/// Every dealer counts in the setup: where only dealer `j` draws otherwise, the
/// polynomials of a slot change exactly as those that it deals.
pub proof fn every_dealer_counts(
    d: Seq<int>,
    e: Seq<int>,
    t: int,
    n: int,
    slots: int,
    j: int,
    slot: int,
)
    requires
        t >= 1,
        0 <= j < n,
        0 <= slot < slots,
        d.len() == 4 * t * n * slots,
        others_same(d, e, t, n, slots, j),
    ensures
        differ_alike(
            setup::setup_polys(d, t, n, slots)[slot],
            setup::setup_polys(e, t, n, slots)[slot],
            setup::dealer(draws_of(d, t, n, slot, j), t),
            setup::dealer(draws_of(e, t, n, slot, j), t),
            t,
        ),
{
    let a = setup::dealers(setup::chunk(d, 4 * t * n, slot), t, n);
    let b = setup::dealers(setup::chunk(e, 4 * t * n, slot), t, n);
    assert forall|i: int| 0 <= i < n implies #[trigger] a[i] == setup::dealer(
        draws_of(d, t, n, slot, i),
        t,
    ) && b[i] == setup::dealer(draws_of(e, t, n, slot, i), t) by {
        chunks_are_draws(d, t, n, slots, slot, i);
        chunks_are_draws(e, t, n, slots, slot, i);
    }
    assert forall|i: int| 0 <= i < n && i != j implies #[trigger] a[i] == b[i] by {
        assert(draws_of(d, t, n, slot, i) =~= draws_of(e, t, n, slot, i)) by {
            assert forall|o: int| 0 <= o < 4 * t implies draws_of(d, t, n, slot, i)[o] == draws_of(
                e,
                t,
                n,
                slot,
                i,
            )[o] by {
                assert(d[place(t, n, slot, i, o)] == e[place(t, n, slot, i, o)]);
            }
        }
    }
    combined_differ(setup::k1_rows(a), setup::k1_rows(b), j, t);
    combined_differ(setup::k2_rows(a), setup::k2_rows(b), j, t);
    combined_differ(setup::k1_blind_rows(a), setup::k1_blind_rows(b), j, t);
    combined_differ(setup::k2_blind_rows(a), setup::k2_blind_rows(b), j, t);
}

// ---------------------------------------------------------------------------
// The draws of one dealer decide everything
// ---------------------------------------------------------------------------

/// The residues `a` for which `a - own` is `target - sum`.
spec fn moved(target: Seq<int>, sum: Seq<int>, own: Seq<int>) -> Seq<int> {
    Seq::new(target.len(), |i: int| (target[i] - sum[i] + own[i]) % prime::modulus())
}

/// The same for the four polynomials of a slot.
spec fn all_moved(target: SlotPolys, sum: SlotPolys, own: SlotPolys) -> SlotPolys {
    SlotPolys {
        k1: moved(target.k1, sum.k1, own.k1),
        k2: moved(target.k2, sum.k2, own.k2),
        k1_blind: moved(target.k1_blind, sum.k1_blind, own.k1_blind),
        k2_blind: moved(target.k2_blind, sum.k2_blind, own.k2_blind),
    }
}

/// Moving is the one way to reach the target.
proof fn moved_reaches(target: Seq<int>, sum: Seq<int>, own: Seq<int>, new: Seq<int>, p: Seq<int>)
    requires
        target.len() == new.len(),
        sum.len() == new.len(),
        own.len() == new.len(),
        p.len() == new.len(),
        poly::reduced(target, prime::modulus()),
        poly::reduced(sum, prime::modulus()),
        poly::reduced(new, prime::modulus()),
        forall|i: int|
            0 <= i < new.len() ==> (#[trigger] new[i] - sum[i]) % prime::modulus() == (p[i]
                - own[i]) % prime::modulus(),
    ensures
        poly::reduced(moved(target, sum, own), prime::modulus()),
        p == moved(target, sum, own) ==> new == target,
        new == target && poly::reduced(p, prime::modulus()) ==> p == moved(target, sum, own),
{
    let m = prime::modulus();
    let q = moved(target, sum, own);
    assert forall|i: int| 0 <= i < q.len() implies 0 <= #[trigger] q[i] < m by {
        arith::mod_idem(target[i] - sum[i] + own[i], m);
    }
    assert forall|i: int| 0 <= i < new.len() && p[i] == q[i] implies #[trigger] new[i]
        == target[i] by {
        let s = target[i] - sum[i] + own[i];
        arith::mod_idem(s, m);
        arith::cong_sub(p[i], s, own[i], own[i], m);
        arith::cong_add(new[i] - sum[i], target[i] - sum[i], sum[i], sum[i], m);
        arith::mod_small(new[i], m);
        arith::mod_small(target[i], m);
    }
    if p == q {
        assert(new =~= target);
    }
    if new == target && poly::reduced(p, m) {
        assert forall|i: int| 0 <= i < new.len() implies p[i] == q[i] by {
            assert((new[i] - sum[i]) % m == (p[i] - own[i]) % m);
            arith::cong_add(p[i] - own[i], target[i] - sum[i], own[i], own[i], m);
            arith::mod_small(p[i], m);
        }
        assert(p =~= q);
    }
}

/// Polynomials in which every coefficient is a residue.
pub open spec fn all_reduced(p: SlotPolys) -> bool {
    &&& poly::reduced(p.k1, prime::modulus())
    &&& poly::reduced(p.k2, prime::modulus())
    &&& poly::reduced(p.k1_blind, prime::modulus())
    &&& poly::reduced(p.k2_blind, prime::modulus())
}

/// Moving is the one way to reach a target slot.
proof fn all_moved_reaches(
    target: SlotPolys,
    sum: SlotPolys,
    own: SlotPolys,
    new: SlotPolys,
    p: SlotPolys,
    t: int,
)
    requires
        t >= 0,
        has_size(target, t),
        has_size(sum, t),
        has_size(own, t),
        has_size(new, t),
        has_size(p, t),
        all_reduced(target),
        all_reduced(sum),
        all_reduced(new),
        differ_alike(new, sum, p, own, t),
    ensures
        all_reduced(all_moved(target, sum, own)),
        p == all_moved(target, sum, own) ==> new == target,
        new == target && all_reduced(p) ==> p == all_moved(target, sum, own),
{
    moved_reaches(target.k1, sum.k1, own.k1, new.k1, p.k1);
    moved_reaches(target.k2, sum.k2, own.k2, new.k2, p.k2);
    moved_reaches(target.k1_blind, sum.k1_blind, own.k1_blind, new.k1_blind, p.k1_blind);
    moved_reaches(target.k2_blind, sum.k2_blind, own.k2_blind, new.k2_blind, p.k2_blind);
}

/// The polynomials of a slot have `t` coefficients, all residues.
proof fn slot_sized(d: Seq<int>, t: int, n: int, slots: int, slot: int)
    requires
        t >= 0,
        0 <= slot < slots,
    ensures
        has_size(setup::setup_polys(d, t, n, slots)[slot], t),
        all_reduced(setup::setup_polys(d, t, n, slots)[slot]),
{
    laws::setup_polys_sized(d, t, n, slots);
    let p = setup::setup_polys(d, t, n, slots);
    assert(laws::is_sized(p[slot].k1, t));
}

/// A list that encodes residues holds residues, and a dealer deals residues from
/// residues.
proof fn encoding_reduced(p: SlotPolys, c: Seq<int>, t: int)
    requires
        t >= 1,
        has_size(p, t),
        c.len() == 4 * t,
    ensures
        all_reduced(p) ==> poly::reduced(encode(p), prime::modulus()),
        poly::reduced(c, prime::modulus()) ==> all_reduced(setup::dealer(c, t)),
{
    let m = prime::modulus();
    let e = encode(p);
    if all_reduced(p) {
        assert forall|o: int| 0 <= o < e.len() implies 0 <= #[trigger] e[o] < m by {
            if o == 0 {
                assert(e[o] == p.k1[0]);
            } else if o == 1 {
                assert(e[o] == p.k2[0]);
            } else if o <= t {
                assert(e[o] == p.k1[o - 1]);
            } else if o < 2 * t {
                assert(e[o] == p.k2[o - t]);
            } else if o < 3 * t {
                assert(e[o] == p.k1_blind[o - 2 * t]);
            } else {
                assert(e[o] == p.k2_blind[o - 3 * t]);
            }
        }
    }
    if poly::reduced(c, m) {
        dealer_reads(c, t);
        let q = setup::dealer(c, t);
        assert forall|i: int| 0 <= i < t implies 0 <= #[trigger] q.k1[i] < m by {
            if i > 0 {
                assert(q.k1[i] == c[i + 1]);
            }
        }
        assert forall|i: int| 0 <= i < t implies 0 <= #[trigger] q.k2[i] < m by {
            if i > 0 {
                assert(q.k2[i] == c[t + i]);
            }
        }
        assert forall|i: int| 0 <= i < t implies 0 <= #[trigger] q.k1_blind[i] < m by {
            assert(q.k1_blind[i] == c[2 * t + i]);
        }
        assert forall|i: int| 0 <= i < t implies 0 <= #[trigger] q.k2_blind[i] < m by {
            assert(q.k2_blind[i] == c[3 * t + i]);
        }
    }
}

/// Draws for a whole setup, all residues.
pub open spec fn are_draws(d: Seq<int>, t: int, n: int, slots: int) -> bool {
    d.len() == 4 * t * n * slots && poly::reduced(d, prime::modulus())
}

/// The draws of dealer `j` replaced, slot by slot.
spec fn replaced(d: Seq<int>, t: int, n: int, j: int, lists: Seq<Seq<int>>) -> Seq<int> {
    Seq::new(
        d.len(),
        |k: int|
            if (k % (4 * t * n)) / (4 * t) == j {
                lists[k / (4 * t * n)][(k % (4 * t * n)) % (4 * t)]
            } else {
                d[k]
            },
    )
}

/// Replacing touches that dealer only, and gives it the new lists.
proof fn replaced_reads(d: Seq<int>, t: int, n: int, slots: int, j: int, lists: Seq<Seq<int>>)
    requires
        t >= 1,
        0 <= j < n,
        slots >= 0,
        are_draws(d, t, n, slots),
        lists.len() == slots,
        forall|s: int|
            0 <= s < slots ==> (#[trigger] lists[s]).len() == 4 * t && poly::reduced(
                lists[s],
                prime::modulus(),
            ),
    ensures
        are_draws(replaced(d, t, n, j, lists), t, n, slots),
        others_same(replaced(d, t, n, j, lists), d, t, n, slots, j),
        forall|s: int|
            0 <= s < slots ==> #[trigger] draws_of(replaced(d, t, n, j, lists), t, n, s, j)
                == lists[s],
{
    let m = prime::modulus();
    let r = replaced(d, t, n, j, lists);
    assert forall|k: int| 0 <= k < r.len() implies 0 <= #[trigger] r[k] < m by {
        let (s, i, o) = place_of(t, n, slots, k);
        if i == j {
            assert(0 <= lists[s][o] < m);
        } else {
            assert(0 <= d[k] < m);
        }
    }
    assert forall|s: int, i: int, o: int|
        0 <= s < slots && 0 <= i < n && i != j && 0 <= o < 4 * t implies r[#[trigger] place(
        t,
        n,
        s,
        i,
        o,
    )] == d[place(t, n, s, i, o)] by {
        place_range(t, n, slots, s, i, o);
    }
    assert forall|s: int| 0 <= s < slots implies #[trigger] draws_of(r, t, n, s, j) == lists[s] by {
        assert forall|o: int| 0 <= o < 4 * t implies draws_of(r, t, n, s, j)[o] == lists[s][o] by {
            place_range(t, n, slots, s, j, o);
        }
        assert(draws_of(r, t, n, s, j) =~= lists[s]);
    }
}

/// One honest dealer is enough: whatever the others draw, every choice of the
/// polynomials of all slots, with `t` coefficients each, comes from draws of dealer
/// `j`, and from one list of them only. The draws reach every setup, and equally
/// often.
pub proof fn any_dealer_decides(
    d: Seq<int>,
    t: int,
    n: int,
    slots: int,
    j: int,
    target: Seq<SlotPolys>,
) -> (e: Seq<int>)
    requires
        t >= 1,
        0 <= j < n,
        are_draws(d, t, n, slots),
        target.len() == slots,
        forall|s: int|
            0 <= s < slots ==> has_size(#[trigger] target[s], t) && all_reduced(target[s]),
    ensures
        are_draws(e, t, n, slots),
        others_same(e, d, t, n, slots, j),
        setup::setup_polys(e, t, n, slots) == target,
        forall|f: Seq<int>| #[trigger]
            are_draws(f, t, n, slots) && others_same(f, d, t, n, slots, j) && setup::setup_polys(
                f,
                t,
                n,
                slots,
            ) == target ==> f == e,
{
    let m = prime::modulus();
    let before = setup::setup_polys(d, t, n, slots);
    let aims = Seq::new(
        slots as nat,
        |s: int| all_moved(target[s], before[s], setup::dealer(draws_of(d, t, n, s, j), t)),
    );
    let lists = Seq::new(slots as nat, |s: int| encode(aims[s]));
    assert forall|s: int| 0 <= s < slots implies (#[trigger] lists[s]).len() == 4 * t
        && poly::reduced(lists[s], m) by {
        let own = setup::dealer(draws_of(d, t, n, s, j), t);
        dealer_reads(draws_of(d, t, n, s, j), t);
        slot_sized(d, t, n, slots, s);
        every_dealer_counts(d, d, t, n, slots, j, s);
        assert(has_size(target[s], t));
        all_moved_reaches(target[s], before[s], own, before[s], own, t);
        dealer_deals_everything(aims[s], t);
        encoding_reduced(aims[s], encode(aims[s]), t);
    }
    replaced_reads(d, t, n, slots, j, lists);
    let e = replaced(d, t, n, j, lists);
    let after = setup::setup_polys(e, t, n, slots);
    assert forall|s: int| 0 <= s < slots implies #[trigger] after[s] == target[s] by {
        let own = setup::dealer(draws_of(d, t, n, s, j), t);
        dealer_reads(draws_of(d, t, n, s, j), t);
        slot_sized(d, t, n, slots, s);
        slot_sized(e, t, n, slots, s);
        every_dealer_counts(e, d, t, n, slots, j, s);
        assert(draws_of(e, t, n, s, j) == lists[s]);
        assert(has_size(target[s], t));
        dealer_deals_everything(aims[s], t);
        all_moved_reaches(target[s], before[s], own, after[s], aims[s], t);
    }
    assert(after =~= target);
    assert forall|f: Seq<int>| #[trigger]
        are_draws(f, t, n, slots) && others_same(f, d, t, n, slots, j) && setup::setup_polys(
            f,
            t,
            n,
            slots,
        ) == target implies f == e by {
        assert forall|k: int| 0 <= k < f.len() implies f[k] == e[k] by {
            let (s, i, o) = place_of(t, n, slots, k);
            if i != j {
                assert(f[place(t, n, s, i, o)] == d[place(t, n, s, i, o)]);
                assert(e[place(t, n, s, i, o)] == d[place(t, n, s, i, o)]);
            } else {
                let own = setup::dealer(draws_of(d, t, n, s, j), t);
                let c = draws_of(f, t, n, s, j);
                let p = setup::dealer(c, t);
                dealer_reads(draws_of(d, t, n, s, j), t);
                dealer_reads(c, t);
                slot_sized(d, t, n, slots, s);
                slot_sized(f, t, n, slots, s);
                every_dealer_counts(f, d, t, n, slots, j, s);
                assert(has_size(target[s], t));
                assert forall|q: int| 0 <= q < c.len() implies 0 <= #[trigger] c[q] < m by {
                    place_range(t, n, slots, s, j, q);
                    assert(0 <= f[place(t, n, s, j, q)] < m);
                }
                encoding_reduced(p, c, t);
                all_moved_reaches(target[s], before[s], own, target[s], p, t);
                assert(p == aims[s]);
                dealer_deals_everything(p, t);
                assert(c == encode(p));
                assert(draws_of(e, t, n, s, j) == lists[s]);
                assert(f[k] == c[o]);
                assert(e[k] == draws_of(e, t, n, s, j)[o]);
            }
        }
        assert(f =~= e);
    }
    e
}

/// Every choice of the polynomials of all slots, with `t` coefficients each, comes
/// from some draws.
pub proof fn every_setup_is_drawn(t: int, n: int, slots: int, target: Seq<SlotPolys>) -> (d: Seq<
    int,
>)
    requires
        t >= 1,
        n >= 1,
        target.len() == slots,
        forall|s: int|
            0 <= s < slots ==> has_size(#[trigger] target[s], t) && all_reduced(target[s]),
    ensures
        are_draws(d, t, n, slots),
        setup::setup_polys(d, t, n, slots) == target,
{
    no_draws(t, n, slots);
    any_dealer_decides(zeros(4 * t * n * slots), t, n, slots, 0, target)
}

/// Zeros.
spec fn zeros(len: int) -> Seq<int> {
    Seq::new(len as nat, |k: int| 0int)
}

/// Zeros are draws.
proof fn no_draws(t: int, n: int, slots: int)
    requires
        t >= 1,
        n >= 1,
        slots >= 0,
    ensures
        are_draws(zeros(4 * t * n * slots), t, n, slots),
{
    assert(4 * t * n * slots >= 0) by (nonlinear_arith)
        requires
            t >= 1,
            n >= 1,
            slots >= 0,
    ;
}

// ---------------------------------------------------------------------------
// Secrecy
// ---------------------------------------------------------------------------

/// The polynomials plus others, in the field.
pub open spec fn shifted(p: SlotPolys, q: SlotPolys) -> SlotPolys {
    SlotPolys {
        k1: laws::sum(p.k1, q.k1),
        k2: laws::sum(p.k2, q.k2),
        k1_blind: laws::sum(p.k1_blind, q.k1_blind),
        k2_blind: laws::sum(p.k2_blind, q.k2_blind),
    }
}

/// Adding the list carries these draws to draws, and so does subtracting it, and each
/// undoes the other.
pub open spec fn carried(d: Seq<int>, list: Seq<int>, t: int, n: int, slots: int) -> bool {
    are_draws(d, t, n, slots) ==> {
        &&& are_draws(laws::sum(d, list), t, n, slots)
        &&& are_draws(laws::difference(d, list), t, n, slots)
        &&& laws::difference(laws::sum(d, list), list) == d
        &&& laws::sum(laws::difference(d, list), list) == d
    }
}

/// Adding the list carries all draws one to one to all draws.
pub open spec fn is_shift(list: Seq<int>, t: int, n: int, slots: int) -> bool {
    &&& are_draws(list, t, n, slots)
    &&& forall|d: Seq<int>| #[trigger] carried(d, list, t, n, slots)
}

/// Adding the list to draws adds the polynomials to those of a slot, and leaves the
/// other slots as they are.
pub open spec fn shifts_slot(
    list: Seq<int>,
    t: int,
    n: int,
    slots: int,
    slot: int,
    q: SlotPolys,
) -> bool {
    forall|d: Seq<int>| #[trigger]
        are_draws(d, t, n, slots) ==> {
            let before = setup::setup_polys(d, t, n, slots);
            let after = setup::setup_polys(laws::sum(d, list), t, n, slots);
            after == before.update(slot, shifted(before[slot], q))
        }
}

/// Every list of draws is a shift.
proof fn draws_shift(list: Seq<int>, t: int, n: int, slots: int)
    requires
        are_draws(list, t, n, slots),
    ensures
        is_shift(list, t, n, slots),
{
    let m = prime::modulus();
    assert forall|d: Seq<int>| are_draws(d, t, n, slots) implies #[trigger] carried(
        d,
        list,
        t,
        n,
        slots,
    ) by {
        let (a, b) = (laws::sum(d, list), laws::difference(d, list));
        assert forall|k: int| 0 <= k < d.len() implies 0 <= #[trigger] a[k] < m && 0 <= b[k]
            < m by {
            arith::mod_idem(d[k] + list[k], m);
            arith::mod_idem(d[k] - list[k], m);
        }
        assert forall|k: int| 0 <= k < d.len() implies 0 <= #[trigger] b[k] < m by {
            assert(0 <= a[k] < m);
        }
        assert forall|k: int| 0 <= k < d.len() implies (a[k] - list[k]) % m == d[k] && (b[k]
            + list[k]) % m == d[k] by {
            arith::mod_idem(d[k] + list[k], m);
            arith::mod_idem(d[k] - list[k], m);
            arith::cong_sub(a[k], d[k] + list[k], list[k], list[k], m);
            arith::cong_add(b[k], d[k] - list[k], list[k], list[k], m);
            arith::mod_small(d[k], m);
        }
        assert(laws::difference(a, list) =~= d);
        assert(laws::sum(b, list) =~= d);
    }
    assert forall|d: Seq<int>| #[trigger] carried(d, list, t, n, slots) by {
        assert(are_draws(d, t, n, slots) ==> carried(d, list, t, n, slots));
    }
}

/// A list for one slot, and zeros for the others.
spec fn slot_lists(t: int, slots: int, slot: int, c: Seq<int>) -> Seq<Seq<int>> {
    Seq::new(
        slots as nat,
        |s: int|
            if s == slot {
                c
            } else {
                zeros(4 * t)
            },
    )
}

/// Draws of dealer `j` for one slot alone.
spec fn slot_list(t: int, n: int, slots: int, j: int, slot: int, c: Seq<int>) -> Seq<int> {
    replaced(zeros(4 * t * n * slots), t, n, j, slot_lists(t, slots, slot, c))
}

/// Residues that differ by `q` modulo the order are the sum with `q`.
proof fn sum_from_difference(a: Seq<int>, b: Seq<int>, q: Seq<int>)
    requires
        a.len() == q.len(),
        b.len() == q.len(),
        poly::reduced(a, prime::modulus()),
        forall|i: int|
            0 <= i < q.len() ==> (#[trigger] a[i] - b[i]) % prime::modulus() == q[i]
                % prime::modulus(),
    ensures
        a == laws::sum(b, q),
{
    let m = prime::modulus();
    assert forall|i: int| 0 <= i < a.len() implies a[i] == laws::sum(b, q)[i] by {
        assert((a[i] - b[i]) % m == q[i] % m);
        arith::cong_add(a[i] - b[i], q[i], b[i], b[i], m);
        arith::mod_small(a[i], m);
    }
    assert(a =~= laws::sum(b, q));
}

/// A list of draws that shifts one slot by given polynomials, through dealer `j`.
pub proof fn slot_shift(t: int, n: int, slots: int, j: int, slot: int, q: SlotPolys) -> (list: Seq<
    int,
>)
    requires
        t >= 1,
        0 <= j < n,
        0 <= slot < slots,
        has_size(q, t),
        all_reduced(q),
    ensures
        is_shift(list, t, n, slots),
        shifts_slot(list, t, n, slots, slot, q),
{
    let m = prime::modulus();
    let c = encode(q);
    let none = zeros(4 * t * n * slots);
    let lists = slot_lists(t, slots, slot, c);
    let list = slot_list(t, n, slots, j, slot, c);
    no_draws(t, n, slots);
    dealer_deals_everything(q, t);
    encoding_reduced(q, c, t);
    replaced_reads(none, t, n, slots, j, lists);
    draws_shift(list, t, n, slots);
    assert forall|d: Seq<int>| #[trigger] are_draws(d, t, n, slots) implies {
        let before = setup::setup_polys(d, t, n, slots);
        let after = setup::setup_polys(laws::sum(d, list), t, n, slots);
        after == before.update(slot, shifted(before[slot], q))
    } by {
        let e = laws::sum(d, list);
        let before = setup::setup_polys(d, t, n, slots);
        let after = setup::setup_polys(e, t, n, slots);
        shift_others(d, list, t, n, slots, j, slot, c);
        assert forall|s: int| 0 <= s < slots implies #[trigger] after[s] == before.update(
            slot,
            shifted(before[slot], q),
        )[s] by {
            slot_sized(d, t, n, slots, s);
            slot_sized(e, t, n, slots, s);
            every_dealer_counts(e, d, t, n, slots, j, s);
            if s == slot {
                shift_own(d, list, t, n, slots, j, slot, q);
                sum_from_difference(after[s].k1, before[s].k1, q.k1);
                sum_from_difference(after[s].k2, before[s].k2, q.k2);
                sum_from_difference(after[s].k1_blind, before[s].k1_blind, q.k1_blind);
                sum_from_difference(after[s].k2_blind, before[s].k2_blind, q.k2_blind);
            } else {
                let own = setup::dealer(draws_of(d, t, n, s, j), t);
                dealer_reads(draws_of(d, t, n, s, j), t);
                assert(draws_of(e, t, n, s, j) == draws_of(d, t, n, s, j));
                same_slot(after[s].k1, before[s].k1, own.k1);
                same_slot(after[s].k2, before[s].k2, own.k2);
                same_slot(after[s].k1_blind, before[s].k1_blind, own.k1_blind);
                same_slot(after[s].k2_blind, before[s].k2_blind, own.k2_blind);
            }
        }
        assert(after =~= before.update(slot, shifted(before[slot], q)));
    }
    list
}

/// Residues that differ by nothing are equal.
proof fn same_slot(a: Seq<int>, b: Seq<int>, own: Seq<int>)
    requires
        a.len() == own.len(),
        b.len() == own.len(),
        poly::reduced(a, prime::modulus()),
        poly::reduced(b, prime::modulus()),
        forall|i: int|
            0 <= i < own.len() ==> (#[trigger] a[i] - b[i]) % prime::modulus() == (own[i] - own[i])
                % prime::modulus(),
    ensures
        a == b,
{
    let m = prime::modulus();
    arith::mod_small(0, m);
    assert forall|i: int| 0 <= i < a.len() implies a[i] == b[i] by {
        assert((a[i] - b[i]) % m == (own[i] - own[i]) % m);
        lemma_mod_equivalence(a[i], b[i], m);
        arith::mod_small(a[i], m);
        arith::mod_small(b[i], m);
    }
    assert(a =~= b);
}

/// Adding such a list leaves the other dealers and the other slots alone.
proof fn shift_others(
    d: Seq<int>,
    list: Seq<int>,
    t: int,
    n: int,
    slots: int,
    j: int,
    slot: int,
    c: Seq<int>,
)
    requires
        t >= 1,
        0 <= j < n,
        0 <= slot < slots,
        are_draws(d, t, n, slots),
        c.len() == 4 * t,
        poly::reduced(c, prime::modulus()),
        list == slot_list(t, n, slots, j, slot, c),
    ensures
        list.len() == d.len(),
        others_same(laws::sum(d, list), d, t, n, slots, j),
        draws_of(list, t, n, slot, j) == c,
        forall|s: int|
            0 <= s < slots && s != slot ==> #[trigger] draws_of(laws::sum(d, list), t, n, s, j)
                == draws_of(d, t, n, s, j),
{
    let m = prime::modulus();
    let none = zeros(4 * t * n * slots);
    let lists = slot_lists(t, slots, slot, c);
    let e = laws::sum(d, list);
    no_draws(t, n, slots);
    replaced_reads(none, t, n, slots, j, lists);
    assert(draws_of(list, t, n, slot, j) == lists[slot]);
    assert forall|s: int, i: int, o: int|
        0 <= s < slots && 0 <= i < n && i != j && 0 <= o < 4 * t implies e[#[trigger] place(
        t,
        n,
        s,
        i,
        o,
    )] == d[place(t, n, s, i, o)] by {
        let k = place(t, n, s, i, o);
        place_range(t, n, slots, s, i, o);
        assert(list[k] == none[k]);
        arith::mod_small(d[k], m);
    }
    assert forall|s: int| 0 <= s < slots && s != slot implies #[trigger] draws_of(e, t, n, s, j)
        == draws_of(d, t, n, s, j) by {
        assert(draws_of(list, t, n, s, j) == lists[s]);
        assert forall|o: int| 0 <= o < 4 * t implies draws_of(e, t, n, s, j)[o] == draws_of(
            d,
            t,
            n,
            s,
            j,
        )[o] by {
            let k = place(t, n, s, j, o);
            place_range(t, n, slots, s, j, o);
            assert(list[k] == draws_of(list, t, n, s, j)[o]);
            arith::mod_small(d[k], m);
        }
        assert(draws_of(e, t, n, s, j) =~= draws_of(d, t, n, s, j));
    }
}

/// Adding such a list adds the encoded polynomials to those of the dealer.
proof fn shift_own(
    d: Seq<int>,
    list: Seq<int>,
    t: int,
    n: int,
    slots: int,
    j: int,
    slot: int,
    q: SlotPolys,
)
    requires
        t >= 1,
        0 <= j < n,
        0 <= slot < slots,
        d.len() == 4 * t * n * slots,
        list.len() == d.len(),
        has_size(q, t),
        draws_of(list, t, n, slot, j) == encode(q),
    ensures
        ({
            let m = prime::modulus();
            let a = setup::dealer(draws_of(laws::sum(d, list), t, n, slot, j), t);
            let b = setup::dealer(draws_of(d, t, n, slot, j), t);
            &&& forall|i: int| 0 <= i < t ==> (#[trigger] a.k1[i] - b.k1[i]) % m == q.k1[i] % m
            &&& forall|i: int| 0 <= i < t ==> (#[trigger] a.k2[i] - b.k2[i]) % m == q.k2[i] % m
            &&& forall|i: int|
                0 <= i < t ==> (#[trigger] a.k1_blind[i] - b.k1_blind[i]) % m == q.k1_blind[i] % m
            &&& forall|i: int|
                0 <= i < t ==> (#[trigger] a.k2_blind[i] - b.k2_blind[i]) % m == q.k2_blind[i] % m
        }),
{
    let m = prime::modulus();
    let e = laws::sum(d, list);
    let c = encode(q);
    let (u, v) = (draws_of(e, t, n, slot, j), draws_of(d, t, n, slot, j));
    let (a, b) = (setup::dealer(u, t), setup::dealer(v, t));
    dealer_deals_everything(q, t);
    dealer_reads(u, t);
    dealer_reads(v, t);
    dealer_reads(c, t);
    assert forall|o: int| 0 <= o < 4 * t implies (#[trigger] u[o] - v[o]) % m == c[o] % m by {
        let k = place(t, n, slot, j, o);
        place_range(t, n, slots, slot, j, o);
        assert(list[k] == draws_of(list, t, n, slot, j)[o]);
        arith::mod_idem(d[k] + list[k], m);
        arith::cong_sub(u[o], v[o] + c[o], v[o], v[o], m);
    }
    assert forall|i: int| 0 <= i < t implies (#[trigger] a.k1[i] - b.k1[i]) % m == q.k1[i] % m by {
        let o = if i == 0 {
            0
        } else {
            i + 1
        };
        assert((u[o] - v[o]) % m == c[o] % m);
        assert(q.k1[i] == setup::dealer(c, t).k1[i]);
        assert(a.k1[i] == u[o] && b.k1[i] == v[o]);
    }
    assert forall|i: int| 0 <= i < t implies (#[trigger] a.k2[i] - b.k2[i]) % m == q.k2[i] % m by {
        let o = if i == 0 {
            1
        } else {
            t + i
        };
        assert((u[o] - v[o]) % m == c[o] % m);
        assert(q.k2[i] == setup::dealer(c, t).k2[i]);
        assert(a.k2[i] == u[o] && b.k2[i] == v[o]);
    }
    assert forall|i: int| 0 <= i < t implies (#[trigger] a.k1_blind[i] - b.k1_blind[i]) % m
        == q.k1_blind[i] % m by {
        let o = 2 * t + i;
        assert((u[o] - v[o]) % m == c[o] % m);
        assert(q.k1_blind[i] == setup::dealer(c, t).k1_blind[i]);
    }
    assert forall|i: int| 0 <= i < t implies (#[trigger] a.k2_blind[i] - b.k2_blind[i]) % m
        == q.k2_blind[i] % m by {
        let o = 3 * t + i;
        assert((u[o] - v[o]) % m == c[o] % m);
        assert(q.k2_blind[i] == setup::dealer(c, t).k2_blind[i]);
    }
}

/// Different members of the setup, counted from zero.
pub open spec fn are_members(members: Seq<int>, n: int) -> bool {
    &&& forall|i: int| 0 <= i < members.len() ==> 0 <= #[trigger] members[i] < n
    &&& forall|i: int, j: int|
        #![trigger members[i], members[j]]
        0 <= i < j < members.len() ==> members[i] != members[j]
}

/// The polynomials have the same values at the index of a member.
pub open spec fn same_shares(p: SlotPolys, q: SlotPolys, member: int) -> bool {
    let m = prime::modulus();
    &&& poly::eval(p.k1, member + 1) % m == poly::eval(q.k1, member + 1) % m
    &&& poly::eval(p.k2, member + 1) % m == poly::eval(q.k2, member + 1) % m
    &&& poly::eval(p.k1_blind, member + 1) % m == poly::eval(q.k1_blind, member + 1) % m
    &&& poly::eval(p.k2_blind, member + 1) % m == poly::eval(q.k2_blind, member + 1) % m
}

/// The members hold the same shares of every slot.
pub open spec fn same_holdings(p: Seq<SlotPolys>, q: Seq<SlotPolys>, members: Seq<int>) -> bool {
    &&& p.len() == q.len()
    &&& forall|s: int, i: int|
        #![trigger p[s], members[i]]
        0 <= s < p.len() && 0 <= i < members.len() ==> same_shares(p[s], q[s], members[i])
}

/// The Pedersen commitments of every slot are the same.
pub open spec fn same_commitments(p: Seq<SlotPolys>, q: Seq<SlotPolys>) -> bool {
    &&& p.len() == q.len()
    &&& forall|s: int, i: int|
        #![trigger p[s].k1[i]]
        #![trigger p[s].k2[i]]
        0 <= s < p.len() && 0 <= i < p[s].k1.len() ==> {
            let (a, b) = (p[s], q[s]);
            let (h, m) = (pedersen::h_log(), prime::modulus());
            &&& (a.k1[i] + h * a.k1_blind[i]) % m == (b.k1[i] + h * b.k1_blind[i]) % m
            &&& (a.k2[i] + h * a.k2_blind[i]) % m == (b.k2[i] + h * b.k2_blind[i]) % m
        }
}

/// The first coefficient of a slot moves by `a` and the second by `b`, and the other
/// slots stay as they are.
pub open spec fn coefficients_moved(
    before: Seq<SlotPolys>,
    after: Seq<SlotPolys>,
    slot: int,
    a: int,
    b: int,
) -> bool {
    &&& after.len() == before.len()
    &&& after[slot].k1[0] == (before[slot].k1[0] + a) % prime::modulus()
    &&& after[slot].k2[0] == (before[slot].k2[0] + b) % prime::modulus()
    &&& forall|s: int| 0 <= s < before.len() && s != slot ==> #[trigger] after[s] == before[s]
}

/// A polynomial with `t` coefficients and a given constant term that vanishes at the
/// indices of fewer than `t` members.
proof fn vanishing_poly(members: Seq<int>, n: int, t: int, a: int) -> (q: Seq<int>)
    requires
        are_members(members, n),
        members.len() < t,
        n <= u32::MAX,
    ensures
        q.len() == t,
        poly::reduced(q, prime::modulus()),
        q[0] == a % prime::modulus(),
        forall|i: int|
            0 <= i < members.len() ==> poly::eval(q, #[trigger] members[i] + 1) % prime::modulus()
                == 0,
{
    let m = prime::modulus();
    let k = members.len() as int;
    let xs = Seq::new(members.len(), |i: int| members[i] + 1).push(0);
    let ys = zeros(k).push(a % m);
    prime::modulus_is_prime();
    assert forall|i: int, j: int|
        #![trigger xs[i], xs[j]]
        0 <= i < j < xs.len() implies (xs[i] - xs[j]) % m != 0 by {
        assert(0 <= members[i] < n);
        arith::mod_small(xs[i], m);
        if j < k {
            assert(members[i] != members[j]);
            assert(0 <= members[j] < n);
            arith::mod_small(xs[j], m);
        } else {
            arith::mod_small(0, m);
        }
        lemma_mod_equivalence(xs[i], xs[j], m);
    }
    poly::interpolation_exists(xs, ys, m);
    let low = poly::interpolant(xs, ys, m);
    let q = low + zeros(t - k - 1);
    assert(q.take(k + 1) =~= low);
    assert forall|x: int| #[trigger] poly::eval(q, x) == poly::eval(low, x) by {
        decoding::trailing_zeros(q, k + 1, x);
    }
    arith::mod_small(0, m);
    assert forall|i: int| 0 <= i < k implies poly::eval(q, #[trigger] members[i] + 1) % m == 0 by {
        assert(xs[i] == members[i] + 1);
        assert(ys[i] == 0);
        assert(poly::eval(low, xs[i]) % m == ys[i] % m);
    }
    assert(q[0] == a % m) by {
        assert(xs[k] == 0);
        assert(poly::eval(low, xs[k]) % m == ys[k] % m);
        poly::eval_zero(low);
        arith::mod_idem(a, m);
        assert(0 <= low[0] < m);
        arith::mod_small(low[0], m);
    }
    assert forall|i: int| 0 <= i < q.len() implies 0 <= #[trigger] q[i] < m by {
        if i <= k {
            assert(q[i] == low[i]);
        }
    }
    q
}

/// Adding a polynomial that vanishes at a point keeps the value there.
proof fn sum_keeps_value(p: Seq<int>, q: Seq<int>, x: int)
    requires
        p.len() == q.len(),
        poly::eval(q, x) % prime::modulus() == 0,
    ensures
        poly::eval(laws::sum(p, q), x) % prime::modulus() == poly::eval(p, x) % prime::modulus(),
{
    let m = prime::modulus();
    let s = poly::plus(p, q);
    let r = laws::sum(p, q);
    poly::eval_plus(p, q, x);
    assert forall|i: int| 0 <= i < r.len() implies #[trigger] r[i] % m == s[i] % m by {
        arith::mod_idem(p[i] + q[i], m);
    }
    poly::eval_cong(r, s, x, x, m);
    arith::mod_small(0, m);
    arith::cong_add(poly::eval(p, x), poly::eval(p, x), poly::eval(q, x), 0, m);
}

/// Shifting by polynomials that vanish at some members keeps what they hold.
proof fn shift_keeps_holdings(
    before: Seq<SlotPolys>,
    t: int,
    slot: int,
    q: SlotPolys,
    members: Seq<int>,
)
    requires
        0 <= slot < before.len(),
        has_size(before[slot], t),
        has_size(q, t),
        forall|i: int|
            0 <= i < members.len() ==> {
                let x = #[trigger] members[i] + 1;
                &&& poly::eval(q.k1, x) % prime::modulus() == 0
                &&& poly::eval(q.k2, x) % prime::modulus() == 0
                &&& poly::eval(q.k1_blind, x) % prime::modulus() == 0
                &&& poly::eval(q.k2_blind, x) % prime::modulus() == 0
            },
    ensures
        same_holdings(before, before.update(slot, shifted(before[slot], q)), members),
{
    let after = before.update(slot, shifted(before[slot], q));
    assert forall|s: int, i: int|
        #![trigger before[s], members[i]]
        0 <= s < before.len() && 0 <= i < members.len() implies same_shares(
        before[s],
        after[s],
        members[i],
    ) by {
        if s == slot {
            let x = members[i] + 1;
            sum_keeps_value(before[s].k1, q.k1, x);
            sum_keeps_value(before[s].k2, q.k2, x);
            sum_keeps_value(before[s].k1_blind, q.k1_blind, x);
            sum_keeps_value(before[s].k2_blind, q.k2_blind, x);
        }
    }
}

/// Splitting reaches every polynomial with the secret as its constant term and `t`
/// coefficients, from one list of draws each.
pub proof fn split_reaches_everything(secret: int, p: Seq<int>, t: int)
    requires
        t >= 1,
        p.len() == t,
        p[0] == secret,
    ensures
        p.skip(1).len() == t - 1,
        shamir::split_polynomial(secret, p.skip(1)) == p,
        forall|d: Seq<int>| #[trigger]
            shamir::split_polynomial(secret, d) == p ==> d == p.skip(1),
{
    assert(shamir::split_polynomial(secret, p.skip(1)) =~= p);
    assert forall|d: Seq<int>| #[trigger] shamir::split_polynomial(secret, d) == p implies d
        == p.skip(1) by {
        let q = shamir::split_polynomial(secret, d);
        assert forall|i: int| 0 <= i < d.len() implies d[i] == p.skip(1)[i] by {
            assert(q[i + 1] == d[i]);
        }
        assert(d =~= p.skip(1));
    }
}

/// Secrecy of splitting: fewer than `t` members learn nothing of the secret. For any
/// two secrets there is a list whose addition to the draws gives those members, with
/// the second secret, the shares that they got with the first; subtracting it undoes
/// that.
pub proof fn fewer_shares_tell_nothing(
    t: int,
    n: int,
    members: Seq<int>,
    secret: int,
    other: int,
) -> (list: Seq<int>)
    requires
        n <= u32::MAX,
        are_members(members, n),
        members.len() < t,
    ensures
        list.len() == t - 1,
        poly::reduced(list, prime::modulus()),
        forall|d: Seq<int>, i: int|
            #![trigger shamir::split_polynomial(secret, d), members[i]]
            d.len() == t - 1 && 0 <= i < members.len() ==> poly::eval(
                shamir::split_polynomial(other, laws::sum(d, list)),
                members[i] + 1,
            ) % prime::modulus() == poly::eval(
                shamir::split_polynomial(secret, d),
                members[i] + 1,
            ) % prime::modulus(),
        forall|d: Seq<int>|
            #![trigger laws::sum(d, list)]
            d.len() == t - 1 && poly::reduced(d, prime::modulus()) ==> laws::difference(
                laws::sum(d, list),
                list,
            ) == d,
{
    let m = prime::modulus();
    let q = vanishing_poly(members, n, t, other - secret);
    let list = q.skip(1);
    assert forall|i: int| 0 <= i < list.len() implies 0 <= #[trigger] list[i] < m by {
        assert(0 <= q[i + 1] < m);
    }
    assert forall|d: Seq<int>, i: int|
        #![trigger shamir::split_polynomial(secret, d), members[i]]
        d.len() == t - 1 && 0 <= i < members.len() implies poly::eval(
        shamir::split_polynomial(other, laws::sum(d, list)),
        members[i] + 1,
    ) % m == poly::eval(shamir::split_polynomial(secret, d), members[i] + 1) % m by {
        let p = shamir::split_polynomial(secret, d);
        let r = shamir::split_polynomial(other, laws::sum(d, list));
        let s = laws::sum(p, q);
        let x = members[i] + 1;
        sum_keeps_value(p, q, x);
        assert forall|k: int| 0 <= k < r.len() implies #[trigger] r[k] % m == s[k] % m by {
            if k == 0 {
                arith::mod_idem(other - secret, m);
                arith::mod_idem(secret + q[0], m);
                arith::cong_add(secret, secret, q[0], other - secret, m);
            } else {
                assert(r[k] == laws::sum(d, list)[k - 1]);
                assert(p[k] == d[k - 1] && q[k] == list[k - 1]);
            }
        }
        poly::eval_cong(r, s, x, x, m);
    }
    assert forall|d: Seq<int>|
        #![trigger laws::sum(d, list)]
        d.len() == t - 1 && poly::reduced(d, m) implies laws::difference(
        laws::sum(d, list),
        list,
    ) == d by {
        laws::sum_difference(d, list);
    }
    list
}

/// Secrecy of the setup: fewer than `t` members learn nothing of the two coefficients
/// of a slot. For any `a` and `b` there is a list whose addition carries all draws one
/// to one to all draws, gives those members the shares that they held, changes no
/// blinding polynomial and no other slot, and moves the first coefficient by `a` and
/// the second by `b`. So the draws that go with what they hold are as many for any
/// two coefficients as for any other two.
pub proof fn fewer_members_learn_nothing(
    t: int,
    n: int,
    slots: int,
    slot: int,
    members: Seq<int>,
    a: int,
    b: int,
) -> (list: Seq<int>)
    requires
        t >= 1,
        1 <= n <= u32::MAX,
        0 <= slot < slots,
        are_members(members, n),
        members.len() < t,
    ensures
        is_shift(list, t, n, slots),
        forall|d: Seq<int>| #[trigger]
            are_draws(d, t, n, slots) ==> {
                let before = setup::setup_polys(d, t, n, slots);
                let after = setup::setup_polys(laws::sum(d, list), t, n, slots);
                &&& same_holdings(before, after, members)
                &&& coefficients_moved(before, after, slot, a, b)
                &&& after[slot].k1_blind == before[slot].k1_blind
                &&& after[slot].k2_blind == before[slot].k2_blind
            },
{
    let m = prime::modulus();
    let q1 = vanishing_poly(members, n, t, a);
    let q2 = vanishing_poly(members, n, t, b);
    let none = zeros(t);
    let q = SlotPolys { k1: q1, k2: q2, k1_blind: none, k2_blind: none };
    arith::mod_small(0, m);
    assert forall|x: int| #[trigger] poly::eval(none, x) % m == 0 by {
        assert forall|i: int| 0 <= i < none.len() implies #[trigger] none[i] % m == 0 by {}
        poly::eval_vanishing(none, x, m);
    }
    let list = slot_shift(t, n, slots, 0, slot, q);
    assert forall|d: Seq<int>| #[trigger] are_draws(d, t, n, slots) implies {
        let before = setup::setup_polys(d, t, n, slots);
        let after = setup::setup_polys(laws::sum(d, list), t, n, slots);
        &&& same_holdings(before, after, members)
        &&& coefficients_moved(before, after, slot, a, b)
        &&& after[slot].k1_blind == before[slot].k1_blind
        &&& after[slot].k2_blind == before[slot].k2_blind
    } by {
        let before = setup::setup_polys(d, t, n, slots);
        slot_sized(d, t, n, slots, slot);
        shift_keeps_holdings(before, t, slot, q, members);
        shift_moves(before, t, slot, q, a, b);
        sum_with_zeros(before[slot].k1_blind);
        sum_with_zeros(before[slot].k2_blind);
    }
    list
}

/// Shifting by polynomials with the constant terms `a` and `b` moves the two
/// coefficients by them.
proof fn shift_moves(before: Seq<SlotPolys>, t: int, slot: int, q: SlotPolys, a: int, b: int)
    requires
        t >= 1,
        0 <= slot < before.len(),
        has_size(before[slot], t),
        has_size(q, t),
        q.k1[0] == a % prime::modulus(),
        q.k2[0] == b % prime::modulus(),
    ensures
        coefficients_moved(
            before,
            before.update(slot, shifted(before[slot], q)),
            slot,
            a,
            b,
        ),
{
    let m = prime::modulus();
    let p = before[slot];
    arith::mod_idem(a, m);
    arith::mod_idem(b, m);
    arith::cong_add(p.k1[0], p.k1[0], a % m, a, m);
    arith::cong_add(p.k2[0], p.k2[0], b % m, b, m);
}

/// Adding zeros changes no residue.
proof fn sum_with_zeros(p: Seq<int>)
    requires
        poly::reduced(p, prime::modulus()),
    ensures
        laws::sum(p, zeros(p.len() as int)) == p,
{
    assert forall|i: int| 0 <= i < p.len() implies laws::sum(p, zeros(p.len() as int))[i]
        == p[i] by {
        arith::mod_small(p[i], prime::modulus());
    }
    assert(laws::sum(p, zeros(p.len() as int)) =~= p);
}

/// The blinding polynomial that makes up for adding `q` to what is committed to.
proof fn making_up(q: Seq<int>, members: Seq<int>) -> (r: Seq<int>)
    requires
        pedersen::h_exists(),
        forall|i: int|
            0 <= i < members.len() ==> poly::eval(q, #[trigger] members[i] + 1) % prime::modulus()
                == 0,
    ensures
        r.len() == q.len(),
        poly::reduced(r, prime::modulus()),
        forall|i: int|
            0 <= i < members.len() ==> poly::eval(r, #[trigger] members[i] + 1) % prime::modulus()
                == 0,
        forall|i: int|
            0 <= i < q.len() ==> (#[trigger] q[i] + pedersen::h_log() * r[i]) % prime::modulus()
                == 0,
{
    let m = prime::modulus();
    let h = pedersen::h_log();
    prime::modulus_is_prime();
    pedersen::second_generator();
    arith::mod_small(h, m);
    let g = arith::prime_has_inverse(h, m);
    let s = poly::scale(-g, q);
    let r = poly::reduce(s, m);
    arith::mod_small(0, m);
    arith::mod_small(1, m);
    assert forall|i: int| 0 <= i < r.len() implies 0 <= #[trigger] r[i] < m && r[i] % m == s[i]
        % m by {
        arith::mod_idem(s[i], m);
    }
    assert forall|i: int| 0 <= i < members.len() implies poly::eval(r, #[trigger] members[i] + 1)
        % m == 0 by {
        let x = members[i] + 1;
        poly::eval_cong(r, s, x, x, m);
        poly::eval_scale(-g, q, x);
        arith::cong_mul(-g, -g, poly::eval(q, x), 0, m);
        assert((-g) * 0 == 0);
    }
    assert forall|i: int| 0 <= i < q.len() implies (#[trigger] q[i] + h * r[i]) % m == 0 by {
        assert(r[i] % m == s[i] % m);
        arith::cong_mul(h, h, r[i], s[i], m);
        assert(h * (-g * q[i]) == -((h * g) * q[i])) by (nonlinear_arith);
        arith::cong_mul(h * g, 1, q[i], q[i], m);
        arith::cong_sub(0, 0, (h * g) * q[i], 1 * q[i], m);
        assert(1 * q[i] == q[i]);
        arith::cong_add(q[i], q[i], h * r[i], -q[i], m);
    }
    r
}

/// Adding polynomials that make up for each other keeps a commitment.
proof fn sum_keeps_commitment(p: Seq<int>, b: Seq<int>, q: Seq<int>, r: Seq<int>, i: int)
    requires
        0 <= i < p.len(),
        p.len() == q.len(),
        b.len() == q.len(),
        r.len() == q.len(),
        (q[i] + pedersen::h_log() * r[i]) % prime::modulus() == 0,
    ensures
        (laws::sum(p, q)[i] + pedersen::h_log() * laws::sum(b, r)[i]) % prime::modulus() == (p[i]
            + pedersen::h_log() * b[i]) % prime::modulus(),
{
    let m = prime::modulus();
    let h = pedersen::h_log();
    arith::mod_small(0, m);
    arith::mod_idem(p[i] + q[i], m);
    arith::mod_idem(b[i] + r[i], m);
    arith::cong_mul(h, h, (b[i] + r[i]) % m, b[i] + r[i], m);
    arith::cong_add((p[i] + q[i]) % m, p[i] + q[i], h * ((b[i] + r[i]) % m), h * (b[i] + r[i]), m);
    lemma_mul_is_distributive_add(h, b[i], r[i]);
    arith::cong_add(p[i] + h * b[i], p[i] + h * b[i], q[i] + h * r[i], 0, m);
}

/// Secrecy of the setup under the Pedersen profile: fewer than `t` members learn
/// nothing of the two coefficients of a slot from their shares and the commitments
/// together. For any `a` and `b` there is a list whose addition carries all draws one
/// to one to all draws, gives those members the shares that they held, keeps every
/// commitment and every other slot, and moves the first coefficient by `a` and the
/// second by `b`.
pub proof fn commitments_tell_nothing(
    t: int,
    n: int,
    slots: int,
    slot: int,
    members: Seq<int>,
    a: int,
    b: int,
) -> (list: Seq<int>)
    requires
        pedersen::h_exists(),
        t >= 1,
        1 <= n <= u32::MAX,
        0 <= slot < slots,
        are_members(members, n),
        members.len() < t,
    ensures
        is_shift(list, t, n, slots),
        forall|d: Seq<int>| #[trigger]
            are_draws(d, t, n, slots) ==> {
                let before = setup::setup_polys(d, t, n, slots);
                let after = setup::setup_polys(laws::sum(d, list), t, n, slots);
                &&& same_holdings(before, after, members)
                &&& same_commitments(before, after)
                &&& coefficients_moved(before, after, slot, a, b)
            },
{
    let m = prime::modulus();
    let q1 = vanishing_poly(members, n, t, a);
    let q2 = vanishing_poly(members, n, t, b);
    let r1 = making_up(q1, members);
    let r2 = making_up(q2, members);
    let q = SlotPolys { k1: q1, k2: q2, k1_blind: r1, k2_blind: r2 };
    let list = slot_shift(t, n, slots, 0, slot, q);
    assert forall|d: Seq<int>| #[trigger] are_draws(d, t, n, slots) implies {
        let before = setup::setup_polys(d, t, n, slots);
        let after = setup::setup_polys(laws::sum(d, list), t, n, slots);
        &&& same_holdings(before, after, members)
        &&& same_commitments(before, after)
        &&& coefficients_moved(before, after, slot, a, b)
    } by {
        let before = setup::setup_polys(d, t, n, slots);
        slot_sized(d, t, n, slots, slot);
        shift_keeps_holdings(before, t, slot, q, members);
        shift_moves(before, t, slot, q, a, b);
        shift_keeps_commitments(before, t, slot, q);
    }
    list
}

/// Shifting by polynomials that make up for each other keeps the commitments.
proof fn shift_keeps_commitments(before: Seq<SlotPolys>, t: int, slot: int, q: SlotPolys)
    requires
        0 <= slot < before.len(),
        has_size(before[slot], t),
        has_size(q, t),
        forall|i: int|
            0 <= i < t ==> (#[trigger] q.k1[i] + pedersen::h_log() * q.k1_blind[i])
                % prime::modulus() == 0,
        forall|i: int|
            0 <= i < t ==> (#[trigger] q.k2[i] + pedersen::h_log() * q.k2_blind[i])
                % prime::modulus() == 0,
    ensures
        same_commitments(before, before.update(slot, shifted(before[slot], q))),
{
    let m = prime::modulus();
    let h = pedersen::h_log();
    let after = before.update(slot, shifted(before[slot], q));
    let p = before[slot];
    assert forall|s: int, i: int|
        #![trigger before[s].k1[i]]
        #![trigger before[s].k2[i]]
        0 <= s < before.len() && 0 <= i < before[s].k1.len() implies {
        let (u, v) = (before[s], after[s]);
        &&& (u.k1[i] + h * u.k1_blind[i]) % m == (v.k1[i] + h * v.k1_blind[i]) % m
        &&& (u.k2[i] + h * u.k2_blind[i]) % m == (v.k2[i] + h * v.k2_blind[i]) % m
    } by {
        if s == slot {
            assert((q.k1[i] + h * q.k1_blind[i]) % m == 0);
            assert((q.k2[i] + h * q.k2_blind[i]) % m == 0);
            sum_keeps_commitment(p.k1, p.k1_blind, q.k1, q.k1_blind, i);
            sum_keeps_commitment(p.k2, p.k2_blind, q.k2, q.k2_blind, i);
        }
    }
}

} // verus!
