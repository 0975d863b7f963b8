//! Systems of linear equations over the scalar field, solved by Gauss-Jordan
//! elimination.
//!
//! A system in `n` unknowns is a sequence of rows of `n + 1` numbers: the
//! coefficients of one equation and its right-hand side.
use vstd::arithmetic::div_mod::*;
use vstd::arithmetic::mul::*;
use vstd::prelude::*;

use crate::arith;
use crate::field::{self, Fr};
use crate::poly;
use crate::prime;

verus! {

/// The sum of `a[i] * b[i]` over the first `n` positions.
pub open spec fn dot(a: Seq<int>, b: Seq<int>, n: int) -> int
    decreases n,
{
    if n <= 0 {
        0
    } else {
        dot(a, b, n - 1) + a[n - 1] * b[n - 1]
    }
}

/// Every row is orthogonal to `w` modulo `m`.
pub open spec fn annihilates(rows: Seq<Seq<int>>, w: Seq<int>, m: int) -> bool {
    forall|r: int| 0 <= r < rows.len() ==> dot(#[trigger] rows[r], w, w.len() as int) % m == 0
}

/// The residues `v` satisfy every equation of the system.
pub open spec fn is_solution(rows: Seq<Seq<int>>, v: Seq<int>, n: int, m: int) -> bool {
    &&& v.len() == n
    &&& poly::reduced(v, m)
    &&& forall|r: int|
        0 <= r < rows.len() ==> dot(#[trigger] rows[r], v, n) % m == rows[r][n] % m
}

/// The residues `v` satisfy the system and nothing else does.
pub open spec fn sole_solution(rows: Seq<Seq<int>>, v: Seq<int>, n: int, m: int) -> bool {
    &&& is_solution(rows, v, n, m)
    &&& forall|u: Seq<int>| #[trigger] is_solution(rows, u, n, m) ==> u == v
}

/// The residues in a matrix of field elements.
pub open spec fn matrix(rows: Seq<Vec<Fr>>) -> Seq<Seq<int>> {
    Seq::new(rows.len(), |r: int| field::residues(rows[r]@))
}

/// Every row has `width` entries.
pub open spec fn has_width(rows: Seq<Seq<int>>, width: int) -> bool {
    forall|r: int| 0 <= r < rows.len() ==> (#[trigger] rows[r]).len() == width
}

// ---------------------------------------------------------------------------
// Scalar products
// ---------------------------------------------------------------------------

/// The scalar product looks at the first `n` positions only.
proof fn dot_prefix(a: Seq<int>, b: Seq<int>, c: Seq<int>, n: int)
    requires
        forall|i: int| 0 <= i < n ==> #[trigger] b[i] == c[i],
    ensures
        dot(a, b, n) == dot(a, c, n),
    decreases n,
{
    if n > 0 {
        dot_prefix(a, b, c, n - 1);
        assert(b[n - 1] == c[n - 1]);
    }
}

/// A row that is `g` times one row plus `f` times another one, up to multiples
/// of `m`, has the scalar products that follow.
proof fn dot_combination(
    c: Seq<int>,
    g: int,
    a: Seq<int>,
    f: int,
    b: Seq<int>,
    w: Seq<int>,
    n: int,
    m: int,
)
    requires
        m > 0,
        forall|i: int| 0 <= i < n ==> #[trigger] c[i] % m == (g * a[i] + f * b[i]) % m,
    ensures
        dot(c, w, n) % m == (g * dot(a, w, n) + f * dot(b, w, n)) % m,
    decreases n,
{
    if n > 0 {
        dot_combination(c, g, a, f, b, w, n - 1, m);
        let (x, y, z) = (dot(a, w, n - 1), dot(b, w, n - 1), w[n - 1]);
        let (p, q) = (a[n - 1], b[n - 1]);
        assert(c[n - 1] % m == (g * p + f * q) % m);
        arith::cong_mul(c[n - 1], g * p + f * q, z, z, m);
        arith::cong_add(dot(c, w, n - 1), g * x + f * y, c[n - 1] * z, (g * p + f * q) * z, m);
        lemma_mul_is_distributive_add_other_way(z, g * p, f * q);
        lemma_mul_is_associative(g, p, z);
        lemma_mul_is_associative(f, q, z);
        lemma_mul_is_distributive_add(g, x, p * z);
        lemma_mul_is_distributive_add(f, y, q * z);
    } else {
        assert(g * 0 + f * 0 == 0) by (nonlinear_arith);
    }
}

/// The scalar product is additive in the vector.
proof fn dot_sum(a: Seq<int>, u: Seq<int>, v: Seq<int>, w: Seq<int>, n: int, m: int)
    requires
        m > 0,
        forall|i: int| 0 <= i < n ==> #[trigger] w[i] % m == (u[i] + v[i]) % m,
    ensures
        dot(a, w, n) % m == (dot(a, u, n) + dot(a, v, n)) % m,
    decreases n,
{
    if n > 0 {
        dot_sum(a, u, v, w, n - 1, m);
        let (x, y) = (u[n - 1], v[n - 1]);
        let c = a[n - 1];
        assert(w[n - 1] % m == (x + y) % m);
        arith::cong_mul(c, c, w[n - 1], x + y, m);
        arith::cong_add(
            dot(a, w, n - 1),
            dot(a, u, n - 1) + dot(a, v, n - 1),
            c * w[n - 1],
            c * (x + y),
            m,
        );
        lemma_mul_is_distributive_add(c, x, y);
    }
}

/// A row that is one at `k` and zero elsewhere picks out an entry.
proof fn dot_unit(a: Seq<int>, w: Seq<int>, k: int, n: int)
    requires
        0 <= k,
        forall|i: int|
            0 <= i < n ==> #[trigger] a[i] == (if i == k {
                1int
            } else {
                0int
            }),
    ensures
        dot(a, w, n) == (if k < n {
            w[k]
        } else {
            0
        }),
    decreases n,
{
    if n > 0 {
        dot_unit(a, w, k, n - 1);
        assert(a[n - 1] * w[n - 1] == (if n - 1 == k {
            w[k]
        } else {
            0
        })) by {
            if n - 1 == k {
                assert(1 * w[k] == w[k]);
            } else {
                assert(0 * w[n - 1] == 0);
            }
        }
    }
}

/// A vector that is zero from `k` on adds nothing from there on.
proof fn dot_tail(a: Seq<int>, w: Seq<int>, k: int, n: int)
    requires
        0 <= k <= n,
        forall|i: int| k <= i < n ==> #[trigger] w[i] == 0,
    ensures
        dot(a, w, n) == dot(a, w, k),
    decreases n,
{
    if n > k {
        dot_tail(a, w, k, n - 1);
        assert(w[n - 1] == 0);
        assert(a[n - 1] * 0 == 0);
    }
}

/// An equation holds exactly where its row is orthogonal to the solution
/// followed by minus one.
proof fn equation_is_orthogonality(row: Seq<int>, v: Seq<int>, n: int, m: int)
    requires
        m > 0,
        v.len() == n,
    ensures
        dot(row, v.push(-1), n + 1) % m == 0 <==> dot(row, v, n) % m == row[n] % m,
{
    let w = v.push(-1);
    dot_prefix(row, v, w, n);
    let (x, y) = (dot(row, v, n), row[n]);
    assert(y * (-1) == -y) by (nonlinear_arith);
    assert(dot(row, w, n + 1) == x - y);
    lemma_mod_equivalence(x, y, m);
}

/// A vector solves the system exactly where it, followed by minus one, is
/// orthogonal to every row.
proof fn solution_is_orthogonality(rows: Seq<Seq<int>>, v: Seq<int>, n: int, m: int)
    requires
        m > 0,
        v.len() == n,
        poly::reduced(v, m),
    ensures
        is_solution(rows, v, n, m) <==> annihilates(rows, v.push(-1), m),
{
    let w = v.push(-1);
    assert forall|r: int| 0 <= r < rows.len() implies (dot(#[trigger] rows[r], w, n + 1) % m == 0
        <==> dot(rows[r], v, n) % m == rows[r][n] % m) by {
        equation_is_orthogonality(rows[r], v, n, m);
    }
}

// ---------------------------------------------------------------------------
// Elimination
// ---------------------------------------------------------------------------

/// The columns before `col` are eliminated: the rows up to `piv.len()` have a
/// leading one each, in the columns `piv`, and those columns are otherwise
/// zero; the other rows start with zeros.
spec fn echelon(a: Seq<Seq<int>>, piv: Seq<int>, col: int) -> bool {
    &&& piv.len() <= a.len()
    &&& forall|k: int| 0 <= k < piv.len() ==> 0 <= #[trigger] piv[k] < col
    &&& forall|i: int, j: int|
        #![trigger piv[i], piv[j]]
        0 <= i < j < piv.len() ==> piv[i] < piv[j]
    &&& forall|r: int, k: int|
        #![trigger a[r], piv[k]]
        0 <= r < a.len() && 0 <= k < piv.len() ==> a[r][piv[k]] == (if r == k {
            1int
        } else {
            0int
        })
    &&& forall|r: int, c: int|
        piv.len() <= r < a.len() && 0 <= c < col ==> #[trigger] a[r][c] == 0
    &&& forall|k: int, c: int|
        0 <= k < piv.len() && 0 <= c < piv[k] ==> #[trigger] a[k][c] == 0
}

/// The result of clearing column `col` of `a` with row `p`, scaled by `g`.
spec fn cleared(a: Seq<Seq<int>>, b: Seq<Seq<int>>, p: int, col: int, g: int, m: int) -> bool {
    &&& b.len() == a.len()
    &&& forall|r: int| 0 <= r < b.len() ==> (#[trigger] b[r]).len() == a[r].len()
    &&& forall|c: int| 0 <= c < a[p].len() ==> #[trigger] b[p][c] == (a[p][c] * g) % m
    &&& forall|r: int, c: int|
        0 <= r < b.len() && r != p && 0 <= c < a[p].len() ==> #[trigger] b[r][c] == (a[r][c]
            - a[r][col] * b[p][c]) % m
}

/// Clearing a column keeps what the rows are orthogonal to.
proof fn cleared_keeps_solutions(
    a: Seq<Seq<int>>,
    b: Seq<Seq<int>>,
    p: int,
    col: int,
    g: int,
    w: Seq<int>,
    m: int,
)
    requires
        m > 1,
        0 <= p < a.len(),
        has_width(a, w.len() as int),
        0 <= col < w.len(),
        cleared(a, b, p, col, g, m),
        (a[p][col] * g) % m == 1,
    ensures
        annihilates(a, w, m) <==> annihilates(b, w, m),
{
    let n = w.len() as int;
    let h = a[p][col];
    let zero = Seq::new(n as nat, |i: int| 0int);
    assert forall|i: int| 0 <= i < n implies #[trigger] b[p][i] % m == (g * a[p][i] + 0 * zero[i])
        % m by {
        arith::mod_idem(a[p][i] * g, m);
        lemma_mul_is_commutative(a[p][i], g);
    }
    dot_combination(b[p], g, a[p], 0, zero, w, n, m);
    assert(dot(b[p], w, n) % m == (g * dot(a[p], w, n)) % m);
    assert forall|r: int| 0 <= r < a.len() && r != p implies dot(#[trigger] b[r], w, n) % m == (dot(
        a[r],
        w,
        n,
    ) - a[r][col] * dot(b[p], w, n)) % m by {
        let f = a[r][col];
        assert forall|i: int| 0 <= i < n implies #[trigger] b[r][i] % m == (1 * a[r][i] + (-f)
            * b[p][i]) % m by {
            arith::mod_idem(a[r][i] - f * b[p][i], m);
            assert((-f) * b[p][i] == -(f * b[p][i])) by (nonlinear_arith);
        }
        dot_combination(b[r], 1, a[r], -f, b[p], w, n, m);
        let y = dot(b[p], w, n);
        assert((-f) * y == -(f * y)) by (nonlinear_arith);
    }
    if annihilates(a, w, m) {
        assert(dot(a[p], w, n) % m == 0);
        arith::cong_mul(g, g, dot(a[p], w, n), 0, m);
        assert(dot(b[p], w, n) % m == 0);
        assert forall|r: int| 0 <= r < b.len() implies dot(#[trigger] b[r], w, n) % m == 0 by {
            if r != p {
                assert(dot(a[r], w, n) % m == 0);
                arith::cong_mul(a[r][col], a[r][col], dot(b[p], w, n), 0, m);
                arith::cong_sub(dot(a[r], w, n), 0, a[r][col] * dot(b[p], w, n), 0, m);
            }
        }
    }
    if annihilates(b, w, m) {
        let y = dot(b[p], w, n);
        let x = dot(a[p], w, n);
        assert(y % m == 0);
        arith::cong_mul(h, h, g * x, 0, m);
        lemma_mul_is_associative(h, g, x);
        arith::mod_small(1, m);
        arith::cong_mul(h * g, 1, x, x, m);
        assert(x % m == 0);
        assert forall|r: int| 0 <= r < a.len() implies dot(#[trigger] a[r], w, n) % m == 0 by {
            if r != p {
                let f = a[r][col];
                let z = dot(a[r], w, n);
                assert(dot(b[r], w, n) % m == 0);
                arith::cong_mul(f, f, y, 0, m);
                arith::cong_add(z - f * y, 0, f * y, 0, m);
            }
        }
    }
}

/// Clearing a column extends the eliminated part.
proof fn cleared_extends(
    a: Seq<Seq<int>>,
    b: Seq<Seq<int>>,
    piv: Seq<int>,
    col: int,
    g: int,
    n: int,
    m: int,
)
    requires
        m > 1,
        piv.len() < a.len(),
        0 <= col < n,
        has_width(a, n + 1),
        forall|r: int| 0 <= r < a.len() ==> poly::reduced(#[trigger] a[r], m),
        echelon(a, piv, col),
        cleared(a, b, piv.len() as int, col, g, m),
        (a[piv.len() as int][col] * g) % m == 1,
    ensures
        echelon(b, piv.push(col), col + 1),
{
    let p = piv.len() as int;
    let q = piv.push(col);
    assert(a[p].len() == n + 1);
    // Below column `col` the pivot row is zero and the other rows stay.
    assert forall|c: int| 0 <= c < col implies #[trigger] b[p][c] == 0 by {
        assert(a[p][c] == 0);
        assert(0 * g == 0);
    }
    assert forall|r: int, c: int| 0 <= r < b.len() && 0 <= c < col implies #[trigger] b[r][c]
        == a[r][c] by {
        if r != p {
            assert(b[p][c] == 0);
            assert(a[r][col] * 0 == 0);
            assert(poly::reduced(a[r], m));
            assert(a[r].len() == n + 1);
            arith::mod_small(a[r][c], m);
        } else {
            assert(a[p][c] == 0);
        }
    }
    assert(b[p][col] == 1);
    assert forall|r: int| 0 <= r < b.len() && r != p implies #[trigger] b[r][col] == 0 by {
        assert(b[p][col] == 1);
        assert(a[r][col] * 1 == a[r][col]);
        arith::mod_small(0, m);
    }
    assert forall|r: int, k: int|
        #![trigger b[r], q[k]]
        0 <= r < b.len() && 0 <= k < q.len() implies b[r][q[k]] == (if r == k {
        1int
    } else {
        0int
    }) by {
        if k < p {
            assert(q[k] == piv[k]);
            assert(b[r][piv[k]] == a[r][piv[k]]);
        }
    }
    assert forall|k: int, c: int| 0 <= k < q.len() && 0 <= c < q[k] implies #[trigger] b[k][c]
        == 0 by {
        if k < p {
            assert(q[k] == piv[k]);
            assert(a[k][c] == 0);
        }
    }
}

/// Swapping two rows that are not yet eliminated changes nothing else.
proof fn swapped(a: Seq<Seq<int>>, piv: Seq<int>, col: int, i: int, j: int)
    requires
        echelon(a, piv, col),
        piv.len() <= i < a.len(),
        piv.len() <= j < a.len(),
    ensures
        echelon(a.update(i, a[j]).update(j, a[i]), piv, col),
        forall|w: Seq<int>, m: int| #[trigger]
            annihilates(a.update(i, a[j]).update(j, a[i]), w, m) <==> annihilates(a, w, m),
{
    let b = a.update(i, a[j]).update(j, a[i]);
    assert(a == b.update(i, b[j]).update(j, b[i]));
    assert forall|w: Seq<int>, m: int| #[trigger] annihilates(b, w, m) <==> annihilates(
        a,
        w,
        m,
    ) by {
        if annihilates(a, w, m) {
            assert forall|r: int| 0 <= r < b.len() implies dot(#[trigger] b[r], w, w.len() as int)
                % m == 0 by {
                let s = if r == i {
                    j
                } else if r == j {
                    i
                } else {
                    r
                };
                assert(b[r] == a[s]);
            }
        }
        if annihilates(b, w, m) {
            assert forall|r: int| 0 <= r < a.len() implies dot(#[trigger] a[r], w, w.len() as int)
                % m == 0 by {
                let s = if r == i {
                    j
                } else if r == j {
                    i
                } else {
                    r
                };
                assert(a[r] == b[s]);
            }
        }
    }
}

// ---------------------------------------------------------------------------
// Reading off the result
// ---------------------------------------------------------------------------

/// Systems whose rows are orthogonal to the same vectors have the same
/// solutions.
proof fn same_solutions(a: Seq<Seq<int>>, b: Seq<Seq<int>>, n: int, m: int)
    requires
        m > 0,
        n >= 0,
        forall|w: Seq<int>|
            w.len() == n + 1 ==> (#[trigger] annihilates(b, w, m) <==> annihilates(a, w, m)),
    ensures
        forall|v: Seq<int>| #[trigger] is_solution(a, v, n, m) <==> is_solution(b, v, n, m),
{
    assert forall|v: Seq<int>| #[trigger] is_solution(a, v, n, m) <==> is_solution(b, v, n, m) by {
        if v.len() == n && poly::reduced(v, m) {
            solution_is_orthogonality(a, v, n, m);
            solution_is_orthogonality(b, v, n, m);
            assert(annihilates(b, v.push(-1), m) <==> annihilates(a, v.push(-1), m));
        }
    }
}

/// Systems with the same solutions have the same sole solution.
proof fn same_sole_solutions(a: Seq<Seq<int>>, b: Seq<Seq<int>>, v: Seq<int>, n: int, m: int)
    requires
        forall|u: Seq<int>| #[trigger] is_solution(a, u, n, m) <==> is_solution(b, u, n, m),
    ensures
        sole_solution(a, v, n, m) <==> sole_solution(b, v, n, m),
{
    assert(is_solution(a, v, n, m) <==> is_solution(b, v, n, m));
    if sole_solution(a, v, n, m) {
        assert forall|u: Seq<int>| #[trigger] is_solution(b, u, n, m) implies u == v by {
            assert(is_solution(a, u, n, m));
        }
    }
    if sole_solution(b, v, n, m) {
        assert forall|u: Seq<int>| #[trigger] is_solution(a, u, n, m) implies u == v by {
            assert(is_solution(b, u, n, m));
        }
    }
}

/// The entries of a matrix of field elements are residues.
proof fn matrix_reduced(rows: Seq<Vec<Fr>>)
    ensures
        forall|r: int|
            0 <= r < rows.len() ==> poly::reduced(#[trigger] matrix(rows)[r], prime::modulus()),
{
    assert forall|r: int| 0 <= r < rows.len() implies poly::reduced(
        #[trigger] matrix(rows)[r],
        prime::modulus(),
    ) by {
        field::residues_reduced(rows[r]@);
    }
}

/// The first position whose pivot column has another number.
proof fn first_gap(piv: Seq<int>, k: int) -> (f: int)
    requires
        0 <= k <= piv.len(),
        forall|j: int| 0 <= j < k ==> #[trigger] piv[j] == j,
    ensures
        k <= f <= piv.len(),
        forall|j: int| 0 <= j < f ==> #[trigger] piv[j] == j,
        f < piv.len() ==> piv[f] != f,
    decreases piv.len() - k,
{
    if k < piv.len() && piv[k] == k {
        first_gap(piv, k + 1)
    } else {
        k
    }
}

/// Pivot columns grow at least as fast as their positions.
proof fn pivots_grow(piv: Seq<int>, i: int, j: int)
    requires
        0 <= i <= j < piv.len(),
        forall|s: int, t: int|
            #![trigger piv[s], piv[t]]
            0 <= s < t < piv.len() ==> piv[s] < piv[t],
    ensures
        piv[i] + (j - i) <= piv[j],
    decreases j - i,
{
    if i < j {
        pivots_grow(piv, i, j - 1);
        assert(piv[j - 1] < piv[j]);
    }
}

/// With a pivot in every column, the right-hand sides are the one solution
/// where the rows without pivot have a zero on the right, and there is none
/// otherwise.
proof fn full_rank(a: Seq<Seq<int>>, piv: Seq<int>, n: int, m: int)
    requires
        m > 1,
        n >= 0,
        piv.len() == n,
        has_width(a, n + 1),
        forall|r: int| 0 <= r < a.len() ==> poly::reduced(#[trigger] a[r], m),
        echelon(a, piv, n),
        forall|r: int| n <= r < a.len() ==> (#[trigger] a[r])[n] == 0,
    ensures
        forall|k: int| 0 <= k < n ==> #[trigger] piv[k] == k,
        sole_solution(a, Seq::new(n as nat, |r: int| a[r][n]), n, m),
{
    let f = first_gap(piv, 0);
    if f < n {
        assert(piv[f] > f) by {
            if f > 0 {
                assert(piv[f - 1] == f - 1);
            }
        }
        pivots_grow(piv, f, n - 1);
        assert(piv[n - 1] < n);
    }
    let s = Seq::new(n as nat, |r: int| a[r][n]);
    assert forall|i: int| 0 <= i < s.len() implies 0 <= #[trigger] s[i] < m by {
        assert(poly::reduced(a[i], m));
        assert(a[i].len() == n + 1);
        assert(0 <= a[i][n] < m);
    }
    assert forall|u: Seq<int>, r: int| u.len() == n && 0 <= r < a.len() implies #[trigger] dot(
        a[r],
        u,
        n,
    ) == (if r < n {
        u[r]
    } else {
        0
    }) by {
        assert forall|i: int| 0 <= i < n implies #[trigger] a[r][i] == (if i == r {
            1int
        } else {
            0int
        }) by {
            assert(piv[i] == i);
            assert(a[r][piv[i]] == (if r == i {
                1int
            } else {
                0int
            }));
        }
        dot_unit(a[r], u, r, n);
    }
    assert(is_solution(a, s, n, m)) by {
        assert forall|r: int| 0 <= r < a.len() implies dot(#[trigger] a[r], s, n) % m == a[r][n]
            % m by {
            assert(dot(a[r], s, n) == (if r < n {
                s[r]
            } else {
                0
            }));
        }
    }
    assert forall|u: Seq<int>| #[trigger] is_solution(a, u, n, m) implies u == s by {
        assert forall|r: int| 0 <= r < n implies u[r] == s[r] by {
            assert(dot(a[r], u, n) == u[r]);
            assert(dot(a[r], u, n) % m == a[r][n] % m);
            arith::mod_small(u[r], m);
            arith::mod_small(s[r], m);
        }
        assert(u =~= s);
    }
}

/// With a column without pivot, no solution is the only one.
proof fn free_column(a: Seq<Seq<int>>, piv: Seq<int>, n: int, v: Seq<int>, m: int)
    requires
        m > 1,
        piv.len() < n,
        has_width(a, n + 1),
        echelon(a, piv, n),
    ensures
        !sole_solution(a, v, n, m),
{
    if sole_solution(a, v, n, m) {
        let f = first_gap(piv, 0);
        if f < piv.len() {
            assert(piv[f] > f) by {
                if f > 0 {
                    assert(piv[f - 1] == f - 1);
                }
            }
        }
        // A vector that every row is orthogonal to.
        let w = Seq::new(
            n as nat,
            |i: int|
                if i < f {
                    -a[i][f]
                } else if i == f {
                    1
                } else {
                    0
                },
        );
        assert forall|r: int| 0 <= r < a.len() implies #[trigger] dot(a[r], w, n) == 0 by {
            dot_tail(a[r], w, f + 1, n);
            assert forall|i: int| 0 <= i < f implies #[trigger] a[r][i] == (if i == r {
                1int
            } else {
                0int
            }) by {
                assert(piv[i] == i);
                assert(a[r][piv[i]] == (if r == i {
                    1int
                } else {
                    0int
                }));
            }
            dot_unit(a[r], w, r, f);
            assert(a[r][f] * w[f] == a[r][f]) by {
                assert(w[f] == 1);
                assert(a[r][f] * 1 == a[r][f]);
            }
            if r >= f {
                if r < piv.len() {
                    assert(piv[r] > f) by {
                        pivots_grow(piv, f, r);
                    }
                }
                assert(a[r][f] == 0);
            }
        }
        let u = Seq::new(n as nat, |i: int| (v[i] + w[i]) % m);
        assert forall|i: int| 0 <= i < n implies 0 <= #[trigger] u[i] < m by {
            arith::mod_idem(v[i] + w[i], m);
        }
        assert(is_solution(a, u, n, m)) by {
            assert forall|r: int| 0 <= r < a.len() implies dot(#[trigger] a[r], u, n) % m
                == a[r][n] % m by {
                assert forall|i: int| 0 <= i < n implies #[trigger] u[i] % m == (v[i] + w[i])
                    % m by {
                    arith::mod_idem(v[i] + w[i], m);
                }
                dot_sum(a[r], v, w, u, n, m);
                assert(dot(a[r], w, n) == 0);
                assert(dot(a[r], v, n) % m == a[r][n] % m);
            }
        }
        assert(u == v);
        assert(u[f] == (v[f] + 1) % m);
        if v[f] + 1 < m {
            arith::mod_small(v[f] + 1, m);
        } else {
            arith::cong_intro(v[f] + 1, 0, 1, m);
            arith::mod_small(0, m);
        }
        assert(false);
    }
}

/// An equation without coefficients and with a nonzero right-hand side has no
/// solution.
proof fn contradiction(a: Seq<Seq<int>>, r: int, n: int, v: Seq<int>, m: int)
    requires
        m > 1,
        0 <= r < a.len(),
        n >= 0,
        forall|c: int| 0 <= c < n ==> #[trigger] a[r][c] == 0,
        0 < a[r][n] < m,
    ensures
        !is_solution(a, v, n, m),
{
    if is_solution(a, v, n, m) {
        dot_unit(a[r], v, n, n);
        assert(dot(a[r], v, n) % m == a[r][n] % m);
        arith::mod_small(a[r][n], m);
        arith::mod_small(0, m);
    }
}

// ---------------------------------------------------------------------------
// The solver
// ---------------------------------------------------------------------------

/// The row with every entry multiplied by `factor`.
fn scaled(row: &Vec<Fr>, factor: Fr) -> (r: Vec<Fr>)
    ensures
        r@.len() == row@.len(),
        forall|c: int|
            0 <= c < row@.len() ==> (#[trigger] r@[c])@ == (row@[c]@ * factor@) % prime::modulus(),
{
    let mut out: Vec<Fr> = Vec::with_capacity(row.len());
    let mut c: usize = 0;
    while c < row.len()
        invariant
            c <= row@.len(),
            out@.len() == c,
            forall|i: int|
                0 <= i < c ==> (#[trigger] out@[i])@ == (row@[i]@ * factor@) % prime::modulus(),
        decreases row@.len() - c,
    {
        out.push(row[c] * factor);
        c = c + 1;
    }
    out
}

/// The row minus `factor` times the pivot row.
fn eliminated(row: &Vec<Fr>, pivot: &Vec<Fr>, factor: Fr) -> (r: Vec<Fr>)
    requires
        row@.len() == pivot@.len(),
    ensures
        r@.len() == row@.len(),
        forall|c: int|
            0 <= c < row@.len() ==> (#[trigger] r@[c])@ == (row@[c]@ - factor@ * pivot@[c]@)
                % prime::modulus(),
{
    let mut out: Vec<Fr> = Vec::with_capacity(row.len());
    let mut c: usize = 0;
    while c < row.len()
        invariant
            c <= row@.len(),
            row@.len() == pivot@.len(),
            out@.len() == c,
            forall|i: int|
                0 <= i < c ==> (#[trigger] out@[i])@ == (row@[i]@ - factor@ * pivot@[i]@)
                    % prime::modulus(),
        decreases row@.len() - c,
    {
        let value = row[c] - factor * pivot[c];
        proof {
            let m = prime::modulus();
            let t = factor@ * pivot@[c as int]@;
            arith::mod_idem(t, m);
            arith::cong_sub(row@[c as int]@, row@[c as int]@, t % m, t, m);
        }
        out.push(value);
        c = c + 1;
    }
    out
}

/// The first row from `from` on with a nonzero entry in column `col`.
fn find_pivot(rows: &Vec<Vec<Fr>>, from: usize, col: usize) -> (r: Option<usize>)
    requires
        forall|i: int| 0 <= i < rows@.len() ==> col < (#[trigger] rows@[i])@.len(),
    ensures
        match r {
            Some(p) => from <= p < rows@.len() && rows@[p as int]@[col as int]@ != 0,
            None => forall|i: int|
                from <= i < rows@.len() ==> (#[trigger] rows@[i])@[col as int]@ == 0,
        },
{
    let mut i: usize = from;
    while i < rows.len()
        invariant
            from <= i,
            forall|j: int| 0 <= j < rows@.len() ==> col < (#[trigger] rows@[j])@.len(),
            forall|j: int|
                from <= j < i && j < rows@.len() ==> (#[trigger] rows@[j])@[col as int]@ == 0,
        decreases rows@.len() - i,
    {
        if rows[i][col] != Fr::zero() {
            return Some(i);
        }
        i = i + 1;
    }
    None
}

/// Scales row `p` to a one in column `col` and clears the column elsewhere.
fn clear_column(rows: &mut Vec<Vec<Fr>>, p: usize, col: usize, inv: Fr)
    requires
        p < old(rows)@.len(),
        forall|i: int|
            0 <= i < old(rows)@.len() ==> (#[trigger] old(rows)@[i])@.len() == old(
                rows,
            )@[p as int]@.len(),
        col < old(rows)@[p as int]@.len(),
    ensures
        cleared(
            matrix(old(rows)@),
            matrix(final(rows)@),
            p as int,
            col as int,
            inv@,
            prime::modulus(),
        ),
{
    let normalized = scaled(&rows[p], inv);
    let ghost start = rows@;
    let width: usize = normalized.len();
    let mut r: usize = 0;
    while r < rows.len()
        invariant
            r <= rows@.len(),
            rows@.len() == start.len(),
            p < start.len(),
            col < width,
            width == normalized@.len(),
            forall|i: int| 0 <= i < start.len() ==> (#[trigger] start[i])@.len() == width,
            forall|i: int| r <= i < start.len() ==> #[trigger] rows@[i] == start[i],
            forall|i: int| 0 <= i < start.len() ==> (#[trigger] rows@[i])@.len() == width,
            p < r ==> rows@[p as int]@ == normalized@,
            forall|i: int, c: int|
                0 <= i < r && i != p && 0 <= c < width ==> (#[trigger] rows@[i]@[c])@ == (
                start[i]@[c]@ - start[i]@[col as int]@ * normalized@[c]@) % prime::modulus(),
        decreases rows@.len() - r,
    {
        if r == p {
            rows.set(r, normalized.clone());
            assert(rows@[p as int]@ =~= normalized@);
        } else {
            let factor = rows[r][col];
            if factor != Fr::zero() {
                let row = eliminated(&rows[r], &normalized, factor);
                rows.set(r, row);
            } else {
                assert forall|c: int| 0 <= c < width implies (#[trigger] rows@[r as int]@[c])@ == (
                start[r as int]@[c]@ - start[r as int]@[col as int]@ * normalized@[c]@)
                    % prime::modulus() by {
                    assert(0 * normalized@[c]@ == 0);
                    field::residue_range(start[r as int]@[c]);
                    arith::mod_small(start[r as int]@[c]@, prime::modulus());
                }
            }
        }
        r = r + 1;
    }
}

/// Whether some row has coefficients that are all zero and a nonzero
/// right-hand side.
fn has_contradiction(rows: &Vec<Vec<Fr>>, unknowns: usize) -> (r: bool)
    requires
        has_width(matrix(rows@), unknowns + 1),
    ensures
        r == exists|i: int|
            #![trigger matrix(rows@)[i]]
            0 <= i < rows@.len() && matrix(rows@)[i][unknowns as int] != 0 && forall|c: int|
                0 <= c < unknowns ==> #[trigger] matrix(rows@)[i][c] == 0,
{
    let ghost a = matrix(rows@);
    let mut i: usize = 0;
    while i < rows.len()
        invariant
            i <= rows@.len(),
            a == matrix(rows@),
            has_width(a, unknowns + 1),
            forall|j: int|
                0 <= j < i ==> a[j][unknowns as int] == 0 || exists|c: int|
                    0 <= c < unknowns && #[trigger] a[j][c] != 0,
        decreases rows@.len() - i,
    {
        assert(a[i as int].len() == unknowns + 1);
        let all_zero = field::all_zero(&rows[i], unknowns);
        proof {
            if !all_zero {
                let c = choose|c: int| 0 <= c < unknowns && (#[trigger] rows@[i as int]@[c])@ != 0;
                assert(a[i as int][c] != 0);
            } else {
                assert forall|c: int| 0 <= c < unknowns implies #[trigger] a[i as int][c] == 0 by {
                    assert(rows@[i as int]@[c]@ == 0);
                }
            }
        }
        if all_zero && rows[i][unknowns] != Fr::zero() {
            assert(a[i as int][unknowns as int] != 0);
            return true;
        }
        i = i + 1;
    }
    false
}

/// Solves a system of linear equations in `unknowns` unknowns. There is a
/// result exactly where the system has one solution and no other.
pub fn solve_linear_system(rows: Vec<Vec<Fr>>, unknowns: usize) -> (r: Option<Vec<Fr>>)
    requires
        has_width(matrix(rows@), unknowns + 1),
    ensures
        match r {
            Some(s) => sole_solution(
                matrix(rows@),
                field::residues(s@),
                unknowns as int,
                prime::modulus(),
            ),
            None => forall|v: Seq<int>| !#[trigger] sole_solution(
                matrix(rows@),
                v,
                unknowns as int,
                prime::modulus(),
            ),
        },
{
    let ghost m = prime::modulus();
    let ghost n = unknowns as int;
    let ghost start = matrix(rows@);
    let mut rows = rows;
    let mut pivot_cols: Vec<usize> = Vec::new();
    let ghost mut piv: Seq<int> = seq![];
    let mut col: usize = 0;
    while col < unknowns
        invariant
            m == prime::modulus(),
            n == unknowns,
            col <= unknowns,
            pivot_cols@.len() == piv.len(),
            piv.len() <= col,
            forall|k: int| 0 <= k < piv.len() ==> #[trigger] pivot_cols@[k] == piv[k],
            has_width(matrix(rows@), n + 1),
            echelon(matrix(rows@), piv, col as int),
            forall|w: Seq<int>|
                w.len() == n + 1 ==> (#[trigger] annihilates(matrix(rows@), w, m) <==> annihilates(
                    start,
                    w,
                    m,
                )),
        decreases unknowns - col,
    {
        let pivot_row: usize = pivot_cols.len();
        let ghost a = matrix(rows@);
        proof {
            assert forall|i: int| 0 <= i < rows@.len() implies col
                < (#[trigger] rows@[i])@.len() by {
                assert(a[i].len() == n + 1);
            }
        }
        match find_pivot(&rows, pivot_row, col) {
            Some(pivot) => {
                let top = rows[pivot_row].clone();
                let found = rows[pivot].clone();
                assert(top@ =~= rows@[pivot_row as int]@);
                assert(found@ =~= rows@[pivot as int]@);
                rows.set(pivot_row, found);
                rows.set(pivot, top);
                let ghost b = matrix(rows@);
                proof {
                    assert(b =~= a.update(pivot_row as int, a[pivot as int]).update(
                        pivot as int,
                        a[pivot_row as int],
                    ));
                    swapped(a, piv, col as int, pivot_row as int, pivot as int);
                    assert forall|i: int| 0 <= i < rows@.len() implies (
                    #[trigger] rows@[i])@.len() == n + 1 by {
                        assert(b[i].len() == n + 1);
                    }
                    field::residue_range(rows@[pivot_row as int]@[col as int]);
                }
                match rows[pivot_row][col].inverse() {
                    Some(inv) => {
                        proof {
                            matrix_reduced(rows@);
                        }
                        clear_column(&mut rows, pivot_row, col, inv);
                        pivot_cols.push(col);
                        proof {
                            let c = matrix(rows@);
                            cleared_extends(b, c, piv, col as int, inv@, n, m);
                            assert forall|w: Seq<int>| w.len() == n + 1 implies (
                            #[trigger] annihilates(c, w, m) <==> annihilates(start, w, m)) by {
                                cleared_keeps_solutions(
                                    b,
                                    c,
                                    pivot_row as int,
                                    col as int,
                                    inv@,
                                    w,
                                    m,
                                );
                                assert(annihilates(b, w, m) <==> annihilates(a, w, m));
                                assert(annihilates(a, w, m) <==> annihilates(start, w, m));
                            }
                            piv = piv.push(col as int);
                        }
                    },
                    None => {
                        return None;
                    },
                }
            },
            None => {
                assert forall|r: int, c: int|
                    piv.len() <= r < a.len() && 0 <= c < col + 1 implies #[trigger] a[r][c] == 0 by {
                    assert(a[r].len() == n + 1);
                    assert(rows@[r]@[col as int]@ == 0);
                }
            },
        }
        col = col + 1;
    }
    let ghost a = matrix(rows@);
    proof {
        same_solutions(start, a, n, m);
        matrix_reduced(rows@);
    }
    if has_contradiction(&rows, unknowns) {
        proof {
            let i = choose|i: int|
                #![trigger a[i]]
                0 <= i < a.len() && a[i][n] != 0 && forall|c: int|
                    0 <= c < n ==> #[trigger] a[i][c] == 0;
            assert(poly::reduced(a[i], m));
            assert(a[i].len() == n + 1);
            assert(0 <= a[i][n] < m);
            assert forall|v: Seq<int>| !#[trigger] sole_solution(start, v, n, m) by {
                contradiction(a, i, n, v, m);
            }
        }
        return None;
    }
    if pivot_cols.len() != unknowns {
        proof {
            assert forall|v: Seq<int>| !#[trigger] sole_solution(start, v, n, m) by {
                free_column(a, piv, n, v, m);
                same_sole_solutions(start, a, v, n, m);
            }
        }
        return None;
    }
    let ghost s = Seq::new(n as nat, |r: int| a[r][n]);
    proof {
        assert forall|r: int| n <= r < a.len() implies (#[trigger] a[r])[n] == 0 by {
            assert(forall|c: int| 0 <= c < n ==> #[trigger] a[r][c] == 0);
        }
        full_rank(a, piv, n, m);
        same_sole_solutions(start, a, s, n, m);
    }
    let mut solution: Vec<Fr> = vec![Fr::zero(); unknowns];
    let mut k: usize = 0;
    while k < unknowns
        invariant
            k <= unknowns,
            n == unknowns,
            n <= rows@.len(),
            a == matrix(rows@),
            has_width(a, n + 1),
            solution@.len() == n,
            pivot_cols@.len() == n,
            forall|i: int| 0 <= i < n ==> #[trigger] pivot_cols@[i] == i,
            forall|i: int| 0 <= i < k ==> (#[trigger] solution@[i])@ == a[i][n],
        decreases unknowns - k,
    {
        assert(a[k as int].len() == n + 1);
        solution.set(pivot_cols[k], rows[k][unknowns]);
        k = k + 1;
    }
    assert(field::residues(solution@) =~= s);
    Some(solution)
}

} // verus!
