use vstd::arithmetic::div_mod::{lemma_fundamental_div_mod, lemma_fundamental_div_mod_converse};
use vstd::prelude::*;

use itertools::Itertools;

verus! {

/// The largest number of combinations that a render set instantiates as
/// full boxes; above it each combination is drawn as a single point.
pub const MAX_CUBES: usize = 2000;

/// `n` to the power `k`.
pub open spec fn power(n: nat, k: nat) -> nat
    decreases k,
{
    if k == 0 {
        1
    } else {
        n * power(n, (k - 1) as nat)
    }
}

/// The `i`-th tuple of length `k` over `0..n` in lexicographic order, the
/// last position varying fastest: the digits of `i` in base `n`.
pub open spec fn tuple_at(n: nat, k: nat, i: nat) -> Seq<int>
    decreases k,
{
    if k == 0 {
        seq![]
    } else {
        tuple_at(n, (k - 1) as nat, (i / n) as nat).push((i % n) as int)
    }
}

/// `v` lists every tuple of length `k` over `0..n` once, in lexicographic
/// order; each tuple is a combination of base boxes, by position.
pub open spec fn lists_tuples(v: Seq<Vec<usize>>, n: nat, k: nat) -> bool {
    &&& v.len() == power(n, k)
    &&& forall|i: int|
        0 <= i < v.len() ==> (#[trigger] v[i])@.map_values(|x: usize| x as int) == tuple_at(
            n,
            k,
            i as nat,
        )
}

/// Every entry of every listed tuple is a position below `n`, and every
/// tuple has length `k`.
pub open spec fn tuples_in_range(v: Seq<Vec<usize>>, n: nat, k: nat) -> bool {
    forall|i: int|
        0 <= i < v.len() ==> {
            &&& (#[trigger] v[i])@.len() == k
            &&& forall|j: int| 0 <= j < k ==> v[i]@[j] < n
        }
}

/// Relies on itertools' `Itertools::multi_cartesian_product`, applied to `k`
/// copies of `0..n`: for `k >= 1` it yields every tuple once, in
/// lexicographic order with the last position varying fastest; for `k == 0`
/// it yields nothing.
#[verifier::external_body]
pub(crate) fn index_tuples(n: usize, k: usize) -> (r: Vec<Vec<usize>>)
    requires
        power(n as nat, k as nat) <= usize::MAX,
    ensures
        k >= 1 ==> lists_tuples(r@, n as nat, k as nat),
        k == 0 ==> r@.len() == 0,
{
    std::iter::repeat(0..n).take(k).multi_cartesian_product().collect()
}

/// Powers of a positive base do not shrink as the exponent grows.
pub proof fn lemma_power_monotone(n: nat, a: nat, b: nat)
    requires
        n >= 1,
        a <= b,
    ensures
        power(n, a) <= power(n, b),
    decreases b,
{
    if a < b {
        lemma_power_monotone(n, a, (b - 1) as nat);
        assert(power(n, (b - 1) as nat) <= n * power(n, (b - 1) as nat)) by (nonlinear_arith)
            requires
                n >= 1,
        ;
    }
}

/// A tuple of length `k` over `0..n` (with `n > 0`) has `k` entries, each
/// below `n`.
pub proof fn lemma_tuple_in_range(n: nat, k: nat, i: nat)
    requires
        n > 0,
    ensures
        tuple_at(n, k, i).len() == k,
        forall|j: int| 0 <= j < k ==> 0 <= #[trigger] tuple_at(n, k, i)[j] < n,
    decreases k,
{
    if k > 0 {
        lemma_tuple_in_range(n, (k - 1) as nat, (i / n) as nat);
    }
}

/// The position of a tuple over `0..n` in lexicographic order: the number
/// whose base-`n` digits it lists.
pub open spec fn tuple_index(n: nat, t: Seq<int>) -> int
    decreases t.len(),
{
    if t.len() == 0 {
        0
    } else {
        tuple_index(n, t.drop_last()) * n + t.last()
    }
}

/// `t` has length `k` and entries in `0..n`: a combination of `k` boxes out
/// of `n`, by position.
pub open spec fn is_tuple(n: nat, k: nat, t: Seq<int>) -> bool {
    t.len() == k && forall|j: int| 0 <= j < k ==> 0 <= #[trigger] t[j] < n
}

/// Each combination has a position below `n^k`, and `tuple_at` gives the
/// combination back from it.
pub proof fn lemma_tuple_index_inverts(n: nat, k: nat, t: Seq<int>)
    requires
        n > 0,
        is_tuple(n, k, t),
    ensures
        0 <= tuple_index(n, t) < power(n, k),
        tuple_at(n, k, tuple_index(n, t) as nat) == t,
    decreases k,
{
    if k > 0 {
        let p = t.drop_last();
        let km = (k - 1) as nat;
        assert(is_tuple(n, km, p)) by {
            assert forall|j: int| 0 <= j < km implies 0 <= #[trigger] p[j] < n by {
                assert(p[j] == t[j]);
            }
        }
        lemma_tuple_index_inverts(n, km, p);
        let q = tuple_index(n, p);
        let d = t.last();
        assert(0 <= d < n) by {
            assert(t[k - 1] == d);
        }
        let x = q * n + d;
        assert(tuple_index(n, t) == x);
        assert(0 <= x < power(n, k)) by (nonlinear_arith)
            requires
                0 <= q < power(n, km),
                0 <= d < n,
                x == q * n + d,
                power(n, k) == n * power(n, km),
        ;
        lemma_fundamental_div_mod_converse(x, n as int, q, d);
        assert(tuple_at(n, k, x as nat) == tuple_at(n, km, q as nat).push(d));
        assert(t =~= p.push(d));
    }
}

/// Below `n^k`, different positions give different combinations.
pub proof fn lemma_tuple_at_injective(n: nat, k: nat, i: nat, j: nat)
    requires
        n > 0,
        i < power(n, k),
        j < power(n, k),
        i != j,
    ensures
        tuple_at(n, k, i) != tuple_at(n, k, j),
    decreases k,
{
    if k == 0 {
        assert(power(n, 0) == 1);
    } else {
        let km = (k - 1) as nat;
        lemma_fundamental_div_mod(i as int, n as int);
        lemma_fundamental_div_mod(j as int, n as int);
        let (qi, ri) = (i / n, i % n);
        let (qj, rj) = (j / n, j % n);
        if ri == rj {
            assert(qi != qj);
            assert(qi < power(n, km) && qj < power(n, km)) by (nonlinear_arith)
                requires
                    i == n * qi + ri,
                    j == n * qj + rj,
                    0 <= ri,
                    0 <= rj,
                    i < power(n, k),
                    j < power(n, k),
                    power(n, k) == n * power(n, km),
                    n > 0,
            ;
            lemma_tuple_at_injective(n, km, qi as nat, qj as nat);
            let a = tuple_at(n, km, qi as nat);
            let b = tuple_at(n, km, qj as nat);
            if tuple_at(n, k, i) == tuple_at(n, k, j) {
                assert(a =~= tuple_at(n, k, i).drop_last());
                assert(b =~= tuple_at(n, k, j).drop_last());
            }
        } else {
            lemma_tuple_in_range(n, k, i);
            if tuple_at(n, k, i) == tuple_at(n, k, j) {
                assert(tuple_at(n, k, i)[km as int] == ri);
                assert(tuple_at(n, k, j)[km as int] == rj);
            }
        }
    }
}

/// A listing of the combinations of `k` boxes out of `n` holds every
/// combination, and each at exactly one position: it is the Cartesian power.
pub proof fn lemma_listing_is_cartesian_power(v: Seq<Vec<usize>>, n: nat, k: nat, t: Seq<int>)
    requires
        n > 0,
        lists_tuples(v, n, k),
        is_tuple(n, k, t),
    ensures
        exists|i: int| 0 <= i < v.len() && (#[trigger] v[i])@.map_values(|x: usize| x as int) == t,
        forall|i: int, j: int|
            0 <= i < v.len() && 0 <= j < v.len() && (#[trigger] v[i])@.map_values(|x: usize| x as int) == t
                && (#[trigger] v[j])@.map_values(|x: usize| x as int) == t ==> i == j,
{
    lemma_tuple_index_inverts(n, k, t);
    let i = tuple_index(n, t);
    assert(v[i]@.map_values(|x: usize| x as int) == t);
    assert forall|a: int, b: int|
        0 <= a < v.len() && 0 <= b < v.len() && (#[trigger] v[a])@.map_values(|x: usize| x as int) == t
            && (#[trigger] v[b])@.map_values(|x: usize| x as int) == t implies a == b by {
        if a != b {
            lemma_tuple_at_injective(n, k, a as nat, b as nat);
        }
    }
}

/// The number of combinations at a depth: `n` boxes to the power
/// `depth + 1`, or nothing when that does not fit in a `usize`.
pub fn candidate_count(n: usize, depth: usize) -> (r: Option<usize>)
    ensures
        match r {
            Some(c) => c == power(n as nat, (depth + 1) as nat),
            None => power(n as nat, (depth + 1) as nat) > usize::MAX,
        },
{
    let mut acc: usize = n;
    let mut j: usize = 0;
    assert(power(n as nat, 0) == 1);
    assert(power(n as nat, 1) == n * power(n as nat, 0));
    while j < depth
        invariant
            j <= depth,
            acc == power(n as nat, (j + 1) as nat),
        decreases depth - j,
    {
        match acc.checked_mul(n) {
            Some(a) => {
                assert(a == power(n as nat, (j + 2) as nat)) by (nonlinear_arith)
                    requires
                        a == acc * n,
                        acc == power(n as nat, (j + 1) as nat),
                        power(n as nat, (j + 2) as nat) == n * power(n as nat, (j + 1) as nat),
                ;
                acc = a;
            },
            None => {
                proof {
                    assert(power(n as nat, (j + 2) as nat) == n * power(n as nat, (j + 1) as nat));
                    assert(n >= 1) by (nonlinear_arith)
                        requires
                            acc * n > usize::MAX,
                    ;
                    lemma_power_monotone(n as nat, (j + 2) as nat, (depth + 1) as nat);
                }
                return None;
            },
        }
        j += 1;
    }
    Some(acc)
}

/// What to draw at a depth: the base boxes themselves, every combination
/// as a full box, or every combination as a point.
///
/// A combination lists base boxes by position; the box it stands for is the
/// product of their transforms, in the order listed.
pub enum RenderSet {
    Base,
    Full(Vec<Vec<usize>>),
    PointCloud(Vec<Vec<usize>>),
}

/// The render set of `n` base boxes at a depth.
///
/// At depth zero the base boxes are drawn unchanged. Above it every ordered
/// choice of `depth + 1` base boxes is one combination, `n^(depth+1)` of
/// them; up to `MAX_CUBES` they are full boxes, past it points.
pub fn render_set(n: usize, depth: usize) -> (r: RenderSet)
    requires
        depth == 0 || (depth < usize::MAX && power(n as nat, (depth + 1) as nat) <= usize::MAX),
    ensures
        depth == 0 <==> r is Base,
        depth > 0 && power(n as nat, (depth + 1) as nat) <= MAX_CUBES ==> (r matches RenderSet::Full(v)
            && lists_tuples(v@, n as nat, (depth + 1) as nat) && tuples_in_range(v@, n as nat, (depth + 1) as nat)),
        depth > 0 && power(n as nat, (depth + 1) as nat) > MAX_CUBES ==> (r matches RenderSet::PointCloud(v)
            && lists_tuples(v@, n as nat, (depth + 1) as nat) && tuples_in_range(v@, n as nat, (depth + 1) as nat)),
{
    if depth == 0 {
        return RenderSet::Base;
    }
    let k = depth + 1;
    let tuples = index_tuples(n, k);
    proof {
        if n > 0 {
            assert forall|i: int| 0 <= i < tuples@.len() implies {
                &&& (#[trigger] tuples@[i])@.len() == k
                &&& forall|j: int| 0 <= j < k ==> tuples@[i]@[j] < n
            } by {
                lemma_tuple_in_range(n as nat, k as nat, i as nat);
                let t = tuples@[i]@;
                assert(t.map_values(|x: usize| x as int) == tuple_at(n as nat, k as nat, i as nat));
                assert(t.len() == k);
                assert forall|j: int| 0 <= j < k implies t[j] < n by {
                    assert(t.map_values(|x: usize| x as int)[j] == t[j] as int);
                }
            }
        } else {
            assert(power(0, k as nat) == 0 * power(0, (k - 1) as nat));
        }
    }
    match candidate_count(n, depth) {
        Some(count) => {
            if count > MAX_CUBES {
                RenderSet::PointCloud(tuples)
            } else {
                RenderSet::Full(tuples)
            }
        },
        None => RenderSet::PointCloud(tuples),
    }
}

} // verus!
