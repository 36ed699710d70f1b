//! The index logic of the multi-timeframe phase-confluence signal: which
//! bars are inflection points, and how many timeframes agree in phase.
//!
//! The price comparisons that decide a single crossing or a single pair of
//! aligned phases are made on floating-point data by the caller; this module
//! combines their outcomes.
use vstd::prelude::*;
use vstd::set_lib::{lemma_int_range, lemma_map_size, set_int_range};

verus! {

/// Bar `k` is an inflection point: an EBSW zero crossing, a phase transition
/// through 0° or 180°, or a MAMA/FAMA crossover (the MAMA series starts at
/// bar `offset`, and only bars before `price_len` count).
pub open spec fn is_inflection(
    ebsw_cross: Seq<bool>,
    phase_cross: Seq<bool>,
    mama_cross: Seq<bool>,
    offset: int,
    price_len: int,
    k: int,
) -> bool {
    ||| 0 <= k < ebsw_cross.len() && ebsw_cross[k]
    ||| 0 <= k < phase_cross.len() && phase_cross[k]
    ||| offset <= k < price_len && k - offset < mama_cross.len() && mama_cross[k - offset]
}

/// `s` is in strictly increasing order (so holds no index twice).
pub open spec fn strictly_increasing(s: Seq<usize>) -> bool {
    forall|a: int, b: int| 0 <= a < b < s.len() ==> s[a] < s[b]
}

/// Collects the inflection points, each once, in increasing order.
///
/// `ebsw_cross[i]` tells whether the EBSW series crosses zero at bar `i`,
/// `phase_cross[i]` whether the phase passes through 0° or 180° at bar `i`,
/// and `mama_cross[i]` whether MAMA and FAMA cross at their own index `i`,
/// which is bar `i + offset`; a crossover at or after bar `price_len` is
/// dropped.
pub fn merge_inflection_points(
    ebsw_cross: &Vec<bool>,
    phase_cross: &Vec<bool>,
    mama_cross: &Vec<bool>,
    offset: usize,
    price_len: usize,
) -> (points: Vec<usize>)
    ensures
        strictly_increasing(points@),
        forall|k: usize| #[trigger] points@.contains(k) <==> is_inflection(
            ebsw_cross@,
            phase_cross@,
            mama_cross@,
            offset as int,
            price_len as int,
            k as int,
        ),
        forall|k: int| 0 <= k < ebsw_cross.len() && #[trigger] ebsw_cross@[k] ==> points@.contains(
            k as usize,
        ),
        forall|k: int| 0 <= k < phase_cross.len() && #[trigger] phase_cross@[k] ==> points@.contains(
            k as usize,
        ),
        forall|i: int| 0 <= i < mama_cross.len() && #[trigger] mama_cross@[i] && i + offset < price_len
            ==> points@.contains((i + offset) as usize),
        forall|a: int| 0 <= a < points.len() ==> {
            let k = #[trigger] points@[a] as int;
            ||| k < ebsw_cross.len() && ebsw_cross@[k]
            ||| k < phase_cross.len() && phase_cross@[k]
            ||| offset <= k < price_len && mama_cross@.len() > k - offset && mama_cross@[k - offset]
        },
{
    let mut bound = price_len;
    if ebsw_cross.len() > bound {
        bound = ebsw_cross.len();
    }
    if phase_cross.len() > bound {
        bound = phase_cross.len();
    }
    let mut points: Vec<usize> = Vec::new();
    let mut k: usize = 0;
    while k < bound
        invariant
            k <= bound,
            bound >= price_len,
            bound >= ebsw_cross.len(),
            bound >= phase_cross.len(),
            strictly_increasing(points@),
            forall|a: int| 0 <= a < points.len() ==> points@[a] < k,
            forall|j: int| #![trigger points@.contains(j as usize)] 0 <= j < k ==> (points@.contains(j as usize) <==> is_inflection(
                ebsw_cross@,
                phase_cross@,
                mama_cross@,
                offset as int,
                price_len as int,
                j,
            )),
        decreases bound - k,
    {
        let from_ebsw = k < ebsw_cross.len() && ebsw_cross[k];
        let from_phase = k < phase_cross.len() && phase_cross[k];
        let from_mama = k >= offset && k < price_len && k - offset < mama_cross.len()
            && mama_cross[k - offset];
        let ghost before = points@;
        if from_ebsw || from_phase || from_mama {
            points.push(k);
            proof {
                assert forall|j: int| #![trigger points@.contains(j as usize)] 0 <= j < k implies (points@.contains(j as usize)
                    <==> before.contains(j as usize)) by {
                    if points@.contains(j as usize) {
                        let a = choose|a: int| 0 <= a < points@.len() && points@[a] == j as usize;
                        assert(a < before.len());
                        assert(before[a] == j as usize);
                    }
                    if before.contains(j as usize) {
                        let a = choose|a: int| 0 <= a < before.len() && before[a] == j as usize;
                        assert(points@[a] == j as usize);
                    }
                }
                assert(points@[points@.len() - 1] == k);
            }
        } else {
            proof {
                if points@.contains(k) {
                    let a = choose|a: int| 0 <= a < points@.len() && points@[a] == k;
                }
            }
        }
        k = k + 1;
    }
    proof {
        assert forall|j: usize| #[trigger] points@.contains(j) <==> is_inflection(
            ebsw_cross@,
            phase_cross@,
            mama_cross@,
            offset as int,
            price_len as int,
            j as int,
        ) by {
            if j >= bound {
                if points@.contains(j) {
                    let a = choose|a: int| 0 <= a < points@.len() && points@[a] == j;
                }
            } else {
                assert(points@.contains(j as int as usize) == points@.contains(j));
            }
        }
    }
    proof {
        assert forall|k: int| 0 <= k < ebsw_cross.len() && #[trigger] ebsw_cross@[k] implies points@.contains(
            k as usize,
        ) by {
            assert(is_inflection(ebsw_cross@, phase_cross@, mama_cross@, offset as int, price_len as int, (k as usize) as int));
        }
        assert forall|k: int| 0 <= k < phase_cross.len() && #[trigger] phase_cross@[k] implies points@.contains(
            k as usize,
        ) by {
            assert(is_inflection(ebsw_cross@, phase_cross@, mama_cross@, offset as int, price_len as int, (k as usize) as int));
        }
        assert forall|i: int| 0 <= i < mama_cross.len() && #[trigger] mama_cross@[i] && i + offset < price_len
            implies points@.contains((i + offset) as usize) by {
            let k = i + offset;
            assert(k - offset == i);
            assert(is_inflection(ebsw_cross@, phase_cross@, mama_cross@, offset as int, price_len as int, ((i + offset) as usize) as int));
        }
        assert forall|a: int| 0 <= a < points.len() implies {
            let k = #[trigger] points@[a] as int;
            ||| k < ebsw_cross.len() && ebsw_cross@[k]
            ||| k < phase_cross.len() && phase_cross@[k]
            ||| offset <= k < price_len && mama_cross@.len() > k - offset && mama_cross@[k - offset]
        } by {
            assert(points@.contains(points@[a]));
        }
    }
    points
}


/// How many of `row[0..upto]` are set, leaving out position `skip`.
pub open spec fn count_set_except(row: Seq<bool>, skip: int, upto: int) -> nat
    decreases upto,
{
    if upto <= 0 {
        0
    } else {
        count_set_except(row, skip, upto - 1) + if upto - 1 != skip && row[upto - 1] {
            1nat
        } else {
            0nat
        }
    }
}

/// The number of timeframes whose phase is aligned with that of timeframe
/// `i`, counting `i` itself: `aligned[i][j]` tells whether the phases of `i`
/// and `j` are within the tolerance of each other.
pub open spec fn aligned_count(aligned: Seq<Seq<bool>>, i: int) -> nat {
    1 + count_set_except(aligned[i], i, aligned[i].len() as int)
}

/// Counting never passes the number of positions looked at.
proof fn lemma_count_bound(row: Seq<bool>, skip: int, upto: int)
    requires
        0 <= skip < upto,
    ensures
        count_set_except(row, skip, upto) < upto,
    decreases upto,
{
    if upto - 1 > skip {
        lemma_count_bound(row, skip, upto - 1);
    } else {
        lemma_count_zero_bound(row, skip, upto - 1);
    }
}

proof fn lemma_count_zero_bound(row: Seq<bool>, skip: int, upto: int)
    requires
        0 <= upto,
    ensures
        count_set_except(row, skip, upto) <= upto,
    decreases upto,
{
    if upto > 0 {
        lemma_count_zero_bound(row, skip, upto - 1);
    }
}

/// `m` is the largest `aligned_count` over the timeframes, or 0 when there
/// is none.
pub open spec fn is_max_aligned(aligned: Seq<Seq<bool>>, m: nat) -> bool {
    &&& aligned.len() == 0 ==> m == 0
    &&& aligned.len() > 0 ==> exists|i: int| 0 <= i < aligned.len() && m == #[trigger] aligned_count(aligned, i)
    &&& forall|i: int| 0 <= i < aligned.len() ==> #[trigger] aligned_count(aligned, i) <= m
}

/// The largest group of mutually compared timeframes in phase: the maximum
/// over `i` of `aligned_count(aligned, i)`, or 0 when there is no timeframe.
pub fn max_aligned_count(aligned: &Vec<Vec<bool>>) -> (m: usize)
    requires
        forall|i: int| 0 <= i < aligned.len() ==> #[trigger] aligned@[i].len() == aligned.len(),
    ensures
        is_max_aligned(aligned.deep_view(), m as nat),
        aligned.len() == 0 ==> m == 0,
        aligned.len() > 0 ==> exists|i: int| #![trigger aligned.deep_view()[i]]
            0 <= i < aligned.len() && m == 1 + Set::new(
                |j: int| 0 <= j < aligned.len() && j != i && aligned.deep_view()[i][j],
            ).len(),
        forall|i: int| #![trigger aligned.deep_view()[i]]
            0 <= i < aligned.len() ==> 1 + Set::new(
                |j: int| 0 <= j < aligned.len() && j != i && aligned.deep_view()[i][j],
            ).len() <= m,
{
    let n = aligned.len();
    let ghost rows = aligned.deep_view();
    let mut best: usize = 0;
    let mut i: usize = 0;
    while i < n
        invariant
            n == aligned.len(),
            rows == aligned.deep_view(),
            i <= n,
            forall|r: int| 0 <= r < n ==> #[trigger] aligned@[r].len() == n,
            i == 0 ==> best == 0,
            i > 0 ==> exists|r: int| 0 <= r < i && best == #[trigger] aligned_count(rows, r),
            forall|r: int| 0 <= r < i ==> #[trigger] aligned_count(rows, r) <= best,
        decreases n - i,
    {
        let row = &aligned[i];
        assert(rows[i as int] == row@);
        assert(aligned@[i as int].len() == n);
        let mut count: usize = 1;
        let mut j: usize = 0;
        while j < n
            invariant
                n == aligned.len(),
                row@.len() == n,
                i < n,
                j <= n,
                count == 1 + count_set_except(row@, i as int, j as int),
            decreases n - j,
        {
            proof {
                if (i as int) < j + 1 {
                    lemma_count_bound(row@, i as int, j + 1);
                } else {
                    lemma_count_zero_bound(row@, i as int, j + 1);
                }
            }
            if j != i && row[j] {
                count = count + 1;
            }
            j = j + 1;
        }
        assert(count == aligned_count(rows, i as int));
        if count > best {
            best = count;
        }
        i = i + 1;
    }
    proof {
        let rows = aligned.deep_view();
        assert forall|r: int| 0 <= r < n implies #[trigger] rows[r].len() == n by {
            assert(aligned@[r].len() == n);
        }
        assert forall|r: int| #![trigger aligned.deep_view()[r]] 0 <= r < n implies aligned_count(rows, r)
            == 1 + Set::new(|j: int| 0 <= j < aligned.len() && j != r && aligned.deep_view()[r][j]).len() by {
            lemma_count_is_set_len(rows[r], r, n as int);
            assert(Set::new(|j: int| 0 <= j < aligned.len() && j != r && aligned.deep_view()[r][j])
                =~= set_positions(rows[r], r, n as int));
        }
        if n > 0 {
            let r = choose|r: int| 0 <= r < n && best == #[trigger] aligned_count(rows, r);
            assert(aligned.deep_view()[r] == rows[r]);
        }
    }
    best
}

/// The count of timeframe `i` is itself plus the number of other
/// timeframes `j` whose phase is aligned with its own (`aligned[i][j]`).
pub proof fn lemma_aligned_count_direct(aligned: Seq<Seq<bool>>, i: int)
    requires
        0 <= i < aligned.len(),
        aligned[i].len() == aligned.len(),
    ensures
        Set::new(|j: int| 0 <= j < aligned.len() && j != i && aligned[i][j]).finite(),
        aligned_count(aligned, i) == 1 + Set::new(
            |j: int| 0 <= j < aligned.len() && j != i && aligned[i][j],
        ).len(),
{
    let n = aligned.len() as int;
    lemma_count_is_set_len(aligned[i], i, n);
    assert(set_positions(aligned[i], i, n) =~= Set::new(
        |j: int| 0 <= j < aligned.len() && j != i && aligned[i][j],
    ));
}

/// When every timeframe is aligned with every other one, each counts all
/// `n` of them, and the largest group is all `n`.
pub proof fn lemma_all_aligned(aligned: Seq<Seq<bool>>)
    requires
        forall|i: int| 0 <= i < aligned.len() ==> #[trigger] aligned[i].len() == aligned.len(),
        forall|i: int, j: int| 0 <= i < aligned.len() && 0 <= j < aligned.len() && i != j
            ==> #[trigger] aligned[i][j],
    ensures
        forall|i: int| 0 <= i < aligned.len() ==> #[trigger] aligned_count(aligned, i) == aligned.len(),
        is_max_aligned(aligned, aligned.len()),
        forall|m: nat| is_max_aligned(aligned, m) ==> m == aligned.len(),
{
    let n = aligned.len() as int;
    assert forall|i: int| 0 <= i < n implies #[trigger] aligned_count(aligned, i) == n by {
        lemma_count_is_set_len(aligned[i], i, n);
        lemma_int_range(0, n);
        assert(set_positions(aligned[i], i, n) =~= set_int_range(0, n).remove(i));
        assert(set_int_range(0, n).contains(i));
        assert(set_int_range(0, n).remove(i).len() == n - 1);
    }
    if n > 0 {
        assert(aligned_count(aligned, 0) == n);
    }
    assert forall|m: nat| is_max_aligned(aligned, m) implies m == n by {
        if n > 0 {
            assert(aligned_count(aligned, 0) == n);
        }
    }
}


/// The positions counted by `count_set_except(row, skip, upto)`.
pub open spec fn set_positions(row: Seq<bool>, skip: int, upto: int) -> Set<int> {
    Set::new(|j: int| 0 <= j < upto && j != skip && row[j])
}

/// Counting is the size of the set of counted positions.
proof fn lemma_count_is_set_len(row: Seq<bool>, skip: int, upto: int)
    requires
        0 <= upto <= row.len(),
    ensures
        set_positions(row, skip, upto).finite(),
        count_set_except(row, skip, upto) == set_positions(row, skip, upto).len(),
    decreases upto,
{
    if upto == 0 {
        assert(set_positions(row, skip, upto) =~= Set::<int>::empty());
    } else {
        lemma_count_is_set_len(row, skip, upto - 1);
        let prev = set_positions(row, skip, upto - 1);
        if upto - 1 != skip && row[upto - 1] {
            assert(set_positions(row, skip, upto) =~= prev.insert(upto - 1));
        } else {
            assert(set_positions(row, skip, upto) =~= prev);
        }
    }
}

/// `perm` reorders the positions `0..n`: each position is the image of
/// exactly one.
pub open spec fn is_reordering(perm: Seq<int>, n: int) -> bool {
    &&& perm.len() == n
    &&& forall|a: int| 0 <= a < n ==> 0 <= #[trigger] perm[a] < n
    &&& forall|a: int, b: int| 0 <= a < n && 0 <= b < n && #[trigger] perm[a] == #[trigger] perm[b] ==> a == b
    &&& forall|j: int| 0 <= j < n ==> #[trigger] has_preimage(perm, n, j)
}

/// Some position of `0..n` is sent to `j`.
pub open spec fn has_preimage(perm: Seq<int>, n: int, j: int) -> bool {
    exists|a: int| 0 <= a < n && #[trigger] perm[a] == j
}

/// `reordered` is the alignment matrix of the same timeframes listed in the
/// order `perm`: timeframe `a` of `reordered` is timeframe `perm[a]` of
/// `aligned`.
pub open spec fn is_reordered(aligned: Seq<Seq<bool>>, reordered: Seq<Seq<bool>>, perm: Seq<int>) -> bool {
    &&& is_reordering(perm, aligned.len() as int)
    &&& reordered.len() == aligned.len()
    &&& forall|i: int| 0 <= i < aligned.len() ==> #[trigger] aligned[i].len() == aligned.len()
    &&& forall|i: int| 0 <= i < aligned.len() ==> #[trigger] reordered[i].len() == aligned.len()
    &&& forall|a: int, b: int| 0 <= a < aligned.len() && 0 <= b < aligned.len()
        ==> #[trigger] reordered[a][b] == aligned[perm[a]][perm[b]]
}

/// Listing the timeframes in another order changes no timeframe's count of
/// aligned phases, and so not the largest group either: the phase
/// alignment bonus does not depend on the order of the timeframes.
pub proof fn lemma_alignment_order_independent(
    aligned: Seq<Seq<bool>>,
    reordered: Seq<Seq<bool>>,
    perm: Seq<int>,
)
    requires
        is_reordered(aligned, reordered, perm),
    ensures
        forall|a: int| 0 <= a < aligned.len() ==> #[trigger] aligned_count(reordered, a)
            == aligned_count(aligned, perm[a]),
        forall|m: nat| is_max_aligned(aligned, m) <==> is_max_aligned(reordered, m),
{
    let n = aligned.len() as int;
    assert forall|a: int| 0 <= a < n implies #[trigger] aligned_count(reordered, a)
        == aligned_count(aligned, perm[a]) by {
        let pa = perm[a];
        let row2 = reordered[a];
        let row1 = aligned[pa];
        lemma_count_is_set_len(row2, a, n);
        lemma_count_is_set_len(row1, pa, n);
        let x = set_positions(row2, a, n);
        let y = set_positions(row1, pa, n);
        let f = |b: int| perm[b];
        assert forall|b1: int, b2: int| x.contains(b1) && x.contains(b2) && #[trigger] f(b1) == #[trigger] f(b2)
            implies b1 == b2 by {
            assert(perm[b1] == perm[b2]);
        }
        assert(vstd::relations::injective_on(f, x));
        assert forall|j: int| x.map(f).contains(j) <==> y.contains(j) by {
            if y.contains(j) {
                assert(has_preimage(perm, n, j));
                let b = choose|b: int| 0 <= b < n && #[trigger] perm[b] == j;
                assert(b != a);
                assert(reordered[a][b] == aligned[perm[a]][perm[b]]);
                assert(x.contains(b) && f(b) == j);
            }
            if x.map(f).contains(j) {
                let b = choose|b: int| x.contains(b) && f(b) == j;
                assert(reordered[a][b] == aligned[perm[a]][perm[b]]);
                if perm[b] == pa {
                    assert(b == a);
                }
            }
        }
        assert(x.map(f) =~= y);
        lemma_map_size(x, y, f);
    }
    assert forall|m: nat| is_max_aligned(aligned, m) implies is_max_aligned(reordered, m) by {
        if n > 0 {
            let i = choose|i: int| 0 <= i < n && m == #[trigger] aligned_count(aligned, i);
            assert(has_preimage(perm, n, i));
            let a = choose|a: int| 0 <= a < n && #[trigger] perm[a] == i;
            assert(aligned_count(reordered, a) == aligned_count(aligned, perm[a]));
        }
        assert forall|a: int| 0 <= a < n implies #[trigger] aligned_count(reordered, a) <= m by {
            assert(aligned_count(reordered, a) == aligned_count(aligned, perm[a]));
        }
    }
    assert forall|m: nat| is_max_aligned(reordered, m) implies is_max_aligned(aligned, m) by {
        if n > 0 {
            let a = choose|a: int| 0 <= a < n && m == #[trigger] aligned_count(reordered, a);
            assert(aligned_count(reordered, a) == aligned_count(aligned, perm[a]));
        }
        assert forall|i: int| 0 <= i < n implies #[trigger] aligned_count(aligned, i) <= m by {
            assert(has_preimage(perm, n, i));
            let a = choose|a: int| 0 <= a < n && #[trigger] perm[a] == i;
            assert(aligned_count(reordered, a) == aligned_count(aligned, perm[a]));
        }
    }
}

} // verus!
