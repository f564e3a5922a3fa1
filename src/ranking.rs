//! Whole-stream ranking: orders records by a key and highlights a top percentile.
use itertools::Itertools;
use vstd::prelude::*;

verus! {

/// Tuples compare lexicographically.
pub open spec fn pair_le(a: (i128, usize), b: (i128, usize)) -> bool {
    a.0 < b.0 || (a.0 == b.0 && a.1 <= b.1)
}

/// Relies on itertools::Itertools::sorted: the same items, in ascending order.
#[verifier::external_body]
fn sorted_pairs(v: Vec<(i128, usize)>) -> (r: Vec<(i128, usize)>)
    ensures
        r@.to_multiset() == v@.to_multiset(),
        forall|i: int, j: int| 0 <= i < j < r@.len() ==> pair_le(r@[i], r@[j]),
{
    v.into_iter().sorted().collect()
}

/// Record `a` comes before record `b` when ordered by key, ties by position.
pub open spec fn key_before(k: Seq<i128>, a: int, b: int) -> bool {
    k[a] < k[b] || (k[a] == k[b] && a < b)
}

/// `order` lists every position of a sequence of length `n` exactly once.
pub open spec fn is_permutation(order: Seq<usize>, n: nat) -> bool {
    &&& order.len() == n
    &&& forall|p: int| 0 <= p < n ==> order[p] < n
    &&& forall|p: int, q: int| 0 <= p < q < n ==> order[p] != order[q]
}

/// The positions of `keys`, ascending by key, ties by position.
pub fn sorted_indices(keys: &Vec<i128>) -> (order: Vec<usize>)
    ensures
        is_permutation(order@, keys@.len()),
        forall|p: int, q: int|
            0 <= p < q < order@.len() ==> key_before(keys@, order@[p] as int, order@[q] as int),
{
    let n = keys.len();
    let mut pairs: Vec<(i128, usize)> = Vec::new();
    let mut i: usize = 0;
    while i < n
        invariant
            n == keys@.len(),
            i <= n,
            pairs@ =~= Seq::new(i as nat, |j: int| (keys@[j], j as usize)),
        decreases n - i,
    {
        pairs.push((keys[i], i));
        i += 1;
    }
    let ghost ps = pairs@;
    proof {
        assert(ps.no_duplicates()) by {
            assert forall|a: int, b: int| 0 <= a < ps.len() && 0 <= b < ps.len() && a != b implies ps[a]
                != ps[b] by {
                assert(ps[a].1 == a as usize);
                assert(ps[b].1 == b as usize);
            }
        }
        ps.lemma_multiset_has_no_duplicates();
    }
    let s = sorted_pairs(pairs);
    proof {
        broadcast use vstd::seq_lib::group_seq_properties;
        ps.to_multiset_ensures();
        s@.to_multiset_ensures();
        s@.lemma_multiset_has_no_duplicates_conv();
        assert forall|p: int| 0 <= p < s@.len() implies s@[p].1 < n && s@[p].0 == keys@[
            s@[p].1 as int] by {
            assert(s@.contains(s@[p]));
            assert(s@.to_multiset().count(s@[p]) > 0);
            assert(ps.to_multiset().count(s@[p]) > 0);
            assert(ps.contains(s@[p]));
            let j = choose|j: int| 0 <= j < ps.len() && ps[j] == s@[p];
            assert(ps[j] == (keys@[j], j as usize));
        }
    }
    let mut order: Vec<usize> = Vec::new();
    let mut p: usize = 0;
    while p < s.len()
        invariant
            n == keys@.len(),
            s@.len() == n,
            s@.no_duplicates(),
            forall|a: int, b: int| 0 <= a < b < s@.len() ==> pair_le(s@[a], s@[b]),
            forall|a: int| 0 <= a < s@.len() ==> s@[a].1 < n && s@[a].0 == keys@[s@[a].1 as int],
            p <= n,
            order@ =~= Seq::new(p as nat, |a: int| s@[a].1),
        decreases n - p,
    {
        order.push(s[p].1);
        p += 1;
    }
    proof {
        assert forall|a: int, b: int| 0 <= a < b < n implies order@[a] != order@[b] && key_before(
            keys@,
            order@[a] as int,
            order@[b] as int,
        ) by {
            assert(s@[a] != s@[b]);
            assert(pair_le(s@[a], s@[b]));
        }
    }
    order
}

#[derive(Clone, Copy, Debug, PartialEq, Eq)]
pub enum RankError {
    PercentileOutOfRange,
}

/// Record `a` ranks above record `b`: a larger diff, ties by earlier position.
pub open spec fn outranks(d: Seq<i128>, a: int, b: int) -> bool {
    d[a] > d[b] || (d[a] == d[b] && a < b)
}

/// How many of the top percentile are highlighted, rounding down.
pub open spec fn top_count(len: nat, percentile: nat) -> nat {
    len * percentile / 100
}

pub open spec fn count_true(s: Seq<bool>) -> nat
    decreases s.len(),
{
    if s.len() == 0 {
        0
    } else {
        count_true(s.drop_last()) + if s.last() { 1nat } else { 0nat }
    }
}

proof fn lemma_count_true_none(s: Seq<bool>)
    requires
        forall|i: int| 0 <= i < s.len() ==> !s[i],
    ensures
        count_true(s) == 0,
    decreases s.len(),
{
    if s.len() > 0 {
        lemma_count_true_none(s.drop_last());
    }
}

proof fn lemma_count_true_set(s: Seq<bool>, i: int)
    requires
        0 <= i < s.len(),
        !s[i],
    ensures
        count_true(s.update(i, true)) == count_true(s) + 1,
    decreases s.len(),
{
    let t = s.update(i, true);
    if i == s.len() - 1 {
        assert(t.drop_last() =~= s.drop_last());
    } else {
        assert(t.drop_last() =~= s.drop_last().update(i, true));
        lemma_count_true_set(s.drop_last(), i);
    }
}

/// The ranking of a whole stream: positions by descending diff, and a flag per record.
#[derive(Clone, Debug)]
pub struct Ranking {
    pub order: Vec<usize>,
    pub top: Vec<bool>,
}

/// Ranks records by descending diff (ties by stream position) and highlights the
/// first `len * percentile / 100` of them.
pub fn highlight_top(diffs: &Vec<i128>, percentile: u64) -> (r: Result<Ranking, RankError>)
    requires
        forall|i: int| 0 <= i < diffs@.len() ==> diffs@[i] > i128::MIN,
    ensures
        percentile > 100 <==> r is Err,
        r is Err ==> r == Err::<Ranking, RankError>(RankError::PercentileOutOfRange),
        r is Ok ==> {
            let k = r.unwrap();
            let n = top_count(diffs@.len(), percentile as nat);
            &&& is_permutation(k.order@, diffs@.len())
            &&& forall|p: int, q: int|
                0 <= p < q < diffs@.len() ==> outranks(diffs@, k.order@[p] as int, k.order@[q] as int)
            &&& k.top@.len() == diffs@.len()
            &&& forall|p: int| 0 <= p < diffs@.len() ==> k.top@[k.order@[p] as int] == (p < n)
            &&& count_true(k.top@) == n
        },
{
    if percentile > 100 {
        return Err(RankError::PercentileOutOfRange);
    }
    let len = diffs.len();
    let wide_len = len as u128;
    let wide_pct = percentile as u128;
    assert(wide_len * wide_pct <= wide_len * 100) by (nonlinear_arith)
        requires
            wide_pct <= 100,
    ;
    let scaled: u128 = wide_len * wide_pct / 100;
    assert(scaled <= wide_len) by (nonlinear_arith)
        requires
            scaled == wide_len * wide_pct / 100,
            wide_pct <= 100,
    ;
    let n: usize = scaled as usize;
    let mut neg: Vec<i128> = Vec::new();
    let mut i: usize = 0;
    while i < len
        invariant
            len == diffs@.len(),
            i <= len,
            forall|j: int| 0 <= j < len ==> diffs@[j] > i128::MIN,
            neg@ =~= Seq::new(i as nat, |j: int| (-diffs@[j]) as i128),
        decreases len - i,
    {
        neg.push(-diffs[i]);
        i += 1;
    }
    let order = sorted_indices(&neg);
    let mut top: Vec<bool> = Vec::new();
    let mut j: usize = 0;
    while j < len
        invariant
            j <= len,
            top@ =~= Seq::new(j as nat, |x: int| false),
        decreases len - j,
    {
        top.push(false);
        j += 1;
    }
    proof {
        lemma_count_true_none(top@);
    }
    let mut p: usize = 0;
    while p < len
        invariant
            len == diffs@.len(),
            n <= len,
            is_permutation(order@, len as nat),
            p <= len,
            top@.len() == len,
            forall|q: int| 0 <= q < p ==> top@[order@[q] as int] == (q < n),
            forall|x: int|
                0 <= x < len && (forall|q: int| 0 <= q < p ==> order@[q] != x) ==> !top@[x],
            count_true(top@) == if p < n { p as nat } else { n as nat },
        decreases len - p,
    {
        let x = order[p];
        let ghost before = top@;
        proof {
            assert forall|q: int| 0 <= q < p implies order@[q] != x by {
                assert(order@[q] != order@[p as int]);
            }
            assert(!before[x as int]);
        }
        if p < n {
            top.set(x, true);
            proof {
                lemma_count_true_set(before, x as int);
            }
        } else {
            top.set(x, false);
            assert(top@ =~= before);
        }
        proof {
            assert forall|q: int| 0 <= q < p + 1 implies top@[order@[q] as int] == (q < n) by {
                if q < p {
                    assert(order@[q] != order@[p as int]);
                }
            }
        }
        p += 1;
    }
    proof {
        assert forall|a: int, b: int| 0 <= a < b < len implies outranks(
            diffs@,
            order@[a] as int,
            order@[b] as int,
        ) by {
            assert(key_before(neg@, order@[a] as int, order@[b] as int));
        }
    }
    Ok(Ranking { order, top })
}

/// Record `a` is presented before record `b`: an earlier timestamp, ties by position.
pub open spec fn ts_before(ts: Seq<u64>, a: int, b: int) -> bool {
    ts[a] < ts[b] || (ts[a] == ts[b] && a < b)
}

/// The presentation order of a stream: positions ascending by timestamp, ties by position.
pub fn presentation_order(ts: &Vec<u64>) -> (order: Vec<usize>)
    ensures
        is_permutation(order@, ts@.len()),
        forall|p: int, q: int|
            0 <= p < q < order@.len() ==> ts_before(ts@, order@[p] as int, order@[q] as int),
{
    let mut keys: Vec<i128> = Vec::new();
    let mut i: usize = 0;
    while i < ts.len()
        invariant
            i <= ts@.len(),
            keys@ =~= Seq::new(i as nat, |j: int| ts@[j] as i128),
        decreases ts@.len() - i,
    {
        keys.push(ts[i] as i128);
        i += 1;
    }
    let order = sorted_indices(&keys);
    proof {
        assert forall|p: int, q: int| 0 <= p < q < order@.len() implies ts_before(
            ts@,
            order@[p] as int,
            order@[q] as int,
        ) by {
            assert(key_before(keys@, order@[p] as int, order@[q] as int));
        }
    }
    order
}

} // verus!
