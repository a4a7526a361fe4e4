use vstd::prelude::*;

use crate::avalanche::Avalanche;

verus! {

/// How often `v` occurs in `s`.
pub open spec fn count_of(s: Seq<usize>, v: usize) -> nat
    decreases s.len(),
{
    if s.len() == 0 {
        0
    } else {
        count_of(s.drop_last(), v) + if s.last() == v {
            1nat
        } else {
            0nat
        }
    }
}

/// The sum of the counts of a table of (value, count) rows.
pub open spec fn total_count(h: Seq<(usize, usize)>) -> nat
    decreases h.len(),
{
    if h.len() == 0 {
        0
    } else {
        total_count(h.drop_last()) + (h.last().1 as nat)
    }
}

/// `h` tallies `vs`: one row per distinct value of `vs`, in ascending order
/// of value, each with the number of times the value occurs.
pub open spec fn tallies(h: Seq<(usize, usize)>, vs: Seq<usize>) -> bool {
    &&& forall|i: int, j: int| 0 <= i < j < h.len() ==> #[trigger] h[i].0 < #[trigger] h[j].0
    &&& forall|i: int|
        0 <= i < h.len() ==> #[trigger] h[i].1 == count_of(vs, h[i].0) && h[i].1 > 0
    &&& forall|k: int| 0 <= k < vs.len() ==> exists|i: int| 0 <= i < h.len() && #[trigger] h[i].0 == #[trigger] vs[k]
}

proof fn lemma_count_of_bound(s: Seq<usize>, v: usize)
    ensures
        count_of(s, v) <= s.len(),
    decreases s.len(),
{
    if s.len() > 0 {
        lemma_count_of_bound(s.drop_last(), v);
    }
}

proof fn lemma_count_of_absent(s: Seq<usize>, v: usize)
    requires
        forall|k: int| 0 <= k < s.len() ==> s[k] != v,
    ensures
        count_of(s, v) == 0,
    decreases s.len(),
{
    if s.len() > 0 {
        lemma_count_of_absent(s.drop_last(), v);
    }
}

proof fn lemma_total_count_append(a: Seq<(usize, usize)>, b: Seq<(usize, usize)>)
    ensures
        total_count(a + b) == total_count(a) + total_count(b),
    decreases b.len(),
{
    if b.len() == 0 {
        assert(a + b =~= a);
    } else {
        assert((a + b).drop_last() =~= a + b.drop_last());
        lemma_total_count_append(a, b.drop_last());
    }
}

proof fn lemma_total_count_single(x: (usize, usize))
    ensures
        total_count(seq![x]) == x.1,
{
    assert(seq![x].drop_last() =~= Seq::<(usize, usize)>::empty());
    assert(total_count(Seq::<(usize, usize)>::empty()) == 0);
    assert(seq![x].last() == x);
}

proof fn lemma_count_of_push(s: Seq<usize>, v: usize, w: usize)
    ensures
        count_of(s.push(v), w) == count_of(s, w) + if v == w {
            1nat
        } else {
            0nat
        },
{
    assert(s.push(v).drop_last() =~= s);
}

/// Counting one more occurrence of a value already in the table.
proof fn lemma_tally_bump(h: Seq<(usize, usize)>, p: int, v: usize, before: Seq<usize>)
    requires
        tallies(h, before),
        0 <= p < h.len(),
        h[p].0 == v,
        h[p].1 < usize::MAX,
    ensures
        tallies(h.update(p, (v, (h[p].1 + 1) as usize)), before.push(v)),
        total_count(h.update(p, (v, (h[p].1 + 1) as usize))) == total_count(h) + 1,
{
    let x = (v, (h[p].1 + 1) as usize);
    let g = h.update(p, x);
    let after = before.push(v);
    assert(h =~= h.take(p) + (seq![h[p]] + h.skip(p + 1)));
    assert(g =~= h.take(p) + (seq![x] + h.skip(p + 1)));
    lemma_total_count_append(seq![h[p]], h.skip(p + 1));
    lemma_total_count_append(seq![x], h.skip(p + 1));
    lemma_total_count_append(h.take(p), seq![h[p]] + h.skip(p + 1));
    lemma_total_count_append(h.take(p), seq![x] + h.skip(p + 1));
    lemma_total_count_single(h[p]);
    lemma_total_count_single(x);
    assert forall|j: int| 0 <= j < g.len() implies #[trigger] g[j].1 == count_of(after, g[j].0)
        && g[j].1 > 0 by {
        lemma_count_of_push(before, v, g[j].0);
        if j != p {
            assert(h[j].0 != v);
        }
    }
    assert forall|k: int| 0 <= k < after.len() implies exists|j: int|
        0 <= j < g.len() && #[trigger] g[j].0 == #[trigger] after[k] by {
        if k < before.len() {
            assert(after[k] == before[k]);
            let j = choose|j: int| 0 <= j < h.len() && #[trigger] h[j].0 == before[k];
            assert(g[j].0 == after[k]);
        } else {
            assert(g[p].0 == after[k]);
        }
    }
}

/// Counting a value new to the table, in its place by order.
proof fn lemma_tally_insert(h: Seq<(usize, usize)>, p: int, v: usize, before: Seq<usize>)
    requires
        tallies(h, before),
        0 <= p <= h.len(),
        forall|q: int| 0 <= q < p ==> #[trigger] h[q].0 < v,
        p < h.len() ==> h[p].0 > v,
    ensures
        tallies(h.insert(p, (v, 1usize)), before.push(v)),
        total_count(h.insert(p, (v, 1usize))) == total_count(h) + 1,
{
    let x = (v, 1usize);
    let g = h.insert(p, x);
    let after = before.push(v);
    assert forall|k: int| 0 <= k < before.len() implies before[k] != v by {
        let j = choose|j: int| 0 <= j < h.len() && #[trigger] h[j].0 == before[k];
        if j >= p {
            assert(h[p].0 <= h[j].0);
        }
    }
    lemma_count_of_absent(before, v);
    assert(h =~= h.take(p) + h.skip(p));
    assert(g =~= h.take(p) + (seq![x] + h.skip(p)));
    lemma_total_count_append(h.take(p), h.skip(p));
    lemma_total_count_append(seq![x], h.skip(p));
    lemma_total_count_append(h.take(p), seq![x] + h.skip(p));
    lemma_total_count_single(x);
    assert forall|a: int, b: int| 0 <= a < b < g.len() implies #[trigger] g[a].0
        < #[trigger] g[b].0 by {
        if b < p {
        } else if b == p {
        } else if a < p {
            assert(h[a].0 < v);
            assert(h[p].0 <= h[b - 1].0);
        } else if a == p {
            assert(h[p].0 <= h[b - 1].0);
        } else {
            assert(h[a - 1].0 < h[b - 1].0);
        }
    }
    assert forall|j: int| 0 <= j < g.len() implies #[trigger] g[j].1 == count_of(after, g[j].0)
        && g[j].1 > 0 by {
        lemma_count_of_push(before, v, g[j].0);
        if j < p {
            assert(g[j] == h[j]);
        } else if j > p {
            assert(g[j] == h[j - 1]);
        }
    }
    assert forall|k: int| 0 <= k < after.len() implies exists|j: int|
        0 <= j < g.len() && #[trigger] g[j].0 == #[trigger] after[k] by {
        if k < before.len() {
            assert(after[k] == before[k]);
            let j = choose|j: int| 0 <= j < h.len() && #[trigger] h[j].0 == before[k];
            if j < p {
                assert(g[j].0 == after[k]);
            } else {
                assert(g[j + 1].0 == after[k]);
            }
        } else {
            assert(g[p].0 == after[k]);
        }
    }
}

/// Counts one more value `v` in the table `h` of the values `before`.
fn tally_one(h: &mut Vec<(usize, usize)>, v: usize, Ghost(before): Ghost<Seq<usize>>)
    requires
        tallies(old(h)@, before),
        total_count(old(h)@) == before.len(),
        before.len() < usize::MAX,
    ensures
        tallies(final(h)@, before.push(v)),
        total_count(final(h)@) == before.len() + 1,
{
    let ghost h0 = h@;
    let mut p: usize = 0;
    while p < h.len() && h[p].0 < v
        invariant
            0 <= p <= h@.len(),
            h@ == h0,
            forall|q: int| 0 <= q < p ==> #[trigger] h@[q].0 < v,
        decreases h@.len() - p,
    {
        p = p + 1;
    }
    if p < h.len() && h[p].0 == v {
        let c = h[p].1;
        proof {
            lemma_count_of_bound(before, v);
            lemma_tally_bump(h0, p as int, v, before);
        }
        h.set(p, (v, c + 1));
    } else {
        proof {
            lemma_tally_insert(h0, p as int, v, before);
        }
        h.insert(p, (v, 1));
    }
}

/// Tallies `values`: one row (value, count) per distinct value, in ascending
/// order of value. The counts add up to the number of values.
#[allow(non_snake_case)]
pub fn countByValue(values: &Vec<usize>) -> (res: Vec<(usize, usize)>)
    ensures
        tallies(res@, values@),
        total_count(res@) == values@.len(),
{
    let mut h: Vec<(usize, usize)> = Vec::new();
    let mut i: usize = 0;
    while i < values.len()
        invariant
            0 <= i <= values@.len(),
            tallies(h@, values@.take(i as int)),
            total_count(h@) == i,
        decreases values@.len() - i,
    {
        assert(values@.take(i + 1) =~= values@.take(i as int).push(values@[i as int]));
        tally_one(&mut h, values[i], Ghost(values@.take(i as int)));
        i = i + 1;
    }
    assert(values@.take(values@.len() as int) =~= values@);
    h
}

/// The grains involved in each avalanche, in order.
pub open spec fn grain_totals(avs: Seq<Avalanche>) -> Seq<usize> {
    Seq::new(avs.len(), |i: int| avs[i].totalGrainsInvolved)
}

/// The movement of each avalanche, in order.
pub open spec fn movement_totals(avs: Seq<Avalanche>) -> Seq<usize> {
    Seq::new(avs.len(), |i: int| avs[i].totalMovement)
}

/// The magnitude of each avalanche, grains involved times movement, in order.
pub open spec fn magnitudes(avs: Seq<Avalanche>) -> Seq<usize> {
    Seq::new(avs.len(), |i: int| (avs[i].totalGrainsInvolved * avs[i].totalMovement) as usize)
}

/// The largest value of `vs`, or 0 when it is empty.
pub open spec fn max_value(vs: Seq<usize>) -> nat
    decreases vs.len(),
{
    if vs.len() == 0 {
        0
    } else if vs.last() > max_value(vs.drop_last()) {
        vs.last() as nat
    } else {
        max_value(vs.drop_last())
    }
}

proof fn lemma_max_value_bounds(vs: Seq<usize>)
    ensures
        forall|k: int| 0 <= k < vs.len() ==> vs[k] <= max_value(vs),
        vs.len() > 0 ==> exists|k: int| 0 <= k < vs.len() && vs[k] == max_value(vs),
    decreases vs.len(),
{
    if vs.len() > 0 {
        let p = vs.drop_last();
        lemma_max_value_bounds(p);
        assert forall|k: int| 0 <= k < vs.len() implies vs[k] <= max_value(vs) by {
            if k < p.len() {
                assert(vs[k] == p[k]);
            }
        }
        if p.len() > 0 && vs.last() <= max_value(p) {
            let k = choose|k: int| 0 <= k < p.len() && p[k] == max_value(p);
            assert(vs[k] == p[k]);
        }
        if p.len() == 0 {
            assert(vs[0] == vs.last());
        }
    }
}

/// `r` lists, for each movement from 1 up to the largest of `vs`, how often
/// it occurs in `vs`: entry `j` counts the movement `j + 1`.
pub open spec fn movement_rows(r: Seq<usize>, vs: Seq<usize>) -> bool {
    &&& r.len() == max_value(vs)
    &&& forall|j: int| 0 <= j < r.len() ==> #[trigger] r[j] == count_of(vs, (j + 1) as usize)
}

/// `a` and `b` hold the same values equally often (one is a reordering of
/// the other).
pub open spec fn same_counts(a: Seq<usize>, b: Seq<usize>) -> bool {
    forall|v: usize| #[trigger] count_of(a, v) == count_of(b, v)
}

/// A value occurs in `s` exactly when it is an element of it.
pub proof fn lemma_count_of_member(s: Seq<usize>, v: usize)
    ensures
        count_of(s, v) > 0 <==> s.contains(v),
    decreases s.len(),
{
    if s.len() > 0 {
        let p = s.drop_last();
        lemma_count_of_member(p, v);
        if p.contains(v) {
            let j = choose|j: int| 0 <= j < p.len() && p[j] == v;
            assert(s[j] == v);
        }
        if s.contains(v) && s.last() != v {
            let j = choose|j: int| 0 <= j < s.len() && s[j] == v;
            assert(p[j] == v);
        }
        if s.last() == v {
            assert(s[s.len() - 1] == v);
        }
    }
}

spec fn has_row(h: Seq<(usize, usize)>, r: (usize, usize)) -> bool {
    exists|j: int| 0 <= j < h.len() && h[j] == r
}

spec fn strictly_sorted(h: Seq<(usize, usize)>) -> bool {
    forall|i: int, j: int| 0 <= i < j < h.len() ==> #[trigger] h[i].0 < #[trigger] h[j].0
}

proof fn lemma_sorted_rows_equal(h1: Seq<(usize, usize)>, h2: Seq<(usize, usize)>)
    requires
        strictly_sorted(h1),
        strictly_sorted(h2),
        forall|i: int| 0 <= i < h1.len() ==> has_row(h2, #[trigger] h1[i]),
        forall|j: int| 0 <= j < h2.len() ==> has_row(h1, #[trigger] h2[j]),
    ensures
        h1 == h2,
    decreases h1.len(),
{
    if h1.len() == 0 {
        if h2.len() > 0 {
            assert(has_row(h1, h2[0]));
        }
        assert(h1 =~= h2);
    } else {
        assert(has_row(h2, h1[0]));
        let j0 = choose|j: int| 0 <= j < h2.len() && h2[j] == h1[0];
        assert(has_row(h1, h2[0]));
        let i0 = choose|i: int| 0 <= i < h1.len() && h1[i] == h2[0];
        if j0 > 0 {
            assert(h2[0].0 < h2[j0].0);
            if i0 > 0 {
                assert(h1[0].0 < h1[i0].0);
            }
        }
        assert(h1[0] == h2[0]);
        let t1 = h1.skip(1);
        let t2 = h2.skip(1);
        assert forall|i: int| 0 <= i < t1.len() implies has_row(t2, #[trigger] t1[i]) by {
            assert(t1[i] == h1[i + 1]);
            assert(has_row(h2, h1[i + 1]));
            let j = choose|j: int| 0 <= j < h2.len() && h2[j] == h1[i + 1];
            assert(h1[0].0 < h1[i + 1].0);
            assert(j != 0);
            assert(t2[j - 1] == h2[j]);
        }
        assert forall|j: int| 0 <= j < t2.len() implies has_row(t1, #[trigger] t2[j]) by {
            assert(t2[j] == h2[j + 1]);
            assert(has_row(h1, h2[j + 1]));
            let i = choose|i: int| 0 <= i < h1.len() && h1[i] == h2[j + 1];
            assert(h2[0].0 < h2[j + 1].0);
            assert(i != 0);
            assert(t1[i - 1] == h1[i]);
        }
        assert(strictly_sorted(t1)) by {
            assert forall|i: int, j: int| 0 <= i < j < t1.len() implies #[trigger] t1[i].0
                < #[trigger] t1[j].0 by {
                assert(h1[i + 1].0 < h1[j + 1].0);
            }
        }
        assert(strictly_sorted(t2)) by {
            assert forall|i: int, j: int| 0 <= i < j < t2.len() implies #[trigger] t2[i].0
                < #[trigger] t2[j].0 by {
                assert(h2[i + 1].0 < h2[j + 1].0);
            }
        }
        lemma_sorted_rows_equal(t1, t2);
        assert(h1 =~= seq![h1[0]] + t1);
        assert(h2 =~= seq![h2[0]] + t2);
    }
}

/// A tally depends on nothing but how often each value occurs: values in
/// another order, or taken from records that differ in anything else, give
/// the same rows.
pub proof fn lemma_tally_depends_only_on_counts(
    h1: Seq<(usize, usize)>,
    h2: Seq<(usize, usize)>,
    a: Seq<usize>,
    b: Seq<usize>,
)
    requires
        tallies(h1, a),
        tallies(h2, b),
        same_counts(a, b),
    ensures
        h1 == h2,
{
    assert forall|i: int| 0 <= i < h1.len() implies has_row(h2, #[trigger] h1[i]) by {
        let v = h1[i].0;
        assert(h1[i].1 == count_of(a, v) && h1[i].1 > 0);
        assert(count_of(b, v) > 0);
        lemma_count_of_member(b, v);
        let k = choose|k: int| 0 <= k < b.len() && b[k] == v;
        let j = choose|j: int| 0 <= j < h2.len() && #[trigger] h2[j].0 == #[trigger] b[k];
        assert(h2[j].1 == count_of(b, v));
        assert(h2[j] == h1[i]);
    }
    assert forall|j: int| 0 <= j < h2.len() implies has_row(h1, #[trigger] h2[j]) by {
        let v = h2[j].0;
        assert(h2[j].1 == count_of(b, v) && h2[j].1 > 0);
        assert(count_of(a, v) > 0);
        lemma_count_of_member(a, v);
        let k = choose|k: int| 0 <= k < a.len() && a[k] == v;
        let i = choose|i: int| 0 <= i < h1.len() && #[trigger] h1[i].0 == #[trigger] a[k];
        assert(h1[i].1 == count_of(a, v));
        assert(h1[i] == h2[j]);
    }
    lemma_sorted_rows_equal(h1, h2);
}

proof fn lemma_max_value_same_counts(a: Seq<usize>, b: Seq<usize>)
    requires
        same_counts(a, b),
    ensures
        max_value(a) == max_value(b),
{
    lemma_max_value_bounds(a);
    lemma_max_value_bounds(b);
    if a.len() > 0 {
        let i = choose|i: int| 0 <= i < a.len() && a[i] == max_value(a);
        lemma_count_of_member(a, a[i]);
        assert(count_of(b, a[i]) > 0);
        lemma_count_of_member(b, a[i]);
    }
    if b.len() > 0 {
        let j = choose|j: int| 0 <= j < b.len() && b[j] == max_value(b);
        lemma_count_of_member(b, b[j]);
        assert(count_of(a, b[j]) > 0);
        lemma_count_of_member(a, b[j]);
    }
}

/// The exported rows depend on nothing but how often each movement occurs:
/// avalanches in another order, or differing in anything but their movement,
/// give the same rows.
pub proof fn lemma_movement_rows_depend_only_on_counts(
    r1: Seq<usize>,
    r2: Seq<usize>,
    a: Seq<usize>,
    b: Seq<usize>,
)
    requires
        movement_rows(r1, a),
        movement_rows(r2, b),
        same_counts(a, b),
    ensures
        r1 == r2,
{
    lemma_max_value_same_counts(a, b);
    assert forall|j: int| 0 <= j < r1.len() implies r1[j] == r2[j] by {
        assert(count_of(a, (j + 1) as usize) == count_of(b, (j + 1) as usize));
    }
    assert(r1 =~= r2);
}

/// One more avalanche with movement `m >= 1` adds one to row `m`, after
/// adding rows of zero up to `m` when `m` is beyond the last row; one with
/// movement 0 changes nothing.
pub proof fn lemma_movement_rows_append(r1: Seq<usize>, r2: Seq<usize>, vs: Seq<usize>, m: usize)
    requires
        movement_rows(r1, vs),
        movement_rows(r2, vs.push(m)),
    ensures
        r2.len() == (if m > r1.len() {
            m as int
        } else {
            r1.len() as int
        }),
        forall|j: int|
            0 <= j < r2.len() ==> #[trigger] r2[j] == (if j < r1.len() {
                r1[j] as int
            } else {
                0
            }) + (if j + 1 == m {
                1int
            } else {
                0
            }),
        m == 0 ==> r2 == r1,
{
    assert(vs.push(m).drop_last() =~= vs);
    lemma_max_value_bounds(vs);
    assert forall|j: int| 0 <= j < r2.len() implies #[trigger] r2[j] == (if j < r1.len() {
        r1[j] as int
    } else {
        0
    }) + (if j + 1 == m {
        1int
    } else {
        0
    }) by {
        lemma_count_of_push(vs, m, (j + 1) as usize);
        if j >= r1.len() {
            if count_of(vs, (j + 1) as usize) > 0 {
                lemma_count_of_member(vs, (j + 1) as usize);
                let k = choose|k: int| 0 <= k < vs.len() && vs[k] == (j + 1) as usize;
                assert(vs[k] <= max_value(vs));
            }
        }
    }
    if m == 0 {
        assert(r2 =~= r1);
    }
}

/// Tallies the number of grains involved in each avalanche.
#[allow(non_snake_case)]
pub fn avalancheTotalGrainsStats(avalanches: &Vec<Avalanche>) -> (res: Vec<(usize, usize)>)
    ensures
        tallies(res@, grain_totals(avalanches@)),
        total_count(res@) == avalanches@.len(),
{
    let mut values: Vec<usize> = Vec::new();
    let mut i: usize = 0;
    while i < avalanches.len()
        invariant
            0 <= i <= avalanches@.len(),
            values@ == grain_totals(avalanches@).take(i as int),
        decreases avalanches@.len() - i,
    {
        values.push(avalanches[i].totalGrainsInvolved);
        assert(values@ =~= grain_totals(avalanches@).take(i + 1));
        i = i + 1;
    }
    assert(values@ =~= grain_totals(avalanches@));
    countByValue(&values)
}

/// Tallies the movement of each avalanche.
#[allow(non_snake_case)]
pub fn avalancheTotalMovementStats(avalanches: &Vec<Avalanche>) -> (res: Vec<(usize, usize)>)
    ensures
        tallies(res@, movement_totals(avalanches@)),
        total_count(res@) == avalanches@.len(),
{
    let values = movementValues(avalanches);
    countByValue(&values)
}

/// Tallies the magnitude of each avalanche: its grains involved times its
/// movement.
#[allow(non_snake_case)]
pub fn avalancheTotalMagnitudeStats(avalanches: &Vec<Avalanche>) -> (res: Vec<(usize, usize)>)
    requires
        forall|i: int|
            0 <= i < avalanches@.len() ==> #[trigger] avalanches@[i].totalGrainsInvolved
                * avalanches@[i].totalMovement <= usize::MAX,
    ensures
        tallies(res@, magnitudes(avalanches@)),
        total_count(res@) == avalanches@.len(),
{
    let mut values: Vec<usize> = Vec::new();
    let mut i: usize = 0;
    while i < avalanches.len()
        invariant
            0 <= i <= avalanches@.len(),
            values@ == magnitudes(avalanches@).take(i as int),
            forall|i: int|
                0 <= i < avalanches@.len() ==> #[trigger] avalanches@[i].totalGrainsInvolved
                    * avalanches@[i].totalMovement <= usize::MAX,
        decreases avalanches@.len() - i,
    {
        let a = &avalanches[i];
        assert(a.totalGrainsInvolved * a.totalMovement <= usize::MAX);
        values.push(a.totalGrainsInvolved * a.totalMovement);
        assert(values@ =~= magnitudes(avalanches@).take(i + 1));
        i = i + 1;
    }
    assert(values@ =~= magnitudes(avalanches@));
    countByValue(&values)
}

#[allow(non_snake_case)]
fn movementValues(avalanches: &Vec<Avalanche>) -> (values: Vec<usize>)
    ensures
        values@ == movement_totals(avalanches@),
{
    let mut values: Vec<usize> = Vec::new();
    let mut i: usize = 0;
    while i < avalanches.len()
        invariant
            0 <= i <= avalanches@.len(),
            values@ == movement_totals(avalanches@).take(i as int),
        decreases avalanches@.len() - i,
    {
        values.push(avalanches[i].totalMovement);
        assert(values@ =~= movement_totals(avalanches@).take(i + 1));
        i = i + 1;
    }
    assert(values@ =~= movement_totals(avalanches@));
    values
}

/// For each movement from 1 up to the largest movement of any avalanche, the
/// number of avalanches that moved exactly that far: entry `j` counts the
/// movement `j + 1`.
#[allow(non_snake_case)]
pub fn exportedMovementCounts(avalanches: &Vec<Avalanche>) -> (res: Vec<usize>)
    requires
        forall|i: int| 0 <= i < avalanches@.len() ==> #[trigger] avalanches@[i].totalMovement < usize::MAX,
    ensures
        movement_rows(res@, movement_totals(avalanches@)),
{
    let values = movementValues(avalanches);
    let ghost vs = values@;
    let mut largestMovement: usize = 0;
    let mut i: usize = 0;
    while i < values.len()
        invariant
            0 <= i <= vs.len(),
            values@ == vs,
            largestMovement == max_value(vs.take(i as int)),
        decreases vs.len() - i,
    {
        assert(vs.take(i + 1).drop_last() =~= vs.take(i as int));
        if values[i] > largestMovement {
            largestMovement = values[i];
        }
        i = i + 1;
    }
    assert(vs.take(vs.len() as int) =~= vs);
    proof {
        lemma_max_value_bounds(vs);
    }
    let mut res: Vec<usize> = Vec::new();
    let mut j: usize = 0;
    while j < largestMovement
        invariant
            0 <= j <= largestMovement,
            res@.len() == j,
            forall|k: int| 0 <= k < j ==> res@[k] == 0,
        decreases largestMovement - j,
    {
        res.push(0);
        j = j + 1;
    }
    let mut i: usize = 0;
    assert forall|k: int| 0 <= k < res@.len() implies #[trigger] res@[k] == count_of(
        vs.take(0),
        (k + 1) as usize,
    ) by {
        assert(vs.take(0).len() == 0);
    }
    while i < values.len()
        invariant
            0 <= i <= vs.len(),
            values@ == vs,
            res@.len() == largestMovement,
            largestMovement == max_value(vs),
            forall|k: int| 0 <= k < vs.len() ==> vs[k] <= max_value(vs),
            forall|k: int|
                0 <= k < res@.len() ==> #[trigger] res@[k] == count_of(
                    vs.take(i as int),
                    (k + 1) as usize,
                ),
        decreases vs.len() - i,
    {
        let v = values[i];
        let ghost old_res = res@;
        proof {
            assert(vs.take(i + 1) =~= vs.take(i as int).push(v));
            assert forall|k: int| 0 <= k < res@.len() implies #[trigger] count_of(
                vs.take(i + 1),
                (k + 1) as usize,
            ) == count_of(vs.take(i as int), (k + 1) as usize) + if v == (k + 1) as usize {
                1nat
            } else {
                0nat
            } by {
                lemma_count_of_push(vs.take(i as int), v, (k + 1) as usize);
            }
        }
        if v >= 1 {
            let c = res[v - 1];
            proof {
                lemma_count_of_bound(vs.take(i as int), v);
            }
            res.set(v - 1, c + 1);
        }
        i = i + 1;
    }
    assert(vs.take(vs.len() as int) =~= vs);
    res
}

} // verus!
