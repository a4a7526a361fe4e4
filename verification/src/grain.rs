use vstd::prelude::*;
use std::collections::HashMap;

verus! {

broadcast use vstd::std_specs::hash::group_hash_axioms;

/// Where a grain is in its life on the pile.
#[derive(Clone, Copy, Debug, PartialEq, Eq, Structural)]
pub enum GrainState {
    Unknown,
    Falling,
    Impact,
    Rolling,
    Stationary,
    OffPile,
}

/// A grain of sand: its id, its position, its kinetic energy and its state.
#[derive(Clone, Copy, Debug, PartialEq, Eq, Structural)]
pub struct Grain {
    pub id: u32,
    pub x: i32,
    pub y: i32,
    pub z: i32,
    pub energy: usize,
    pub state: GrainState,
}

/// How often `v` occurs in `s`.
pub open spec fn occurrences(s: Seq<u32>, v: u32) -> nat
    decreases s.len(),
{
    if s.len() == 0 {
        0
    } else {
        occurrences(s.drop_last(), v) + if s.last() == v {
            1nat
        } else {
            0nat
        }
    }
}

/// Occurrences add up over concatenation.
pub proof fn lemma_occurrences_append(a: Seq<u32>, b: Seq<u32>, v: u32)
    ensures
        occurrences(a + b, v) == occurrences(a, v) + occurrences(b, v),
    decreases b.len(),
{
    if b.len() == 0 {
        assert(a + b =~= a);
    } else {
        assert((a + b).drop_last() =~= a + b.drop_last());
        lemma_occurrences_append(a, b.drop_last(), v);
    }
}

/// A value that occurs in `s` is an element of it.
pub proof fn lemma_occurrences_member(s: Seq<u32>, v: u32)
    requires
        occurrences(s, v) > 0,
    ensures
        exists|j: int| 0 <= j < s.len() && s[j] == v,
    decreases s.len(),
{
    if s.last() == v {
        assert(s[s.len() - 1] == v);
    } else {
        lemma_occurrences_member(s.drop_last(), v);
        let j = choose|j: int| 0 <= j < s.drop_last().len() && s.drop_last()[j] == v;
        assert(s[j] == v);
    }
}

/// A prefix holds no more occurrences than the whole.
pub proof fn lemma_occurrences_prefix(s: Seq<u32>, j: int, v: u32)
    requires
        0 <= j <= s.len(),
    ensures
        occurrences(s.take(j), v) <= occurrences(s, v),
    decreases s.len(),
{
    if j == s.len() {
        assert(s.take(j) =~= s);
    } else {
        assert(s.drop_last().take(j) =~= s.take(j));
        lemma_occurrences_prefix(s.drop_last(), j, v);
    }
}

/// The grain stored under `id` in `grains`, if any.
pub open spec fn grain_at(grains: Map<u32, Grain>, id: u32) -> Option<Grain> {
    if grains.contains_key(id) {
        Some(grains[id])
    } else {
        None
    }
}

/// A read after a save gives back the grain saved under its id, and leaves
/// every other grain as it was.
pub proof fn lemma_grain_read_after_save(grains: Map<u32, Grain>, g: Grain, id: u32)
    ensures
        grain_at(grains.insert(g.id, g), id) == (if id == g.id {
            Some(g)
        } else {
            grain_at(grains, id)
        }),
{
}

/// `s` with every occurrence of `v` taken out.
pub open spec fn without(s: Seq<u32>, v: u32) -> Seq<u32>
    decreases s.len(),
{
    if s.len() == 0 {
        s
    } else if s.last() == v {
        without(s.drop_last(), v)
    } else {
        without(s.drop_last(), v).push(s.last())
    }
}

/// An element of `p.push(x)` is one of `p` or `x` itself.
pub proof fn lemma_push_contains(p: Seq<u32>, x: u32, w: u32)
    ensures
        p.push(x).contains(w) <==> (p.contains(w) || x == w),
{
    if p.push(x).contains(w) && x != w {
        let i = choose|i: int| 0 <= i < p.push(x).len() && p.push(x)[i] == w;
        assert(p[i] == w);
    }
    if p.contains(w) {
        let i = choose|i: int| 0 <= i < p.len() && p[i] == w;
        assert(p.push(x)[i] == w);
    }
    if x == w {
        assert(p.push(x)[p.len() as int] == w);
    }
}

/// Taking `v` out leaves no occurrence of it, keeps every other element, and
/// keeps a sequence free of duplicates free of them.
pub proof fn lemma_without(s: Seq<u32>, v: u32)
    ensures
        !without(s, v).contains(v),
        forall|w: u32| w != v ==> (#[trigger] without(s, v).contains(w) <==> s.contains(w)),
        without(s, v).len() <= s.len(),
        s.no_duplicates() ==> without(s, v).no_duplicates(),
    decreases s.len(),
{
    if s.len() > 0 {
        let p = s.drop_last();
        let x = s.last();
        assert(s =~= p.push(x));
        lemma_without(p, v);
        assert forall|w: u32| w != v implies (#[trigger] without(s, v).contains(w) <==> s.contains(
            w,
        )) by {
            lemma_push_contains(p, x, w);
            lemma_push_contains(without(p, v), x, w);
            assert(without(p, v).contains(w) <==> p.contains(w));
        }
        if x != v {
            lemma_push_contains(without(p, v), x, v);
        }
        if s.no_duplicates() {
            assert(p.no_duplicates()) by {
                assert forall|i: int, j: int|
                    0 <= i < p.len() && 0 <= j < p.len() && i != j implies p[i] != p[j] by {
                    assert(s[i] == p[i] && s[j] == p[j]);
                }
            }
            if x != v {
                assert(!p.contains(x)) by {
                    if p.contains(x) {
                        let i = choose|i: int| 0 <= i < p.len() && p[i] == x;
                        assert(s[i] == s[s.len() - 1]);
                    }
                }
                assert(!without(p, v).contains(x));
                let q = without(p, v);
                assert forall|i: int, j: int|
                    0 <= i < q.push(x).len() && 0 <= j < q.push(x).len() && i != j implies q.push(
                    x,
                )[i] != q.push(x)[j] by {
                    if i < q.len() && j < q.len() {
                    } else if i < q.len() {
                        assert(q.contains(q[i]));
                    } else {
                        assert(q.contains(q[j]));
                    }
                }
            }
        }
    }
}

/// `g` knocked into rolling `times` times, gaining one unit of energy each time.
pub open spec fn rolled(g: Grain, times: nat) -> Grain {
    Grain { state: GrainState::Rolling, energy: (g.energy + times) as usize, ..g }
}

/// `grains` after each grain named in `ids` has been knocked into rolling once
/// per occurrence.
pub open spec fn jolted(grains: Map<u32, Grain>, ids: Seq<u32>) -> Map<u32, Grain> {
    Map::new(
        |k: u32| grains.contains_key(k),
        |k: u32|
            if occurrences(ids, k) > 0 {
                rolled(grains[k], occurrences(ids, k))
            } else {
                grains[k]
            },
    )
}

/// Every grain named in `ids` is in `grains`, and none gains more energy from
/// them than fits.
pub open spec fn can_jolt(grains: Map<u32, Grain>, ids: Seq<u32>) -> bool {
    &&& forall|i: int| 0 <= i < ids.len() ==> grains.contains_key(#[trigger] ids[i])
    &&& forall|k: u32| #[trigger]
        grains.contains_key(k) ==> grains[k].energy + occurrences(ids, k) <= usize::MAX
}

/// What may be jolted by a sequence may be jolted by any prefix of it.
pub proof fn lemma_can_jolt_prefix(grains: Map<u32, Grain>, s: Seq<u32>, n: int)
    requires
        can_jolt(grains, s),
        0 <= n <= s.len(),
    ensures
        can_jolt(grains, s.take(n)),
{
    assert forall|k: u32| #[trigger] grains.contains_key(k) implies grains[k].energy + occurrences(
        s.take(n),
        k,
    ) <= usize::MAX by {
        lemma_occurrences_prefix(s, n, k);
    }
    assert forall|i: int| 0 <= i < s.take(n).len() implies grains.contains_key(
        #[trigger] s.take(n)[i],
    ) by {
        assert(s.take(n)[i] == s[i]);
    }
}

/// After jolting by `a`, what remains of `a + b` may still be jolted.
pub proof fn lemma_can_jolt_rest(grains: Map<u32, Grain>, a: Seq<u32>, b: Seq<u32>)
    requires
        can_jolt(grains, a + b),
    ensures
        can_jolt(jolted(grains, a), b),
{
    assert forall|k: u32| #[trigger] jolted(grains, a).contains_key(k) implies jolted(
        grains,
        a,
    )[k].energy + occurrences(b, k) <= usize::MAX by {
        lemma_occurrences_append(a, b, k);
        assert(grains.contains_key(k));
    }
    assert forall|i: int| 0 <= i < b.len() implies jolted(grains, a).contains_key(#[trigger] b[i]) by {
        assert((a + b)[a.len() + i] == b[i]);
    }
}

/// Jolting by `a` and then by `b` is jolting by `a + b`.
pub proof fn lemma_jolted_append(grains: Map<u32, Grain>, a: Seq<u32>, b: Seq<u32>)
    requires
        can_jolt(grains, a + b),
    ensures
        jolted(jolted(grains, a), b) == jolted(grains, a + b),
{
    assert forall|k: u32| grains.contains_key(k) implies #[trigger] jolted(jolted(grains, a), b)[k]
        == jolted(grains, a + b)[k] by {
        lemma_occurrences_append(a, b, k);
    }
    assert(jolted(jolted(grains, a), b) =~= jolted(grains, a + b));
}


/// The grain ids of `ids` other than `v`, in their order.
pub fn without_grain(ids: &Vec<u32>, v: u32) -> (res: Vec<u32>)
    ensures
        res@ == without(ids@, v),
{
    let mut res: Vec<u32> = Vec::new();
    let mut i: usize = 0;
    while i < ids.len()
        invariant
            0 <= i <= ids@.len(),
            res@ == without(ids@.take(i as int), v),
        decreases ids@.len() - i,
    {
        assert(ids@.take(i + 1).drop_last() =~= ids@.take(i as int));
        if ids[i] != v {
            res.push(ids[i]);
        }
        i = i + 1;
    }
    assert(ids@.take(ids@.len() as int) =~= ids@);
    res
}

/// All grains of a run, each stored under its own id.
pub struct GrainStore {
    grains: HashMap<u32, Grain>,
}

impl View for GrainStore {
    type V = Map<u32, Grain>;

    closed spec fn view(&self) -> Map<u32, Grain> {
        self.grains@
    }
}

impl GrainStore {
    /// Each grain is stored under its own id.
    pub open spec fn wf(self) -> bool {
        forall|k: u32| #[trigger] self@.contains_key(k) ==> self@[k].id == k
    }

    /// An empty store.
    pub fn new() -> (store: GrainStore)
        ensures
            store.wf(),
            store@ == Map::<u32, Grain>::empty(),
    {
        GrainStore { grains: HashMap::new() }
    }

    /// The grain stored under `id`, if any.
    #[allow(non_snake_case)]
    pub fn getGrainById(&self, id: u32) -> (res: Option<Grain>)
        ensures
            res == grain_at(self@, id),
    {
        match self.grains.get(&id) {
            Some(g) => Some(*g),
            None => None,
        }
    }

    /// Stores `grain` under its id, replacing the grain stored there before.
    #[allow(non_snake_case)]
    pub fn saveGrain(&mut self, grain: Grain)
        requires
            old(self).wf(),
        ensures
            final(self).wf(),
            final(self)@ == old(self)@.insert(grain.id, grain),
    {
        self.grains.insert(grain.id, grain);
    }

    /// Knocks each grain named in `ids` into rolling, adding one unit of
    /// energy per occurrence of its id.
    pub fn jolt(&mut self, ids: &Vec<u32>)
        requires
            old(self).wf(),
            can_jolt(old(self)@, ids@),
        ensures
            final(self).wf(),
            final(self)@ == jolted(old(self)@, ids@),
    {
        let ghost start = self@;
        let mut i: usize = 0;
        assert(jolted(start, ids@.take(0)) =~= start);
        while i < ids.len()
            invariant
                0 <= i <= ids@.len(),
                self.wf(),
                can_jolt(start, ids@),
                self@ == jolted(start, ids@.take(i as int)),
            decreases ids@.len() - i,
        {
            let id = ids[i];
            let ghost before = self@;
            assert(start.contains_key(id));
            proof {
                lemma_occurrences_prefix(ids@, i + 1, id);
                assert(ids@.take(i + 1).drop_last() =~= ids@.take(i as int));
            }
            let mut grain = self.getGrainById(id).unwrap();
            grain.state = GrainState::Rolling;
            grain.energy = grain.energy + 1;
            self.saveGrain(grain);
            proof {
                assert forall|k: u32| start.contains_key(k) implies #[trigger] self@[k] == jolted(
                    start,
                    ids@.take(i + 1),
                )[k] by {
                    lemma_occurrences_prefix(ids@, i + 1, k);
                }
                assert(self@ =~= jolted(start, ids@.take(i + 1)));
            }
            i = i + 1;
        }
        assert(ids@.take(ids@.len() as int) =~= ids@);
    }

    /// The number of times `id` occurs in `ids`.
    fn count_in(ids: &Vec<u32>, id: u32) -> (c: usize)
        ensures
            c == occurrences(ids@, id),
    {
        let mut c: usize = 0;
        let mut j: usize = 0;
        while j < ids.len()
            invariant
                0 <= j <= ids@.len(),
                c == occurrences(ids@.take(j as int), id),
                c <= j,
            decreases ids@.len() - j,
        {
            assert(ids@.take(j + 1).drop_last() =~= ids@.take(j as int));
            if ids[j] == id {
                c = c + 1;
            }
            j = j + 1;
        }
        assert(ids@.take(ids@.len() as int) =~= ids@);
        c
    }

    /// Whether `ids` could be jolted once `changed` is saved.
    pub(crate) fn can_jolt_with(&self, ids: &Vec<u32>, changed: Grain) -> (ok: bool)
        requires
            self.wf(),
        ensures
            ok == can_jolt(self@.insert(changed.id, changed), ids@),
    {
        let ghost m = self@.insert(changed.id, changed);
        let mut i: usize = 0;
        while i < ids.len()
            invariant
                0 <= i <= ids@.len(),
                m == self@.insert(changed.id, changed),
                forall|k: int| 0 <= k < i ==> m.contains_key(#[trigger] ids@[k]),
                forall|k: int|
                    0 <= k < i ==> m[#[trigger] ids@[k]].energy + occurrences(ids@, ids@[k])
                        <= usize::MAX,
            decreases ids@.len() - i,
        {
            let id = ids[i];
            let g = if id == changed.id {
                changed
            } else {
                match self.getGrainById(id) {
                    Some(g) => g,
                    None => {
                        return false;
                    },
                }
            };
            let c = GrainStore::count_in(ids, id);
            if g.energy > usize::MAX - c {
                return false;
            }
            i = i + 1;
        }
        assert forall|k: u32| #[trigger] m.contains_key(k) implies m[k].energy + occurrences(ids@, k)
            <= usize::MAX by {
            if occurrences(ids@, k) > 0 {
                lemma_occurrences_member(ids@, k);
                let j = choose|j: int| 0 <= j < ids@.len() && ids@[j] == k;
                assert(m[ids@[j]].energy + occurrences(ids@, ids@[j]) <= usize::MAX);
            }
        }
        true
    }
}

} // verus!
