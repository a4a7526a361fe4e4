use vstd::prelude::*;

use crate::constants::TOTAL_GRAINS;
use crate::grain::{Grain, GrainState, GrainStore, without, without_grain, lemma_without};
use crate::location::{
    Location,
    LocationStore,
    LocationView,
    Coords,
    after_landing,
    landed,
    saved,
    can_perturb,
    perturbed_loose,
    perturbed_store,
    perturbed_grains,
    perturbs,
    ceiling_coords,
    share_of,
    lemma_ceiling_above,
    lemma_grains_at_other_cells,
    lemma_avalanche_size,
    avalanche_size,
    lemma_perturbation_takes_the_top,
    located,
};
use crate::constants::{BASE_AVALANCHE_METHOD, BASE_AVALANCHE_SIZE, BASE_AVALANCHE_SHARE_NUM, BASE_AVALANCHE_SHARE_DEN};

verus! {

/// An avalanche: the grains set in motion by one grain dropped on the pile.
#[allow(non_snake_case)]
pub struct Avalanche {
    pub id: u32,
    /// The grains currently moving in the avalanche.
    pub grainIds: Vec<u32>,
    /// The locations the avalanche has touched.
    pub locationIds: Vec<u32>,
    /// How far the grains of the avalanche have moved in all.
    pub totalMovement: usize,
    /// How many grains have joined the avalanche in all.
    pub totalGrainsInvolved: usize,
    /// The direction of the avalanche.
    pub direction: usize,
}

/// What an avalanche holds, with its lists as sequences.
#[verifier::ext_equal]
#[allow(non_snake_case)]
pub struct AvalancheView {
    pub id: u32,
    pub grainIds: Seq<u32>,
    pub locationIds: Seq<u32>,
    pub totalMovement: usize,
    pub totalGrainsInvolved: usize,
    pub direction: usize,
}

impl View for Avalanche {
    type V = AvalancheView;

    open spec fn view(&self) -> AvalancheView {
        AvalancheView {
            id: self.id,
            grainIds: self.grainIds@,
            locationIds: self.locationIds@,
            totalMovement: self.totalMovement,
            totalGrainsInvolved: self.totalGrainsInvolved,
            direction: self.direction,
        }
    }
}

/// A new avalanche with id `id`, holding nothing.
pub open spec fn fresh_avalanche(id: u32) -> AvalancheView {
    AvalancheView {
        id,
        grainIds: Seq::empty(),
        locationIds: Seq::empty(),
        totalMovement: 0,
        totalGrainsInvolved: 0,
        direction: 0,
    }
}

/// `ids` with each grain of `extra` appended, in order, unless it is already
/// there.
pub open spec fn joined(ids: Seq<u32>, extra: Seq<u32>) -> Seq<u32>
    decreases extra.len(),
{
    if extra.len() == 0 {
        ids
    } else {
        let prev = joined(ids, extra.drop_last());
        if prev.contains(extra.last()) {
            prev
        } else {
            prev.push(extra.last())
        }
    }
}

/// Joining keeps what was there in front, and adds no duplicates.
pub proof fn lemma_joined(ids: Seq<u32>, extra: Seq<u32>)
    ensures
        joined(ids, extra).len() >= ids.len(),
        joined(ids, extra).take(ids.len() as int) == ids,
        ids.no_duplicates() ==> joined(ids, extra).no_duplicates(),
        forall|i: int| 0 <= i < extra.len() ==> joined(ids, extra).contains(#[trigger] extra[i]),
    decreases extra.len(),
{
    if extra.len() == 0 {
        assert(ids.take(ids.len() as int) =~= ids);
    } else {
        let prev = joined(ids, extra.drop_last());
        let x = extra.last();
        lemma_joined(ids, extra.drop_last());
        if !prev.contains(x) {
            assert(prev.push(x).take(ids.len() as int) =~= prev.take(ids.len() as int));
            assert forall|i: int, j: int|
                prev.no_duplicates() && 0 <= i < prev.push(x).len() && 0 <= j < prev.push(x).len()
                    && i != j implies prev.push(x)[i] != prev.push(x)[j] by {
                if i < prev.len() && j < prev.len() {
                } else if i < prev.len() {
                    assert(prev.contains(prev[i]));
                } else {
                    assert(prev.contains(prev[j]));
                }
            }
        }
        assert forall|i: int| 0 <= i < extra.len() implies joined(ids, extra).contains(
            #[trigger] extra[i],
        ) by {
            if i < extra.len() - 1 {
                assert(extra.drop_last()[i] == extra[i]);
                let k = choose|k: int| 0 <= k < prev.len() && prev[k] == extra[i];
                if !prev.contains(x) {
                    assert(prev.push(x)[k] == extra[i]);
                }
            } else {
                if !prev.contains(x) {
                    assert(prev.push(x)[prev.len() as int] == x);
                }
            }
        }
    }
}

/// Joining a prefix of `extra` adds no more than joining all of it.
pub proof fn lemma_joined_prefix_len(ids: Seq<u32>, extra: Seq<u32>, k: int)
    requires
        0 <= k <= extra.len(),
    ensures
        joined(ids, extra.take(k)).len() <= joined(ids, extra).len(),
    decreases extra.len(),
{
    if k == extra.len() {
        assert(extra.take(k) =~= extra);
    } else {
        assert(extra.drop_last().take(k) =~= extra.take(k));
        lemma_joined_prefix_len(ids, extra.drop_last(), k);
    }
}

/// A grain set falling.
pub open spec fn set_falling(g: Grain) -> Grain {
    Grain { state: GrainState::Falling, ..g }
}

/// A grain drained of its energy.
pub open spec fn drained(g: Grain) -> Grain {
    Grain { energy: 0, ..g }
}

/// The coordinates of grain `g`.
pub open spec fn grain_coords(g: Grain) -> Coords {
    (g.x, g.y, g.z)
}

/// The location that grain `grain_id` hits, after it has landed there.
pub open spec fn hit_location(
    store: Map<Coords, LocationView>,
    grains: Map<u32, Grain>,
    grain_id: u32,
) -> LocationView {
    after_landing(store[grain_coords(grains[grain_id])], grain_id)
}

/// The locations after grain `grain_id` has landed.
pub open spec fn store_after_landing(
    store: Map<Coords, LocationView>,
    grains: Map<u32, Grain>,
    grain_id: u32,
) -> Map<Coords, LocationView> {
    saved(store, hit_location(store, grains, grain_id))
}

/// The grains after grain `grain_id` has landed.
pub open spec fn grains_after_landing(
    store: Map<Coords, LocationView>,
    grains: Map<u32, Grain>,
    grain_id: u32,
) -> Map<u32, Grain> {
    grains.insert(grain_id, landed(store[grain_coords(grains[grain_id])], grains[grain_id]))
}

/// The grains set loose when grain `grain_id` hits the pile.
pub open spec fn impact_loose(
    store: Map<Coords, LocationView>,
    grains: Map<u32, Grain>,
    grain_id: u32,
    extra_energy: usize,
    extra_size: usize,
) -> Seq<u32> {
    perturbed_loose(
        hit_location(store, grains, grain_id),
        grains[grain_id].energy + extra_energy,
        extra_size,
    )
}

/// What a grain's own fall or roll did in one step: the grain as it moved,
/// and the distance it covered.
#[derive(Clone, Copy, Debug, PartialEq, Eq, Structural)]
pub struct Motion {
    pub grain: Grain,
    pub distance: usize,
}

/// What one step of an avalanche has been handed from outside: the moved
/// grain of a fall or roll, and the random extras of a perturbation.
#[derive(Clone, Copy, Debug, PartialEq, Eq, Structural)]
pub struct StepInputs {
    pub motion: Option<Motion>,
    pub extra_energy: Option<usize>,
    pub extra_size: Option<usize>,
}

/// What a step needs from outside before it can go on.
#[derive(Clone, Copy, Debug, PartialEq, Eq, Structural)]
pub enum StepRequest {
    /// The grain's fall in this step.
    Fall,
    /// The grain's roll in this step.
    Roll,
    /// The random extra energy of a perturbation.
    ExtraEnergy,
    /// The random extra size of an avalanche that a perturbation starts.
    ExtraSize,
}

impl StepInputs {
    /// Nothing handed over yet.
    pub fn none() -> (inputs: StepInputs)
        ensures
            inputs.motion.is_none() && inputs.extra_energy.is_none() && inputs.extra_size.is_none(),
    {
        StepInputs { motion: None, extra_energy: None, extra_size: None }
    }
}

/// What the step on grain `id` still needs, if anything.
pub open spec fn step_request(
    store: Map<Coords, LocationView>,
    grains: Map<u32, Grain>,
    id: u32,
    inputs: StepInputs,
) -> Option<StepRequest> {
    let g = grains[id];
    match g.state {
        GrainState::Falling => if inputs.motion.is_none() {
            Some(StepRequest::Fall)
        } else {
            None
        },
        GrainState::Rolling => if inputs.motion.is_none() {
            Some(StepRequest::Roll)
        } else {
            None
        },
        GrainState::Impact => match inputs.extra_energy {
            None => Some(StepRequest::ExtraEnergy),
            Some(e) => if perturbs(hit_location(store, grains, id), g.energy + e)
                && inputs.extra_size.is_none() {
                Some(StepRequest::ExtraSize)
            } else {
                None
            },
        },
        _ => None,
    }
}

/// The impact of grain `id` with the extras `e` and `s` can be carried out:
/// the perturbation can, and the avalanche's count of grains takes those
/// that join.
pub open spec fn impact_fits(
    av: AvalancheView,
    store: Map<Coords, LocationView>,
    grains: Map<u32, Grain>,
    id: u32,
    e: usize,
    s: usize,
) -> bool {
    &&& can_perturb(
        hit_location(store, grains, id),
        grains[id].energy,
        e,
        s,
        store_after_landing(store, grains, id),
        grains_after_landing(store, grains, id),
    )
    &&& av.totalGrainsInvolved + joined(av.grainIds, impact_loose(store, grains, id, e, s)).len()
        - av.grainIds.len() <= usize::MAX
}

/// The step on grain `id` can be taken with `inputs`: the grain is stored;
/// a moved grain keeps its id and its distance fits the avalanche's total; a
/// grain that hits the pile finds a location at its coordinates, its energy
/// and extra fit, and, once nothing more is needed, the impact can be carried
/// out.
pub open spec fn step_defined(
    av: AvalancheView,
    store: Map<Coords, LocationView>,
    grains: Map<u32, Grain>,
    id: u32,
    inputs: StepInputs,
) -> bool {
    &&& grains.contains_key(id)
    &&& match grains[id].state {
        GrainState::Falling | GrainState::Rolling => match inputs.motion {
            Some(m) => m.grain.id == id && av.totalMovement + m.distance <= usize::MAX,
            None => true,
        },
        GrainState::Impact => {
            &&& store.contains_key(grain_coords(grains[id]))
            &&& match inputs.extra_energy {
                None => true,
                Some(e) => {
                    &&& grains[id].energy + e <= usize::MAX
                    &&& step_request(store, grains, id, inputs).is_none() ==> impact_fits(
                        av,
                        store,
                        grains,
                        id,
                        e,
                        inputs.extra_size.unwrap_or(0),
                    )
                },
            }
        },
        _ => true,
    }
}

/// A completed step on grain `id`, from `(av, store, grains)` to
/// `(av2, store2, grains2)`, by the grain's state.
pub open spec fn step_done(
    av: AvalancheView,
    av2: AvalancheView,
    store: Map<Coords, LocationView>,
    store2: Map<Coords, LocationView>,
    grains: Map<u32, Grain>,
    grains2: Map<u32, Grain>,
    id: u32,
    inputs: StepInputs,
) -> bool {
    match grains[id].state {
        GrainState::Unknown => {
            &&& av2 == av
            &&& store2 == store
            &&& grains2 == grains.insert(id, set_falling(grains[id]))
        },
        GrainState::Falling | GrainState::Rolling => {
            &&& av2 == (AvalancheView {
                totalMovement: (av.totalMovement + inputs.motion.unwrap().distance) as usize,
                ..av
            })
            &&& store2 == store
            &&& grains2 == grains.insert(id, inputs.motion.unwrap().grain)
        },
        GrainState::Impact => {
            let e = inputs.extra_energy.unwrap();
            let s = inputs.extra_size.unwrap_or(0);
            let loose = impact_loose(store, grains, id, e, s);
            let grown = joined(av.grainIds, loose);
            let hit = hit_location(store, grains, id);
            let energy = grains[id].energy + e;
            &&& av2 == (AvalancheView {
                grainIds: grown,
                totalGrainsInvolved: (av.totalGrainsInvolved + grown.len() - av.grainIds.len()) as usize,
                ..av
            })
            &&& store2 == perturbed_store(hit, energy, s, store_after_landing(store, grains, id))
            &&& grains2 == perturbed_grains(
                hit,
                energy,
                s,
                store_after_landing(store, grains, id),
                grains_after_landing(store, grains, id),
            )
            &&& forall|i: int| 0 <= i < loose.len() ==> grown.contains(#[trigger] loose[i])
        },
        GrainState::Stationary => {
            &&& av2 == (AvalancheView { grainIds: without(av.grainIds, id), ..av })
            &&& store2 == store
            &&& grains2 == grains.insert(id, drained(grains[id]))
            &&& !av2.grainIds.contains(id)
        },
        GrainState::OffPile => {
            &&& av2 == (AvalancheView { grainIds: without(av.grainIds, id), ..av })
            &&& store2 == store
            &&& grains2 == grains
            &&& !av2.grainIds.contains(id)
        },
    }
}

/// Where a sweep over an avalanche's grains stands: the length of the list
/// when the current pass began, and the next index of the pass.
#[derive(Clone, Copy, Debug, PartialEq, Eq, Structural)]
pub struct Sweep {
    pub pass_len: usize,
    pub next: usize,
}

impl Sweep {
    /// A sweep that has not begun: the first choice starts a pass.
    pub fn start() -> (s: Sweep)
        ensures
            s == (Sweep { pass_len: 0, next: 0 }),
    {
        Sweep { pass_len: 0, next: 0 }
    }
}

/// The index a pass in progress takes next: the last grain when the list has
/// shrunk since the pass began and the pass is past its first grain, else
/// the pass's own next index.
pub open spec fn pass_index(av: AvalancheView, s: Sweep) -> int {
    if av.grainIds.len() < s.pass_len && s.next > 0 {
        av.grainIds.len() - 1
    } else {
        s.next as int
    }
}

/// The next choice can be made: a new pass begins, or the index the pass
/// takes is within the list.
pub open spec fn next_grain_defined(av: AvalancheView, s: Sweep) -> bool {
    s.next >= s.pass_len || 0 <= pass_index(av, s) < av.grainIds.len()
}

/// The grain to move next and the sweep after choosing it. When a pass is
/// over, a new one begins over the list as it is now, and the avalanche is
/// over (`None`) when that list is empty.
pub open spec fn next_grain(av: AvalancheView, s: Sweep) -> (Option<u32>, Sweep) {
    let n = av.grainIds.len();
    if s.next >= s.pass_len {
        if n == 0 {
            (None, Sweep { pass_len: 0, next: 0 })
        } else {
            (Some(av.grainIds[0]), Sweep { pass_len: n as usize, next: 1 })
        }
    } else {
        (Some(av.grainIds[pass_index(av, s)]), Sweep { pass_len: s.pass_len, next: (s.next + 1) as usize })
    }
}

/// Chooses the grain of `avalanche` to move next, passing over the grains
/// again and again until a pass begins with none left.
#[allow(non_snake_case)]
pub fn nextGrain(avalanche: &Avalanche, sweep: Sweep) -> (res: (Option<u32>, Sweep))
    requires
        next_grain_defined(avalanche@, sweep),
    ensures
        res == next_grain(avalanche@, sweep),
{
    let n = avalanche.grainIds.len();
    if sweep.next >= sweep.pass_len {
        if n == 0 {
            (None, Sweep { pass_len: 0, next: 0 })
        } else {
            (Some(avalanche.grainIds[0]), Sweep { pass_len: n, next: 1 })
        }
    } else {
        let i = if n < sweep.pass_len && sweep.next > 0 {
            n - 1
        } else {
            sweep.next
        };
        (Some(avalanche.grainIds[i]), Sweep { pass_len: sweep.pass_len, next: sweep.next + 1 })
    }
}

/// How the next grain is chosen. When a pass is over, a new pass begins with
/// the first grain over the list as it is now, and the avalanche is over when
/// the list is empty. Inside a pass the grains are taken in order, except
/// that once the list has shrunk and the pass is past its first grain, the
/// last grain of the list is taken.
pub proof fn lemma_next_grain_choice(av: AvalancheView, s: Sweep)
    requires
        next_grain_defined(av, s),
    ensures
        s.next >= s.pass_len && av.grainIds.len() == 0 ==> next_grain(av, s).0 == None::<u32>,
        s.next >= s.pass_len && av.grainIds.len() > 0 ==> {
            &&& next_grain(av, s).0 == Some(av.grainIds[0])
            &&& next_grain(av, s).1 == (Sweep { pass_len: av.grainIds.len() as usize, next: 1 })
        },
        s.next < s.pass_len && av.grainIds.len() < s.pass_len && s.next > 0 ==> {
            &&& av.grainIds.len() > 0
            &&& next_grain(av, s).0 == Some(av.grainIds.last())
        },
        s.next < s.pass_len && !(av.grainIds.len() < s.pass_len && s.next > 0) ==> {
            &&& s.next < av.grainIds.len()
            &&& next_grain(av, s).0 == Some(av.grainIds[s.next as int])
        },
        s.next < s.pass_len ==> next_grain(av, s).1 == (Sweep {
            pass_len: s.pass_len,
            next: (s.next + 1) as usize,
        }),
{
}

/// A grain that hits the pile perturbs the location at its coordinates with
/// its energy before the impact plus the extra, whether it stays there or
/// bounces off a full location. When that exceeds the location's resilience
/// above the ground, the top grains of the location (with the grain itself on
/// top if it stayed) leave, as many as three quarters of them rounded down
/// plus the extra size, at most all; each of them is then in the avalanche,
/// and the location keeps at most the others. Otherwise the avalanche is as
/// it was and the location holds what it held, plus the grain if there was
/// room.
pub proof fn lemma_impact_perturbs_the_location(
    av: AvalancheView,
    av2: AvalancheView,
    store: Map<Coords, LocationView>,
    store2: Map<Coords, LocationView>,
    grains: Map<u32, Grain>,
    grains2: Map<u32, Grain>,
    id: u32,
    inputs: StepInputs,
)
    requires
        located(store),
        grains.contains_key(id),
        grains[id].state == GrainState::Impact,
        store.contains_key(grain_coords(grains[id])),
        inputs.extra_energy.is_some(),
        step_done(av, av2, store, store2, grains, grains2, id, inputs),
    ensures
        ({
            let c = grain_coords(grains[id]);
            let loc = store[c];
            let ids = if loc.grainIds.len() < loc.capacity {
                loc.grainIds.push(id)
            } else {
                loc.grainIds
            };
            let n = ids.len();
            let s = inputs.extra_size.unwrap_or(0);
            let k = if n * 3 / 4 + s > n {
                n as int
            } else {
                n * 3 / 4 + s
            };
            &&& (loc.resilience < grains[id].energy + inputs.extra_energy.unwrap() && loc.z > 0)
                ==> {
                &&& forall|i: int| 0 <= i < k ==> av2.grainIds.contains(#[trigger] ids[n - 1 - i])
                &&& store2.contains_key(c)
                &&& store2[c].grainIds.len() <= n - k
            }
            &&& !(loc.resilience < grains[id].energy + inputs.extra_energy.unwrap() && loc.z > 0)
                ==> {
                &&& av2 == av
                &&& store2.contains_key(c)
                &&& store2[c].grainIds == ids
            }
        }),
{
    let c = grain_coords(grains[id]);
    let loc = store[c];
    let e = inputs.extra_energy.unwrap();
    let s = inputs.extra_size.unwrap_or(0);
    let hit = hit_location(store, grains, id);
    let energy = grains[id].energy + e;
    assert(hit.coords() == c);
    let n = hit.grainIds.len();
    assert(4 * (n * 3 / 4) <= 3 * n < 4 * (n * 3 / 4) + 4) by (nonlinear_arith);
    lemma_avalanche_size(n, s, n * 3 / 4);
    lemma_perturbation_takes_the_top(hit, energy, s);
    let loose = impact_loose(store, grains, id, e, s);
    lemma_joined(av.grainIds, loose);
    if loc.resilience < energy && loc.z > 0 {
        let k = avalanche_size(n, s);
        assert forall|i: int| 0 <= i < k implies av2.grainIds.contains(
            #[trigger] hit.grainIds[n - 1 - i],
        ) by {
            assert(loose[i] == hit.grainIds[n - 1 - i]);
        }
    } else {
        assert(joined(av.grainIds, Seq::<u32>::empty()) == av.grainIds);
        assert(av2 =~= av);
    }
}

/// What a completed step does to the grain moved and to the avalanche, by
/// the grain's state: a grain of unknown state starts falling; a falling or
/// rolling grain is stored as it moved and its distance adds to the
/// avalanche's movement; a grain at rest loses its energy and leaves the
/// avalanche; a grain off the pile leaves it. In each of these the locations
/// are untouched, the avalanche's count of grains is unchanged, and no other
/// grain changes.
pub proof fn lemma_step_by_state(
    av: AvalancheView,
    av2: AvalancheView,
    store: Map<Coords, LocationView>,
    store2: Map<Coords, LocationView>,
    grains: Map<u32, Grain>,
    grains2: Map<u32, Grain>,
    id: u32,
    inputs: StepInputs,
)
    requires
        grains.contains_key(id),
        grains[id].state != GrainState::Impact,
        step_defined(av, store, grains, id, inputs),
        step_request(store, grains, id, inputs).is_none(),
        step_done(av, av2, store, store2, grains, grains2, id, inputs),
    ensures
        store2 == store,
        av2.totalGrainsInvolved == av.totalGrainsInvolved,
        av2.id == av.id,
        grains2.contains_key(id),
        forall|k: u32| k != id ==> grains2.contains_key(k) == grains.contains_key(k) && (
        grains.contains_key(k) ==> #[trigger] grains2[k] == grains[k]),
        grains[id].state == GrainState::Unknown ==> {
            &&& grains2[id].state == GrainState::Falling
            &&& grains2[id].energy == grains[id].energy
            &&& (grains2[id].x, grains2[id].y, grains2[id].z) == (grains[id].x, grains[id].y, grains[id].z)
            &&& av2 == av
        },
        (grains[id].state == GrainState::Falling || grains[id].state == GrainState::Rolling) ==> {
            &&& grains2[id] == inputs.motion.unwrap().grain
            &&& av2.totalMovement == av.totalMovement + inputs.motion.unwrap().distance
            &&& av2.grainIds == av.grainIds
        },
        grains[id].state == GrainState::Stationary ==> {
            &&& grains2[id].energy == 0
            &&& grains2[id].state == GrainState::Stationary
            &&& !av2.grainIds.contains(id)
            &&& forall|g: u32| g != id ==> (av2.grainIds.contains(g) <==> av.grainIds.contains(g))
        },
        grains[id].state == GrainState::OffPile ==> {
            &&& grains2[id] == grains[id]
            &&& !av2.grainIds.contains(id)
            &&& forall|g: u32| g != id ==> (av2.grainIds.contains(g) <==> av.grainIds.contains(g))
        },
{
    lemma_without(av.grainIds, id);
}

fn contains_id(ids: &Vec<u32>, id: u32) -> (res: bool)
    ensures
        res == ids@.contains(id),
{
    let mut i: usize = 0;
    while i < ids.len()
        invariant
            0 <= i <= ids@.len(),
            forall|k: int| 0 <= k < i ==> ids@[k] != id,
        decreases ids@.len() - i,
    {
        if ids[i] == id {
            return true;
        }
        i = i + 1;
    }
    false
}

/// `ids` joined by `extra`, as `joined` states.
fn joined_vec(ids: &Vec<u32>, extra: &Vec<u32>) -> (res: Vec<u32>)
    ensures
        res@ == joined(ids@, extra@),
{
    let mut res = ids.clone();
    assert(res@ =~= ids@);
    let mut k: usize = 0;
    assert(extra@.take(0) =~= Seq::<u32>::empty());
    while k < extra.len()
        invariant
            0 <= k <= extra@.len(),
            res@ == joined(ids@, extra@.take(k as int)),
        decreases extra@.len() - k,
    {
        assert(extra@.take(k + 1).drop_last() =~= extra@.take(k as int));
        if !contains_id(&res, extra[k]) {
            res.push(extra[k]);
        }
        k = k + 1;
    }
    assert(extra@.take(extra@.len() as int) =~= extra@);
    res
}

impl Avalanche {
    /// A new avalanche with id `id`, holding nothing.
    pub fn new(id: u32) -> (a: Avalanche)
        ensures
            a@ == fresh_avalanche(id),
    {
        Avalanche {
            id,
            grainIds: Vec::new(),
            locationIds: Vec::new(),
            direction: 0,
            totalMovement: 0,
            totalGrainsInvolved: 0,
        }
    }

    /// Adds grain `grainId` to the avalanche.
    #[allow(non_snake_case)]
    pub fn addGrain(&mut self, grainId: u32)
        requires
            old(self).totalGrainsInvolved < usize::MAX,
        ensures
            final(self)@ == (AvalancheView {
                grainIds: old(self)@.grainIds.push(grainId),
                totalGrainsInvolved: (old(self).totalGrainsInvolved + 1) as usize,
                ..old(self)@
            }),
    {
        self.grainIds.push(grainId);
        self.totalGrainsInvolved += 1;
    }

    /// Moves grain `grainId` of the avalanche one step on, by its state:
    /// a grain of unknown state starts falling; a falling or rolling grain is
    /// saved as its own fall or roll (`inputs.motion`) left it, and the
    /// distance covered is added to the avalanche; a grain that hits the pile
    /// lands on the location at its coordinates and perturbs it (with the
    /// random extras `inputs.extra_energy` and `inputs.extra_size`), and every
    /// grain this sets loose that the avalanche does not hold yet joins it; a
    /// grain at rest loses its energy and leaves the avalanche; a grain off the
    /// pile leaves the avalanche.
    ///
    /// When the step needs something from outside that `inputs` does not
    /// carry yet (the grain's fall or roll, or a random extra, in the order the
    /// step uses them), nothing changes and the request is returned.
    #[allow(non_snake_case)]
    pub fn update(
        &mut self,
        grainId: u32,
        inputs: StepInputs,
        locations: &mut LocationStore,
        grains: &mut GrainStore,
    ) -> (req: Option<StepRequest>)
        requires
            old(locations).wf(),
            old(grains).wf(),
            step_defined(old(self)@, old(locations)@, old(grains)@, grainId, inputs),
        ensures
            final(locations).wf(),
            final(grains).wf(),
            req == step_request(old(locations)@, old(grains)@, grainId, inputs),
            req is Some ==> {
                &&& final(self)@ == old(self)@
                &&& final(locations)@ == old(locations)@
                &&& final(grains)@ == old(grains)@
            },
            req is None ==> step_done(
                old(self)@,
                final(self)@,
                old(locations)@,
                final(locations)@,
                old(grains)@,
                final(grains)@,
                grainId,
                inputs,
            ),
            old(self)@.grainIds.no_duplicates() ==> final(self)@.grainIds.no_duplicates(),
    {
        let grain = grains.getGrainById(grainId).unwrap();
        let mut leaves = false;
        match grain.state {
            GrainState::Unknown => {
                let mut g = grain;
                g.state = GrainState::Falling;
                grains.saveGrain(g);
            },
            GrainState::Falling | GrainState::Rolling => {
                match inputs.motion {
                    None => {
                        if grain.state == GrainState::Falling {
                            return Some(StepRequest::Fall);
                        } else {
                            return Some(StepRequest::Roll);
                        }
                    },
                    Some(m) => {
                        self.totalMovement += m.distance;
                        grains.saveGrain(m.grain);
                    },
                }
            },
            GrainState::Impact => {
                let ghost av0 = self@;
                let mut location = Location::getLocationByXyz(locations, grain.x, grain.y, grain.z).unwrap();
                let additionalEnergy = match inputs.extra_energy {
                    None => {
                        return Some(StepRequest::ExtraEnergy);
                    },
                    Some(e) => e,
                };
                if location.resilience < grain.energy + additionalEnergy && location.z > 0
                    && inputs.extra_size.is_none() {
                    return Some(StepRequest::ExtraSize);
                }
                let additionalSize = inputs.extra_size.unwrap_or(0);
                let impactEnergy: usize = grain.energy;
                location.incomingGrain(grain.id, grains);
                location.saveLocation(locations);
                let perturbed = location.perturbation(
                    impactEnergy,
                    additionalEnergy,
                    additionalSize,
                    locations,
                    grains,
                );
                let ghost all = perturbed@;
                let mut k: usize = 0;
                assert(perturbed@.take(0) =~= Seq::<u32>::empty());
                while k < perturbed.len()
                    invariant
                        0 <= k <= all.len(),
                        perturbed@ == all,
                        av0.totalGrainsInvolved + joined(av0.grainIds, all).len()
                            - av0.grainIds.len() <= usize::MAX,
                        self@ == (AvalancheView {
                            grainIds: joined(av0.grainIds, all.take(k as int)),
                            totalGrainsInvolved: (av0.totalGrainsInvolved + joined(
                                av0.grainIds,
                                all.take(k as int),
                            ).len() - av0.grainIds.len()) as usize,
                            ..av0
                        }),
                    decreases all.len() - k,
                {
                    let p = perturbed[k];
                    proof {
                        assert(all.take(k + 1).drop_last() =~= all.take(k as int));
                        lemma_joined_prefix_len(av0.grainIds, all, k + 1);
                        lemma_joined(av0.grainIds, all.take(k as int));
                    }
                    if !contains_id(&self.grainIds, p) {
                        self.addGrain(p);
                    }
                    assert(self@ =~= (AvalancheView {
                            grainIds: joined(av0.grainIds, all.take(k + 1)),
                            totalGrainsInvolved: (av0.totalGrainsInvolved + joined(
                                av0.grainIds,
                                all.take(k + 1),
                            ).len() - av0.grainIds.len()) as usize,
                            ..av0
                        }));
                    k = k + 1;
                }
                proof {
                    assert(all.take(all.len() as int) =~= all);
                    lemma_joined(av0.grainIds, all);
                }
            },
            GrainState::Stationary => {
                leaves = true;
                let mut g = grain;
                g.energy = 0;
                grains.saveGrain(g);
            },
            GrainState::OffPile => {
                leaves = true;
            },
        }
        if leaves {
            proof {
                lemma_without(self@.grainIds, grain.id);
            }
            self.grainIds = without_grain(&self.grainIds, grain.id);
        }
        None
    }

    /// Whether the step on grain `grainId` with `inputs` can be taken, that
    /// is, whether `update` may be called with them.
    #[allow(non_snake_case)]
    pub fn canStep(
        &self,
        grainId: u32,
        inputs: StepInputs,
        locations: &LocationStore,
        grains: &GrainStore,
    ) -> (ok: bool)
        requires
            locations.wf(),
            grains.wf(),
        ensures
            ok == step_defined(self@, locations@, grains@, grainId, inputs),
    {
        let g = match grains.getGrainById(grainId) {
            None => {
                return false;
            },
            Some(g) => g,
        };
        match g.state {
            GrainState::Falling | GrainState::Rolling => match inputs.motion {
                Some(m) => m.grain.id == grainId && self.totalMovement <= usize::MAX - m.distance,
                None => true,
            },
            GrainState::Impact => {
                let loc = match Location::getLocationByXyz(locations, g.x, g.y, g.z) {
                    None => {
                        return false;
                    },
                    Some(l) => l,
                };
                let e = match inputs.extra_energy {
                    None => {
                        return true;
                    },
                    Some(e) => e,
                };
                if g.energy > usize::MAX - e {
                    return false;
                }
                let mut hit = loc;
                let room = hit.grainIds.len() < hit.capacity;
                if room {
                    hit.grainIds.push(grainId);
                }
                let landed_grain = if room {
                    Grain { state: GrainState::Stationary, energy: 0, ..g }
                } else {
                    Grain {
                        state: GrainState::Rolling,
                        energy: if g.energy > 1 {
                            1
                        } else {
                            g.energy
                        },
                        ..g
                    }
                };
                assert(hit@ == hit_location(locations@, grains@, grainId));
                assert(grains@.insert(landed_grain.id, landed_grain) == grains_after_landing(
                    locations@,
                    grains@,
                    grainId,
                ));
                let perturbing = hit.resilience < g.energy + e && hit.z > 0;
                if perturbing && inputs.extra_size.is_none() {
                    return true;
                }
                if !perturbing {
                    assert(joined(self@.grainIds, Seq::<u32>::empty()) == self@.grainIds);
                    return true;
                }
                let s = inputs.extra_size.unwrap_or(0);
                let len = hit.grainIds.len();
                let base: usize = if BASE_AVALANCHE_METHOD == 1 {
                    BASE_AVALANCHE_SIZE
                } else {
                    let share = (len / BASE_AVALANCHE_SHARE_DEN) * BASE_AVALANCHE_SHARE_NUM + ((
                    len % BASE_AVALANCHE_SHARE_DEN) * BASE_AVALANCHE_SHARE_NUM)
                        / BASE_AVALANCHE_SHARE_DEN;
                    assert(share == share_of(len as nat));
                    share
                };
                if s > usize::MAX - base {
                    return false;
                }
                proof {
                    lemma_ceiling_above(hit.x, hit.y, hit.z);
                    lemma_grains_at_other_cells(
                        locations@,
                        hit@,
                        ceiling_coords(hit.x, hit.y, hit.z),
                    );
                }
                let stirred = match hit.stirred_in(s, locations) {
                    None => {
                        return false;
                    },
                    Some(v) => v,
                };
                if !grains.can_jolt_with(&stirred, landed_grain) {
                    return false;
                }
                let loose = hit.loose_in(s);
                let grown = joined_vec(&self.grainIds, &loose);
                proof {
                    lemma_joined(self@.grainIds, loose@);
                }
                self.totalGrainsInvolved <= usize::MAX - (grown.len() - self.grainIds.len())
            },
            _ => true,
        }
    }

    /// Whether `nextGrain` may be called with `sweep`.
    #[allow(non_snake_case)]
    pub fn canChooseNext(&self, sweep: Sweep) -> (ok: bool)
        ensures
            ok == next_grain_defined(self@, sweep),
    {
        let n = self.grainIds.len();
        if sweep.next >= sweep.pass_len {
            true
        } else if n < sweep.pass_len && sweep.next > 0 {
            n > 0
        } else {
            sweep.next < n
        }
    }
}

/// Appends one fresh avalanche per grain of a run, with ids `0` to
/// `TOTAL_GRAINS - 1` in order.
#[allow(non_snake_case)]
pub fn initializeAvalanches(avalanches: &mut Vec<Avalanche>)
    ensures
        final(avalanches)@.len() == old(avalanches)@.len() + TOTAL_GRAINS,
        final(avalanches)@.take(old(avalanches)@.len() as int) == old(avalanches)@,
        forall|i: int|
            0 <= i < TOTAL_GRAINS ==> (#[trigger] final(avalanches)@[old(avalanches)@.len() + i])@
                == fresh_avalanche(i as u32),
{
    let ghost start = avalanches@;
    let mut i: usize = 0;
    while i < TOTAL_GRAINS
        invariant
            0 <= i <= TOTAL_GRAINS,
            avalanches@.len() == start.len() + i,
            avalanches@.take(start.len() as int) == start,
            forall|j: int|
                0 <= j < i ==> (#[trigger] avalanches@[start.len() + j])@ == fresh_avalanche(
                    j as u32,
                ),
        decreases TOTAL_GRAINS - i,
    {
        let avalanche = Avalanche::new(i as u32);
        avalanches.push(avalanche);
        assert(avalanches@.take(start.len() as int) =~= start);
        i = i + 1;
    }
}

} // verus!
