use vstd::prelude::*;
use std::collections::HashMap;

use crate::grain::{Grain, GrainState, GrainStore, without, without_grain, lemma_without, jolted, can_jolt, lemma_can_jolt_prefix, lemma_can_jolt_rest, lemma_jolted_append};
use crate::constants::{BASE_AVALANCHE_METHOD, BASE_AVALANCHE_SIZE, BASE_AVALANCHE_SHARE_NUM, BASE_AVALANCHE_SHARE_DEN, GRID_CELLS, X_SIZE, Y_SIZE, Z_SIZE, BASE_CAPACITY, BASE_RESILIENCE};

verus! {

broadcast use vstd::std_specs::hash::group_hash_axioms;

/// The coordinates of a cell of the pile.
pub type Coords = (i32, i32, i32);

/// A location of the pile: a cell of the grid with a capacity for grains, the
/// grains it holds, and a resilience against perturbations.
#[allow(non_snake_case)]
#[derive(Clone, Debug)]
pub struct Location {
    pub id: u32,
    pub x: i32,
    pub y: i32,
    pub z: i32,
    pub capacity: usize,
    pub grainIds: Vec<u32>,
    pub resilience: usize,
}

/// What a location holds, with its grains as a sequence.
#[verifier::ext_equal]
#[allow(non_snake_case)]
pub struct LocationView {
    pub id: u32,
    pub x: i32,
    pub y: i32,
    pub z: i32,
    pub capacity: usize,
    pub grainIds: Seq<u32>,
    pub resilience: usize,
}

impl View for Location {
    type V = LocationView;

    open spec fn view(&self) -> LocationView {
        LocationView {
            id: self.id,
            x: self.x,
            y: self.y,
            z: self.z,
            capacity: self.capacity,
            grainIds: self.grainIds@,
            resilience: self.resilience,
        }
    }
}

impl LocationView {
    /// The coordinates of the location.
    pub open spec fn coords(self) -> Coords {
        (self.x, self.y, self.z)
    }

    /// The same location holding the grains `ids`.
    pub open spec fn with_grains(self, ids: Seq<u32>) -> LocationView {
        LocationView { grainIds: ids, ..self }
    }
}

/// The number under which the location at `c` is stored: the three
/// coordinates, each shifted to be non-negative, as digits base 2^32.
pub open spec fn coord_key(c: Coords) -> int {
    (c.0 + 0x8000_0000) * 0x1_0000_0000_0000_0000 + (c.1 + 0x8000_0000) * 0x1_0000_0000 + (c.2
        + 0x8000_0000)
}

/// Different coordinates have different keys.
pub proof fn lemma_coord_key_injective(a: Coords, b: Coords)
    ensures
        coord_key(a) == coord_key(b) <==> a == b,
{
    let (a0, a1, a2) = (a.0 + 0x8000_0000, a.1 + 0x8000_0000, a.2 + 0x8000_0000);
    let (b0, b1, b2) = (b.0 + 0x8000_0000, b.1 + 0x8000_0000, b.2 + 0x8000_0000);
    if coord_key(a) == coord_key(b) {
        assert(a2 == b2 && a1 == b1 && a0 == b0) by (nonlinear_arith)
            requires
                0 <= a0 < 0x1_0000_0000,
                0 <= a1 < 0x1_0000_0000,
                0 <= a2 < 0x1_0000_0000,
                0 <= b0 < 0x1_0000_0000,
                0 <= b1 < 0x1_0000_0000,
                0 <= b2 < 0x1_0000_0000,
                a0 * 0x1_0000_0000_0000_0000 + a1 * 0x1_0000_0000 + a2 == b0
                    * 0x1_0000_0000_0000_0000 + b1 * 0x1_0000_0000 + b2,
        ;
    }
}

fn key_of(x: i32, y: i32, z: i32) -> (k: u128)
    ensures
        k == coord_key((x, y, z)),
{
    let a: u128 = (x as i64 + 0x8000_0000i64) as u128;
    let b: u128 = (y as i64 + 0x8000_0000i64) as u128;
    let c: u128 = (z as i64 + 0x8000_0000i64) as u128;
    a * 0x1_0000_0000_0000_0000u128 + b * 0x1_0000_0000u128 + c
}

/// All locations of a run, each stored under its own coordinates.
pub struct LocationStore {
    locations: HashMap<u128, Location>,
}

impl View for LocationStore {
    type V = Map<Coords, LocationView>;

    closed spec fn view(&self) -> Map<Coords, LocationView> {
        Map::new(
            |c: Coords| self.locations@.contains_key(coord_key(c) as u128),
            |c: Coords| self.locations@[coord_key(c) as u128]@,
        )
    }
}

/// A map of locations that holds finitely many, each under its own
/// coordinates.
pub open spec fn located(store: Map<Coords, LocationView>) -> bool {
    &&& store.dom().finite()
    &&& forall|c: Coords| #[trigger] store.contains_key(c) ==> store[c].coords() == c
}

impl LocationStore {
    /// The store holds finitely many locations, each under its own
    /// coordinates.
    pub open spec fn wf(self) -> bool {
        located(self@)
    }

    /// An empty store.
    pub fn new() -> (store: LocationStore)
        ensures
            store.wf(),
            store@ == Map::<Coords, LocationView>::empty(),
    {
        let store = LocationStore { locations: HashMap::new() };
        assert(store@ =~= Map::<Coords, LocationView>::empty());
        assert(store@.dom() =~= Set::<Coords>::empty());
        store
    }

    fn put(&mut self, location: Location)
        requires
            old(self).wf(),
        ensures
            final(self).wf(),
            final(self)@ == old(self)@.insert(location@.coords(), location@),
    {
        let ghost c0 = location@.coords();
        let k = key_of(location.x, location.y, location.z);
        self.locations.insert(k, location);
        assert forall|c: Coords| #![trigger coord_key(c)]
            (coord_key(c) as u128 == k) <==> c == c0 by {
            lemma_coord_key_injective(c, c0);
        }
        assert(self@ =~= old(self)@.insert(c0, location@));
    }

    fn get(&self, x: i32, y: i32, z: i32) -> (res: Option<&Location>)
        ensures
            match res {
                Some(l) => self@.contains_key((x, y, z)) && l@ == self@[(x, y, z)],
                None => !self@.contains_key((x, y, z)),
            },
    {
        let k = key_of(x, y, z);
        self.locations.get(&k)
    }
}

/// The location at `c` in `store`, if any.
pub open spec fn stored_at(store: Map<Coords, LocationView>, c: Coords) -> Option<LocationView> {
    if store.contains_key(c) {
        Some(store[c])
    } else {
        None
    }
}

/// `store` with `loc` saved at its own coordinates.
pub open spec fn saved(store: Map<Coords, LocationView>, loc: LocationView) -> Map<
    Coords,
    LocationView,
> {
    store.insert(loc.coords(), loc)
}

/// A location of the pile, before its random extras are known.
pub open spec fn pile_location(
    id: u32,
    x: i32,
    y: i32,
    z: i32,
    additional_cap: usize,
    additional_res: usize,
) -> LocationView {
    LocationView {
        id,
        x,
        y,
        z,
        capacity: (BASE_CAPACITY + additional_cap) as usize,
        grainIds: Seq::empty(),
        resilience: (BASE_RESILIENCE + additional_res) as usize,
    }
}

/// A cell outside the pile: it holds nothing and resists nothing.
pub open spec fn empty_location(id: u32, x: i32, y: i32, z: i32) -> LocationView {
    LocationView { id, x, y, z, capacity: 0, grainIds: Seq::empty(), resilience: 0 }
}

/// The cells above `(x, y, z)` that join an avalanche started there, from the
/// lowest up; none when `z` is within two cells of the top.
pub open spec fn ceiling_coords(x: i32, y: i32, z: i32) -> Seq<Coords> {
    if z < Z_SIZE - 2 {
        Seq::new((Z_SIZE - z - 1) as nat, |k: int| (x, y, (z + 1 + k) as i32))
    } else {
        Seq::empty()
    }
}

/// The cell one below `(i, j)` marked as off the pile.
pub open spec fn off_pile() -> Coords {
    (-1i32, -1i32, -1i32)
}

/// What the cell `(i, j)` of the neighbourhood of `(x, y, z)` contributes: at
/// `z > 0` the cell below it; on the ground, the cell below the centre itself,
/// then for each cell the mark `off_pile()` at the rim of the grid and the cell
/// itself elsewhere.
pub open spec fn neighbour_entries(x: i32, y: i32, z: i32, i: int, j: int) -> Seq<Coords> {
    if z > 0 {
        seq![(i as i32, j as i32, (z - 1) as i32)]
    } else {
        let below: Seq<Coords> = if i == x && j == y {
            seq![(i as i32, j as i32, (z - 1) as i32)]
        } else {
            Seq::empty()
        };
        let level: Seq<Coords> = if i == 0 || i == X_SIZE - 1 || j == 0 || j == Y_SIZE - 1 {
            seq![off_pile()]
        } else {
            seq![(i as i32, j as i32, z)]
        };
        below + level
    }
}

/// The entries of row `i` of the neighbourhood, for `j` from `jlo` to `jhi`.
pub open spec fn neighbour_row(x: i32, y: i32, z: i32, i: int, jlo: int, jhi: int) -> Seq<
    Coords,
>
    decreases jhi - jlo + 1,
{
    if jhi < jlo {
        Seq::empty()
    } else {
        neighbour_row(x, y, z, i, jlo, jhi - 1) + neighbour_entries(x, y, z, i, jhi)
    }
}

/// The entries of rows `ilo` to `ihi` of the neighbourhood, row by row.
pub open spec fn neighbour_rows(
    x: i32,
    y: i32,
    z: i32,
    ilo: int,
    ihi: int,
    jlo: int,
    jhi: int,
) -> Seq<Coords>
    decreases ihi - ilo + 1,
{
    if ihi < ilo {
        Seq::empty()
    } else {
        neighbour_rows(x, y, z, ilo, ihi - 1, jlo, jhi) + neighbour_row(x, y, z, ihi, jlo, jhi)
    }
}

/// The lower end of the neighbourhood around `v`: one less, but not below 0.
pub open spec fn neighbour_low(v: i32) -> int {
    if v == 0 {
        0
    } else {
        v - 1
    }
}

/// The upper end of the neighbourhood around `v`: one more while that stays
/// below `size`, else `size` itself.
pub open spec fn neighbour_high(v: i32, size: i32) -> int {
    if v + 1 < size {
        v + 1
    } else {
        size as int
    }
}

/// The lower neighbourhood of `(x, y, z)`: the entries of every cell `(i, j)`
/// with `i` and `j` within one of `x` and `y`, bounded as above.
pub open spec fn lower_neighbourhood(x: i32, y: i32, z: i32) -> Seq<Coords> {
    neighbour_rows(
        x,
        y,
        z,
        neighbour_low(x),
        neighbour_high(x, X_SIZE),
        neighbour_low(y),
        neighbour_high(y, Y_SIZE),
    )
}

/// `c` is a cell of the grid.
pub open spec fn in_grid(c: Coords) -> bool {
    0 <= c.0 < X_SIZE && 0 <= c.1 < Y_SIZE && 0 <= c.2 < Z_SIZE
}

/// `c` lies inside the pyramid: at height `z`, at least `z` cells in from
/// each side of the grid.
pub open spec fn in_pile(c: Coords) -> bool {
    c.0 >= c.2 && c.0 <= X_SIZE - c.2 - 1 && c.1 >= c.2 && c.1 <= Y_SIZE - c.2 - 1
}

/// The position of cell `c` when the grid is walked by `x`, then `y`, then `z`.
pub open spec fn cell_index(c: Coords) -> int {
    (c.0 * Y_SIZE + c.1) * Z_SIZE + c.2
}

/// The location set up at cell `c`, with the random extras
/// `draws[cell_index(c)]` (capacity, resilience) when `c` is in the pile.
pub open spec fn initial_location(c: Coords, draws: Seq<(usize, usize)>) -> LocationView {
    let id = cell_index(c) as u32;
    if in_pile(c) {
        pile_location(id, c.0, c.1, c.2, draws[cell_index(c)].0, draws[cell_index(c)].1)
    } else {
        empty_location(id, c.0, c.1, c.2)
    }
}

/// The locations of a freshly set-up grid.
pub open spec fn initial_grid(draws: Seq<(usize, usize)>) -> Map<Coords, LocationView> {
    Map::new(|c: Coords| in_grid(c), |c: Coords| initial_location(c, draws))
}

/// The extras of every cell of the pile can be added to the bases.
pub open spec fn draws_fit(draws: Seq<(usize, usize)>) -> bool {
    forall|c: Coords|
        in_grid(c) && in_pile(c) ==> draws[cell_index(c)].0 <= usize::MAX - BASE_CAPACITY
            && draws[cell_index(c)].1 <= usize::MAX - BASE_RESILIENCE
}

spec fn set_up_before(c: Coords, x: int, y: int, z: int) -> bool {
    in_grid(c) && (c.0 < x || (c.0 == x && (c.1 < y || (c.1 == y && c.2 < z))))
}

spec fn partly_set_up(
    store: Map<Coords, LocationView>,
    start: Map<Coords, LocationView>,
    draws: Seq<(usize, usize)>,
    x: int,
    y: int,
    z: int,
) -> bool {
    &&& forall|c: Coords| #[trigger]
        store.contains_key(c) == (start.contains_key(c) || set_up_before(c, x, y, z))
    &&& forall|c: Coords| #[trigger]
        store.contains_key(c) ==> store[c] == (if set_up_before(c, x, y, z) {
            initial_location(c, draws)
        } else {
            start[c]
        })
}

/// The location can take one more grain.
pub open spec fn has_room(loc: LocationView) -> bool {
    loc.grainIds.len() < loc.capacity
}

/// The location after a grain lands on it: the grain stays if there is room.
pub open spec fn after_landing(loc: LocationView, grain_id: u32) -> LocationView {
    if has_room(loc) {
        loc.with_grains(loc.grainIds.push(grain_id))
    } else {
        loc
    }
}

/// A grain that comes to rest: stationary, with no energy left.
pub open spec fn settled(g: Grain) -> Grain {
    Grain { state: GrainState::Stationary, energy: 0, ..g }
}

/// A grain that bounces off a full location: rolling on, with at most one
/// unit of energy.
pub open spec fn bounced(g: Grain) -> Grain {
    Grain {
        state: GrainState::Rolling,
        energy: if g.energy > 1 {
            1
        } else {
            g.energy
        },
        ..g
    }
}

/// The grain `g` after it lands on `loc`.
pub open spec fn landed(loc: LocationView, g: Grain) -> Grain {
    if has_room(loc) {
        settled(g)
    } else {
        bounced(g)
    }
}

/// A perturbation carrying `energy` starts an avalanche at `loc`: the energy
/// exceeds its resilience, and it is above the ground.
pub open spec fn perturbs(loc: LocationView, energy: int) -> bool {
    loc.resilience < energy && loc.z > 0
}

/// The share of `len` grains that an avalanche takes, rounded down.
pub open spec fn share_of(len: nat) -> nat {
    len * (BASE_AVALANCHE_SHARE_NUM as nat) / (BASE_AVALANCHE_SHARE_DEN as nat)
}

/// The size of an avalanche at a location of `len` grains before its random
/// extra.
pub open spec fn avalanche_base(len: nat) -> nat {
    if BASE_AVALANCHE_METHOD == 1 {
        BASE_AVALANCHE_SIZE as nat
    } else {
        share_of(len)
    }
}

/// The number of grains an avalanche takes from a location of `len` grains:
/// the base plus the random `extra`, but no more than there are.
pub open spec fn avalanche_size(len: nat, extra: usize) -> nat {
    if len < avalanche_base(len) + (extra as nat) {
        len
    } else {
        avalanche_base(len) + (extra as nat)
    }
}

/// The last `k` grains of `ids`, the topmost first.
pub open spec fn loose_grains(ids: Seq<u32>, k: nat) -> Seq<u32> {
    Seq::new(k, |i: int| ids[ids.len() - 1 - i])
}

/// The grains left at a location of grains `ids` after the top `k` leave: the
/// others, without any further copy of the first grain that left.
pub open spec fn kept_grains(ids: Seq<u32>, k: nat) -> Seq<u32> {
    let rest = ids.take(ids.len() - k);
    if rest.len() > 0 && k > 0 {
        without(rest, ids[ids.len() - 1])
    } else {
        rest
    }
}

/// The grains held by the locations at `cs` in `store`, location by location.
pub open spec fn grains_at(store: Map<Coords, LocationView>, cs: Seq<Coords>) -> Seq<u32>
    decreases cs.len(),
{
    if cs.len() == 0 {
        Seq::empty()
    } else {
        grains_at(store, cs.drop_last()) + store[cs.last()].grainIds
    }
}

/// The grains an avalanche at `loc` sets rolling: those of the cells above it,
/// then those that leave `loc`.
pub open spec fn stirred_grains(
    loc: LocationView,
    extra_size: usize,
    store: Map<Coords, LocationView>,
) -> Seq<u32> {
    grains_at(store, ceiling_coords(loc.x, loc.y, loc.z)) + loose_grains(
        loc.grainIds,
        avalanche_size(loc.grainIds.len(), extra_size),
    )
}

/// A perturbation of `loc` can be carried out: its energy fits, and if it
/// starts an avalanche, the avalanche's size fits, the cells above `loc` are
/// all in `store`, and the grains it sets rolling are all in `grains` and can
/// take their extra energy.
pub open spec fn can_perturb(
    loc: LocationView,
    incoming: usize,
    extra_energy: usize,
    extra_size: usize,
    store: Map<Coords, LocationView>,
    grains: Map<u32, Grain>,
) -> bool {
    &&& incoming + extra_energy <= usize::MAX
    &&& perturbs(loc, incoming + extra_energy) ==> {
        &&& avalanche_base(loc.grainIds.len()) + extra_size <= usize::MAX
        &&& forall|i: int|
            0 <= i < ceiling_coords(loc.x, loc.y, loc.z).len() ==> store.contains_key(
                #[trigger] ceiling_coords(loc.x, loc.y, loc.z)[i],
            )
        &&& can_jolt(grains, stirred_grains(loc, extra_size, store))
    }
}

/// The grains that leave `loc` when it is perturbed by `energy`.
pub open spec fn perturbed_loose(loc: LocationView, energy: int, extra_size: usize) -> Seq<u32> {
    if perturbs(loc, energy) {
        loose_grains(loc.grainIds, avalanche_size(loc.grainIds.len(), extra_size))
    } else {
        Seq::empty()
    }
}

/// `loc` after it is perturbed by `energy`.
pub open spec fn perturbed_location(loc: LocationView, energy: int, extra_size: usize) -> LocationView {
    if perturbs(loc, energy) {
        loc.with_grains(kept_grains(loc.grainIds, avalanche_size(loc.grainIds.len(), extra_size)))
    } else {
        loc
    }
}

/// The locations after `loc` is perturbed by `energy`.
pub open spec fn perturbed_store(
    loc: LocationView,
    energy: int,
    extra_size: usize,
    store: Map<Coords, LocationView>,
) -> Map<Coords, LocationView> {
    if perturbs(loc, energy) {
        saved(store, perturbed_location(loc, energy, extra_size))
    } else {
        store
    }
}

/// The grains after `loc` is perturbed by `energy`.
pub open spec fn perturbed_grains(
    loc: LocationView,
    energy: int,
    extra_size: usize,
    store: Map<Coords, LocationView>,
    grains: Map<u32, Grain>,
) -> Map<u32, Grain> {
    if perturbs(loc, energy) {
        jolted(grains, stirred_grains(loc, extra_size, store))
    } else {
        grains
    }
}

/// A location stays within its capacity: a grain that lands on a location
/// within its capacity leaves it within its capacity.
pub proof fn lemma_landing_within_capacity(loc: LocationView, grain_id: u32)
    requires
        loc.grainIds.len() <= loc.capacity,
    ensures
        after_landing(loc, grain_id).grainIds.len() <= after_landing(loc, grain_id).capacity,
        after_landing(loc, grain_id).capacity == loc.capacity,
{
}

/// A perturbation never adds grains to a location, nor changes its capacity.
pub proof fn lemma_perturbation_within_capacity(loc: LocationView, energy: int, extra_size: usize)
    ensures
        perturbed_location(loc, energy, extra_size).grainIds.len() <= loc.grainIds.len(),
        perturbed_location(loc, energy, extra_size).capacity == loc.capacity,
{
    if perturbs(loc, energy) {
        let k = avalanche_size(loc.grainIds.len(), extra_size);
        let rest = loc.grainIds.take(loc.grainIds.len() - k);
        if rest.len() > 0 && k > 0 {
            lemma_without(rest, loc.grainIds[loc.grainIds.len() - 1]);
        }
    }
}

/// An avalanche loses no grain: every grain of a location is either kept
/// there or among those that leave, and no other grain is.
pub proof fn lemma_avalanche_keeps_grains(ids: Seq<u32>, k: nat, g: u32)
    requires
        k <= ids.len(),
    ensures
        ids.contains(g) <==> (kept_grains(ids, k).contains(g) || loose_grains(ids, k).contains(g)),
{
    let n = ids.len();
    let rest = ids.take(n - k);
    let loose = loose_grains(ids, k);
    if rest.len() > 0 && k > 0 {
        lemma_without(rest, ids[n - 1]);
    }
    if ids.contains(g) {
        let j = choose|j: int| 0 <= j < n && ids[j] == g;
        if j < n - k {
            assert(rest[j] == g);
            if rest.len() > 0 && k > 0 && g == ids[n - 1] {
                assert(loose[0] == g);
            }
        } else {
            assert(loose[n - 1 - j] == g);
        }
    }
    if kept_grains(ids, k).contains(g) {
        assert(rest.contains(g));
        let j = choose|j: int| 0 <= j < rest.len() && rest[j] == g;
        assert(ids[j] == g);
    }
    if loose.contains(g) {
        let i = choose|i: int| 0 <= i < loose.len() && loose[i] == g;
        assert(ids[n - 1 - i] == g);
    }
}

/// A read after a save gives back what was saved, and leaves every other
/// cell as it was.
pub proof fn lemma_read_after_save(store: Map<Coords, LocationView>, loc: LocationView, c: Coords)
    ensures
        stored_at(saved(store, loc), c) == (if c == loc.coords() {
            Some(loc)
        } else {
            stored_at(store, c)
        }),
{
}

/// Saving a location leaves what other cells hold as it was.
pub proof fn lemma_grains_at_other_cells(
    store: Map<Coords, LocationView>,
    loc: LocationView,
    cs: Seq<Coords>,
)
    requires
        forall|i: int| 0 <= i < cs.len() ==> #[trigger] cs[i] != loc.coords(),
    ensures
        grains_at(saved(store, loc), cs) == grains_at(store, cs),
    decreases cs.len(),
{
    if cs.len() > 0 {
        assert(cs[cs.len() - 1] != loc.coords());
        lemma_grains_at_other_cells(store, loc, cs.drop_last());
    }
}

/// No cell above a location is the location itself.
pub proof fn lemma_ceiling_above(x: i32, y: i32, z: i32)
    ensures
        forall|i: int|
            0 <= i < ceiling_coords(x, y, z).len() ==> #[trigger] ceiling_coords(x, y, z)[i] != (
                x,
                y,
                z,
            ),
{
}

/// An avalanche takes, before its random extra, the largest number of grains
/// not above three quarters of those at the location: `4 b <= 3 n < 4 b + 4`.
pub proof fn lemma_avalanche_share(n: nat)
    ensures
        4 * avalanche_base(n) <= 3 * n < 4 * avalanche_base(n) + 4,
{
    assert(4 * (n * 3 / 4) <= 3 * n < 4 * (n * 3 / 4) + 4) by (nonlinear_arith);
}

/// The number of grains an avalanche takes is that share plus the extra, but
/// never more than the location holds.
pub proof fn lemma_avalanche_size(n: nat, extra: usize, b: nat)
    requires
        4 * b <= 3 * n < 4 * b + 4,
    ensures
        avalanche_size(n, extra) == (if b + extra > n {
            n as int
        } else {
            b + extra
        }),
{
    lemma_avalanche_share(n);
}

/// A perturbation that exceeds the resilience of a location above the ground
/// sets its top grains loose, the topmost first, as many as the avalanche's
/// size; one that does not leaves the location as it is and sets none loose.
pub proof fn lemma_perturbation_takes_the_top(loc: LocationView, energy: int, extra: usize)
    ensures
        (loc.resilience < energy && loc.z > 0) ==> {
            let ids = loc.grainIds;
            let out = perturbed_loose(loc, energy, extra);
            let k = avalanche_size(ids.len(), extra);
            &&& out.len() == k
            &&& k <= ids.len()
            &&& forall|i: int| 0 <= i < k ==> #[trigger] out[i] == ids[ids.len() - 1 - i]
            &&& perturbed_location(loc, energy, extra).grainIds.len() <= ids.len() - k
            &&& perturbed_location(loc, energy, extra).coords() == loc.coords()
            &&& perturbed_location(loc, energy, extra).capacity == loc.capacity
            &&& perturbed_location(loc, energy, extra).resilience == loc.resilience
            &&& forall|g: u32|
                ids.contains(g) <==> (perturbed_location(loc, energy, extra).grainIds.contains(g)
                    || out.contains(g))
        },
        !(loc.resilience < energy && loc.z > 0) ==> {
            &&& perturbed_loose(loc, energy, extra) == Seq::<u32>::empty()
            &&& perturbed_location(loc, energy, extra) == loc
        },
{
    if loc.resilience < energy && loc.z > 0 {
        let ids = loc.grainIds;
        let k = avalanche_size(ids.len(), extra);
        let rest = ids.take(ids.len() - k);
        if rest.len() > 0 && k > 0 {
            lemma_without(rest, ids[ids.len() - 1]);
        }
        assert forall|g: u32|
            ids.contains(g) <==> (perturbed_location(loc, energy, extra).grainIds.contains(g)
                || perturbed_loose(loc, energy, extra).contains(g)) by {
            lemma_avalanche_keeps_grains(ids, k, g);
        }
    }
}

/// A grain that lands on a location with fewer grains than its capacity is
/// put on top and comes to rest with no energy; on a full location the
/// location is unchanged and the grain rolls on with at most one unit of
/// energy.
pub proof fn lemma_landing(loc: LocationView, g: Grain)
    ensures
        loc.grainIds.len() < loc.capacity ==> {
            &&& after_landing(loc, g.id).grainIds == loc.grainIds.push(g.id)
            &&& landed(loc, g).state == GrainState::Stationary
            &&& landed(loc, g).energy == 0
        },
        loc.grainIds.len() >= loc.capacity ==> {
            &&& after_landing(loc, g.id) == loc
            &&& landed(loc, g).state == GrainState::Rolling
            &&& landed(loc, g).energy == (if g.energy > 1 {
                1
            } else {
                g.energy
            })
        },
        after_landing(loc, g.id).coords() == loc.coords(),
        after_landing(loc, g.id).capacity == loc.capacity,
        after_landing(loc, g.id).resilience == loc.resilience,
        (landed(loc, g).id, landed(loc, g).x, landed(loc, g).y, landed(loc, g).z) == (
            g.id,
            g.x,
            g.y,
            g.z,
        ),
{
}

/// The cells above a location that join its avalanche are every cell
/// straight above it, from the one just above up to the top layer (`z = 15`),
/// when the location is below the layer 14; otherwise none.
pub proof fn lemma_ceiling(x: i32, y: i32, z: i32)
    ensures
        z < 14 ==> ceiling_coords(x, y, z).len() == 15 - z,
        z < 14 ==> forall|k: int|
            0 <= k < 15 - z ==> #[trigger] ceiling_coords(x, y, z)[k] == (x, y, (z + 1 + k) as i32),
        z >= 14 ==> ceiling_coords(x, y, z).len() == 0,
{
}

/// The grid is shown from the top layer down, each layer row by row, each
/// row from `x = 0` on.
pub proof fn lemma_display_from_the_top(c: Coords, d: Coords)
    requires
        in_grid(c),
        in_grid(d),
    ensures
        c.2 > d.2 ==> display_index(c) < display_index(d),
        c.2 == d.2 && c.1 < d.1 ==> display_index(c) < display_index(d),
        c.2 == d.2 && c.1 == d.1 && c.0 < d.0 ==> display_index(c) < display_index(d),
        0 <= display_index(c) < 7056,
{
}

/// On the ground, each cell `(i, j)` of the neighbourhood contributes the
/// off-pile mark `(-1, -1, -1)` when it lies on the rim of the grid (`i` or
/// `j` is 0 or 20), and itself otherwise; the centre also contributes the
/// cell below it, first. Above the ground each cell contributes the cell
/// below it.
pub proof fn lemma_neighbour_entry(x: i32, y: i32, z: i32, i: int, j: int)
    ensures
        z > 0 ==> neighbour_entries(x, y, z, i, j) == seq![(i as i32, j as i32, (z - 1) as i32)],
        z <= 0 ==> {
            let e = neighbour_entries(x, y, z, i, j);
            &&& e.len() == (if i == x && j == y {
                2int
            } else {
                1int
            })
            &&& e.last() == (if i == 0 || i == 20 || j == 0 || j == 20 {
                (-1i32, -1i32, -1i32)
            } else {
                (i as i32, j as i32, z)
            })
            &&& (i == x && j == y) ==> e[0] == (i as i32, j as i32, (z - 1) as i32)
        },
{
}

spec fn includes(big: Seq<Coords>, small: Seq<Coords>) -> bool {
    forall|k: int| 0 <= k < small.len() ==> big.contains(#[trigger] small[k])
}

proof fn lemma_includes_append(a: Seq<Coords>, b: Seq<Coords>)
    ensures
        includes(a + b, a),
        includes(a + b, b),
{
    assert forall|k: int| 0 <= k < a.len() implies (a + b).contains(#[trigger] a[k]) by {
        assert((a + b)[k] == a[k]);
    }
    assert forall|k: int| 0 <= k < b.len() implies (a + b).contains(#[trigger] b[k]) by {
        assert((a + b)[a.len() + k] == b[k]);
    }
}

proof fn lemma_includes_trans(a: Seq<Coords>, b: Seq<Coords>, c: Seq<Coords>)
    requires
        includes(a, b),
        includes(b, c),
    ensures
        includes(a, c),
{
    assert forall|k: int| 0 <= k < c.len() implies a.contains(#[trigger] c[k]) by {
        assert(b.contains(c[k]));
        let m = choose|m: int| 0 <= m < b.len() && b[m] == c[k];
        assert(a.contains(b[m]));
    }
}

proof fn lemma_row_includes(x: i32, y: i32, z: i32, i: int, jlo: int, jhi: int, j: int)
    requires
        jlo <= j <= jhi,
    ensures
        includes(neighbour_row(x, y, z, i, jlo, jhi), neighbour_entries(x, y, z, i, j)),
    decreases jhi - jlo,
{
    let prev = neighbour_row(x, y, z, i, jlo, jhi - 1);
    let here = neighbour_entries(x, y, z, i, jhi);
    lemma_includes_append(prev, here);
    if j < jhi {
        lemma_row_includes(x, y, z, i, jlo, jhi - 1, j);
        lemma_includes_trans(prev + here, prev, neighbour_entries(x, y, z, i, j));
    }
}

proof fn lemma_rows_include(
    x: i32,
    y: i32,
    z: i32,
    ilo: int,
    ihi: int,
    jlo: int,
    jhi: int,
    i: int,
    j: int,
)
    requires
        ilo <= i <= ihi,
        jlo <= j <= jhi,
    ensures
        includes(neighbour_rows(x, y, z, ilo, ihi, jlo, jhi), neighbour_entries(x, y, z, i, j)),
    decreases ihi - ilo,
{
    let prev = neighbour_rows(x, y, z, ilo, ihi - 1, jlo, jhi);
    let here = neighbour_row(x, y, z, ihi, jlo, jhi);
    lemma_includes_append(prev, here);
    if i < ihi {
        lemma_rows_include(x, y, z, ilo, ihi - 1, jlo, jhi, i, j);
        lemma_includes_trans(prev + here, prev, neighbour_entries(x, y, z, i, j));
    } else {
        lemma_row_includes(x, y, z, i, jlo, jhi, j);
        lemma_includes_trans(prev + here, here, neighbour_entries(x, y, z, i, j));
    }
}

/// Every cell within one step of `(x, y)` along each axis (down to 0, and up
/// to the far side of the grid) contributes its entries to the lower
/// neighbourhood of `(x, y, z)`.
pub proof fn lemma_neighbourhood_covers(x: i32, y: i32, z: i32, i: int, j: int, k: int)
    requires
        (if x == 0 { 0 } else { x - 1 }) <= i <= (if x + 1 < 21 { x + 1 } else { 21 }),
        (if y == 0 { 0 } else { y - 1 }) <= j <= (if y + 1 < 21 { y + 1 } else { 21 }),
        0 <= k < neighbour_entries(x, y, z, i, j).len(),
    ensures
        lower_neighbourhood(x, y, z).contains(neighbour_entries(x, y, z, i, j)[k]),
{
    lemma_rows_include(
        x,
        y,
        z,
        neighbour_low(x),
        neighbour_high(x, X_SIZE),
        neighbour_low(y),
        neighbour_high(y, Y_SIZE),
        i,
        j,
    );
}

/// The pile is a pyramid: at height `z` its cells are those at least `z`
/// cells in from each of the four sides of the 21 x 21 grid; so it is the
/// same seen along `x` or along `y`.
pub proof fn lemma_pile_shape(x: i32, y: i32, z: i32)
    ensures
        in_pile((x, y, z)) <==> (z <= x <= 20 - z && z <= y <= 20 - z),
        in_pile((x, y, z)) == in_pile((y, x, z)),
{
}

/// A freshly set-up cell has room for at least four grains exactly when it
/// lies in the pyramid; any other cell holds nothing and resists nothing.
pub proof fn lemma_initial_capacity(c: Coords, draws: Seq<(usize, usize)>)
    requires
        in_grid(c),
        draws.len() == GRID_CELLS,
        draws_fit(draws),
    ensures
        initial_location(c, draws).capacity >= 4 <==> (c.2 <= c.0 <= 20 - c.2 && c.2 <= c.1 <= 20
            - c.2),
        !(c.2 <= c.0 <= 20 - c.2 && c.2 <= c.1 <= 20 - c.2) ==> initial_location(c, draws).capacity
            == 0 && initial_location(c, draws).resilience == 0,
        initial_location(c, draws).coords() == c,
        initial_location(c, draws).id == (c.0 * 21 + c.1) * 16 + c.2,
        initial_location(c, draws).grainIds.len() == 0,
        (c.2 <= c.0 <= 20 - c.2 && c.2 <= c.1 <= 20 - c.2) ==> {
            &&& initial_location(c, draws).capacity == 4 + draws[(c.0 * 21 + c.1) * 16 + c.2].0
            &&& initial_location(c, draws).resilience == 3 + draws[(c.0 * 21 + c.1) * 16 + c.2].1
        },
{
}

proof fn lemma_grains_at_prefix(store: Map<Coords, LocationView>, cs: Seq<Coords>, j: int)
    requires
        0 <= j <= cs.len(),
    ensures
        grains_at(store, cs.take(j)).len() <= grains_at(store, cs).len(),
        grains_at(store, cs).take(grains_at(store, cs.take(j)).len() as int) == grains_at(
            store,
            cs.take(j),
        ),
    decreases cs.len(),
{
    if j == cs.len() {
        assert(cs.take(j) =~= cs);
        assert(grains_at(store, cs).take(grains_at(store, cs).len() as int) =~= grains_at(store, cs));
    } else {
        assert(cs.drop_last().take(j) =~= cs.take(j));
        lemma_grains_at_prefix(store, cs.drop_last(), j);
        let a = grains_at(store, cs.take(j));
        let p = grains_at(store, cs.drop_last());
        assert((p + store[cs.last()].grainIds).take(a.len() as int) =~= p.take(a.len() as int));
    }
}

/// The place of cell `c` when the grid is shown from the top layer down,
/// each layer row by row (`y`), each row by `x`.
pub open spec fn display_index(c: Coords) -> int {
    ((Z_SIZE - 1 - c.2) * Y_SIZE + c.1) * X_SIZE + c.0
}

spec fn shown_before(c: Coords, zi: int, y: int, x: int) -> bool {
    in_grid(c) && (Z_SIZE - 1 - c.2 < zi || (Z_SIZE - 1 - c.2 == zi && (c.1 < y || (c.1 == y
        && c.0 < x))))
}

/// The sum of `s`.
pub open spec fn sum_of(s: Seq<usize>) -> nat
    decreases s.len(),
{
    if s.len() == 0 {
        0
    } else {
        sum_of(s.drop_last()) + (s.last() as nat)
    }
}

proof fn lemma_sum_of_prefix(s: Seq<usize>, j: int)
    requires
        0 <= j <= s.len(),
    ensures
        sum_of(s.take(j)) <= sum_of(s),
    decreases s.len(),
{
    if j == s.len() {
        assert(s.take(j) =~= s);
    } else {
        assert(s.drop_last().take(j) =~= s.take(j));
        lemma_sum_of_prefix(s.drop_last(), j);
    }
}

impl Location {
    /// A location of the pile, with its capacity and resilience raised by the
    /// random extras `additionalCap` and `additionalRes`.
    #[allow(non_snake_case)]
    pub fn new(id: u32, x: i32, y: i32, z: i32, additionalCap: usize, additionalRes: usize) -> (loc:
        Location)
        requires
            additionalCap <= usize::MAX - BASE_CAPACITY,
            additionalRes <= usize::MAX - BASE_RESILIENCE,
        ensures
            loc@ == pile_location(id, x, y, z, additionalCap, additionalRes),
    {
        Location {
            id,
            x,
            y,
            z,
            capacity: BASE_CAPACITY + additionalCap,
            grainIds: Vec::new(),
            resilience: BASE_RESILIENCE + additionalRes,
        }
    }

    /// A cell outside the pile.
    #[allow(non_snake_case)]
    pub fn emptySpace(id: u32, x: i32, y: i32, z: i32) -> (loc: Location)
        ensures
            loc@ == empty_location(id, x, y, z),
    {
        Location { id, x, y, z, capacity: 0, grainIds: Vec::new(), resilience: 0 }
    }

    /// A copy of the location.
    pub fn duplicate(&self) -> (copy: Location)
        ensures
            copy@ == self@,
    {
        let ids = self.grainIds.clone();
        assert(ids@ =~= self.grainIds@);
        Location {
            id: self.id,
            x: self.x,
            y: self.y,
            z: self.z,
            capacity: self.capacity,
            grainIds: ids,
            resilience: self.resilience,
        }
    }

    /// Stores `location` under its coordinates.
    #[allow(non_snake_case)]
    pub fn addLocation(store: &mut LocationStore, location: Location)
        requires
            old(store).wf(),
        ensures
            final(store).wf(),
            final(store)@ == saved(old(store)@, location@),
    {
        store.put(location);
    }

    /// A copy of the location stored at `(x, y, z)`, if any.
    #[allow(non_snake_case)]
    pub fn getLocationByXyz(store: &LocationStore, x: i32, y: i32, z: i32) -> (res: Option<
        Location,
    >)
        ensures
            match res {
                Some(l) => stored_at(store@, (x, y, z)) == Some(l@),
                None => stored_at(store@, (x, y, z)) == None::<LocationView>,
            },
    {
        match store.get(x, y, z) {
            Some(l) => Some(l.duplicate()),
            None => None,
        }
    }

    /// Stores a copy of this location under its coordinates, replacing what
    /// was stored there.
    #[allow(non_snake_case)]
    pub fn saveLocation(&mut self, store: &mut LocationStore)
        requires
            old(store).wf(),
        ensures
            final(self)@ == old(self)@,
            final(store).wf(),
            final(store)@ == saved(old(store)@, old(self)@),
    {
        store.put(self.duplicate());
    }

    /// The number of grains the location holds.
    #[allow(non_snake_case)]
    pub fn getNumberOfGrains(&self) -> (n: usize)
        ensures
            n == self@.grainIds.len(),
    {
        self.grainIds.len()
    }

    /// The cell `(x, y, z)` lies inside the pyramid of the pile.
    #[allow(non_snake_case)]
    pub fn isPileCell(x: i32, y: i32, z: i32) -> (res: bool)
        ensures
            res == in_pile((x, y, z)),
    {
        let (x, y, z) = (x as i64, y as i64, z as i64);
        x >= z && x <= X_SIZE as i64 - z - 1 && y >= z && y <= Y_SIZE as i64 - z - 1
    }

    /// Sets up every cell of the grid in `store`: the cells of the pyramid
    /// as locations of the pile, with the extras `draws[id]` (capacity,
    /// resilience), the others as empty space. Each location's id is its
    /// position in the walk by `x`, `y`, then `z`.
    #[allow(non_snake_case)]
    pub fn initializeLocations(store: &mut LocationStore, draws: &Vec<(usize, usize)>)
        requires
            old(store).wf(),
            draws@.len() == GRID_CELLS,
            draws_fit(draws@),
        ensures
            final(store).wf(),
            final(store)@ == old(store)@.union_prefer_right(initial_grid(draws@)),
    {
        let ghost start = store@;
        let mut count: u32 = 0;
        let mut x: i32 = 0;
        while x < X_SIZE
            invariant
                0 <= x <= X_SIZE,
                count == cell_index((x, 0, 0)),
                store.wf(),
                draws@.len() == GRID_CELLS,
                draws_fit(draws@),
                partly_set_up(store@, start, draws@, x as int, 0, 0),
            decreases X_SIZE - x,
        {
            let mut y: i32 = 0;
            while y < Y_SIZE
                invariant
                    0 <= x < X_SIZE,
                    0 <= y <= Y_SIZE,
                    count == cell_index((x, y, 0)),
                    store.wf(),
                    draws@.len() == GRID_CELLS,
                    draws_fit(draws@),
                    partly_set_up(store@, start, draws@, x as int, y as int, 0),
                decreases Y_SIZE - y,
            {
                let mut z: i32 = 0;
                while z < Z_SIZE
                    invariant
                        0 <= x < X_SIZE,
                        0 <= y < Y_SIZE,
                        0 <= z <= Z_SIZE,
                        count == cell_index((x, y, z)),
                        store.wf(),
                        draws@.len() == GRID_CELLS,
                        draws_fit(draws@),
                        partly_set_up(store@, start, draws@, x as int, y as int, z as int),
                    decreases Z_SIZE - z,
                {
                    let ghost c0: Coords = (x, y, z);
                    assert(in_grid(c0));
                    let location = if x >= z && x <= X_SIZE - z - 1 && y >= z && y <= Y_SIZE - z - 1 {
                        let (cap, res) = draws[count as usize];
                        Location::new(count, x, y, z, cap, res)
                    } else {
                        Location::emptySpace(count, x, y, z)
                    };
                    assert(location@ == initial_location(c0, draws@));
                    Location::addLocation(store, location);
                    count = count + 1;
                    z = z + 1;
                }
                y = y + 1;
            }
            x = x + 1;
        }
        assert(store@ =~= start.union_prefer_right(initial_grid(draws@)));
    }

    /// A grain lands on this location. If there is room it stays and comes to
    /// rest, otherwise it rolls on with at most one unit of energy. Returns
    /// the energy the grain had.
    #[allow(non_snake_case)]
    pub fn incomingGrain(&mut self, grainId: u32, grains: &mut GrainStore) -> (energy: usize)
        requires
            old(grains).wf(),
            old(grains)@.contains_key(grainId),
        ensures
            final(self)@ == after_landing(old(self)@, grainId),
            final(grains).wf(),
            final(grains)@ == old(grains)@.insert(
                grainId,
                landed(old(self)@, old(grains)@[grainId]),
            ),
            energy == old(grains)@[grainId].energy,
    {
        if self.grainIds.len() < self.capacity {
            self.grainIds.push(grainId);
            let mut grain = grains.getGrainById(grainId).unwrap();
            grain.state = GrainState::Stationary;
            let energy = grain.energy;
            grain.energy = 0;
            grains.saveGrain(grain);
            energy
        } else {
            let mut grain = grains.getGrainById(grainId).unwrap();
            grain.state = GrainState::Rolling;
            let energy: usize = grain.energy;
            if grain.energy > 1 {
                grain.energy = 1;
            }
            grains.saveGrain(grain);
            energy
        }
    }

    /// The grains an avalanche at this location would set rolling, or `None`
    /// when a cell above it is missing from `locations`.
    pub(crate) fn stirred_in(&self, extra_size: usize, locations: &LocationStore) -> (res: Option<Vec<u32>>)
        requires
            avalanche_base(self@.grainIds.len()) + extra_size <= usize::MAX,
        ensures
            match res {
                None => exists|i: int|
                    0 <= i < ceiling_coords(self.x, self.y, self.z).len() && !locations@.contains_key(
                        #[trigger] ceiling_coords(self.x, self.y, self.z)[i],
                    ),
                Some(v) => {
                    &&& forall|i: int|
                        0 <= i < ceiling_coords(self.x, self.y, self.z).len() ==> locations@.contains_key(
                            #[trigger] ceiling_coords(self.x, self.y, self.z)[i],
                        )
                    &&& v@ == stirred_grains(self@, extra_size, locations@)
                },
            },
    {
        let ceiling = Location::getCeilingLocations(self.x, self.y, self.z);
        let ghost cs = ceiling@;
        let mut stirred: Vec<u32> = Vec::new();
        let mut j: usize = 0;
        assert(cs.take(0) =~= Seq::<Coords>::empty());
        while j < ceiling.len()
            invariant
                0 <= j <= cs.len(),
                ceiling@ == cs,
                cs == ceiling_coords(self.x, self.y, self.z),
                forall|k: int| 0 <= k < j ==> locations@.contains_key(#[trigger] cs[k]),
                stirred@ == grains_at(locations@, cs.take(j as int)),
            decreases cs.len() - j,
        {
            let (cx, cy, cz) = ceiling[j];
            match locations.get(cx, cy, cz) {
                None => {
                    assert(!locations@.contains_key(cs[j as int]));
                    return None;
                },
                Some(l) => {
                    let mut ids = l.grainIds.clone();
                    assert(ids@ =~= l.grainIds@);
                    stirred.append(&mut ids);
                    assert(cs.take(j + 1).drop_last() =~= cs.take(j as int));
                },
            }
            j = j + 1;
        }
        assert(cs.take(cs.len() as int) =~= cs);
        let len = self.grainIds.len();
        let mut size: usize;
        if BASE_AVALANCHE_METHOD == 1 {
            size = BASE_AVALANCHE_SIZE + extra_size;
        } else {
            let share = (len / BASE_AVALANCHE_SHARE_DEN) * BASE_AVALANCHE_SHARE_NUM + ((len
                % BASE_AVALANCHE_SHARE_DEN) * BASE_AVALANCHE_SHARE_NUM) / BASE_AVALANCHE_SHARE_DEN;
            assert(share == share_of(len as nat));
            size = share + extra_size;
        }
        if len < size {
            size = len;
        }
        let ghost head = stirred@;
        let mut i: usize = 0;
        while i < size
            invariant
                size <= len,
                len == self@.grainIds.len(),
                0 <= i <= size,
                stirred@ == head + loose_grains(self@.grainIds, i as nat),
            decreases size - i,
        {
            stirred.push(self.grainIds[len - 1 - i]);
            assert(stirred@ =~= head + loose_grains(self@.grainIds, (i + 1) as nat));
            i = i + 1;
        }
        Some(stirred)
    }

    /// The grains that would leave this location in an avalanche of extra
    /// size `extra_size`, the topmost first.
    pub(crate) fn loose_in(&self, extra_size: usize) -> (loose: Vec<u32>)
        requires
            avalanche_base(self@.grainIds.len()) + extra_size <= usize::MAX,
        ensures
            loose@ == loose_grains(self@.grainIds, avalanche_size(self@.grainIds.len(), extra_size)),
    {
        let len = self.grainIds.len();
        let mut size: usize;
        if BASE_AVALANCHE_METHOD == 1 {
            size = BASE_AVALANCHE_SIZE + extra_size;
        } else {
            let share = (len / BASE_AVALANCHE_SHARE_DEN) * BASE_AVALANCHE_SHARE_NUM + ((len
                % BASE_AVALANCHE_SHARE_DEN) * BASE_AVALANCHE_SHARE_NUM) / BASE_AVALANCHE_SHARE_DEN;
            assert(share == share_of(len as nat));
            size = share + extra_size;
        }
        if len < size {
            size = len;
        }
        let mut loose: Vec<u32> = Vec::new();
        let mut i: usize = 0;
        while i < size
            invariant
                size <= len,
                len == self@.grainIds.len(),
                0 <= i <= size,
                size == avalanche_size(len as nat, extra_size),
                loose@ == loose_grains(self@.grainIds, i as nat),
            decreases size - i,
        {
            loose.push(self.grainIds[len - 1 - i]);
            assert(loose@ =~= loose_grains(self@.grainIds, (i + 1) as nat));
            i = i + 1;
        }
        loose
    }

    /// A perturbation of this location by a grain that hit it with
    /// `incomingGrainEnergy`, plus the random `additionalEnergy`. If it starts
    /// an avalanche, the top grains leave (their number: the base share plus
    /// the random `additionalSize`, at most all of them), the grains of the
    /// cells above and those that leave are set rolling with one more unit of
    /// energy, and the location is saved. Returns the grains that left, the
    /// topmost first; none when there is no avalanche.
    #[allow(non_snake_case)]
    pub fn perturbation(
        &mut self,
        incomingGrainEnergy: usize,
        additionalEnergy: usize,
        additionalSize: usize,
        locations: &mut LocationStore,
        grains: &mut GrainStore,
    ) -> (loose: Vec<u32>)
        requires
            old(locations).wf(),
            old(grains).wf(),
            can_perturb(
                old(self)@,
                incomingGrainEnergy,
                additionalEnergy,
                additionalSize,
                old(locations)@,
                old(grains)@,
            ),
        ensures
            final(locations).wf(),
            final(grains).wf(),
            if perturbs(old(self)@, incomingGrainEnergy + additionalEnergy) {
                let size = avalanche_size(old(self)@.grainIds.len(), additionalSize);
                &&& loose@ == loose_grains(old(self)@.grainIds, size)
                &&& final(self)@ == old(self)@.with_grains(kept_grains(old(self)@.grainIds, size))
                &&& final(locations)@ == saved(old(locations)@, final(self)@)
                &&& final(grains)@ == jolted(
                    old(grains)@,
                    stirred_grains(old(self)@, additionalSize, old(locations)@),
                )
            } else {
                &&& loose@ == Seq::<u32>::empty()
                &&& final(self)@ == old(self)@
                &&& final(locations)@ == old(locations)@
                &&& final(grains)@ == old(grains)@
            },
    {
        let totalEnergy = incomingGrainEnergy + additionalEnergy;
        if self.resilience < totalEnergy && self.z > 0 {
            let ghost loc0 = self@;
            let ghost ids0 = self.grainIds@;
            assert(perturbs(loc0, incomingGrainEnergy + additionalEnergy));
            let ghost store0 = locations@;
            let ghost grains0 = grains@;
            let len = self.grainIds.len();
            let mut avalancheSize: usize;
            if BASE_AVALANCHE_METHOD == 1 {
                avalancheSize = BASE_AVALANCHE_SIZE + additionalSize;
            } else {
                let share = (len / BASE_AVALANCHE_SHARE_DEN) * BASE_AVALANCHE_SHARE_NUM + ((len
                    % BASE_AVALANCHE_SHARE_DEN) * BASE_AVALANCHE_SHARE_NUM) / BASE_AVALANCHE_SHARE_DEN;
                assert(share == share_of(len as nat));
                avalancheSize = share + additionalSize;
            }
            if len < avalancheSize {
                avalancheSize = len;
            }
            let ghost size = avalancheSize as nat;
            assert(size == avalanche_size(len as nat, additionalSize));

            let mut looseGrainIds: Vec<u32> = Vec::new();
            let mut i: usize = 0;
            assert(ids0.take(len as int) =~= ids0);
            assert(self@ =~= loc0.with_grains(ids0.take(len as int)));
            while i < avalancheSize
                invariant
                    avalancheSize <= len,
                    len == ids0.len(),
                    0 <= i <= avalancheSize,
                    self.grainIds@ == ids0.take(len - i),
                    self@ == loc0.with_grains(ids0.take(len - i)),
                    looseGrainIds@ == loose_grains(ids0, i as nat),
                decreases avalancheSize - i,
            {
                let g = self.grainIds.pop().unwrap();
                looseGrainIds.push(g);
                assert(self.grainIds@ =~= ids0.take(len - (i + 1)));
                assert(self@ =~= loc0.with_grains(ids0.take(len - (i + 1))));
                assert(looseGrainIds@ =~= loose_grains(ids0, (i + 1) as nat));
                i = i + 1;
            }

            let ceilingGrains = Location::getCeilingLocations(self.x, self.y, self.z);
            let ghost cs = ceilingGrains@;
            let ghost stirred = stirred_grains(loc0, additionalSize, store0);
            assert(stirred == grains_at(store0, cs) + looseGrainIds@);
            let mut j: usize = 0;
            assert(cs.take(0) =~= Seq::<Coords>::empty());
            assert(grains@ =~= jolted(grains0, grains_at(store0, cs.take(0))));
            while j < ceilingGrains.len()
                invariant
                    0 <= j <= cs.len(),
                    ceilingGrains@ == cs,
                    locations@ == store0,
                    locations.wf(),
                    grains.wf(),
                    forall|k: int| 0 <= k < cs.len() ==> store0.contains_key(#[trigger] cs[k]),
                    can_jolt(grains0, stirred),
                    stirred == grains_at(store0, cs) + looseGrainIds@,
                    grains@ == jolted(grains0, grains_at(store0, cs.take(j as int))),
                decreases cs.len() - j,
            {
                let (cx, cy, cz) = ceilingGrains[j];
                assert(store0.contains_key(cs[j as int]));
                let location = Location::getLocationByXyz(locations, cx, cy, cz).unwrap();
                proof {
                    let done = grains_at(store0, cs.take(j as int));
                    let next = grains_at(store0, cs.take(j + 1));
                    assert(cs.take(j + 1).drop_last() =~= cs.take(j as int));
                    assert(next == done + location@.grainIds);
                    lemma_grains_at_prefix(store0, cs, j + 1);
                    let all = grains_at(store0, cs);
                    assert((all + looseGrainIds@).take(next.len() as int) =~= next);
                    lemma_can_jolt_prefix(grains0, stirred, next.len() as int);
                    lemma_can_jolt_rest(grains0, done, location@.grainIds);
                    lemma_jolted_append(grains0, done, location@.grainIds);
                }
                grains.jolt(&location.grainIds);
                j = j + 1;
            }
            proof {
                assert(cs.take(cs.len() as int) =~= cs);
                lemma_can_jolt_rest(grains0, grains_at(store0, cs), looseGrainIds@);
                lemma_jolted_append(grains0, grains_at(store0, cs), looseGrainIds@);
            }
            grains.jolt(&looseGrainIds);

            if self.grainIds.len() > 0 && looseGrainIds.len() > 0 {
                self.grainIds = without_grain(&self.grainIds, looseGrainIds[0]);
            }
            self.saveLocation(locations);
            looseGrainIds
        } else {
            Vec::new()
        }
    }

    /// Every cell of the grid, from the top layer down, each layer row by
    /// row, each row from `x = 0` on.
    #[allow(non_snake_case)]
    pub fn displayOrder() -> (order: Vec<Coords>)
        ensures
            order@.len() == GRID_CELLS,
            forall|c: Coords| in_grid(c) ==> order@[display_index(c)] == c,
            forall|k: int|
                0 <= k < order@.len() ==> in_grid(#[trigger] order@[k]) && display_index(order@[k]) == k,
    {
        let mut order: Vec<Coords> = Vec::new();
        let mut zi: i32 = 0;
        while zi < Z_SIZE
            invariant
                0 <= zi <= Z_SIZE,
                order@.len() == zi * Y_SIZE * X_SIZE,
                forall|c: Coords| shown_before(c, zi as int, 0, 0) ==> order@[display_index(c)] == c,
                forall|k: int|
                    0 <= k < order@.len() ==> in_grid(#[trigger] order@[k]) && display_index(order@[k])
                        == k,
            decreases Z_SIZE - zi,
        {
            let z: i32 = Z_SIZE - 1 - zi;
            let mut y: i32 = 0;
            while y < Y_SIZE
                invariant
                    0 <= zi < Z_SIZE,
                    z == Z_SIZE - 1 - zi,
                    0 <= y <= Y_SIZE,
                    order@.len() == (zi * Y_SIZE + y) * X_SIZE,
                    forall|c: Coords| shown_before(c, zi as int, y as int, 0) ==> order@[display_index(c)] == c,
                    forall|k: int|
                        0 <= k < order@.len() ==> in_grid(#[trigger] order@[k]) && display_index(
                            order@[k],
                        ) == k,
                decreases Y_SIZE - y,
            {
                let mut x: i32 = 0;
                while x < X_SIZE
                    invariant
                        0 <= zi < Z_SIZE,
                        z == Z_SIZE - 1 - zi,
                        0 <= y < Y_SIZE,
                        0 <= x <= X_SIZE,
                        order@.len() == (zi * Y_SIZE + y) * X_SIZE + x,
                        forall|c: Coords|
                            shown_before(c, zi as int, y as int, x as int) ==> order@[display_index(c)] == c,
                        forall|k: int|
                            0 <= k < order@.len() ==> in_grid(#[trigger] order@[k]) && display_index(
                                order@[k],
                            ) == k,
                    decreases X_SIZE - x,
                {
                    order.push((x, y, z));
                    x = x + 1;
                }
                y = y + 1;
            }
            zi = zi + 1;
        }
        order
    }

    /// The number of grains at each cell of the grid, in the order of
    /// `displayOrder`.
    #[allow(non_snake_case)]
    pub fn pileCounts(store: &LocationStore) -> (counts: Vec<usize>)
        requires
            forall|c: Coords| in_grid(c) ==> #[trigger] store@.contains_key(c),
        ensures
            counts@.len() == GRID_CELLS,
            forall|c: Coords| #[trigger] in_grid(c) ==> counts@[display_index(c)] == store@[c].grainIds.len(),
    {
        let order = Location::displayOrder();
        let mut counts: Vec<usize> = Vec::new();
        let mut k: usize = 0;
        while k < order.len()
            invariant
                0 <= k <= order@.len(),
                order@.len() == GRID_CELLS,
                forall|j: int|
                    0 <= j < order@.len() ==> in_grid(#[trigger] order@[j]) && display_index(order@[j]) == j,
                forall|c: Coords| in_grid(c) ==> #[trigger] store@.contains_key(c),
                counts@.len() == k,
                forall|j: int| 0 <= j < k ==> #[trigger] counts@[j] == store@[order@[j]].grainIds.len(),
            decreases order@.len() - k,
        {
            let (x, y, z) = order[k];
            assert(in_grid(order@[k as int]));
            let location = Location::getLocationByXyz(store, x, y, z).unwrap();
            counts.push(location.getNumberOfGrains());
            k = k + 1;
        }
        proof {
            Location::lemma_display_order_onto(order@);
        }
        counts
    }

    proof fn lemma_display_order_onto(order: Seq<Coords>)
        requires
            order.len() == GRID_CELLS,
            forall|j: int|
                0 <= j < order.len() ==> in_grid(#[trigger] order[j]) && display_index(order[j]) == j,
        ensures
            forall|c: Coords| #[trigger] in_grid(c) ==> order[display_index(c)] == c,
    {
        assert forall|c: Coords| #[trigger] in_grid(c) implies order[display_index(c)] == c by {
            let j = display_index(c);
            assert(0 <= j < order.len());
            let d = order[j];
            assert(in_grid(d) && display_index(d) == j);
        }
    }

    /// The total of `counts`, or `None` when it does not fit in a `usize`.
    #[allow(non_snake_case)]
    pub fn pileTotal(counts: &Vec<usize>) -> (total: Option<usize>)
        ensures
            total == (if sum_of(counts@) <= usize::MAX {
                Some(sum_of(counts@) as usize)
            } else {
                None::<usize>
            }),
    {
        let mut acc: usize = 0;
        let mut i: usize = 0;
        while i < counts.len()
            invariant
                0 <= i <= counts@.len(),
                acc == sum_of(counts@.take(i as int)),
            decreases counts@.len() - i,
        {
            assert(counts@.take(i + 1).drop_last() =~= counts@.take(i as int));
            match acc.checked_add(counts[i]) {
                Some(t) => {
                    acc = t;
                },
                None => {
                    proof {
                        lemma_sum_of_prefix(counts@, i + 1);
                    }
                    return None;
                },
            }
            i = i + 1;
        }
        assert(counts@.take(counts@.len() as int) =~= counts@);
        Some(acc)
    }

    /// The cells a grain at `(x, y, z)` can move to: those below it and, on
    /// the ground, those beside it or off the pile.
    #[allow(non_snake_case)]
    pub fn getLowerNeighborhood(x: i32, y: i32, z: i32) -> (res: Vec<Coords>)
        requires
            i32::MIN < x < i32::MAX,
            i32::MIN < y < i32::MAX,
            i32::MIN < z || x > X_SIZE || y > Y_SIZE,
        ensures
            res@ == lower_neighbourhood(x, y, z),
    {
        let mut lowerNeighborhood: Vec<Coords> = Vec::with_capacity(9);
        let minX: i32 = if x == 0 { 0 } else { x - 1 };
        let maxX: i32 = if x + 1 < X_SIZE { x + 1 } else { X_SIZE };
        let minY: i32 = if y == 0 { 0 } else { y - 1 };
        let maxY: i32 = if y + 1 < Y_SIZE { y + 1 } else { Y_SIZE };
        let mut i: i32 = minX;
        while i <= maxX
            invariant
                minX == neighbour_low(x),
                maxX == neighbour_high(x, X_SIZE),
                minY == neighbour_low(y),
                maxY == neighbour_high(y, Y_SIZE),
                maxX <= X_SIZE,
                maxY <= Y_SIZE,
                i32::MIN < z || x > X_SIZE || y > Y_SIZE,
                minX <= i,
                i <= maxX + 1 || i == minX,
                lowerNeighborhood@ == neighbour_rows(x, y, z, minX as int, i - 1, minY as int, maxY as int),
            decreases maxX + 1 - i,
        {
            let ghost before = lowerNeighborhood@;
            let mut j: i32 = minY;
            while j <= maxY
                invariant
                    minX <= i <= maxX,
                    maxX <= X_SIZE,
                    minY == neighbour_low(y),
                    maxY == neighbour_high(y, Y_SIZE),
                    maxY <= Y_SIZE,
                    i32::MIN < z || x > X_SIZE || y > Y_SIZE,
                    minY <= j,
                    j <= maxY + 1 || j == minY,
                    lowerNeighborhood@ == before + neighbour_row(x, y, z, i as int, minY as int, j - 1),
                decreases maxY + 1 - j,
            {
                let ghost row = lowerNeighborhood@;
                if z > 0 {
                    lowerNeighborhood.push((i, j, z - 1));
                } else {
                    if i == x && j == y {
                        lowerNeighborhood.push((i, j, z - 1));
                    }
                    if i == 0 || i == X_SIZE - 1 || j == 0 || j == Y_SIZE - 1 {
                        lowerNeighborhood.push((-1, -1, -1));
                    } else {
                        lowerNeighborhood.push((i, j, z));
                    }
                }
                assert(lowerNeighborhood@ =~= row + neighbour_entries(x, y, z, i as int, j as int));
                assert(neighbour_row(x, y, z, i as int, minY as int, j as int) =~= neighbour_row(x, y, z, i as int, minY as int, j - 1) + neighbour_entries(x, y, z, i as int, j as int));
                j = j + 1;
            }
            i = i + 1;
        }
        lowerNeighborhood
    }

    /// The cells above `(x, y, z)` whose grains fall into an avalanche that
    /// starts at `(x, y, z)`.
    #[allow(non_snake_case)]
    pub fn getCeilingLocations(x: i32, y: i32, z: i32) -> (res: Vec<Coords>)
        ensures
            res@ == ceiling_coords(x, y, z),
    {
        let mut ceilingLocations: Vec<Coords> = Vec::new();
        if z < Z_SIZE - 2 {
            let mut i: i32 = z + 1;
            while i < Z_SIZE
                invariant
                    z < Z_SIZE - 2,
                    z + 1 <= i <= Z_SIZE,
                    ceilingLocations@ =~= ceiling_coords(x, y, z).take(i - z - 1),
                decreases Z_SIZE - i,
            {
                ceilingLocations.push((x, y, i));
                i = i + 1;
            }
        }
        ceilingLocations
    }
}

} // verus!
