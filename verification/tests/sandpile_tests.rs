use sandpile::avalanche::{
    initializeAvalanches, nextGrain, Avalanche, Motion, StepInputs, StepRequest, Sweep,
};
use sandpile::constants::{GRID_CELLS, TOTAL_GRAINS, X_SIZE, Y_SIZE, Z_SIZE};
use sandpile::grain::{without_grain, Grain, GrainState, GrainStore};
use sandpile::location::{Location, LocationStore};
use sandpile::stats::{
    avalancheTotalGrainsStats, avalancheTotalMagnitudeStats, avalancheTotalMovementStats,
    countByValue, exportedMovementCounts,
};

fn grain(id: u32, x: i32, y: i32, z: i32, energy: usize, state: GrainState) -> Grain {
    Grain { id, x, y, z, energy, state }
}

fn grid_store(cap: usize, res: usize) -> LocationStore {
    let mut store = LocationStore::new();
    let draws = vec![(cap, res); GRID_CELLS];
    Location::initializeLocations(&mut store, &draws);
    store
}

fn loc(store: &LocationStore, x: i32, y: i32, z: i32) -> Location {
    Location::getLocationByXyz(store, x, y, z).unwrap()
}

#[test]
fn new_avalanche_is_empty() {
    let a = Avalanche::new(7);
    assert_eq!(a.id, 7);
    assert!(a.grainIds.is_empty());
    assert!(a.locationIds.is_empty());
    assert_eq!(a.totalMovement, 0);
    assert_eq!(a.totalGrainsInvolved, 0);
    assert_eq!(a.direction, 0);
}

#[test]
fn add_grain_appends_and_counts() {
    let mut a = Avalanche::new(0);
    a.addGrain(4);
    a.addGrain(9);
    a.addGrain(4);
    assert_eq!(a.grainIds, vec![4, 9, 4]);
    assert_eq!(a.totalGrainsInvolved, 3);
}

#[test]
fn initialize_avalanches_numbers_them() {
    let mut avs = vec![Avalanche::new(99)];
    initializeAvalanches(&mut avs);
    assert_eq!(avs.len(), TOTAL_GRAINS + 1);
    assert_eq!(avs[0].id, 99);
    assert_eq!(avs[1].id, 0);
    assert_eq!(avs[TOTAL_GRAINS].id, (TOTAL_GRAINS - 1) as u32);
    assert_eq!(avs[500].totalGrainsInvolved, 0);
}

#[test]
fn new_location_adds_base_values() {
    let l = Location::new(3, 1, 2, 0, 2, 5);
    assert_eq!((l.id, l.x, l.y, l.z), (3, 1, 2, 0));
    assert_eq!(l.capacity, 6);
    assert_eq!(l.resilience, 8);
    assert_eq!(l.getNumberOfGrains(), 0);
}

#[test]
fn empty_space_has_nothing() {
    let l = Location::emptySpace(11, -1, 4, 3);
    assert_eq!((l.id, l.x, l.y, l.z), (11, -1, 4, 3));
    assert_eq!(l.capacity, 0);
    assert_eq!(l.resilience, 0);
    assert!(l.grainIds.is_empty());
}

#[test]
fn store_reads_back_what_was_saved() {
    let mut store = LocationStore::new();
    assert!(Location::getLocationByXyz(&store, 1, 2, 3).is_none());
    Location::addLocation(&mut store, Location::new(1, 1, 2, 3, 0, 0));
    let mut l = loc(&store, 1, 2, 3);
    assert_eq!(l.id, 1);
    l.grainIds.push(42);
    assert!(loc(&store, 1, 2, 3).grainIds.is_empty());
    l.saveLocation(&mut store);
    assert_eq!(l.grainIds, vec![42]);
    assert_eq!(loc(&store, 1, 2, 3).grainIds, vec![42]);
    assert!(Location::getLocationByXyz(&store, 3, 2, 1).is_none());
    Location::addLocation(&mut store, Location::emptySpace(9, -5, i32::MIN, i32::MAX));
    assert_eq!(loc(&store, -5, i32::MIN, i32::MAX).id, 9);
    assert_eq!(loc(&store, 1, 2, 3).grainIds, vec![42]);
}

#[test]
fn initialize_locations_builds_the_pyramid() {
    let store = grid_store(1, 2);
    let ground = loc(&store, 0, 0, 0);
    assert_eq!(ground.id, 0);
    assert_eq!(ground.capacity, 5);
    assert_eq!(ground.resilience, 5);
    let outside = loc(&store, 0, 0, 1);
    assert_eq!(outside.id, 1);
    assert_eq!(outside.capacity, 0);
    assert_eq!(outside.resilience, 0);
    let top = loc(&store, 10, 10, 10);
    assert_eq!(top.id, ((10 * 21 + 10) * 16 + 10) as u32);
    assert_eq!(top.capacity, 5);
    let rim = loc(&store, 20, 20, 1);
    assert_eq!(rim.capacity, 0);
    let inner_rim = loc(&store, 19, 19, 1);
    assert_eq!(inner_rim.capacity, 5);
    let last = loc(&store, X_SIZE - 1, Y_SIZE - 1, Z_SIZE - 1);
    assert_eq!(last.id, (GRID_CELLS - 1) as u32);
    assert!(Location::getLocationByXyz(&store, 21, 0, 0).is_none());
    assert!(Location::getLocationByXyz(&store, 0, 0, -1).is_none());
}

#[test]
fn initialize_locations_uses_draw_of_each_cell() {
    let mut store = LocationStore::new();
    let mut draws = vec![(0, 0); GRID_CELLS];
    let idx = ((3 * 21 + 4) * 16 + 2) as usize;
    draws[idx] = (7, 9);
    Location::initializeLocations(&mut store, &draws);
    let l = loc(&store, 3, 4, 2);
    assert_eq!(l.capacity, 11);
    assert_eq!(l.resilience, 12);
    assert_eq!(loc(&store, 3, 4, 1).capacity, 4);
}

#[test]
fn ceiling_locations() {
    let c = Location::getCeilingLocations(2, 3, 5);
    assert_eq!(c.len(), 10);
    assert_eq!(c[0], (2, 3, 6));
    assert_eq!(c[9], (2, 3, 15));
    assert_eq!(Location::getCeilingLocations(2, 3, 13), vec![(2, 3, 14), (2, 3, 15)]);
    assert!(Location::getCeilingLocations(2, 3, 14).is_empty());
    assert!(Location::getCeilingLocations(2, 3, 15).is_empty());
}

#[test]
fn lower_neighborhood_above_ground() {
    let n = Location::getLowerNeighborhood(5, 5, 3);
    assert_eq!(n.len(), 9);
    assert_eq!(n[0], (4, 4, 2));
    assert_eq!(n[1], (4, 5, 2));
    assert_eq!(n[3], (5, 4, 2));
    assert_eq!(n[8], (6, 6, 2));
}

#[test]
fn lower_neighborhood_on_the_ground_at_a_corner() {
    let n = Location::getLowerNeighborhood(0, 0, 0);
    assert_eq!(n, vec![(0, 0, -1), (-1, -1, -1), (-1, -1, -1), (-1, -1, -1), (1, 1, 0)]);
}

#[test]
fn lower_neighborhood_at_far_edge() {
    let n = Location::getLowerNeighborhood(20, 10, 2);
    assert_eq!(n.len(), 9);
    assert_eq!(n[0], (19, 9, 1));
    assert_eq!(n[8], (21, 11, 1));
    let g = Location::getLowerNeighborhood(5, 5, 0);
    assert_eq!(g.len(), 10);
    assert_eq!(g[4], (5, 5, -1));
    assert_eq!(g[5], (5, 5, 0));
}

#[test]
fn incoming_grain_with_room_settles() {
    let mut grains = GrainStore::new();
    grains.saveGrain(grain(3, 1, 1, 0, 6, GrainState::Impact));
    let mut l = Location::new(0, 1, 1, 0, 0, 0);
    let e = l.incomingGrain(3, &mut grains);
    assert_eq!(e, 6);
    assert_eq!(l.grainIds, vec![3]);
    let g = grains.getGrainById(3).unwrap();
    assert_eq!(g.state, GrainState::Stationary);
    assert_eq!(g.energy, 0);
}

#[test]
fn incoming_grain_on_full_location_bounces() {
    let mut grains = GrainStore::new();
    grains.saveGrain(grain(3, 1, 1, 0, 6, GrainState::Impact));
    grains.saveGrain(grain(4, 1, 1, 0, 0, GrainState::Impact));
    let mut l = Location::emptySpace(0, 1, 1, 0);
    assert_eq!(l.incomingGrain(3, &mut grains), 6);
    assert!(l.grainIds.is_empty());
    let g = grains.getGrainById(3).unwrap();
    assert_eq!(g.state, GrainState::Rolling);
    assert_eq!(g.energy, 1);
    assert_eq!(l.incomingGrain(4, &mut grains), 0);
    assert_eq!(grains.getGrainById(4).unwrap().energy, 0);
    assert_eq!(grains.getGrainById(4).unwrap().state, GrainState::Rolling);
}

fn store_grains(ids: &[u32]) -> GrainStore {
    let mut grains = GrainStore::new();
    for &id in ids {
        grains.saveGrain(grain(id, 0, 0, 0, 10, GrainState::Stationary));
    }
    grains
}

#[test]
fn perturbation_starts_an_avalanche() {
    let mut store = grid_store(0, 0);
    let mut above = loc(&store, 5, 5, 2);
    above.grainIds.push(7);
    above.saveLocation(&mut store);
    let mut grains = store_grains(&[1, 2, 3, 4, 7, 8]);
    let mut l = loc(&store, 5, 5, 1);
    l.grainIds = vec![1, 2, 3, 4];
    let loose = l.perturbation(4, 0, 0, &mut store, &mut grains);
    assert_eq!(loose, vec![4, 3, 2]);
    assert_eq!(l.grainIds, vec![1]);
    assert_eq!(loc(&store, 5, 5, 1).grainIds, vec![1]);
    for id in [2, 3, 4, 7] {
        let g = grains.getGrainById(id).unwrap();
        assert_eq!(g.state, GrainState::Rolling);
        assert_eq!(g.energy, 11);
    }
    assert_eq!(grains.getGrainById(1).unwrap(), grain(1, 0, 0, 0, 10, GrainState::Stationary));
    assert_eq!(grains.getGrainById(8).unwrap(), grain(8, 0, 0, 0, 10, GrainState::Stationary));
}

#[test]
fn perturbation_size_counts_extra_and_is_capped() {
    let mut store = grid_store(0, 0);
    let mut grains = store_grains(&[1, 2, 3, 4]);
    let mut l = loc(&store, 5, 5, 1);
    l.grainIds = vec![1, 2, 3, 4];
    let loose = l.perturbation(4, 0, 1, &mut store, &mut grains);
    assert_eq!(loose, vec![4, 3, 2, 1]);
    assert!(l.grainIds.is_empty());
    let mut l2 = loc(&store, 6, 6, 1);
    l2.grainIds = vec![1, 2, 3];
    let loose2 = l2.perturbation(9, 0, 100, &mut store, &mut grains);
    assert_eq!(loose2, vec![3, 2, 1]);
    assert_eq!(grains.getGrainById(1).unwrap().energy, 12);
}

#[test]
fn perturbation_drops_copies_of_the_first_loose_grain() {
    let mut store = grid_store(0, 0);
    let mut grains = store_grains(&[5, 9]);
    let mut l = loc(&store, 5, 5, 1);
    l.grainIds = vec![5, 9, 5];
    let loose = l.perturbation(4, 0, 0, &mut store, &mut grains);
    assert_eq!(loose, vec![5, 9]);
    assert!(l.grainIds.is_empty());
    assert_eq!(grains.getGrainById(5).unwrap().energy, 11);
}

#[test]
fn perturbation_below_resilience_does_nothing() {
    let mut store = grid_store(0, 3);
    let mut grains = store_grains(&[1, 2]);
    let mut l = loc(&store, 5, 5, 1);
    l.grainIds = vec![1, 2];
    let loose = l.perturbation(2, 1, 0, &mut store, &mut grains);
    assert!(loose.is_empty());
    assert_eq!(l.grainIds, vec![1, 2]);
    assert!(loc(&store, 5, 5, 1).grainIds.is_empty());
    assert_eq!(grains.getGrainById(1).unwrap().energy, 10);
    let loose = l.perturbation(5, 2, 0, &mut store, &mut grains);
    assert_eq!(loose, vec![2]);
}

#[test]
fn perturbation_on_the_ground_does_nothing() {
    let mut store = grid_store(0, 0);
    let mut grains = store_grains(&[1]);
    let mut l = loc(&store, 5, 5, 0);
    l.grainIds = vec![1];
    let loose = l.perturbation(100, 0, 0, &mut store, &mut grains);
    assert!(loose.is_empty());
    assert_eq!(l.grainIds, vec![1]);
}

fn inputs(motion: Option<Motion>, e: Option<usize>, s: Option<usize>) -> StepInputs {
    StepInputs { motion, extra_energy: e, extra_size: s }
}

#[test]
fn update_unknown_grain_starts_falling() {
    let mut store = LocationStore::new();
    let mut grains = store_grains(&[]);
    grains.saveGrain(grain(1, 3, 3, 10, 0, GrainState::Unknown));
    let mut a = Avalanche::new(0);
    a.addGrain(1);
    assert!(a.canStep(1, StepInputs::none(), &store, &grains));
    assert_eq!(a.update(1, StepInputs::none(), &mut store, &mut grains), None);
    assert_eq!(grains.getGrainById(1).unwrap().state, GrainState::Falling);
    assert_eq!(a.grainIds, vec![1]);
    assert_eq!(a.totalMovement, 0);
}

#[test]
fn update_moving_grain_asks_for_its_motion_then_saves_it() {
    let mut store = LocationStore::new();
    let mut grains = GrainStore::new();
    grains.saveGrain(grain(1, 3, 3, 10, 2, GrainState::Falling));
    grains.saveGrain(grain(2, 3, 3, 10, 2, GrainState::Rolling));
    let mut a = Avalanche::new(0);
    assert_eq!(a.update(1, StepInputs::none(), &mut store, &mut grains), Some(StepRequest::Fall));
    assert_eq!(a.update(2, StepInputs::none(), &mut store, &mut grains), Some(StepRequest::Roll));
    assert_eq!(a.totalMovement, 0);
    let fell = Motion { grain: grain(1, 3, 3, 7, 3, GrainState::Impact), distance: 3 };
    let rolled = Motion { grain: grain(2, 4, 3, 10, 1, GrainState::Rolling), distance: 4 };
    assert_eq!(a.update(1, inputs(Some(fell), None, None), &mut store, &mut grains), None);
    assert_eq!(a.update(2, inputs(Some(rolled), None, None), &mut store, &mut grains), None);
    assert_eq!(a.totalMovement, 7);
    assert_eq!(grains.getGrainById(1).unwrap(), fell.grain);
    assert_eq!(grains.getGrainById(2).unwrap(), rolled.grain);
}

#[test]
fn can_step_refuses_a_motion_of_another_grain() {
    let store = LocationStore::new();
    let mut grains = GrainStore::new();
    grains.saveGrain(grain(1, 3, 3, 10, 2, GrainState::Falling));
    let a = Avalanche::new(0);
    let wrong = Motion { grain: grain(2, 3, 3, 7, 3, GrainState::Falling), distance: 3 };
    assert!(!a.canStep(1, inputs(Some(wrong), None, None), &store, &grains));
    assert!(!a.canStep(9, StepInputs::none(), &store, &grains));
    let huge = Motion { grain: grain(1, 3, 3, 7, 3, GrainState::Falling), distance: usize::MAX };
    let mut b = Avalanche::new(1);
    b.totalMovement = 1;
    assert!(!b.canStep(1, inputs(Some(huge), None, None), &store, &grains));
    assert!(a.canStep(1, inputs(Some(huge), None, None), &store, &grains));
}

#[test]
fn update_resting_grain_leaves() {
    let mut store = LocationStore::new();
    let mut grains = GrainStore::new();
    grains.saveGrain(grain(1, 3, 3, 0, 2, GrainState::Stationary));
    grains.saveGrain(grain(2, 3, 3, 0, 2, GrainState::OffPile));
    let mut a = Avalanche::new(0);
    a.addGrain(1);
    a.addGrain(2);
    a.addGrain(1);
    assert_eq!(a.update(1, StepInputs::none(), &mut store, &mut grains), None);
    assert_eq!(a.grainIds, vec![2]);
    assert_eq!(grains.getGrainById(1).unwrap().energy, 0);
    assert_eq!(a.update(2, StepInputs::none(), &mut store, &mut grains), None);
    assert!(a.grainIds.is_empty());
    assert_eq!(grains.getGrainById(2).unwrap().energy, 2);
    assert_eq!(a.totalGrainsInvolved, 3);
}

#[test]
fn update_impact_on_a_location_with_room() {
    let mut store = grid_store(0, 100);
    let mut grains = GrainStore::new();
    grains.saveGrain(grain(1, 5, 5, 2, 3, GrainState::Impact));
    let mut a = Avalanche::new(0);
    a.addGrain(1);
    assert_eq!(a.update(1, StepInputs::none(), &mut store, &mut grains), Some(StepRequest::ExtraEnergy));
    assert!(loc(&store, 5, 5, 2).grainIds.is_empty());
    assert!(a.canStep(1, inputs(None, Some(0), None), &store, &grains));
    assert_eq!(a.update(1, inputs(None, Some(0), None), &mut store, &mut grains), None);
    assert_eq!(loc(&store, 5, 5, 2).grainIds, vec![1]);
    let g = grains.getGrainById(1).unwrap();
    assert_eq!(g.state, GrainState::Stationary);
    assert_eq!(g.energy, 0);
    assert_eq!(a.grainIds, vec![1]);
    assert_eq!(a.totalGrainsInvolved, 1);
}

#[test]
fn update_impact_sets_off_an_avalanche() {
    let mut store = grid_store(0, 0);
    let mut grains = GrainStore::new();
    for id in [10, 11, 12] {
        grains.saveGrain(grain(id, 5, 5, 2, 0, GrainState::Stationary));
    }
    let mut l = loc(&store, 5, 5, 2);
    l.grainIds = vec![10, 11, 12];
    l.saveLocation(&mut store);
    grains.saveGrain(grain(1, 5, 5, 2, 4, GrainState::Impact));
    let mut a = Avalanche::new(0);
    a.addGrain(1);
    assert_eq!(a.update(1, inputs(None, Some(0), None), &mut store, &mut grains), Some(StepRequest::ExtraSize));
    assert!(a.canStep(1, inputs(None, Some(0), Some(0)), &store, &grains));
    assert_eq!(a.update(1, inputs(None, Some(0), Some(0)), &mut store, &mut grains), None);
    // the grain lands (4 of 4), then 3 of the 4 leave: 1, 12, 11
    assert_eq!(loc(&store, 5, 5, 2).grainIds, vec![10]);
    assert_eq!(a.grainIds, vec![1, 12, 11]);
    assert_eq!(a.totalGrainsInvolved, 3);
    let g = grains.getGrainById(1).unwrap();
    assert_eq!(g.state, GrainState::Rolling);
    assert_eq!(g.energy, 1);
    assert_eq!(grains.getGrainById(12).unwrap().energy, 1);
    assert_eq!(grains.getGrainById(10).unwrap().state, GrainState::Stationary);
}

#[test]
fn can_step_refuses_an_impact_it_cannot_carry_out() {
    let store = grid_store(0, 0);
    let mut grains = GrainStore::new();
    grains.saveGrain(grain(1, 5, 5, 2, 4, GrainState::Impact));
    grains.saveGrain(grain(2, 50, 5, 2, 4, GrainState::Impact));
    let a = Avalanche::new(0);
    assert!(!a.canStep(2, StepInputs::none(), &store, &grains));
    assert!(!a.canStep(1, inputs(None, Some(usize::MAX), None), &store, &grains));
    assert!(a.canStep(1, inputs(None, Some(0), Some(5)), &store, &grains));
    let mut b = Avalanche::new(1);
    b.totalGrainsInvolved = usize::MAX;
    assert!(!b.canStep(1, inputs(None, Some(0), Some(5)), &store, &grains));
    let mut store2 = grid_store(0, 0);
    let mut l = loc(&store2, 5, 5, 3);
    l.grainIds = vec![77];
    l.saveLocation(&mut store2);
    assert!(!a.canStep(1, inputs(None, Some(0), Some(5)), &store2, &grains));
}

#[test]
fn update_impact_on_a_full_location_bounces() {
    let mut store = grid_store(0, 100);
    let mut grains = GrainStore::new();
    let mut l = loc(&store, 5, 5, 2);
    l.grainIds = vec![20, 21, 22, 23];
    l.saveLocation(&mut store);
    grains.saveGrain(grain(1, 5, 5, 2, 5, GrainState::Impact));
    let mut a = Avalanche::new(0);
    a.addGrain(1);
    assert_eq!(a.update(1, inputs(None, Some(0), None), &mut store, &mut grains), None);
    assert_eq!(loc(&store, 5, 5, 2).grainIds, vec![20, 21, 22, 23]);
    let g = grains.getGrainById(1).unwrap();
    assert_eq!(g.state, GrainState::Rolling);
    assert_eq!(g.energy, 1);
    assert_eq!(a.grainIds, vec![1]);
}

#[test]
fn next_grain_sweeps_in_passes() {
    let mut a = Avalanche::new(0);
    let s0 = Sweep::start();
    assert_eq!(nextGrain(&a, s0), (None, Sweep { pass_len: 0, next: 0 }));
    a.addGrain(5);
    a.addGrain(6);
    a.addGrain(7);
    let (g, s1) = nextGrain(&a, s0);
    assert_eq!((g, s1), (Some(5), Sweep { pass_len: 3, next: 1 }));
    let (g, s2) = nextGrain(&a, s1);
    assert_eq!((g, s2), (Some(6), Sweep { pass_len: 3, next: 2 }));
    // the list shrinks mid-pass: the pass takes the last grain
    a.grainIds = vec![5, 7];
    assert!(a.canChooseNext(s2));
    let (g, s3) = nextGrain(&a, s2);
    assert_eq!((g, s3), (Some(7), Sweep { pass_len: 3, next: 3 }));
    // a new pass over the list as it is now
    a.addGrain(8);
    let (g, s4) = nextGrain(&a, s3);
    assert_eq!((g, s4), (Some(5), Sweep { pass_len: 3, next: 1 }));
    a.grainIds.clear();
    assert!(!a.canChooseNext(s4));
    assert_eq!(nextGrain(&a, Sweep { pass_len: 3, next: 3 }), (None, Sweep { pass_len: 0, next: 0 }));
}

#[test]
fn next_grain_keeps_its_index_when_the_list_grows() {
    let mut a = Avalanche::new(0);
    a.addGrain(1);
    a.addGrain(2);
    let (_, s1) = nextGrain(&a, Sweep::start());
    a.addGrain(3);
    assert_eq!(nextGrain(&a, s1), (Some(2), Sweep { pass_len: 2, next: 2 }));
}

#[test]
fn without_grain_removes_every_copy() {
    assert_eq!(without_grain(&vec![1, 2, 1, 3], 1), vec![2, 3]);
    assert_eq!(without_grain(&vec![], 1), Vec::<u32>::new());
    assert_eq!(without_grain(&vec![4, 5], 6), vec![4, 5]);
}

#[test]
fn jolt_adds_one_unit_per_occurrence() {
    let mut grains = store_grains(&[1, 2, 3]);
    grains.jolt(&vec![1, 3, 1]);
    assert_eq!(grains.getGrainById(1).unwrap().energy, 12);
    assert_eq!(grains.getGrainById(1).unwrap().state, GrainState::Rolling);
    assert_eq!(grains.getGrainById(3).unwrap().energy, 11);
    assert_eq!(grains.getGrainById(2).unwrap().state, GrainState::Stationary);
}

#[test]
fn grain_store_reads_back() {
    let mut grains = GrainStore::new();
    assert!(grains.getGrainById(5).is_none());
    grains.saveGrain(grain(5, 1, 2, 3, 4, GrainState::Falling));
    assert_eq!(grains.getGrainById(5).unwrap(), grain(5, 1, 2, 3, 4, GrainState::Falling));
    grains.saveGrain(grain(5, 1, 2, 2, 4, GrainState::Impact));
    assert_eq!(grains.getGrainById(5).unwrap().z, 2);
}

#[test]
fn count_by_value_tallies_in_order() {
    assert_eq!(countByValue(&vec![3, 1, 3, 2]), vec![(1, 1), (2, 1), (3, 2)]);
    assert_eq!(countByValue(&vec![]), vec![]);
    assert_eq!(countByValue(&vec![0, 0, 0]), vec![(0, 3)]);
    let t = countByValue(&vec![9, 4, 7, 4, 9, 9, 0]);
    assert_eq!(t, vec![(0, 1), (4, 2), (7, 1), (9, 3)]);
    assert_eq!(t.iter().map(|r| r.1).sum::<usize>(), 7);
}

fn avalanche_with(id: u32, grains: usize, movement: usize) -> Avalanche {
    let mut a = Avalanche::new(id);
    a.totalGrainsInvolved = grains;
    a.totalMovement = movement;
    a
}

#[test]
fn avalanche_stats() {
    let avs = vec![avalanche_with(0, 2, 5), avalanche_with(1, 1, 0), avalanche_with(2, 2, 2), avalanche_with(3, 3, 2)];
    assert_eq!(avalancheTotalGrainsStats(&avs), vec![(1, 1), (2, 2), (3, 1)]);
    assert_eq!(avalancheTotalMovementStats(&avs), vec![(0, 1), (2, 2), (5, 1)]);
    assert_eq!(avalancheTotalMagnitudeStats(&avs), vec![(0, 1), (4, 1), (6, 1), (10, 1)]);
}

#[test]
fn exported_movement_counts_from_one() {
    let avs = vec![avalanche_with(0, 1, 0), avalanche_with(1, 1, 2), avalanche_with(2, 1, 2), avalanche_with(3, 1, 5)];
    assert_eq!(exportedMovementCounts(&avs), vec![0, 2, 0, 0, 1]);
    assert!(exportedMovementCounts(&vec![avalanche_with(0, 1, 0)]).is_empty());
    assert!(exportedMovementCounts(&vec![]).is_empty());
}

#[test]
fn display_order_goes_from_the_top_down() {
    let order = Location::displayOrder();
    assert_eq!(order.len(), GRID_CELLS);
    assert_eq!(order[0], (0, 0, 15));
    assert_eq!(order[1], (1, 0, 15));
    assert_eq!(order[21], (0, 1, 15));
    assert_eq!(order[441], (0, 0, 14));
    assert_eq!(order[GRID_CELLS - 1], (20, 20, 0));
}

#[test]
fn pile_counts_and_total() {
    let mut store = grid_store(0, 0);
    let mut l = loc(&store, 0, 0, 15);
    l.grainIds = vec![1, 2];
    l.saveLocation(&mut store);
    let mut m = loc(&store, 20, 20, 0);
    m.grainIds = vec![3];
    m.saveLocation(&mut store);
    let counts = Location::pileCounts(&store);
    assert_eq!(counts.len(), GRID_CELLS);
    assert_eq!(counts[0], 2);
    assert_eq!(counts[GRID_CELLS - 1], 1);
    assert_eq!(Location::pileTotal(&counts), Some(3));
    assert_eq!(Location::pileTotal(&vec![usize::MAX, 1]), None);
    assert_eq!(Location::pileTotal(&vec![]), Some(0));
}

#[test]
fn lower_neighborhood_far_outside_the_grid() {
    let n = Location::getLowerNeighborhood(30, 30, i32::MIN);
    assert!(n.is_empty());
    let m = Location::getLowerNeighborhood(-3, 0, 1);
    assert_eq!(m.len(), 6);
    assert_eq!(m[0], (-4, 0, 0));
    assert_eq!(m[5], (-2, 1, 0));
}

#[test]
fn pile_cells() {
    assert!(Location::isPileCell(0, 0, 0));
    assert!(!Location::isPileCell(0, 0, 1));
    assert!(Location::isPileCell(10, 10, 10));
    assert!(!Location::isPileCell(10, 10, 11));
    assert!(Location::isPileCell(i32::MAX, 0, i32::MIN));
    assert!(!Location::isPileCell(-1, 0, 0));
}

#[test]
fn tallies_do_not_depend_on_order() {
    let avs = vec![avalanche_with(0, 2, 5), avalanche_with(1, 1, 0), avalanche_with(2, 2, 2)];
    let rev = vec![avalanche_with(7, 2, 2), avalanche_with(8, 1, 9), avalanche_with(9, 2, 5)];
    assert_eq!(avalancheTotalGrainsStats(&avs), avalancheTotalGrainsStats(&rev));
    let moved = vec![avalanche_with(4, 9, 2), avalanche_with(5, 9, 0), avalanche_with(6, 9, 5)];
    assert_eq!(exportedMovementCounts(&avs), exportedMovementCounts(&moved));
}

#[test]
fn one_more_avalanche_adds_one_to_its_row() {
    let mut avs = vec![avalanche_with(0, 1, 2), avalanche_with(1, 1, 2)];
    assert_eq!(exportedMovementCounts(&avs), vec![0, 2]);
    avs.push(avalanche_with(2, 1, 4));
    assert_eq!(exportedMovementCounts(&avs), vec![0, 2, 0, 1]);
    avs.push(avalanche_with(3, 1, 0));
    assert_eq!(exportedMovementCounts(&avs), vec![0, 2, 0, 1]);
}
