# sandpile

A discrete sandpile on a 21 x 21 x 16 grid: the cells of a pyramid are
locations with a capacity for grains and a resilience against perturbations;
grains that hit a location either stay or roll on, and a hit that exceeds a
location's resilience starts an avalanche that sets grains rolling.

- `src/` is the verified library (Verus):
  - `constants` — the sizes and base values of the pile;
  - `grain` — grains, their states, and the store of grains by id;
  - `location` — locations, the store of locations by coordinates, setting up
    the grid, landing, perturbation, neighbourhoods and the pile's counts;
  - `avalanche` — avalanches, the step that moves one of their grains on
    (asking the caller for a grain's own fall or roll and for the random
    extras it needs), and the sweep that picks which grain moves next;
  - `stats` — tallies of avalanches by size, movement and magnitude.
- `app/` holds what the library does not: the power-law random draws (floating
  point), the run folder named by the clock, the files written at the end of a
  run, and the driver of a run (`runAvalanche`, `runExperiment`).
- How single grains are set up and how a grain falls or rolls in one step is
  not part of this crate: a run needs an implementation of `app`'s
  `GrainPhysics` trait, and none is supplied, so `app` has no `main`.
- `tests/` runs the library on concrete piles.
