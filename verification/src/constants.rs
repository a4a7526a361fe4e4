use vstd::prelude::*;

verus! {

/// Width of the pile along `x`.
pub const X_SIZE: i32 = 21;

/// Width of the pile along `y`.
pub const Y_SIZE: i32 = 21;

/// Height of the pile along `z`.
pub const Z_SIZE: i32 = 16;

/// Number of cells of the grid, `X_SIZE * Y_SIZE * Z_SIZE`.
pub const GRID_CELLS: usize = 7056;

/// Fastest a grain falls in one step.
pub const TERMINAL_FREE_FALL_SPEED: usize = 3;

/// Resilience of every location of the pile before its random extra.
pub const BASE_RESILIENCE: usize = 3;

/// Capacity of every location of the pile before its random extra.
pub const BASE_CAPACITY: usize = 4;

/// How the size of an avalanche is chosen: 1 for a fixed base size, 2 for a
/// share of the grains at the location.
pub const BASE_AVALANCHE_METHOD: usize = 2;

/// Base size of an avalanche when `BASE_AVALANCHE_METHOD` is 1.
pub const BASE_AVALANCHE_SIZE: usize = 2;

/// Share of the grains at a location that an avalanche takes when
/// `BASE_AVALANCHE_METHOD` is 2, as the fraction
/// `BASE_AVALANCHE_SHARE_NUM / BASE_AVALANCHE_SHARE_DEN` (three quarters).
pub const BASE_AVALANCHE_SHARE_NUM: usize = 3;

/// Denominator of the share above.
pub const BASE_AVALANCHE_SHARE_DEN: usize = 4;

/// Number of grains dropped on the pile in a run.
pub const TOTAL_GRAINS: usize = 100000;

} // verus!
