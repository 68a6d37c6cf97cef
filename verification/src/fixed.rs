//! Fixed-point lengths.
//!
//! A coordinate or a speed is an `i64` counting [`UNITS_PER_TILE`]-ths of a
//! tile. Arithmetic on them saturates at the ends of the `i64` range instead
//! of wrapping.

use vstd::prelude::*;

verus! {

/// How many units make up the side of one tile.
///
/// The value is chosen so that every constant of the simulation is a whole
/// number of units: 1/128 of a tile is 3125 units, and the inset that keeps a
/// body's far corners off the next tile is exactly one unit.
pub const UNITS_PER_TILE: i64 = 400_000;

/// Width of the visible screen, `Levels::LEVEL_WIDTH` tiles, in units.
pub const LOGICAL_SCREEN_WIDTH: i64 = 15 * UNITS_PER_TILE;

/// Height of the visible screen, `Levels::LEVEL_HEIGHT` tiles, in units.
pub const LOGICAL_SCREEN_HEIGHT: i64 = 11 * UNITS_PER_TILE;

/// The nearest value to `v` that an `i64` can hold.
pub open spec fn clamped(v: int) -> int {
    if v > i64::MAX {
        i64::MAX as int
    } else if v < i64::MIN {
        i64::MIN as int
    } else {
        v
    }
}

/// The tile that the coordinate `v` lies in: `v / UNITS_PER_TILE`, rounded
/// down, also for negative `v`.
pub open spec fn tile_of(v: int) -> int {
    v / (UNITS_PER_TILE as int)
}

/// The coordinate of the lower edge of the tile that `v` lies in.
pub open spec fn tile_floor(v: int) -> int {
    tile_of(v) * UNITS_PER_TILE
}

/// `v` scaled by nine tenths, rounded towards zero.
pub open spec fn damped(v: int) -> int {
    if v >= 0 {
        v * 9 / 10
    } else {
        -((-v) * 9 / 10)
    }
}

/// Narrows a wide intermediate result to a coordinate, saturating.
pub fn clamp(v: i128) -> (r: i64)
    ensures
        r == clamped(v as int),
{
    if v > i64::MAX as i128 {
        i64::MAX
    } else if v < i64::MIN as i128 {
        i64::MIN
    } else {
        v as i64
    }
}

/// `a + b`, saturating.
pub fn offset(a: i64, b: i64) -> (r: i64)
    ensures
        r == clamped(a + b),
{
    clamp(a as i128 + b as i128)
}

/// The index of the tile that holds `v`, rounding down.
pub fn tile_index(v: i64) -> (t: i64)
    ensures
        t == tile_of(v as int),
{
    if v >= 0 {
        v / UNITS_PER_TILE
    } else {
        let below: i64 = -(v + 1);
        -(below / UNITS_PER_TILE) - 1
    }
}

/// Nine tenths of `v`, rounded towards zero.
pub fn damp(v: i64) -> (r: i64)
    ensures
        r == damped(v as int),
{
    let wide: i128 = v as i128;
    if wide >= 0 {
        (wide * 9 / 10) as i64
    } else {
        (-((-wide) * 9 / 10)) as i64
    }
}

} // verus!
