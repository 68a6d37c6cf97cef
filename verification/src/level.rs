//! The tile grid: every level's tiles in one flat array, addressed through a
//! window that sits on the active level and wraps round from the last level
//! to the first.

use crate::fixed::{
    tile_index, tile_of, LOGICAL_SCREEN_HEIGHT, LOGICAL_SCREEN_WIDTH, UNITS_PER_TILE,
};
use vstd::prelude::*;

verus! {

/// All levels side by side.
///
/// `tiles` is column-major: a column is `LEVEL_HEIGHT` tiles from row 0 up,
/// columns run left to right, and levels follow one another left to right.
/// A tile that is `true` stops a body of normal polarity, one that is `false`
/// stops a body of inverted polarity.
#[derive(Clone, Debug, PartialEq)]
pub struct Levels {
    pub tiles: Vec<bool>,
    pub num_levels: usize,
    pub level_index: usize,
    pub x_offset: usize,
    pub limited_gem: Option<usize>,
    pub full_gem: Option<usize>,
}

/// On which side a coordinate left the screen.
#[derive(Clone, Copy, Debug, PartialEq, Eq)]
pub enum IndexingError {
    TooBig,
    TooSmall,
}

/// Why a text is not a grid.
#[derive(Clone, Copy, Debug, PartialEq, Eq)]
pub enum ParseLevelError {
    /// The text does not have exactly `LEVEL_HEIGHT` lines.
    InvalidHeight,
    /// The lines are not a whole number of levels wide.
    InvalidWidth,
    /// A character that stands for no tile, or something after a closing `|`.
    InvalidTileCharacter(char),
    /// A line goes on with this character where the top line closes.
    InvalidEndingCharacter(char),
    /// The line with this number, counted from the top, is too short.
    LineEndsEarly(usize),
    /// The same gem twice.
    DuplicateGem(char),
}

/// The mathematical content of a [`Levels`].
pub struct Grid {
    pub tiles: Seq<bool>,
    pub num_levels: nat,
    pub level_index: nat,
    pub x_offset: nat,
    pub limited_gem: Option<nat>,
    pub full_gem: Option<nat>,
}

/// Columns that a level owns. The window is one column wider: its last column
/// is the first column of the level that follows.
pub open spec fn level_columns() -> nat {
    (Levels::LEVEL_WIDTH - 1) as nat
}

/// Tiles that a level owns.
pub open spec fn level_tiles() -> nat {
    level_columns() * Levels::LEVEL_HEIGHT as nat
}

/// The tiles of a freshly inserted level: in every column the five lowest
/// rows are `true`, the rows above them `false`.
pub open spec fn floor_template() -> Seq<bool> {
    Seq::new(level_tiles(), |i: int| i % (Levels::LEVEL_HEIGHT as int) < 5)
}

/// Whether a coordinate lies on the screen along an axis of the given extent,
/// and if not, on which side it left.
pub open spec fn axis_fault(v: int, extent: int) -> Option<IndexingError> {
    if v < 0 {
        Some(IndexingError::TooSmall)
    } else if v >= extent {
        Some(IndexingError::TooBig)
    } else {
        None
    }
}

impl Grid {
    /// Whether the grid holds `level_tiles()` tiles for each of its levels.
    pub open spec fn shaped(self) -> bool {
        self.tiles.len() == level_tiles() * self.num_levels
    }

    /// The invariant of the grid: at least one level, `level_tiles()` tiles
    /// for each, the active level among them, and `x_offset` the first column
    /// of the active level.
    pub open spec fn wf(self) -> bool {
        &&& self.num_levels >= 1
        &&& self.shaped()
        &&& self.level_index < self.num_levels
        &&& self.x_offset == self.level_index * level_columns()
    }

    /// The bound that `index_of` checks. It admits one column and one row more
    /// than the window has.
    pub open spec fn in_bounds(col: nat, row: nat) -> bool {
        col <= Levels::LEVEL_WIDTH && row <= Levels::LEVEL_HEIGHT
    }

    /// The flat index of the tile at `(col, row)` of the window, wrapping
    /// round the whole array.
    pub open spec fn index_of(self, col: nat, row: nat) -> Option<nat> {
        if Self::in_bounds(col, row) {
            Some(
                (((col + self.x_offset) * Levels::LEVEL_HEIGHT + row) % (
                self.tiles.len() as int)) as nat,
            )
        } else {
            None
        }
    }

    /// The tile at `(col, row)` of the window.
    pub open spec fn get(self, col: nat, row: nat) -> Option<bool> {
        match self.index_of(col, row) {
            Some(i) => Some(self.tiles[i as int]),
            None => None,
        }
    }

    /// The grid with `value` written at `(col, row)` of the window; unchanged
    /// where `index_of` fails.
    pub open spec fn set(self, col: nat, row: nat, value: bool) -> Grid {
        match self.index_of(col, row) {
            Some(i) => Grid { tiles: self.tiles.update(i as int, value), ..self },
            None => self,
        }
    }

    /// What a body finds at the point `(x, y)`, in units.
    ///
    /// On the screen it is the tile under the point. Left of the screen, at a
    /// height that is on it, everything is `true`; right of it, everything is
    /// `false`. Above and below the screen there is nothing to find.
    pub open spec fn probe(self, x: int, y: int) -> Option<bool> {
        let fault_x = axis_fault(x, LOGICAL_SCREEN_WIDTH as int);
        let fault_y = axis_fault(y, LOGICAL_SCREEN_HEIGHT as int);
        if fault_y is Some {
            None
        } else {
            match fault_x {
                None => self.get(tile_of(x) as nat, tile_of(y) as nat),
                Some(IndexingError::TooSmall) => Some(true),
                Some(IndexingError::TooBig) => Some(false),
            }
        }
    }

    /// Where the window shows the tile `tile_index`, in units, if it shows it:
    /// the corner of its cell with the smallest coordinates, counted from the
    /// window's first column.
    ///
    /// The window shows the tiles of its own columns, which are those from
    /// `x_offset` on. While the last level is active, it also shows the tiles
    /// of the very first column of the grid, in its last column.
    pub open spec fn position_of(self, tile_index: nat) -> Option<(int, int)> {
        let col = tile_index / Levels::LEVEL_HEIGHT as nat;
        let row = tile_index % Levels::LEVEL_HEIGHT as nat;
        if self.x_offset <= col < self.x_offset + Levels::LEVEL_WIDTH {
            Some(((col - self.x_offset) * UNITS_PER_TILE, row * UNITS_PER_TILE))
        } else if col == 0 && self.level_index + 1 == self.num_levels {
            Some(((Levels::LEVEL_WIDTH - 1) * UNITS_PER_TILE, row * UNITS_PER_TILE))
        } else {
            None
        }
    }

    /// The grid with the level after the active one made active, the first
    /// after the last.
    pub open spec fn at_next_level(self) -> Grid {
        let next = (self.level_index + 1) % self.num_levels;
        Grid { level_index: next, x_offset: next * level_columns(), ..self }
    }

    /// The grid with the level before the active one made active, the last
    /// before the first.
    pub open spec fn at_previous_level(self) -> Grid {
        let previous = if self.level_index == 0 {
            self.num_levels - 1
        } else {
            self.level_index - 1
        };
        Grid {
            level_index: previous as nat,
            x_offset: (previous * level_columns()) as nat,
            ..self
        }
    }

    /// The first tile of level `level`.
    pub open spec fn offset_of_level(level: nat) -> nat {
        level * level_tiles()
    }

    /// The grid with a fresh level put in as level `at`. The levels from `at`
    /// on move one place to the right, and the active level stays the level
    /// that it was.
    pub open spec fn inserted(self, at: nat) -> Grid {
        let offset = Self::offset_of_level(at) as int;
        let level_index = if self.level_index >= at {
            self.level_index + 1
        } else {
            self.level_index
        };
        Grid {
            tiles: self.tiles.subrange(0, offset) + floor_template() + self.tiles.subrange(
                offset,
                self.tiles.len() as int,
            ),
            num_levels: self.num_levels + 1,
            level_index: level_index as nat,
            x_offset: (level_index * level_columns()) as nat,
            ..self
        }
    }

    /// The grid without level `at`. The levels after `at` move one place to
    /// the left; the active level stays the level that it was if it came after
    /// `at`, and keeps its number otherwise.
    pub open spec fn removed(self, at: nat) -> Grid {
        let offset = Self::offset_of_level(at) as int;
        let level_index = if self.level_index > at {
            self.level_index - 1
        } else {
            self.level_index as int
        };
        Grid {
            tiles: self.tiles.subrange(0, offset) + self.tiles.subrange(
                offset + level_tiles(),
                self.tiles.len() as int,
            ),
            num_levels: (self.num_levels - 1) as nat,
            level_index: level_index as nat,
            x_offset: (level_index * level_columns()) as nat,
            ..self
        }
    }
}

/// The columns and tiles of `n` levels, as plain products.
pub proof fn lemma_level_sizes(n: nat)
    ensures
        level_columns() == 14,
        level_tiles() == 154,
        n * level_columns() == 14 * n,
        n * level_tiles() == 154 * n,
        level_tiles() * n == 154 * n,
{
    let columns = level_columns();
    let tiles = level_tiles();
    assert(columns == 14 && tiles == 154);
    assert(n * columns == 14 * n && n * tiles == 154 * n && tiles * n == 154 * n)
        by (nonlinear_arith)
        requires
            columns == 14,
            tiles == 154,
    ;
}

/// A well-formed grid holds at least the tiles of one level.
pub proof fn lemma_tiles_not_empty(grid: Grid)
    requires
        grid.wf(),
    ensures
        level_columns() == 14,
        level_tiles() == 154,
        grid.tiles.len() >= 154,
        grid.tiles.len() == 154 * grid.num_levels,
        grid.x_offset == 14 * grid.level_index,
        grid.x_offset + 14 <= 14 * grid.num_levels,
{
    let columns = level_columns();
    let tiles = level_tiles();
    assert(columns == 14 && tiles == 154);
    assert(grid.tiles.len() == 154 * grid.num_levels) by (nonlinear_arith)
        requires
            grid.tiles.len() == tiles * grid.num_levels,
            tiles == 154,
    ;
    assert(grid.x_offset == 14 * grid.level_index) by (nonlinear_arith)
        requires
            grid.x_offset == grid.level_index * columns,
            columns == 14,
    ;
}

/// An index, where there is one, as a number.
pub open spec fn index_view(gem: Option<usize>) -> Option<nat> {
    match gem {
        Some(i) => Some(i as nat),
        None => None,
    }
}

impl View for Levels {
    type V = Grid;

    open spec fn view(&self) -> Grid {
        Grid {
            tiles: self.tiles@,
            num_levels: self.num_levels as nat,
            level_index: self.level_index as nat,
            x_offset: self.x_offset as nat,
            limited_gem: index_view(self.limited_gem),
            full_gem: index_view(self.full_gem),
        }
    }
}

impl Levels {
    pub const LEVEL_WIDTH: usize = 15;

    pub const LEVEL_HEIGHT: usize = 11;

    /// Tiles that a level owns: `LEVEL_WIDTH - 1` columns of `LEVEL_HEIGHT`.
    pub const LEVEL_TILE_COUNT: usize = (Self::LEVEL_WIDTH - 1) * Self::LEVEL_HEIGHT;

    /// The invariant that the constructors establish and the methods keep.
    pub open spec fn wf(&self) -> bool {
        self@.wf()
    }

    /// Whether the grid is well-formed.
    pub fn is_well_formed(&self) -> (ok: bool)
        ensures
            ok == self.wf(),
    {
        proof {
            lemma_level_sizes(self.num_levels as nat);
            lemma_level_sizes(self.level_index as nat);
        }
        let tiles: u128 = Self::LEVEL_TILE_COUNT as u128 * self.num_levels as u128;
        let offset: u128 = (Self::LEVEL_WIDTH - 1) as u128 * self.level_index as u128;
        assert(tiles == level_tiles() * self.num_levels);
        assert(offset == self.level_index * level_columns());
        self.num_levels >= 1 && self.tiles.len() as u128 == tiles && self.level_index
            < self.num_levels && self.x_offset as u128 == offset
    }

    /// One level, every tile `false`, no gem.
    pub fn new() -> (levels: Self)
        ensures
            levels.wf(),
            levels@ == (Grid {
                tiles: Seq::new(level_tiles(), |i: int| false),
                num_levels: 1,
                level_index: 0,
                x_offset: 0,
                limited_gem: None,
                full_gem: None,
            }),
    {
        let mut tiles: Vec<bool> = Vec::new();
        while tiles.len() < Self::LEVEL_TILE_COUNT
            invariant
                tiles.len() <= Self::LEVEL_TILE_COUNT,
                forall|i: int| 0 <= i < tiles.len() ==> !tiles[i],
            decreases Self::LEVEL_TILE_COUNT - tiles.len(),
        {
            tiles.push(false);
        }
        let levels = Self {
            tiles,
            num_levels: 1,
            level_index: 0,
            x_offset: 0,
            limited_gem: None,
            full_gem: None,
        };
        assert(levels@.tiles =~= Seq::new(level_tiles(), |i: int| false));
        levels
    }

    /// Finds the tile under a point given in units.
    ///
    /// The result is `Ok` exactly when the point is on the screen along both
    /// axes; the error says, axis by axis, on which side it is not.
    pub fn index_of_position(&self, position: [i64; 2]) -> (result: Result<
        [usize; 2],
        [Option<IndexingError>; 2],
    >)
        ensures
            match result {
                Ok(cell) => {
                    &&& axis_fault(position[0] as int, LOGICAL_SCREEN_WIDTH as int) is None
                    &&& axis_fault(position[1] as int, LOGICAL_SCREEN_HEIGHT as int) is None
                    &&& cell[0] == tile_of(position[0] as int)
                    &&& cell[1] == tile_of(position[1] as int)
                    &&& cell[0] < Self::LEVEL_WIDTH
                    &&& cell[1] < Self::LEVEL_HEIGHT
                },
                Err(faults) => {
                    &&& faults[0] == axis_fault(position[0] as int, LOGICAL_SCREEN_WIDTH as int)
                    &&& faults[1] == axis_fault(position[1] as int, LOGICAL_SCREEN_HEIGHT as int)
                    &&& (faults[0] is Some || faults[1] is Some)
                },
            },
    {
        let mut faults: [Option<IndexingError>; 2] = [None, None];

        if position[0] < 0 {
            faults[0] = Some(IndexingError::TooSmall);
        } else if position[0] >= LOGICAL_SCREEN_WIDTH {
            faults[0] = Some(IndexingError::TooBig);
        }

        if position[1] < 0 {
            faults[1] = Some(IndexingError::TooSmall);
        } else if position[1] >= LOGICAL_SCREEN_HEIGHT {
            faults[1] = Some(IndexingError::TooBig);
        }

        if faults[0].is_none() && faults[1].is_none() {
            let col = tile_index(position[0]) as usize;
            let row = tile_index(position[1]) as usize;
            Ok(
                [
                    if col < Self::LEVEL_WIDTH - 1 {
                        col
                    } else {
                        Self::LEVEL_WIDTH - 1
                    },
                    if row < Self::LEVEL_HEIGHT - 1 {
                        row
                    } else {
                        Self::LEVEL_HEIGHT - 1
                    },
                ],
            )
        } else {
            Err(faults)
        }
    }

    /// Whether `index_of` accepts `index`. The bound includes `LEVEL_WIDTH`
    /// and `LEVEL_HEIGHT` themselves.
    pub fn is_index_in_bounds(&self, index: [usize; 2]) -> (ok: bool)
        ensures
            ok == Grid::in_bounds(index[0] as nat, index[1] as nat),
    {
        index[0] <= Self::LEVEL_WIDTH && index[1] <= Self::LEVEL_HEIGHT
    }

    /// The flat index of the tile at column `index[0]`, row `index[1]` of the
    /// window, or `None` if `index` is out of bounds.
    pub fn index_of(&self, index: [usize; 2]) -> (result: Option<usize>)
        requires
            self.wf(),
        ensures
            index_view(result) == self@.index_of(index[0] as nat, index[1] as nat),
            result is Some ==> result->0 < self.tiles.len(),
    {
        if self.is_index_in_bounds(index) {
            Some(self.index_of_unchecked(index))
        } else {
            None
        }
    }

    fn index_of_unchecked(&self, index: [usize; 2]) -> (flat: usize)
        requires
            self.wf(),
            Grid::in_bounds(index[0] as nat, index[1] as nat),
        ensures
            Some(flat as nat) == self@.index_of(index[0] as nat, index[1] as nat),
            flat < self.tiles.len(),
    {
        proof {
            lemma_tiles_not_empty(self@);
        }
        let column: u128 = index[0] as u128 + self.x_offset as u128;
        assert(column * 11 <= 11 * (15 + usize::MAX)) by (nonlinear_arith)
            requires
                column <= 15 + usize::MAX,
        ;
        let overflowing_index: u128 = column * (Self::LEVEL_HEIGHT as u128) + index[1] as u128;

        (overflowing_index % (self.tiles.len() as u128)) as usize
    }

    /// The tile at column `index[0]`, row `index[1]` of the window.
    pub fn get(&self, index: [usize; 2]) -> (result: Option<&bool>)
        requires
            self.wf(),
        ensures
            match result {
                Some(tile) => Some(*tile) == self@.get(index[0] as nat, index[1] as nat),
                None => self@.get(index[0] as nat, index[1] as nat) is None,
            },
    {
        match self.index_of(index) {
            Some(tile_index) => Some(&self.tiles[tile_index]),
            None => None,
        }
    }

    /// The tile at column `index[0]`, row `index[1]` of the window, to write
    /// to. Whatever is written there is the only change to the grid.
    pub fn get_mut(&mut self, index: [usize; 2]) -> (result: Option<&mut bool>)
        requires
            old(self).wf(),
        ensures
            match result {
                Some(tile) => {
                    &&& Some(*tile) == old(self)@.get(index[0] as nat, index[1] as nat)
                    &&& final(self)@ == old(self)@.set(
                        index[0] as nat,
                        index[1] as nat,
                        *final(tile),
                    )
                },
                None => {
                    &&& old(self)@.index_of(index[0] as nat, index[1] as nat) is None
                    &&& final(self)@ == old(self)@
                },
            },
    {
        match self.index_of(index) {
            Some(tile_index) => Some(&mut self.tiles[tile_index]),
            None => None,
        }
    }

    /// Writes `value` to the tile at column `index[0]`, row `index[1]` of the
    /// window, and says whether there was such a tile.
    pub fn set(&mut self, index: [usize; 2], value: bool) -> (written: bool)
        requires
            old(self).wf(),
        ensures
            written == old(self)@.index_of(index[0] as nat, index[1] as nat) is Some,
            final(self)@ == old(self)@.set(index[0] as nat, index[1] as nat, value),
            final(self).wf(),
    {
        match self.index_of(index) {
            Some(tile_index) => {
                self.tiles[tile_index] = value;
                true
            },
            None => false,
        }
    }

    /// What a body finds at a point given in units: the tile under it, or the
    /// value that stands for the space beside the screen, or nothing.
    pub fn get_from_position(&self, position: [i64; 2]) -> (result: Option<bool>)
        requires
            self.wf(),
        ensures
            result == self@.probe(position[0] as int, position[1] as int),
    {
        match self.index_of_position(position) {
            Ok(index) => {
                match self.get(index) {
                    Some(tile) => Some(*tile),
                    None => None,
                }
            },
            Err(faults) => {
                match (faults[0], faults[1]) {
                    (Some(IndexingError::TooBig), None) => Some(false),
                    (Some(IndexingError::TooSmall), None) => Some(true),
                    _ => None,
                }
            },
        }
    }

    /// Where the window shows the tile `tile_index`, in units: the corner of
    /// its cell with the smallest coordinates, counted from the window's first
    /// column, or `None` if the window does not show the tile.
    pub fn position_of_tile_index(&self, tile_index: usize) -> (result: Option<[i64; 2]>)
        ensures
            match result {
                Some(position) => self@.position_of(tile_index as nat) == Some(
                    (position[0] as int, position[1] as int),
                ),
                None => self@.position_of(tile_index as nat) is None,
            },
    {
        let x = tile_index / Self::LEVEL_HEIGHT;
        let y = tile_index % Self::LEVEL_HEIGHT;

        if x >= self.x_offset && x - self.x_offset < Self::LEVEL_WIDTH {
            Some([(x - self.x_offset) as i64 * UNITS_PER_TILE, y as i64 * UNITS_PER_TILE])
        } else if x == 0 && self.level_index < usize::MAX && self.level_index + 1
            == self.num_levels {
            Some([(Self::LEVEL_WIDTH - 1) as i64 * UNITS_PER_TILE, y as i64 * UNITS_PER_TILE])
        } else {
            None
        }
    }

    /// Makes the next level the active one, the first after the last.
    pub fn next_level(&mut self)
        requires
            old(self).wf(),
        ensures
            final(self)@ == old(self)@.at_next_level(),
            final(self).wf(),
    {
        proof {
            lemma_tiles_not_empty(self@);
        }
        self.level_index += 1;
        self.level_index %= self.num_levels;

        proof {
            lemma_level_sizes(self.level_index as nat);
            assert(self.tiles.len() == 154 * self.num_levels);
            assert(self.level_index * level_columns() == 14 * self.level_index);
        }
        self.update_level_offset();
    }

    /// Makes the previous level the active one, the last before the first.
    pub fn previous_level(&mut self)
        requires
            old(self).wf(),
        ensures
            final(self)@ == old(self)@.at_previous_level(),
            final(self).wf(),
    {
        proof {
            lemma_tiles_not_empty(self@);
        }
        if self.level_index == 0 {
            self.level_index = self.num_levels - 1;
        } else {
            self.level_index -= 1;
        }

        proof {
            lemma_level_sizes(self.level_index as nat);
            assert(self.tiles.len() == 154 * self.num_levels);
            assert(self.level_index * level_columns() == 14 * self.level_index);
        }
        self.update_level_offset();
    }

    /// Puts a fresh level in as level `index`, with the floor template for
    /// tiles. The level that was active stays active, under its new number if
    /// it moved.
    pub fn insert_level(&mut self, index: usize)
        requires
            old(self).wf(),
            index <= old(self).num_levels,
        ensures
            final(self)@ == old(self)@.inserted(index as nat),
            final(self).wf(),
    {
        proof {
            lemma_tiles_not_empty(self@);
            lemma_level_sizes(self.num_levels as nat + 1);
            lemma_level_sizes(index as nat);
            lemma_level_sizes(self.level_index as nat + 1);
            assert(self.tiles.len() == 154 * self.num_levels);
            assert(index * level_tiles() == 154 * index);
        }
        self.num_levels += 1;

        if self.level_index >= index {
            self.level_index += 1;
            self.update_level_offset();
        }

        let offset = Self::offset_of_level(index);
        let ghost before = old(self).tiles@;
        let mut filled: usize = 0;
        while filled < Self::LEVEL_TILE_COUNT
            invariant
                filled <= Self::LEVEL_TILE_COUNT,
                Self::LEVEL_TILE_COUNT == level_tiles(),
                offset <= before.len(),
                self.tiles.len() == before.len() + filled,
                self.tiles@ == before.subrange(0, offset as int) + floor_template().subrange(
                    0,
                    filled as int,
                ) + before.subrange(offset as int, before.len() as int),
                self.num_levels == old(self).num_levels + 1,
                self@.level_index == old(self)@.inserted(index as nat).level_index,
                self@.x_offset == old(self)@.inserted(index as nat).x_offset,
                self.limited_gem == old(self).limited_gem,
                self.full_gem == old(self).full_gem,
            decreases Self::LEVEL_TILE_COUNT - filled,
        {
            self.tiles.insert(offset + filled, filled % Self::LEVEL_HEIGHT < 5);
            filled += 1;
            assert(self.tiles@ =~= before.subrange(0, offset as int)
                + floor_template().subrange(0, filled as int) + before.subrange(
                offset as int,
                before.len() as int,
            ));
        }
        assert(floor_template().subrange(0, filled as int) =~= floor_template());
    }

    /// Takes level `index` out. A level that came after it keeps being the
    /// active one under its new number; otherwise the number of the active
    /// level stays what it was, so that removing the last level while it is
    /// active, or the only level, leaves no active level behind.
    pub fn remove_level(&mut self, index: usize)
        requires
            old(self).wf(),
            index < old(self).num_levels,
        ensures
            final(self)@ == old(self)@.removed(index as nat),
            final(self)@.shaped(),
            final(self).wf() <==> old(self).level_index > index || old(self).level_index + 1
                < old(self).num_levels,
    {
        proof {
            lemma_tiles_not_empty(self@);
            lemma_level_sizes(index as nat);
            lemma_level_sizes(index as nat + 1);
            lemma_level_sizes((self.num_levels - 1) as nat);
            lemma_level_sizes((self.level_index - 1) as nat);
            lemma_level_sizes(self.level_index as nat);
            assert(self.tiles.len() == 154 * self.num_levels);
            assert(index * level_tiles() == 154 * index);
        }
        self.num_levels -= 1;

        if self.level_index > index {
            self.level_index -= 1;
            self.update_level_offset();
        }

        let offset = Self::offset_of_level(index);
        let ghost before = old(self).tiles@;
        let mut taken: usize = 0;
        while taken < Self::LEVEL_TILE_COUNT
            invariant
                taken <= Self::LEVEL_TILE_COUNT,
                Self::LEVEL_TILE_COUNT == level_tiles(),
                offset + level_tiles() <= before.len(),
                self.tiles@ == before.subrange(0, offset as int) + before.subrange(
                    offset + taken,
                    before.len() as int,
                ),
                self.num_levels == old(self).num_levels - 1,
                self@.level_index == old(self)@.removed(index as nat).level_index,
                self@.x_offset == old(self)@.removed(index as nat).x_offset,
                self.limited_gem == old(self).limited_gem,
                self.full_gem == old(self).full_gem,
            decreases Self::LEVEL_TILE_COUNT - taken,
        {
            self.tiles.remove(offset);
            taken += 1;
            assert(self.tiles@ =~= before.subrange(0, offset as int) + before.subrange(
                offset + taken,
                before.len() as int,
            ));
        }
    }

    /// Sets `x_offset` to the first column of the active level.
    pub fn update_level_offset(&mut self)
        requires
            old(self).level_index * level_columns() <= usize::MAX,
        ensures
            final(self)@ == (Grid {
                x_offset: old(self).level_index as nat * level_columns(),
                ..old(self)@
            }),
    {
        self.x_offset = self.level_index * (Self::LEVEL_WIDTH - 1);
    }

    /// The first tile of level `level_index`.
    pub fn offset_of_level(level_index: usize) -> (offset: usize)
        requires
            level_index * level_tiles() <= usize::MAX,
        ensures
            offset == Grid::offset_of_level(level_index as nat),
    {
        proof {
            lemma_level_sizes(level_index as nat);
        }
        level_index * (Self::LEVEL_WIDTH - 1) * Self::LEVEL_HEIGHT
    }
}

/// In the window proper, `index_of` succeeds without wrapping, and a value
/// written at a cell is the value read back from it.
///
/// The write-then-read part holds of every cell that `index_of` accepts, so
/// also of the extra column and row that its bound admits.
pub proof fn lemma_set_then_get(grid: Grid, col: nat, row: nat, value: bool)
    requires
        grid.wf(),
        Grid::in_bounds(col, row),
    ensures
        grid.index_of(col, row) is Some,
        grid.index_of(col, row)->0 < grid.tiles.len(),
        col < Levels::LEVEL_WIDTH - 1 && row < Levels::LEVEL_HEIGHT ==> grid.index_of(col, row)
            == Some((col + grid.x_offset) * Levels::LEVEL_HEIGHT as nat + row),
        grid.set(col, row, value).wf(),
        grid.set(col, row, value).get(col, row) == Some(value),
{
    lemma_tiles_not_empty(grid);
    if col < Levels::LEVEL_WIDTH - 1 && row < Levels::LEVEL_HEIGHT {
        let flat = (col + grid.x_offset) * Levels::LEVEL_HEIGHT as nat + row;
        assert(flat < grid.tiles.len());
        assert(flat % grid.tiles.len() == flat) by (nonlinear_arith)
            requires
                0 <= flat < grid.tiles.len(),
        ;
    }
}

/// A write at one cell leaves every tile with another flat index as it was.
pub proof fn lemma_set_keeps_others(grid: Grid, col: nat, row: nat, value: bool, other: nat)
    requires
        grid.wf(),
        other < grid.tiles.len(),
        grid.index_of(col, row) != Some(other),
    ensures
        grid.set(col, row, value).tiles[other as int] == grid.tiles[other as int],
        grid.set(col, row, value).tiles.len() == grid.tiles.len(),
{
    lemma_tiles_not_empty(grid);
}

/// The window shows the tile of each of its cells at that cell: the position
/// of the tile that `index_of` finds at `(col, row)` is `col` tiles along x
/// and `row` tiles along y.
///
/// This holds of every column that the active level owns, and of the window's
/// last column, which is the next level's first, wherever there is more than
/// one level. With a single level the tiles of the window's last column are
/// those of its first column, and are shown there.
pub proof fn lemma_position_of_index(grid: Grid, col: nat, row: nat)
    requires
        grid.wf(),
        col < Levels::LEVEL_WIDTH,
        row < Levels::LEVEL_HEIGHT,
        col < Levels::LEVEL_WIDTH - 1 || grid.num_levels > 1,
    ensures
        grid.index_of(col, row) is Some,
        grid.position_of(grid.index_of(col, row)->0) == Some(
            (col * UNITS_PER_TILE, row * UNITS_PER_TILE),
        ),
{
    lemma_tiles_not_empty(grid);
    let len = grid.tiles.len();
    let flat = (col + grid.x_offset) * 11 + row;
    if flat < len {
        assert(flat % len == flat) by (nonlinear_arith)
            requires
                0 <= flat < len,
        ;
        assert(flat / 11 == col + grid.x_offset && flat % 11 == row);
    } else {
        assert(col == 14 && grid.level_index + 1 == grid.num_levels);
        assert(flat == len + row);
        assert((len + row) % len == row) by (nonlinear_arith)
            requires
                0 <= row < len,
        ;
        assert(row / 11 == 0 && row % 11 == row);
        assert(grid.x_offset > 0);
    }
}

/// Going to the next level and back, or to the previous level and forth,
/// leaves the grid as it was, window included.
pub proof fn lemma_next_then_previous(grid: Grid)
    requires
        grid.wf(),
    ensures
        grid.at_next_level().wf(),
        grid.at_previous_level().wf(),
        grid.at_next_level().at_previous_level() == grid,
        grid.at_previous_level().at_next_level() == grid,
{
    let n = grid.num_levels;
    let next = (grid.level_index + 1) % n;
    if grid.level_index + 1 == n {
        assert(next == 0) by (nonlinear_arith)
            requires
                next == n % n,
                n > 0,
        ;
    } else {
        assert(next == grid.level_index + 1) by (nonlinear_arith)
            requires
                next == (grid.level_index + 1) % n,
                grid.level_index + 1 < n,
        ;
    }
    let previous = if grid.level_index == 0 {
        (n - 1) as nat
    } else {
        (grid.level_index - 1) as nat
    };
    let back = (previous + 1) % n;
    if previous + 1 == n {
        assert(back == 0) by (nonlinear_arith)
            requires
                back == n % n,
                n > 0,
        ;
    } else {
        assert(back == previous + 1) by (nonlinear_arith)
            requires
                back == (previous + 1) % n,
                previous + 1 < n,
        ;
    }
}

/// While the last level is active, the window's last column is the first
/// column of the first level: the flat index wraps round to the start of the
/// array, and the cell in row 0 there is tile 0.
pub proof fn lemma_last_column_wraps(grid: Grid, row: nat)
    requires
        grid.wf(),
        grid.level_index + 1 == grid.num_levels,
        row < Levels::LEVEL_HEIGHT,
    ensures
        grid.index_of((Levels::LEVEL_WIDTH - 1) as nat, row) == Some(row),
{
    lemma_tiles_not_empty(grid);
    let len = grid.tiles.len();
    let flat = (14 + grid.x_offset) * 11 + row;
    assert(flat == len + row);
    assert((len + row) % len == row) by (nonlinear_arith)
        requires
            0 <= row < len,
    ;
}

/// Putting a level in and taking the same level out again gives back the grid
/// that there was: its tiles, the number of levels, and the active level with
/// its offset, wherever the active level stood.
pub proof fn lemma_insert_then_remove(grid: Grid, at: nat)
    requires
        grid.wf(),
        at <= grid.num_levels,
    ensures
        grid.inserted(at).wf(),
        grid.inserted(at).removed(at) == grid,
{
    lemma_tiles_not_empty(grid);
    lemma_level_sizes(at);
    lemma_level_sizes(grid.num_levels + 1);
    lemma_level_sizes(grid.level_index + 1);
    lemma_level_sizes(grid.level_index);
    let inserted = grid.inserted(at);
    assert(floor_template().len() == 154);
    assert(inserted.removed(at).tiles =~= grid.tiles);
}

} // verus!
