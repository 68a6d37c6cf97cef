//! The level editor: a switch of single tiles that never leaves the player
//! inside a tile, and that in its limited mode keeps at most one tile
//! switched.

use crate::level::{Grid, Levels};
use crate::player::{Body, Player};
use vstd::prelude::*;

verus! {

/// The editor and what it remembers.
///
/// In limited mode an edit is provisional: `last_selected` is the one tile
/// that is switched for the time being. In full mode every edit is final.
#[derive(Clone, Debug, PartialEq, Eq)]
pub enum Editor {
    Limited { last_selected: Option<usize> },
    Full,
}

/// Whether a gem keeps tile `tile_index` from being switched: a gem's own
/// tile and the tile just before it are not to be touched.
pub open spec fn gem_guards(grid: Grid, tile_index: nat) -> bool {
    ||| grid.limited_gem is Some && (tile_index == grid.limited_gem->0 || tile_index + 1
        == grid.limited_gem->0)
    ||| grid.full_gem is Some && (tile_index == grid.full_gem->0 || tile_index + 1
        == grid.full_gem->0)
}

/// The grid with tile `tile_index` switched.
pub open spec fn switched(grid: Grid, tile_index: nat) -> Grid {
    Grid { tiles: grid.tiles.update(tile_index as int, !grid.tiles[tile_index as int]), ..grid }
}

impl Editor {
    /// The tile that is switched for the time being, if any.
    pub open spec fn pending(self) -> Option<nat> {
        match self {
            Editor::Limited { last_selected: Some(tile_index) } => Some(tile_index as nat),
            _ => None,
        }
    }

    /// Whether the editor fits the grid: a tile that it remembers is a tile of
    /// the grid.
    pub open spec fn wf(self, grid: Grid) -> bool {
        self.pending() is Some ==> self.pending()->0 < grid.tiles.len()
    }

    /// Whether the limited mode leaves tile `tile_index` alone whatever it is:
    /// the last level is not to be edited, nor the first column of the grid.
    pub open spec fn reserved(grid: Grid, tile_index: nat) -> bool {
        grid.level_index + 1 == grid.num_levels || tile_index < Levels::LEVEL_HEIGHT
    }

    /// What a switch of tile `tile_index` comes to: the editor and the grid
    /// after it, and whether there is a final edit to be stored.
    ///
    /// Nothing changes where a gem guards the tile, where the limited mode
    /// reserves it, or where the body would intersect the grid with the tile
    /// switched. Otherwise the tile is switched. In full mode that is all,
    /// and it is final. In limited mode nothing is final: a switch of the
    /// remembered tile puts it back and forgets it; a switch of another tile
    /// puts the remembered tile back and remembers the new one instead,
    /// unless the body would then intersect the grid, in which case nothing
    /// changes at all.
    pub open spec fn toggle_outcome(self, tile_index: nat, grid: Grid, body: Body) -> (
        Editor,
        Grid,
        bool,
    ) {
        if gem_guards(grid, tile_index) {
            (self, grid, false)
        } else if self is Limited && Self::reserved(grid, tile_index) {
            (self, grid, false)
        } else if body.intersects(switched(grid, tile_index)) {
            (self, grid, false)
        } else {
            match self {
                Editor::Full => (self, switched(grid, tile_index), true),
                Editor::Limited { last_selected: None } => (
                    Editor::Limited { last_selected: Some(tile_index as usize) },
                    switched(grid, tile_index),
                    false,
                ),
                Editor::Limited { last_selected: Some(last) } => if last == tile_index {
                    (Editor::Limited { last_selected: None }, switched(grid, tile_index), false)
                } else if body.intersects(switched(switched(grid, tile_index), last as nat)) {
                    (self, grid, false)
                } else {
                    (
                        Editor::Limited { last_selected: Some(tile_index as usize) },
                        switched(switched(grid, tile_index), last as nat),
                        false,
                    )
                },
            }
        }
    }

    /// What giving up the provisional edit comes to: the remembered tile is
    /// put back and forgotten.
    pub open spec fn undo_outcome(self, grid: Grid) -> (Editor, Grid) {
        match self.pending() {
            Some(tile_index) => (Editor::Limited { last_selected: None }, switched(grid, tile_index)),
            None => (self, grid),
        }
    }

    /// The editor as a session starts with it: limited, with no edit yet.
    pub fn new() -> (editor: Self)
        ensures
            editor == (Editor::Limited { last_selected: None }),
    {
        Editor::Limited { last_selected: None }
    }

    /// Goes over to full mode. A provisional edit is given up first.
    pub fn switch_to_full(&mut self, levels: &mut Levels)
        requires
            old(self).wf(old(levels)@),
        ensures
            *final(self) == Editor::Full,
            final(levels)@ == old(self).undo_outcome(old(levels)@).1,
            old(levels).wf() ==> final(levels).wf(),
    {
        self.force_undo_temporary_actions(levels);
        *self = Editor::Full;
    }

    /// Goes over to limited mode with no edit yet, or stays in it as it is.
    pub fn switch_to_limited(&mut self)
        ensures
            *final(self) == if *old(self) is Full {
                Editor::Limited { last_selected: None }
            } else {
                *old(self)
            },
    {
        if self.is_full() {
            *self = Editor::Limited { last_selected: None };
        }
    }

    /// Whether the editor fits the grid.
    pub fn fits(&self, levels: &Levels) -> (ok: bool)
        ensures
            ok == self.wf(levels@),
    {
        match self {
            Editor::Limited { last_selected: Some(tile_index) } => *tile_index < levels.tiles.len(),
            _ => true,
        }
    }

    /// Switches tile `tile_index` if the mode, the gems and the player's body
    /// allow it, and says whether the change is to be stored.
    #[must_use]
    pub fn toggle_tile_index(
        &mut self,
        tile_index: usize,
        levels: &mut Levels,
        player: &mut Player,
    ) -> (store: bool)
        requires
            old(levels).wf(),
            old(self).wf(old(levels)@),
            tile_index < old(levels).tiles.len(),
        ensures
            (*final(self), final(levels)@, store) == old(self).toggle_outcome(
                tile_index as nat,
                old(levels)@,
                old(player)@,
            ),
            *final(player) == *old(player),
            final(levels).wf(),
            final(self).wf(final(levels)@),
    {
        let ghost grid = levels@;
        let ghost index = tile_index as nat;

        match levels.limited_gem {
            Some(gem_index) => {
                if tile_index == gem_index || tile_index + 1 == gem_index {
                    return false;
                }
            },
            None => {},
        }
        match levels.full_gem {
            Some(gem_index) => {
                if tile_index == gem_index || tile_index + 1 == gem_index {
                    return false;
                }
            },
            None => {},
        }
        assert(!gem_guards(grid, index));

        if self.is_limited() {
            if levels.level_index + 1 == levels.num_levels || tile_index < Levels::LEVEL_HEIGHT {
                return false;
            }
        }

        levels.tiles[tile_index] = !levels.tiles[tile_index];
        assert(levels@ == switched(grid, index));

        if player.is_intersecting(levels) {
            levels.tiles[tile_index] = !levels.tiles[tile_index];
            assert(levels@.tiles =~= grid.tiles);
            return false;
        }

        match self {
            Editor::Limited { last_selected } => {
                match *last_selected {
                    Some(last) => {
                        if last == tile_index {
                            *last_selected = None;
                        } else {
                            levels.tiles[last] = !levels.tiles[last];
                            assert(levels@ == switched(switched(grid, index), last as nat));

                            if player.is_intersecting(levels) {
                                levels.tiles[tile_index] = !levels.tiles[tile_index];
                                levels.tiles[last] = !levels.tiles[last];
                                assert(levels@.tiles =~= grid.tiles);
                                return false;
                            }

                            *last_selected = Some(tile_index);
                        }
                    },
                    None => {
                        *last_selected = Some(tile_index);
                    },
                }

                false
            },
            Editor::Full => true,
        }
    }

    /// Gives up the provisional edit, if there is one: puts the remembered
    /// tile back and forgets it.
    pub fn force_undo_temporary_actions(&mut self, levels: &mut Levels)
        requires
            old(self).wf(old(levels)@),
        ensures
            (*final(self), final(levels)@) == old(self).undo_outcome(old(levels)@),
            final(self).pending() is None,
            old(levels).wf() ==> final(levels).wf(),
    {
        match self {
            Editor::Limited { last_selected } => {
                match *last_selected {
                    Some(tile_index) => {
                        levels.tiles[tile_index] = !levels.tiles[tile_index];
                        *last_selected = None;
                    },
                    None => {},
                }
            },
            Editor::Full => {},
        }
    }

    /// Whether every edit is final.
    #[must_use]
    pub fn is_full(&self) -> (full: bool)
        ensures
            full == (self is Full),
    {
        match self {
            Editor::Full => true,
            _ => false,
        }
    }

    /// Whether edits are provisional.
    #[must_use]
    pub fn is_limited(&self) -> (limited: bool)
        ensures
            limited == (self is Limited),
    {
        match self {
            Editor::Limited { .. } => true,
            _ => false,
        }
    }
}

/// In limited mode, with nothing remembered, a switch of one tile and then of
/// another leaves exactly the second switched and remembered; a further
/// switch of the second leaves the grid as it first was and nothing
/// remembered. No step of it is final.
///
/// Both tiles are to be tiles that the limited mode may switch and that no
/// gem guards, and the body is to intersect neither the grid, nor the grid
/// with either tile switched, nor the grid with both switched.
pub proof fn lemma_limited_switches(grid: Grid, body: Body, first: usize, second: usize)
    requires
        first != second,
        first < grid.tiles.len(),
        second < grid.tiles.len(),
        !gem_guards(grid, first as nat),
        !gem_guards(grid, second as nat),
        !Editor::reserved(grid, first as nat),
        !Editor::reserved(grid, second as nat),
        !body.intersects(grid),
        !body.intersects(switched(grid, first as nat)),
        !body.intersects(switched(grid, second as nat)),
        !body.intersects(switched(switched(grid, first as nat), second as nat)),
    ensures
        ({
            let start = Editor::Limited { last_selected: None };
            let one = start.toggle_outcome(first as nat, grid, body);
            let two = one.0.toggle_outcome(second as nat, one.1, body);
            let three = two.0.toggle_outcome(second as nat, two.1, body);
            &&& one == (
                Editor::Limited { last_selected: Some(first) },
                switched(grid, first as nat),
                false,
            )
            &&& two == (
                Editor::Limited { last_selected: Some(second) },
                switched(grid, second as nat),
                false,
            )
            &&& three == (Editor::Limited { last_selected: None }, grid, false)
        }),
{
    let a = first as nat;
    let b = second as nat;
    let with_a = switched(grid, a);
    let with_both = switched(with_a, b);
    assert(switched(with_both, a).tiles =~= switched(grid, b).tiles);
    assert(switched(switched(with_a, b), a) == switched(grid, b));
    assert(switched(switched(grid, b), b).tiles =~= grid.tiles);
    assert(switched(switched(grid, b), b) == grid);
}

} // verus!
