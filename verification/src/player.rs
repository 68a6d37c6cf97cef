//! The body that moves through the grid: one fixed step at a time, first
//! sideways and then up or down, stopped by the tiles of the polarity that it
//! does not share.
//!
//! The x axis runs along the columns of the grid and the y axis along its
//! rows. A body of normal polarity falls towards row 0 and is stopped by
//! `true` tiles; a body of inverted polarity falls the other way and is
//! stopped by `false` tiles.

use crate::fixed::{
    clamp, clamped, damp, damped, offset, tile_floor, tile_index, tile_of, LOGICAL_SCREEN_HEIGHT,
    LOGICAL_SCREEN_WIDTH, UNITS_PER_TILE,
};
use crate::level::{Grid, Levels};
use vstd::prelude::*;

verus! {

/// The player's body. Positions and speeds are in units, speeds per step.
///
/// `air_kind` is the polarity: `false` for normal, `true` for inverted. It is
/// also the value of the tiles that the body moves through. `cyote_time` is
/// the grace that is left, in steps. The four input slots are, in order:
/// jump, left, flip, right.
#[derive(Clone, Copy, Debug, PartialEq, Eq)]
pub struct Player {
    pub position: [i64; 2],
    pub velocity: [i64; 2],
    pub air_kind: bool,
    pub on_ground: bool,
    pub cyote_time: u8,
    pub inputs_down: [bool; 4],
    pub inputs_ready: [bool; 4],
}

/// The four input slots by name.
pub struct Keys {
    pub jump: bool,
    pub left: bool,
    pub flip: bool,
    pub right: bool,
}

/// The mathematical content of a [`Player`].
pub struct Body {
    pub x: int,
    pub y: int,
    pub vx: int,
    pub vy: int,
    pub air_kind: bool,
    pub on_ground: bool,
    pub cyote_time: int,
    pub down: Keys,
    pub ready: Keys,
}

/// What a corner of the body finds where it is.
#[derive(Clone, Copy, Debug, PartialEq, Eq)]
pub enum Signal {
    /// A tile of the body's own polarity, which lets it through.
    Open,
    /// A tile of the other polarity, which stops it.
    Blocked,
    /// Nothing: the corner is where no tile can be looked up.
    Nothing,
}

/// The four slots of an input array.
pub open spec fn keys_view(slots: [bool; 4]) -> Keys {
    Keys { jump: slots[0], left: slots[1], flip: slots[2], right: slots[3] }
}

/// Half the side of the body.
pub open spec fn half_size() -> int {
    Player::SIZE / 2
}

/// The pull on a body of the given polarity, per step: `GRAVITY` for the
/// normal polarity, which is towards row 0, and as much the other way for the
/// inverted one.
pub open spec fn gravity_of(air_kind: bool) -> int {
    if air_kind {
        -Player::GRAVITY
    } else {
        Player::GRAVITY as int
    }
}

/// How far corner `corner` of the body is from its centre, along x and y.
///
/// The corners are taken in the order right-upper, left-upper, left-lower,
/// right-lower, where upper is the side of growing `y`. A corner on the far
/// side is one unit short of the edge, so that a body that touches a tile
/// does not reach into it.
pub open spec fn corner_reach(corner: nat) -> (int, int) {
    let far = half_size() - 1;
    let near = -half_size();
    if corner == 0 {
        (far, far)
    } else if corner == 1 {
        (near, far)
    } else if corner == 2 {
        (near, near)
    } else {
        (far, near)
    }
}

/// Where a body comes to rest along an axis when the corner at `corner_at`
/// was stopped while the body moved in the direction of `amount`: against the
/// near edge of the corner's tile when it moved up the axis, against the far
/// edge when it moved down.
pub open spec fn rest_against(corner_at: int, amount: int) -> int {
    if amount > 0 {
        clamped(tile_floor(corner_at) - half_size())
    } else {
        clamped(tile_floor(corner_at) + UNITS_PER_TILE + half_size())
    }
}

impl Body {
    /// Where corner `corner` is.
    pub open spec fn corner(self, corner: nat) -> (int, int) {
        (clamped(self.x + corner_reach(corner).0), clamped(self.y + corner_reach(corner).1))
    }

    /// What stands at corner `corner`.
    pub open spec fn probe(self, grid: Grid, corner: nat) -> Option<bool> {
        grid.probe(self.corner(corner).0, self.corner(corner).1)
    }

    /// What corner `corner` finds.
    pub open spec fn signal(self, grid: Grid, corner: nat) -> Signal {
        match self.probe(grid, corner) {
            None => Signal::Nothing,
            Some(tile) => if tile == self.air_kind {
                Signal::Open
            } else {
                Signal::Blocked
            },
        }
    }

    /// Whether the body overlaps something that stops it, or reaches where
    /// there is nothing to find: whether any of its corners finds anything
    /// but an open tile.
    pub open spec fn intersects(self, grid: Grid) -> bool {
        exists|corner: nat| corner < 4 && #[trigger] self.signal(grid, corner) != Signal::Open
    }

    /// The rest of a sweep, from corner `corner` on, and whether it met a
    /// tile: `None` as soon as a corner finds nothing. A corner that is
    /// stopped puts the body to rest against the tile along the axis of the
    /// movement, and the corners after it are probed from there. A body that
    /// does not move is not put anywhere: the sweep ends at its first corner
    /// that is stopped.
    pub open spec fn sweep_from(
        self,
        grid: Grid,
        amount: (int, int),
        corner: nat,
        collision: bool,
    ) -> (Body, Option<bool>)
        decreases 4 - corner,
    {
        if corner >= 4 {
            (self, Some(collision))
        } else {
            match self.signal(grid, corner) {
                Signal::Nothing => (self, None),
                Signal::Open => self.sweep_from(grid, amount, corner + 1, collision),
                Signal::Blocked => if amount.0 != 0 {
                    (Body { x: rest_against(self.corner(corner).0, amount.0), ..self }).sweep_from(
                        grid,
                        amount,
                        corner + 1,
                        true,
                    )
                } else if amount.1 != 0 {
                    (Body { y: rest_against(self.corner(corner).1, amount.1), ..self }).sweep_from(
                        grid,
                        amount,
                        corner + 1,
                        true,
                    )
                } else {
                    (self, Some(true))
                },
            }
        }
    }

    /// The body moved by `amount` and swept against the grid, and whether it
    /// met a tile.
    pub open spec fn moved_by(self, grid: Grid, amount: (int, int)) -> (Body, Option<bool>) {
        (Body { x: clamped(self.x + amount.0), y: clamped(self.y + amount.1), ..self }).sweep_from(
            grid,
            amount,
            0,
            false,
        )
    }

    /// Whether the body moves the way that gravity pulls it.
    pub open spec fn falls(self) -> bool {
        if gravity_of(self.air_kind) > 0 {
            self.vy > 0
        } else {
            self.vy < 0
        }
    }

    /// The body after both sweeps of a step: stopped sideways if the first
    /// met a tile; off the ground and with a step less of grace, unless the
    /// second met a tile, which stops it up and down, and puts it on the
    /// ground with full grace if it was falling.
    pub open spec fn landed(self, x_collision: bool, y_collision: bool) -> Body {
        let grace = if self.cyote_time > 0 {
            self.cyote_time - 1
        } else {
            self.cyote_time
        };
        Body {
            vx: if x_collision {
                0
            } else {
                self.vx
            },
            vy: if y_collision {
                0
            } else {
                self.vy
            },
            on_ground: y_collision && self.falls(),
            cyote_time: if y_collision && self.falls() {
                Player::CYOTE_FRAMES as int
            } else {
                grace
            },
            ..self
        }
    }

    /// The body after its jump, which it makes if the jump input is ready and
    /// it is on the ground or still has grace: the input is used up and the
    /// body leaves against gravity at the jump speed.
    pub open spec fn jumped(self) -> Body {
        if self.ready.jump && (self.cyote_time > 0 || self.on_ground) {
            Body {
                ready: Keys { jump: false, ..self.ready },
                vy: -Player::JUMP_FACTOR * gravity_of(self.air_kind),
                ..self
            }
        } else {
            self
        }
    }

    /// The push of the held direction inputs: one to the right, one to the
    /// left, none for both or neither.
    pub open spec fn steering(self) -> int {
        (if self.down.right {
            1int
        } else {
            0int
        }) - (if self.down.left {
            1int
        } else {
            0int
        })
    }

    /// The body with its sideways speed damped and the push of the direction
    /// inputs added.
    pub open spec fn steered(self) -> Body {
        Body { vx: clamped(damped(self.vx) + self.steering() * Player::ACCELERATION), ..self }
    }

    /// The body as it would be after a flip: one body's height further the
    /// way that it falls, which is into the tiles that it rests on, and of the
    /// other polarity.
    pub open spec fn tentative_flip(self) -> Body {
        Body {
            y: if self.air_kind {
                clamped(self.y + Player::SIZE)
            } else {
                clamped(self.y - Player::SIZE)
            },
            air_kind: !self.air_kind,
            ..self
        }
    }

    /// The body after an attempt to flip, and whether it flipped: it does if
    /// it would not intersect anything afterwards. Otherwise it stays where
    /// and what it was.
    pub open spec fn flipped(self, grid: Grid) -> (Body, bool) {
        if self.tentative_flip().intersects(grid) {
            (self, false)
        } else {
            (self.tentative_flip(), true)
        }
    }

    /// The body after the flip that it attempts if it is on the ground and the
    /// flip input is ready; the attempt uses the input up.
    pub open spec fn after_flip_input(self, grid: Grid) -> Body {
        if self.on_ground && self.ready.flip {
            (Body { ready: Keys { flip: false, ..self.ready }, ..self }).flipped(grid).0
        } else {
            self
        }
    }

    /// The body with no input held.
    pub open spec fn released(self) -> Body {
        Body { down: Keys { jump: false, left: false, flip: false, right: false }, ..self }
    }

    /// The body with gravity added to its speed.
    pub open spec fn pulled(self) -> Body {
        Body { vy: clamped(self.vy + gravity_of(self.air_kind)), ..self }
    }

    /// The body and the grid after the body has left the level: the grid at
    /// the next level and the body at the left edge if the body is in the
    /// right half of the screen, the grid at the previous level and the body
    /// at the right edge otherwise.
    pub open spec fn changed_level(self, grid: Grid) -> (Body, Grid) {
        if self.x > LOGICAL_SCREEN_WIDTH / 2 {
            (Body { x: half_size(), ..self }, grid.at_next_level())
        } else {
            (Body { x: LOGICAL_SCREEN_WIDTH - half_size(), ..self }, grid.at_previous_level())
        }
    }

    /// The body after what follows the two sweeps of a step: it lands, jumps,
    /// steers and flips as its inputs say, and lets go of the held inputs.
    pub open spec fn settled(self, grid: Grid, x_collision: bool, y_collision: bool) -> Body {
        self.landed(x_collision, y_collision).jumped().steered().after_flip_input(grid).released()
    }

    /// The body and the grid after one step.
    ///
    /// Gravity is added to the speed. The body sweeps sideways; if a corner
    /// then finds nothing, the body has left the level, the level is changed
    /// and the step is over. If not, the body sweeps up or down, where a
    /// corner that finds nothing counts as meeting no tile, and then settles.
    pub open spec fn stepped(self, grid: Grid) -> (Body, Grid) {
        let across = self.pulled().moved_by(grid, (self.vx, 0));
        match across.1 {
            None => across.0.changed_level(grid),
            Some(x_collision) => {
                let along = across.0.moved_by(grid, (0, across.0.vy));
                (along.0.settled(grid, x_collision, along.1 == Some(true)), grid)
            },
        }
    }

    /// The body after the keyboard was read: a key that is down is held, and
    /// a key that was pressed is ready, for as long as it is held.
    pub open spec fn with_input(self, down: Keys, pressed: Keys) -> Body {
        let held = Keys {
            jump: self.down.jump || down.jump,
            left: self.down.left || down.left,
            flip: self.down.flip || down.flip,
            right: self.down.right || down.right,
        };
        Body {
            down: held,
            ready: Keys {
                jump: (self.ready.jump || pressed.jump) && held.jump,
                left: (self.ready.left || pressed.left) && held.left,
                flip: (self.ready.flip || pressed.flip) && held.flip,
                right: (self.ready.right || pressed.right) && held.right,
            },
            ..self
        }
    }
}

impl View for Player {
    type V = Body;

    open spec fn view(&self) -> Body {
        Body {
            x: self.position[0] as int,
            y: self.position[1] as int,
            vx: self.velocity[0] as int,
            vy: self.velocity[1] as int,
            air_kind: self.air_kind,
            on_ground: self.on_ground,
            cyote_time: self.cyote_time as int,
            down: keys_view(self.inputs_down),
            ready: keys_view(self.inputs_ready),
        }
    }
}

impl Player {
    /// Steps in a second.
    pub const UPDATES_PER_SECOND: i64 = 60;

    /// Steps in a thirtieth of a second, the time that the speeds below were
    /// first chosen for.
    pub const UPS_SCALE: i64 = 2;

    /// The side of the body: half a tile.
    pub const SIZE: i64 = 200_000;

    /// What gravity adds to the speed of a body of normal polarity in a step:
    /// a 32nd of a tile towards row 0, divided by `UPS_SCALE` twice.
    pub const GRAVITY: i64 = -3_125;

    /// What a held direction adds to the sideways speed in a step: a 32nd of
    /// a tile, divided by `UPS_SCALE` twice.
    pub const ACCELERATION: i64 = 3_125;

    /// The speed of a jump, in steps of gravity.
    pub const JUMP_FACTOR: i64 = 15;

    /// The most steps that one frame may run; steps beyond it are dropped.
    pub const MAXIMUM_UPDATES_PER_FRAME: usize = 5;

    /// For how many steps after leaving the ground a jump still counts: a
    /// twentieth of a second.
    pub const CYOTE_FRAMES: u8 = 3;

    /// A body at rest in the middle of the screen, of normal polarity.
    pub fn new() -> (player: Self)
        ensures
            player@ == (Body {
                x: LOGICAL_SCREEN_WIDTH / 2,
                y: LOGICAL_SCREEN_HEIGHT / 2,
                vx: 0,
                vy: 0,
                air_kind: false,
                on_ground: false,
                cyote_time: 0,
                down: Keys { jump: false, left: false, flip: false, right: false },
                ready: Keys { jump: false, left: false, flip: false, right: false },
            }),
    {
        Self {
            position: [LOGICAL_SCREEN_WIDTH / 2, LOGICAL_SCREEN_HEIGHT / 2],
            velocity: [0, 0],
            air_kind: false,
            on_ground: false,
            cyote_time: 0,
            inputs_down: [false, false, false, false],
            inputs_ready: [false, false, false, false],
        }
    }

    /// Takes in what the keyboard says: for each slot, whether one of its keys
    /// is down, and whether one was pressed since the last reading.
    pub fn update_input(&mut self, down: [bool; 4], pressed: [bool; 4])
        ensures
            final(self)@ == old(self)@.with_input(keys_view(down), keys_view(pressed)),
    {
        let held = [
            self.inputs_down[0] || down[0],
            self.inputs_down[1] || down[1],
            self.inputs_down[2] || down[2],
            self.inputs_down[3] || down[3],
        ];
        self.inputs_ready = [
            (self.inputs_ready[0] || pressed[0]) && held[0],
            (self.inputs_ready[1] || pressed[1]) && held[1],
            (self.inputs_ready[2] || pressed[2]) && held[2],
            (self.inputs_ready[3] || pressed[3]) && held[3],
        ];
        self.inputs_down = held;
    }

    /// The pull on the body per step.
    pub fn gravity(&self) -> (pull: i64)
        ensures
            pull == gravity_of(self.air_kind),
    {
        if self.air_kind {
            -Self::GRAVITY
        } else {
            Self::GRAVITY
        }
    }

    /// How far corner `corner` is from the centre, along x and y.
    fn reach(corner: usize) -> (reach: [i64; 2])
        requires
            corner < 4,
        ensures
            (reach[0] as int, reach[1] as int) == corner_reach(corner as nat),
    {
        let far = Self::SIZE / 2 - 1;
        let near = -(Self::SIZE / 2);
        if corner == 0 {
            [far, far]
        } else if corner == 1 {
            [near, far]
        } else if corner == 2 {
            [near, near]
        } else {
            [far, near]
        }
    }

    /// Where the body rests along an axis after the corner at `corner_at` was
    /// stopped on the way in the direction of `amount`.
    fn rest(corner_at: i64, amount: i64) -> (rest: i64)
        ensures
            rest == rest_against(corner_at as int, amount as int),
    {
        let floor: i128 = tile_index(corner_at) as i128 * UNITS_PER_TILE as i128;
        if amount > 0 {
            clamp(floor - (Self::SIZE / 2) as i128)
        } else {
            clamp(floor + UNITS_PER_TILE as i128 + (Self::SIZE / 2) as i128)
        }
    }

    /// Where corner `corner` of the body is.
    pub fn corner(&self, corner: usize) -> (at: [i64; 2])
        requires
            corner < 4,
        ensures
            (at[0] as int, at[1] as int) == self@.corner(corner as nat),
    {
        let reach = Self::reach(corner);
        [offset(self.position[0], reach[0]), offset(self.position[1], reach[1])]
    }

    /// What corner `corner` of the body finds in the grid.
    pub fn signal(&self, levels: &Levels, corner: usize) -> (signal: Signal)
        requires
            levels.wf(),
            corner < 4,
        ensures
            signal == self@.signal(levels@, corner as nat),
    {
        match levels.get_from_position(self.corner(corner)) {
            None => Signal::Nothing,
            Some(tile) => if tile == self.air_kind {
                Signal::Open
            } else {
                Signal::Blocked
            },
        }
    }

    /// Moves the body by `amount` and sweeps its corners against the grid.
    ///
    /// The result says whether a corner met a tile that stops the body; the
    /// body then rests against that tile. `None` says that a corner found
    /// nothing; the body is then left where the sweep had brought it.
    pub fn move_by(&mut self, levels: &Levels, amount: [i64; 2]) -> (result: Option<bool>)
        requires
            levels.wf(),
        ensures
            (final(self)@, result) == old(self)@.moved_by(
                levels@,
                (amount[0] as int, amount[1] as int),
            ),
    {
        let ghost goal = old(self)@.moved_by(levels@, (amount[0] as int, amount[1] as int));
        let ghost by = (amount[0] as int, amount[1] as int);
        self.position[0] = offset(self.position[0], amount[0]);
        self.position[1] = offset(self.position[1], amount[1]);

        let mut collision = false;
        let mut corner: usize = 0;
        while corner < 4
            invariant
                levels.wf(),
                corner <= 4,
                by == (amount[0] as int, amount[1] as int),
                goal == old(self)@.moved_by(levels@, by),
                self@.sweep_from(levels@, by, corner as nat, collision) == goal,
            decreases 4 - corner,
        {
            match self.signal(levels, corner) {
                Signal::Nothing => {
                    return None;
                },
                Signal::Open => {},
                Signal::Blocked => {
                    let corner_position = self.corner(corner);
                    if amount[0] != 0 {
                        self.position[0] = Self::rest(corner_position[0], amount[0]);
                        collision = true;
                    } else if amount[1] != 0 {
                        self.position[1] = Self::rest(corner_position[1], amount[1]);
                        collision = true;
                    } else {
                        return Some(true);
                    }
                },
            }
            corner += 1;
        }

        Some(collision)
    }

    /// Whether the body, where it is, overlaps something that stops it or
    /// reaches where there is nothing to find. The body is left as it was.
    pub fn is_intersecting(&mut self, levels: &Levels) -> (intersecting: bool)
        requires
            levels.wf(),
        ensures
            intersecting == old(self)@.intersects(levels@),
            *final(self) == *old(self),
    {
        proof {
            lemma_sweep_at_rest(self@, levels@, 0);
        }
        let ghost before = *self;
        let result = self.move_by(levels, [0, 0]);
        assert(self.position =~= before.position);
        assert(self.velocity =~= before.velocity);
        assert(self.inputs_down =~= before.inputs_down);
        assert(self.inputs_ready =~= before.inputs_ready);
        match result {
            Some(collision) => collision,
            None => true,
        }
    }

    /// Tries to flip the body to the other polarity, and says whether it did.
    ///
    /// The body flips if, moved by its own height and of the other polarity,
    /// it does not intersect anything. If it would, it is left exactly as it
    /// was.
    pub fn flip(&mut self, levels: &Levels) -> (flipped: bool)
        requires
            levels.wf(),
        ensures
            (final(self)@, flipped) == old(self)@.flipped(levels@),
            !flipped ==> *final(self) == *old(self),
    {
        let old_position = self.position;

        if self.air_kind {
            self.position[1] = offset(self.position[1], Self::SIZE);
        } else {
            self.position[1] = offset(self.position[1], -Self::SIZE);
        }

        self.air_kind = !self.air_kind;

        if self.is_intersecting(levels) {
            self.position = old_position;
            self.air_kind = !self.air_kind;
            false
        } else {
            true
        }
    }

    /// Runs one step of the simulation on the body, and on the grid where the
    /// body leaves the level.
    pub fn update(&mut self, levels: &mut Levels)
        requires
            old(levels).wf(),
        ensures
            (final(self)@, final(levels)@) == old(self)@.stepped(old(levels)@),
            final(levels).wf(),
            final(levels)@ == (Grid {
                level_index: final(levels)@.level_index,
                x_offset: final(levels)@.x_offset,
                ..old(levels)@
            }),
    {
        self.velocity[1] = offset(self.velocity[1], self.gravity());
        assert(self@ == old(self)@.pulled());

        let across = self.move_by(levels, [self.velocity[0], 0]);
        match across {
            Some(x_collision) => {
                let along = self.move_by(levels, [0, self.velocity[1]]);
                let y_collision = match along {
                    Some(collision) => collision,
                    None => false,
                };
                self.settle(levels, x_collision, y_collision);
            },
            None => {
                self.change_level(levels);
            },
        }
    }

    /// Takes the body and the grid over to the level that the body has left
    /// for.
    fn change_level(&mut self, levels: &mut Levels)
        requires
            old(levels).wf(),
        ensures
            (final(self)@, final(levels)@) == old(self)@.changed_level(old(levels)@),
            final(levels).wf(),
            final(levels)@ == (Grid {
                level_index: final(levels)@.level_index,
                x_offset: final(levels)@.x_offset,
                ..old(levels)@
            }),
    {
        if self.position[0] > LOGICAL_SCREEN_WIDTH / 2 {
            levels.next_level();
            self.position[0] = Self::SIZE / 2;
        } else {
            levels.previous_level();
            self.position[0] = LOGICAL_SCREEN_WIDTH - Self::SIZE / 2;
        }
    }

    /// Does what follows the two sweeps of a step.
    fn settle(&mut self, levels: &Levels, x_collision: bool, y_collision: bool)
        requires
            levels.wf(),
        ensures
            final(self)@ == old(self)@.settled(levels@, x_collision, y_collision),
    {
        self.land(x_collision, y_collision);
        self.jump();
        self.steer();
        self.flip_on_input(levels);
        self.inputs_down = [false, false, false, false];
    }

    /// Tries to flip if the body is on the ground and the flip input is
    /// ready, and uses the input up.
    fn flip_on_input(&mut self, levels: &Levels)
        requires
            levels.wf(),
        ensures
            final(self)@ == old(self)@.after_flip_input(levels@),
    {
        if self.on_ground && self.inputs_ready[2] {
            self.inputs_ready[2] = false;

            let _ = self.flip(levels);
        }
    }

    /// Takes in what the two sweeps of a step met.
    fn land(&mut self, x_collision: bool, y_collision: bool)
        ensures
            final(self)@ == old(self)@.landed(x_collision, y_collision),
    {
        if x_collision {
            self.velocity[0] = 0;
        }

        self.on_ground = false;

        if self.cyote_time > 0 {
            self.cyote_time -= 1;
        }

        if y_collision {
            let pull = self.gravity();
            if (self.velocity[1] > 0 && pull > 0) || (self.velocity[1] < 0 && pull < 0) {
                self.on_ground = true;
                self.cyote_time = Self::CYOTE_FRAMES;
            }

            self.velocity[1] = 0;
        }
    }

    /// Jumps, if the jump input is ready and the body may jump.
    fn jump(&mut self)
        ensures
            final(self)@ == old(self)@.jumped(),
    {
        if self.inputs_ready[0] && (self.cyote_time > 0 || self.on_ground) {
            self.inputs_ready[0] = false;

            self.velocity[1] = -Self::JUMP_FACTOR * self.gravity();
        }
    }

    /// Damps the sideways speed and adds the push of the held directions.
    fn steer(&mut self)
        ensures
            final(self)@ == old(self)@.steered(),
    {
        let mut push: i64 = 0;
        if self.inputs_down[3] {
            push = push + Self::ACCELERATION;
        }
        if self.inputs_down[1] {
            push = push - Self::ACCELERATION;
        }

        self.velocity[0] = offset(damp(self.velocity[0]), push);
    }
}

/// The speeds of the simulation are those of thirty steps a second, scaled to
/// the steps that a second has: gravity and the push of a direction are a
/// 32nd of a tile over the square of the scale, a jump is seven and a half
/// steps of gravity times the scale, and damping takes off a fifth over the
/// scale.
pub proof fn lemma_speeds_scale(v: int)
    ensures
        Player::UPS_SCALE * 30 == Player::UPDATES_PER_SECOND,
        Player::GRAVITY * 32 * Player::UPS_SCALE * Player::UPS_SCALE == -UNITS_PER_TILE,
        Player::ACCELERATION * 32 * Player::UPS_SCALE * Player::UPS_SCALE == UNITS_PER_TILE,
        Player::JUMP_FACTOR * 2 == 15 * Player::UPS_SCALE,
        Player::CYOTE_FRAMES * 20 == Player::UPDATES_PER_SECOND,
        v >= 0 ==> damped(v) == (v * (5 * Player::UPS_SCALE - 1)) / (5 * Player::UPS_SCALE),
        damped(-v) == -damped(v),
{
}

/// A sweep that moves nothing leaves the body where it is, and meets
/// something exactly if one of the corners still to be probed finds anything
/// but an open tile.
pub proof fn lemma_sweep_at_rest(body: Body, grid: Grid, corner: nat)
    requires
        corner <= 4,
    ensures
        body.sweep_from(grid, (0, 0), corner, false).0 == body,
        body.sweep_from(grid, (0, 0), corner, false).1 != Some(false) <==> exists|c: nat|
            corner <= c < 4 && #[trigger] body.signal(grid, c) != Signal::Open,
    decreases 4 - corner,
{
    if corner < 4 {
        lemma_sweep_at_rest(body, grid, corner + 1);
        if body.signal(grid, corner) == Signal::Open {
            if exists|c: nat| corner <= c < 4 && #[trigger] body.signal(grid, c) != Signal::Open {
                let c = choose|c: nat|
                    corner <= c < 4 && #[trigger] body.signal(grid, c) != Signal::Open;
                assert(corner + 1 <= c);
            }
        }
    }
}

impl Body {
    /// Whether the body's leading edge, the one on the side that gravity
    /// pulls to, lies on the near edge of row `row`, one row further in the
    /// direction of gravity than the body is.
    pub open spec fn rests_before_row(self, row: int) -> bool {
        if gravity_of(self.air_kind) > 0 {
            self.y + half_size() == row * UNITS_PER_TILE
        } else {
            self.y - half_size() == (row + 1) * UNITS_PER_TILE
        }
    }

    /// The tile of row `row` that the body's right corners are level with,
    /// and the one that its left corners are level with.
    pub open spec fn tiles_ahead(self, grid: Grid, row: int) -> (Option<bool>, Option<bool>) {
        (
            grid.get(tile_of(self.x + half_size() - 1) as nat, row as nat),
            grid.get(tile_of(self.x - half_size()) as nat, row as nat),
        )
    }
}

/// A body that rests before a row, with no speed sideways and, once gravity
/// has pulled, a speed along gravity of less than its own height, is on the
/// ground after a step if a tile of that row ahead of its corners stops it,
/// and is not if both are of its own polarity. Either way the grid stays as it
/// is.
///
/// The body is to be on the screen sideways and to intersect nothing where
/// it rests.
pub proof fn lemma_ground_under_body(body: Body, grid: Grid, row: int)
    requires
        grid.wf(),
        0 <= row < Levels::LEVEL_HEIGHT,
        half_size() <= body.x <= LOGICAL_SCREEN_WIDTH - half_size(),
        body.rests_before_row(row),
        !body.intersects(grid),
        body.vx == 0,
        body.pulled().falls(),
        -Player::SIZE < body.pulled().vy < Player::SIZE,
    ensures
        body.stepped(grid).1 == grid,
        body.tiles_ahead(grid, row).0 == Some(!body.air_kind) || body.tiles_ahead(grid, row).1
            == Some(!body.air_kind) ==> body.stepped(grid).0.on_ground,
        body.tiles_ahead(grid, row).0 == Some(body.air_kind) && body.tiles_ahead(grid, row).1
            == Some(body.air_kind) ==> !body.stepped(grid).0.on_ground,
{
    let pulled = body.pulled();
    assert forall|corner: nat| corner < 4 implies #[trigger] pulled.signal(grid, corner)
        == Signal::Open by {
        assert(pulled.signal(grid, corner) == body.signal(grid, corner));
    }
    assert(!pulled.intersects(grid));
    lemma_sweep_at_rest(pulled, grid, 0);
    let across = pulled.moved_by(grid, (0, 0));
    assert(pulled == Body { x: clamped(pulled.x + 0), y: clamped(pulled.y + 0), ..pulled });
    assert(across == pulled.sweep_from(grid, (0, 0), 0, false));
    assert(across.0 == pulled);
    assert(across.1 == Some(false));
    lemma_rests_or_falls(pulled, grid, row);
    let along = pulled.moved_by(grid, (0, pulled.vy));
    let landed = along.0.landed(false, along.1 == Some(true));
    assert(along.0.falls() == pulled.falls()) by {
        lemma_sweep_keeps_speed(
            Body { x: clamped(pulled.x + 0), y: clamped(pulled.y + pulled.vy), ..pulled },
            grid,
            (0, pulled.vy),
            0,
            false,
        );
    }
    assert(landed.on_ground == (along.1 == Some(true)));
    let last = landed.jumped().steered();
    assert(last.on_ground == landed.on_ground);
    assert(last.after_flip_input(grid).on_ground == last.on_ground);
    assert(along.0.settled(grid, false, along.1 == Some(true)) == last.after_flip_input(
        grid,
    ).released());
    assert(body.stepped(grid) == (along.0.settled(grid, false, along.1 == Some(true)), grid));
}

/// A sweep changes nothing of a body but where it is.
pub proof fn lemma_sweep_keeps_speed(
    body: Body,
    grid: Grid,
    amount: (int, int),
    corner: nat,
    collision: bool,
)
    ensures
        body.sweep_from(grid, amount, corner, collision).0 == (Body {
            x: body.sweep_from(grid, amount, corner, collision).0.x,
            y: body.sweep_from(grid, amount, corner, collision).0.y,
            ..body
        }),
    decreases 4 - corner,
{
    if corner < 4 {
        lemma_sweep_keeps_speed(body, grid, amount, corner + 1, collision);
        lemma_sweep_keeps_speed(
            Body { x: rest_against(body.corner(corner).0, amount.0), ..body },
            grid,
            amount,
            corner + 1,
            true,
        );
        lemma_sweep_keeps_speed(
            Body { y: rest_against(body.corner(corner).1, amount.1), ..body },
            grid,
            amount,
            corner + 1,
            true,
        );
    }
}

/// The sweep along gravity of a body that rests before a row, by less than
/// its own height: it meets a tile exactly if one of the two tiles ahead
/// stops the body.
proof fn lemma_rests_or_falls(body: Body, grid: Grid, row: int)
    requires
        grid.wf(),
        0 <= row < Levels::LEVEL_HEIGHT,
        half_size() <= body.x <= LOGICAL_SCREEN_WIDTH - half_size(),
        body.rests_before_row(row),
        !body.intersects(grid),
        body.falls(),
        -Player::SIZE < body.vy < Player::SIZE,
    ensures
        body.tiles_ahead(grid, row).0 == Some(!body.air_kind) || body.tiles_ahead(grid, row).1
            == Some(!body.air_kind) ==> body.moved_by(grid, (0, body.vy)).1 == Some(true),
        body.tiles_ahead(grid, row).0 == Some(body.air_kind) && body.tiles_ahead(grid, row).1
            == Some(body.air_kind) ==> body.moved_by(grid, (0, body.vy)).1 == Some(false),
{
    assert(body.signal(grid, 0) == Signal::Open);
    assert(body.signal(grid, 1) == Signal::Open);
    assert(body.signal(grid, 2) == Signal::Open);
    assert(body.signal(grid, 3) == Signal::Open);
    let unit = UNITS_PER_TILE as int;
    let half = half_size();
    assert(half == 100_000 && unit == 400_000);
    let by = (0int, body.vy);
    let moved = Body { x: clamped(body.x + 0), y: clamped(body.y + body.vy), ..body };
    assert(moved.x == body.x && moved.y == body.y + body.vy);
    assert(body.moved_by(grid, by) == moved.sweep_from(grid, by, 0, false));
    let right = body.tiles_ahead(grid, row).0;
    let left = body.tiles_ahead(grid, row).1;
    if gravity_of(body.air_kind) > 0 {
        assert(body.y + half == row * unit);
        assert(tile_of(body.y - half) == row - 1);
        assert(tile_of(body.y + half - 1) == row - 1);
        assert(tile_of(moved.y + half - 1) == row);
        assert(tile_of(moved.y - half) == row - 1);
        assert(tile_floor(moved.y + half - 1) - half == body.y);
        assert(moved.probe(grid, 0) == right);
        assert(moved.probe(grid, 1) == left);
        assert(moved.probe(grid, 2) == body.probe(grid, 2));
        assert(moved.probe(grid, 3) == body.probe(grid, 3));
        assert(rest_against(moved.corner(0).1, body.vy) == body.y);
        assert(rest_against(moved.corner(1).1, body.vy) == body.y);
        let rested = Body { y: body.y, ..moved };
        assert(rested == body);
        if moved.signal(grid, 0) == Signal::Blocked {
            lemma_sweep_open(body, grid, by, 1, true);
            assert(moved.sweep_from(grid, by, 0, false) == body.sweep_from(grid, by, 1, true));
        } else if moved.signal(grid, 1) == Signal::Blocked {
            lemma_sweep_open(body, grid, by, 2, true);
            assert(moved.sweep_from(grid, by, 1, false) == body.sweep_from(grid, by, 2, true));
            assert(moved.sweep_from(grid, by, 0, false) == moved.sweep_from(grid, by, 1, false));
        } else {
            assert(moved.signal(grid, 2) == Signal::Open);
            assert(moved.signal(grid, 3) == Signal::Open);
            lemma_sweep_open(moved, grid, by, 2, false);
            assert(moved.sweep_from(grid, by, 1, false) == moved.sweep_from(grid, by, 2, false));
            assert(moved.sweep_from(grid, by, 0, false) == moved.sweep_from(grid, by, 1, false));
        }
    } else {
        assert(body.y - half == (row + 1) * unit);
        assert(tile_of(body.y - half) == row + 1);
        assert(tile_of(body.y + half - 1) == row + 1);
        assert(tile_of(moved.y - half) == row);
        assert(tile_of(moved.y + half - 1) == row + 1);
        assert(tile_floor(moved.y - half) + unit + half == body.y);
        assert(moved.probe(grid, 0) == body.probe(grid, 0));
        assert(moved.probe(grid, 1) == body.probe(grid, 1));
        assert(moved.probe(grid, 2) == left);
        assert(moved.probe(grid, 3) == right);
        assert(rest_against(moved.corner(2).1, body.vy) == body.y);
        assert(rest_against(moved.corner(3).1, body.vy) == body.y);
        let rested = Body { y: body.y, ..moved };
        assert(rested == body);
        assert(moved.signal(grid, 0) == Signal::Open);
        assert(moved.signal(grid, 1) == Signal::Open);
        assert(moved.sweep_from(grid, by, 1, false) == moved.sweep_from(grid, by, 2, false));
        assert(moved.sweep_from(grid, by, 0, false) == moved.sweep_from(grid, by, 1, false));
        if moved.signal(grid, 2) == Signal::Blocked {
            lemma_sweep_open(body, grid, by, 3, true);
            assert(moved.sweep_from(grid, by, 2, false) == body.sweep_from(grid, by, 3, true));
        } else if moved.signal(grid, 3) == Signal::Blocked {
            lemma_sweep_open(body, grid, by, 4, true);
            assert(moved.sweep_from(grid, by, 3, false) == body.sweep_from(grid, by, 4, true));
            assert(moved.sweep_from(grid, by, 2, false) == moved.sweep_from(grid, by, 3, false));
        } else {
            lemma_sweep_open(moved, grid, by, 4, false);
            assert(moved.sweep_from(grid, by, 3, false) == moved.sweep_from(grid, by, 4, false));
            assert(moved.sweep_from(grid, by, 2, false) == moved.sweep_from(grid, by, 3, false));
        }
    }
}

/// A sweep whose remaining corners all find open tiles leaves the body where
/// it is and reports what was met before.
pub proof fn lemma_sweep_open(
    body: Body,
    grid: Grid,
    amount: (int, int),
    corner: nat,
    collision: bool,
)
    requires
        forall|c: nat| corner <= c < 4 ==> #[trigger] body.signal(grid, c) == Signal::Open,
    ensures
        body.sweep_from(grid, amount, corner, collision) == (body, Some(collision)),
    decreases 4 - corner,
{
    if corner < 4 {
        assert(body.signal(grid, corner) == Signal::Open);
        lemma_sweep_open(body, grid, amount, corner + 1, collision);
    }
}

/// An attempt to flip that is turned down leaves the body where it was, as
/// fast as it was and of the polarity that it had; only the input is used up.
pub proof fn lemma_rejected_flip(body: Body, grid: Grid)
    requires
        body.tentative_flip().intersects(grid),
    ensures
        body.flipped(grid) == (body, false),
        body.after_flip_input(grid) == if body.on_ground && body.ready.flip {
            Body { ready: Keys { flip: false, ..body.ready }, ..body }
        } else {
            body
        },
{
    let spent = Body { ready: Keys { flip: false, ..body.ready }, ..body };
    let c = choose|c: nat|
        c < 4 && #[trigger] body.tentative_flip().signal(grid, c) != Signal::Open;
    assert(spent.tentative_flip().signal(grid, c) == body.tentative_flip().signal(grid, c));
}

} // verus!
