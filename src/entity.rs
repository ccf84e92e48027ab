use vstd::prelude::*;
use crate::action::Action;
use crate::graphics_window::{rgb_value, Color};
use crate::grid::{Direction, Location};
use crate::rng_buffer::{RngBuffer, RngView};
use crate::world::World;

verus! {

/// An agent of the simulation: where it stands and which way it faces.
#[derive(Clone, Copy, Debug)]
pub struct Entity {
    pub location: Location,
    pub facing: Direction,
}

/// A sample `roll / 2^32` below `1/20`: the entity turns.
pub open spec fn is_turn_roll(roll: u32) -> bool {
    20 * (roll as int) < 0x1_0000_0000
}

/// A sample `roll / 2^32` below `19/20`: unless it turns, the entity moves on.
pub open spec fn is_move_roll(roll: u32) -> bool {
    20 * (roll as int) < 19 * 0x1_0000_0000
}

/// The action chosen by an entity facing `facing` that draws from `rng`, and the state of
/// `rng` afterwards. One draw decides: below `1/20` the entity turns towards a direction
/// picked by a second draw, below `19/20` it moves straight ahead, otherwise it waits.
pub open spec fn policy(facing: Direction, rng: RngView) -> (Action, RngView) {
    let first = rng.advanced();
    let roll = first.current();
    if is_turn_roll(roll) {
        let second = first.advanced();
        (Action::Turn(Direction::for_roll(second.current())), second)
    } else if is_move_roll(roll) {
        (Action::Move(facing), first)
    } else {
        (Action::Wait, first)
    }
}

impl Entity {
    /// Entities are drawn white.
    pub fn pixel_color(&self) -> (c: Color)
        ensures
            c@ == rgb_value(255, 255, 255),
    {
        Color::white()
    }

    /// An entity at `(x mod width, y mod height)` facing a direction drawn from `rng`.
    pub fn new(x: usize, y: usize, world: &World, rng: &mut RngBuffer) -> (r: Entity)
        requires
            world.wf(),
            old(rng).wf(),
        ensures
            r.location@ == (x as int % world@.width, y as int % world@.height),
            r.location.wf(world@.width, world@.height),
            final(rng).wf(),
            final(rng)@ == old(rng)@.advanced(),
            r.facing == Direction::for_roll(final(rng)@.current()),
    {
        Entity { location: Location::at(x, y, world), facing: Direction::random(rng) }
    }

    /// This tick's action, chosen by the fixed stochastic policy.
    pub fn determine_action(&self, world: &World, rng: &mut RngBuffer) -> (r: Action)
        requires
            old(rng).wf(),
        ensures
            final(rng).wf(),
            (r, final(rng)@) == policy(self.facing, old(rng)@),
    {
        let roll = rng.next();
        if (roll as u64) * 20 < 0x1_0000_0000 {
            Action::Turn(Direction::random(rng))
        } else if (roll as u64) * 20 < 19 * 0x1_0000_0000 {
            Action::Move(self.facing)
        } else {
            Action::Wait
        }
    }
}

} // verus!
