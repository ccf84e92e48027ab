use vstd::prelude::*;
use crate::entity::Entity;
use crate::grid::Direction;
use crate::world::{World, WorldView};

verus! {

/// What an entity intends to do this tick.
#[derive(Clone, Copy, Debug, PartialEq, Eq, Structural)]
pub enum Action {
    Wait,
    Move(Direction),
    Turn(Direction),
}

/// What actually happens to an entity this tick.
#[derive(Clone, Copy, Debug, PartialEq, Eq, Structural)]
pub enum Outcome {
    Blocked,
    Wait,
    Move(Direction),
    Turn(Direction),
}

/// The outcome of `action` for `entity` judged by occupancy alone: a move is blocked when
/// another entity holds the destination; waiting and turning always go through.
pub open spec fn resolve_spec(action: Action, entity: Entity, w: WorldView) -> Outcome {
    match action {
        Action::Wait => Outcome::Wait,
        Action::Move(d) => {
            if w.occupied_by_other(entity.location, w.target(entity.location, d)) {
                Outcome::Blocked
            } else {
                Outcome::Move(d)
            }
        },
        Action::Turn(f) => Outcome::Turn(f),
    }
}

impl Action {
    /// The directions in which this action claims a cell: the direction of a move, none for
    /// waiting or turning.
    pub fn conflicting_directions(&self) -> (r: Option<Vec<Direction>>)
        ensures
            match *self {
                Action::Move(d) => r is Some && r->0@ == seq![d],
                _ => r is None,
            },
    {
        match self {
            Action::Wait => None,
            Action::Move(direction) => Some(vec![*direction]),
            Action::Turn(_) => None,
        }
    }

    /// The outcome of this action for `entity`, judged by the occupancy of `world`.
    pub fn resolve(&self, entity: &Entity, world: &World) -> (r: Outcome)
        requires
            world.wf(),
            entity.location.wf(world@.width, world@.height),
        ensures
            r == resolve_spec(*self, *entity, world@),
    {
        match self {
            Action::Wait => Outcome::Wait,
            Action::Move(direction) => {
                let target_location = world.add(&entity.location, direction);
                if target_location.index() != entity.location.index()
                    && world.get_entity(&target_location).is_some() {
                    Outcome::Blocked
                } else {
                    Outcome::Move(*direction)
                }
            },
            Action::Turn(facing) => Outcome::Turn(*facing),
        }
    }
}

} // verus!
