use vstd::prelude::*;
use crate::entity::Entity;
use crate::rng_buffer::RngBuffer;
use crate::grid::{step_from, wrap_coordinate, Direction, Location};
use crate::multithreading::{part_start, slice};

verus! {

/// Identifier of a placed entity: its position in the entity store.
pub type EntityId = usize;

/// Returned when a cell that must be free already holds an entity.
#[derive(Clone, Copy, Debug, PartialEq, Eq, Structural)]
pub struct OccupiedError;

/// Why a move could not be made.
#[derive(Clone, Copy, Debug, PartialEq, Eq, Structural)]
pub enum MoveError {
    /// No entity stands at the source location.
    NoEntity,
    /// The destination already holds another entity.
    Occupied,
}

/// A toroidal grid of cells, each holding at most one entity, and the store of entities.
pub struct World {
    width: usize,
    height: usize,
    entity_grid: Vec<Option<EntityId>>,
    entities: Vec<Entity>,
}

/// The abstract state of a world.
pub struct WorldView {
    pub width: int,
    pub height: int,
    /// For each row-major cell index, the id of the entity standing there.
    pub cells: Seq<Option<EntityId>>,
    /// The entities, indexed by id.
    pub entities: Seq<Entity>,
}

impl WorldView {
    /// The entity with the given id stands at a cell of this grid that names it back.
    pub open spec fn placed(self, id: int) -> bool {
        &&& self.entities[id].location.wf(self.width, self.height)
        &&& self.cells[self.entities[id].location.idx()] == Some(id as EntityId)
    }

    /// Well-formedness: positive dimensions, one cell per coordinate pair, every cell names
    /// an entity that stands there, and every entity stands at a cell naming it. So each cell
    /// holds at most one entity and each entity occupies exactly one cell.
    pub open spec fn wf(self) -> bool {
        &&& 0 < self.width
        &&& 0 < self.height
        &&& self.width * self.height <= usize::MAX
        &&& self.cells.len() == self.width * self.height
        &&& self.entities.len() <= usize::MAX
        &&& forall|i: int|
            0 <= i < self.cells.len() && (#[trigger] self.cells[i]) is Some ==> {
                let id = self.cells[i]->0 as int;
                &&& id < self.entities.len()
                &&& self.entities[id].location.idx() == i
            }
        &&& forall|id: int| 0 <= id < self.entities.len() ==> #[trigger] self.placed(id)
    }

    /// The entity id held by the cell of `location`.
    pub open spec fn occupant(self, location: Location) -> Option<EntityId> {
        self.cells[location.idx()]
    }

    /// The coordinates one step from `location` in direction `d`.
    pub open spec fn target(self, location: Location, d: Direction) -> (int, int) {
        step_from(location@, d, self.width, self.height)
    }

    /// The entity id held by the cell at coordinates `p`.
    pub open spec fn cell_at(self, p: (int, int)) -> Option<EntityId> {
        self.cells[p.0 + self.width * p.1]
    }

    /// Some entity other than the one at `from` holds the cell at coordinates `p`.
    pub open spec fn occupied_by_other(self, from: Location, p: (int, int)) -> bool {
        &&& self.cell_at(p) is Some
        &&& p.0 + self.width * p.1 != from.idx()
    }

    /// This view is `before` with entity `id` stepped to the coordinates `to`, its facing kept.
    pub open spec fn moved(self, before: WorldView, id: int, to: (int, int)) -> bool {
        &&& self.width == before.width
        &&& self.height == before.height
        &&& self.entities.len() == before.entities.len()
        &&& self.entities[id].location@ == to
        &&& self.entities[id].facing == before.entities[id].facing
        &&& forall|j: int| 0 <= j < self.entities.len() && j != id ==> #[trigger] self.entities[j] == before.entities[j]
    }

    /// This view is `before` with entity `id` turned to `facing`, its location kept.
    pub open spec fn turned(self, before: WorldView, id: int, facing: Direction) -> bool {
        &&& self.width == before.width
        &&& self.height == before.height
        &&& self.entities.len() == before.entities.len()
        &&& self.entities[id].location == before.entities[id].location
        &&& self.entities[id].facing == facing
        &&& forall|j: int| 0 <= j < self.entities.len() && j != id ==> #[trigger] self.entities[j] == before.entities[j]
    }
}

/// The cell in `[0, n)` picked by a uniform sample `roll / 2^32`: `floor(n * roll / 2^32)`.
pub open spec fn scaled(roll: u32, n: int) -> int {
    (roll as int * n) / 0x1_0000_0000
}

/// Scales a uniform sample `roll / 2^32` to `[0, n)`.
pub fn scale_sample(roll: u32, n: usize) -> (r: usize)
    requires
        0 < n,
    ensures
        r == scaled(roll, n as int),
        r < n,
{
    proof {
        assert(roll as int * n as int <= 0xffff_ffff * 0xffff_ffff_ffff_ffff) by (nonlinear_arith)
            requires
                roll <= 0xffff_ffff,
                n <= 0xffff_ffff_ffff_ffff,
        ;
    }
    let product = roll as u128 * n as u128;
    proof {
        assert(product < 0x1_0000_0000 * n) by (nonlinear_arith)
            requires
                product == roll as int * n as int,
                roll < 0x1_0000_0000,
                0 < n,
        ;
        vstd::arithmetic::div_mod::lemma_div_is_ordered(product as int, 0x1_0000_0000 * n - 1, 0x1_0000_0000);
        vstd::arithmetic::div_mod::lemma_fundamental_div_mod_converse_div(
            0x1_0000_0000 * n - 1,
            0x1_0000_0000,
            n as int - 1,
            0xffff_ffff,
        );
    }
    (product / 0x1_0000_0000) as usize
}

impl View for World {
    type V = WorldView;

    closed spec fn view(&self) -> WorldView {
        WorldView {
            width: self.width as int,
            height: self.height as int,
            cells: self.entity_grid@,
            entities: self.entities@,
        }
    }
}

impl World {
    pub open spec fn wf(&self) -> bool {
        self@.wf()
    }

    fn new_entity_grid(width: usize, height: usize) -> (r: Vec<Option<EntityId>>)
        requires
            width * height <= usize::MAX,
        ensures
            r@.len() == width * height,
            forall|i: int| 0 <= i < r@.len() ==> #[trigger] r@[i] is None,
    {
        let size = width * height;
        let mut entity_grid: Vec<Option<EntityId>> = Vec::with_capacity(size);
        let mut i: usize = 0;
        while i < size
            invariant
                i <= size,
                entity_grid@.len() == i,
                forall|j: int| 0 <= j < i ==> #[trigger] entity_grid@[j] is None,
            decreases size - i,
        {
            entity_grid.push(None);
            i = i + 1;
        }
        entity_grid
    }

    /// An empty world of `width` by `height` cells.
    pub fn new(width: usize, height: usize) -> (r: World)
        requires
            0 < width,
            0 < height,
            width * height <= usize::MAX,
        ensures
            r.wf(),
            r@.width == width,
            r@.height == height,
            r@.entities.len() == 0,
            forall|i: int| 0 <= i < r@.cells.len() ==> #[trigger] r@.cells[i] is None,
    {
        World {
            entity_grid: Self::new_entity_grid(width, height),
            entities: Vec::new(),
            width,
            height,
        }
    }

    pub fn width(&self) -> (r: usize)
        ensures
            r == self@.width,
    {
        self.width
    }

    pub fn height(&self) -> (r: usize)
        ensures
            r == self@.height,
    {
        self.height
    }

    /// The location one step from `location` in `direction`, wrapping around the edges.
    pub fn add(&self, location: &Location, direction: &Direction) -> (r: Location)
        requires
            self.wf(),
            location.wf(self@.width, self@.height),
        ensures
            r@ == self@.target(*location, *direction),
            r.wf(self@.width, self@.height),
    {
        let x = wrap_coordinate(location.x(), direction.x(), self.width);
        let y = wrap_coordinate(location.y(), direction.y(), self.height);
        Location::from_reduced(x, y, self.width, self.height)
    }

    /// Puts `entity` on the grid under the next free id, unless its cell is taken.
    pub fn place_entity(&mut self, entity: Entity) -> (r: Result<(), OccupiedError>)
        requires
            old(self).wf(),
            entity.location.wf(old(self)@.width, old(self)@.height),
        ensures
            final(self).wf(),
            r is Err <==> old(self)@.occupant(entity.location) is Some,
            r is Err ==> final(self)@ == old(self)@,
            r is Ok ==> {
                &&& final(self)@.width == old(self)@.width
                &&& final(self)@.height == old(self)@.height
                &&& final(self)@.entities == old(self)@.entities.push(entity)
                &&& final(self)@.cells == old(self)@.cells.update(
                    entity.location.idx(),
                    Some(old(self)@.entities.len() as EntityId),
                )
            },
    {
        let index = entity.location.index();
        if self.entity_grid[index].is_some() {
            return Err(OccupiedError);
        }
        let id: EntityId = self.entities.len();
        self.entities.push(entity);
        self.entity_grid.set(index, Some(id));
        proof {
            let v = self@;
            assert(v.entities.len() == self.entities.len());
            assert forall|j: int| 0 <= j < v.entities.len() implies #[trigger] v.placed(j) by {
                if j < id {
                    assert(old(self)@.placed(j));
                }
            }
        }
        Ok(())
    }

    /// Places an entity at a cell drawn from `rng`: a fresh sample for the column, the next
    /// sample for the row, and the one after for its facing. Fails, changing nothing, when
    /// that cell is taken.
    pub fn place_random_entity(&mut self, rng: &mut RngBuffer) -> (r: Result<(), OccupiedError>)
        requires
            old(self).wf(),
            old(rng).wf(),
        ensures
            final(self).wf(),
            final(rng).wf(),
            ({
                let w = old(self)@;
                let first = old(rng)@.advanced();
                let second = first.advanced();
                let third = second.advanced();
                let x = scaled(final(rng)@.values[first.cursor], w.width);
                let y = scaled(final(rng)@.values[second.cursor], w.height);
                &&& final(rng)@.cursor == third.cursor
                &&& final(rng)@.values == old(rng)@.values.update(first.cursor, final(rng)@.values[first.cursor])
                &&& (r is Err <==> w.cell_at((x, y)) is Some)
                &&& (r is Err ==> final(self)@ == w)
                &&& (r is Ok ==> {
                    &&& final(self)@.width == w.width
                    &&& final(self)@.height == w.height
                    &&& final(self)@.entities.len() == w.entities.len() + 1
                    &&& final(self)@.entities.take(w.entities.len() as int) == w.entities
                    &&& final(self)@.entities.last().location@ == (x, y)
                    &&& final(self)@.entities.last().facing == Direction::for_roll(final(rng)@.values[third.cursor])
                })
            }),
    {
        let x = scale_sample(rng.generate_next(), self.width);
        let y = scale_sample(rng.next(), self.height);
        let entity = Entity::new(x, y, self, rng);
        proof {
            vstd::arithmetic::div_mod::lemma_small_mod(x as nat, self.width as nat);
            vstd::arithmetic::div_mod::lemma_small_mod(y as nat, self.height as nat);
        }
        let r = self.place_entity(entity);
        proof {
            if r is Ok {
                assert(self@.entities.take(old(self)@.entities.len() as int) =~= old(self)@.entities);
            }
        }
        r
    }

    /// Moves the entity standing at `location` one step in `direction`. Fails, changing
    /// nothing, when no entity stands there or another entity holds the destination.
    pub fn move_entity(&mut self, location: &Location, direction: &Direction) -> (r: Result<(), MoveError>)
        requires
            old(self).wf(),
            location.wf(old(self)@.width, old(self)@.height),
        ensures
            final(self).wf(),
            ({
                let w = old(self)@;
                let source = w.occupant(*location);
                let target = w.target(*location, *direction);
                let target_index = target.0 + w.width * target.1;
                &&& r is Ok <==> source is Some && (w.cells[target_index] is None || target_index == location.idx())
                &&& r == Err::<(), MoveError>(MoveError::NoEntity) <==> source is None
                &&& r == Err::<(), MoveError>(MoveError::Occupied) <==> source is Some
                    && w.cells[target_index] is Some && target_index != location.idx()
                &&& r is Err ==> final(self)@ == w
                &&& r is Ok ==> final(self)@.moved(w, source->0 as int, target)
            }),
    {
        let new_location = self.add(location, direction);
        let source = self.entity_grid[location.index()];
        let id = match source {
            None => {
                return Err(MoveError::NoEntity);
            },
            Some(id) => id,
        };
        if new_location.index() != location.index() && self.entity_grid[new_location.index()].is_some() {
            return Err(MoveError::Occupied);
        }
        let ghost w = self@;
        let facing = self.entities[id].facing;
        self.entity_grid.set(location.index(), None);
        self.entities.set(id, Entity { location: new_location, facing });
        self.entity_grid.set(new_location.index(), Some(id));
        proof {
            let v = self@;
            assert(v.entities.len() == self.entities.len());
            assert forall|j: int| 0 <= j < v.entities.len() implies #[trigger] v.placed(j) by {
                if j != id {
                    assert(w.placed(j));
                    assert(v.entities[j] == w.entities[j]);
                    let li = w.entities[j].location.idx();
                    assert(w.cells[location.idx()] == Some(id));
                    assert(w.cells[li] == Some(j as EntityId));
                    assert(li != location.idx());
                    assert(li != new_location.idx());
                    assert(v.cells[li] == w.cells[li]);
                } else {
                    assert(v.entities[j].location == new_location);
                }
            }
            assert forall|i: int| 0 <= i < v.cells.len() && (#[trigger] v.cells[i]) is Some implies {
                let k = v.cells[i]->0 as int;
                &&& k < v.entities.len()
                &&& v.entities[k].location.idx() == i
            } by {
                if i != new_location.idx() && i != location.idx() {
                    assert(w.cells[i] is Some);
                }
            }
        }
        Ok(())
    }

    /// Turns the entity standing at `location` to face `facing`. Fails, changing nothing,
    /// when no entity stands there.
    pub fn set_facing(&mut self, location: &Location, facing: Direction) -> (r: Result<(), MoveError>)
        requires
            old(self).wf(),
            location.wf(old(self)@.width, old(self)@.height),
        ensures
            final(self).wf(),
            r is Err <==> old(self)@.occupant(*location) is None,
            r is Err ==> r == Err::<(), MoveError>(MoveError::NoEntity) && final(self)@ == old(self)@,
            r is Ok ==> final(self)@.turned(old(self)@, old(self)@.occupant(*location)->0 as int, facing),
    {
        let id = match self.entity_grid[location.index()] {
            None => {
                return Err(MoveError::NoEntity);
            },
            Some(id) => id,
        };
        let ghost w = self@;
        let entity_location = self.entities[id].location;
        self.entities.set(id, Entity { location: entity_location, facing });
        proof {
            let v = self@;
            assert forall|j: int| 0 <= j < v.entities.len() implies #[trigger] v.placed(j) by {
                assert(w.placed(j));
            }
        }
        Ok(())
    }

    /// The entity standing at `location`, if any.
    pub fn get_entity(&self, location: &Location) -> (r: Option<&Entity>)
        requires
            self.wf(),
            location.wf(self@.width, self@.height),
        ensures
            r is Some <==> self@.occupant(*location) is Some,
            r is Some ==> *r->0 == self@.entities[self@.occupant(*location)->0 as int],
    {
        match self.entity_grid[location.index()] {
            None => None,
            Some(id) => Some(&self.entities[id]),
        }
    }

    /// The id of the entity standing at `location`, if any.
    pub fn entity_id_at(&self, location: &Location) -> (r: Option<EntityId>)
        requires
            self.wf(),
            location.wf(self@.width, self@.height),
        ensures
            r == self@.occupant(*location),
    {
        self.entity_grid[location.index()]
    }

    /// All entities, in id order.
    pub fn iter_entities(&self) -> (r: &[Entity])
        ensures
            r@ == self@.entities,
    {
        self.entities.as_slice()
    }

    /// The entities cut into `parallelism` contiguous parts, in id order.
    pub fn entity_slices(&self, parallelism: usize) -> (r: Vec<&[Entity]>)
        requires
            0 < parallelism,
        ensures
            r@.len() == parallelism,
            forall|i: int|
                0 <= i < parallelism ==> 0 <= #[trigger] part_start(self@.entities.len() as int, parallelism as int, i)
                    <= part_start(self@.entities.len() as int, parallelism as int, i + 1) <= self@.entities.len(),
            forall|i: int|
                0 <= i < parallelism ==> (#[trigger] r@[i])@ == self@.entities.subrange(
                    part_start(self@.entities.len() as int, parallelism as int, i),
                    part_start(self@.entities.len() as int, parallelism as int, i + 1),
                ),
    {
        slice(&self.entities, parallelism)
    }

    pub fn num_entities(&self) -> (r: usize)
        ensures
            r == self@.entities.len(),
    {
        self.entities.len()
    }
}

} // verus!
