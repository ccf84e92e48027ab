use vstd::prelude::*;
use crate::action::{Action, Outcome};
use crate::entity::Entity;
use crate::graphics_window::{rgb_value, Color, PixelBuffer};
use crate::grid::{count_directions, Direction, Location};
use crate::multithreading::{part_start, slice_bounds};
use crate::rng_buffer::{RngBuffer, RngView};
use crate::tick::{
    applied_upto, claimed_in, claims, contested, draw_actions, entity_after, lemma_move_unobstructed,
    move_contested, outcome_of, target_index, ticked,
};
use crate::world::{World, WorldView};

verus! {

/// Number of parts into which each phase cuts the locations it processes.
pub const PARALLELISM: usize = 10;

/// The sides from which moves have claimed one cell during a tick.
#[derive(Clone, Copy, Debug, PartialEq, Eq, Structural)]
pub struct Conflict {
    north: bool,
    northeast: bool,
    east: bool,
    southeast: bool,
    south: bool,
    southwest: bool,
    west: bool,
    northwest: bool,
}

impl Conflict {
    /// A claim arrived from the neighbouring cell on side `side`.
    pub closed spec fn claimed_from(&self, side: Direction) -> bool {
        match side {
            Direction::North => self.north,
            Direction::Northeast => self.northeast,
            Direction::East => self.east,
            Direction::Southeast => self.southeast,
            Direction::South => self.south,
            Direction::Southwest => self.southwest,
            Direction::West => self.west,
            Direction::Northwest => self.northwest,
        }
    }

    /// A move in direction `d` has claimed this cell: it arrived from the opposite side.
    pub open spec fn arrived(&self, d: Direction) -> bool {
        self.claimed_from(d.opposite())
    }

    /// Number of directions in which moves have claimed this cell.
    pub open spec fn claim_count(&self) -> int {
        count_directions(|d: Direction| self.arrived(d))
    }

    /// No move has claimed this cell.
    pub open spec fn is_clear(&self) -> bool {
        forall|d: Direction| !#[trigger] self.arrived(d)
    }

    pub fn none() -> (r: Conflict)
        ensures
            r.is_clear(),
    {
        Conflict {
            north: false,
            northeast: false,
            east: false,
            southeast: false,
            south: false,
            southwest: false,
            west: false,
            northwest: false,
        }
    }

    /// Records a claim by a move in `direction`.
    pub fn add_from(&mut self, direction: &Direction)
        ensures
            forall|d: Direction| #[trigger] final(self).arrived(d) == (old(self).arrived(d) || d == *direction),
    {
        match direction {
            Direction::North => self.south = true,
            Direction::Northeast => self.southwest = true,
            Direction::East => self.west = true,
            Direction::Southeast => self.northwest = true,
            Direction::South => self.north = true,
            Direction::Southwest => self.northeast = true,
            Direction::West => self.east = true,
            Direction::Northwest => self.southeast = true,
        }
    }

    /// Forgets every claim.
    pub fn clear(&mut self)
        ensures
            final(self).is_clear(),
    {
        self.south = false;
        self.southwest = false;
        self.west = false;
        self.northwest = false;
        self.north = false;
        self.northeast = false;
        self.east = false;
        self.southeast = false;
    }

    /// The cell is contested: moves from two or more directions claim it.
    pub fn is_conflicted(&self) -> (r: bool)
        ensures
            r == (self.claim_count() >= 2),
    {
        let count: usize = (if self.north { 1usize } else { 0 }) + (if self.northeast { 1usize } else { 0 })
            + (if self.east { 1usize } else { 0 }) + (if self.southeast { 1usize } else { 0 })
            + (if self.south { 1usize } else { 0 }) + (if self.southwest { 1usize } else { 0 })
            + (if self.west { 1usize } else { 0 }) + (if self.northwest { 1usize } else { 0 });
        proof {
            assert(self.claim_count() == count) by {
                assert(self.arrived(Direction::North) == self.south);
                assert(self.arrived(Direction::Northeast) == self.southwest);
                assert(self.arrived(Direction::East) == self.west);
                assert(self.arrived(Direction::Southeast) == self.northwest);
                assert(self.arrived(Direction::South) == self.north);
                assert(self.arrived(Direction::Southwest) == self.northeast);
                assert(self.arrived(Direction::West) == self.east);
                assert(self.arrived(Direction::Northwest) == self.southeast);
            }
        }
        count > 1
    }
}

/// The stepping engine: a world and the per-cell scratch layers of a tick.
pub struct WorldProcessor {
    world: World,
    locations: Vec<Location>,
    action_grid: Vec<Option<Action>>,
    conflict_grid: Vec<Conflict>,
    outcome_grid: Vec<Option<Outcome>>,
}

/// The abstract state of the engine.
pub struct ProcessorView {
    pub world: WorldView,
    /// The occupied locations snapshotted for the current tick, in entity id order.
    pub locations: Seq<Location>,
    pub actions: Seq<Option<Action>>,
    pub conflicts: Seq<Conflict>,
    pub outcomes: Seq<Option<Outcome>>,
}

impl ProcessorView {
    /// The world is well formed and each scratch layer has one slot per cell.
    pub open spec fn sized(self) -> bool {
        &&& self.world.wf()
        &&& self.actions.len() == self.world.cells.len()
        &&& self.conflicts.len() == self.world.cells.len()
        &&& self.outcomes.len() == self.world.cells.len()
    }

    /// Every scratch slot is empty: no action, no claim, no outcome.
    pub open spec fn scratch_clear(self) -> bool {
        &&& forall|i: int| 0 <= i < self.world.cells.len() ==> (#[trigger] self.actions[i]) is None
        &&& forall|i: int| 0 <= i < self.world.cells.len() ==> (#[trigger] self.conflicts[i]).is_clear()
        &&& forall|i: int| 0 <= i < self.world.cells.len() ==> (#[trigger] self.outcomes[i]) is None
    }

    /// The state between ticks.
    pub open spec fn idle(self) -> bool {
        &&& self.sized()
        &&& self.locations.len() == 0
        &&& self.scratch_clear()
    }

    /// The locations are those of the entities of `w0`, in id order.
    pub open spec fn snapshot_of(self, w0: WorldView) -> bool {
        &&& self.locations.len() == w0.entities.len()
        &&& forall|k: int| 0 <= k < w0.entities.len() ==> #[trigger] self.locations[k] == w0.entities[k].location
    }
}

/// The action slot of cell `i` once the entities with an id below `k` have chosen `acts`.
spec fn expected_action(w0: WorldView, acts: Seq<Action>, k: int, i: int) -> Option<Action> {
    match w0.cells[i] {
        Some(id) => if (id as int) < k {
            Some(acts[id as int])
        } else {
            None
        },
        None => None,
    }
}

/// The outcome slot of cell `i` once the entities with an id below `k` have been checked
/// against contested cells.
spec fn expected_block(w0: WorldView, acts: Seq<Action>, k: int, i: int) -> Option<Outcome> {
    match w0.cells[i] {
        Some(id) => if (id as int) < k && move_contested(w0, acts, id as int) {
            Some(Outcome::Blocked)
        } else {
            None
        },
        None => None,
    }
}

/// The outcome slot of cell `i` once the entities with an id below `k` have their outcome.
spec fn expected_outcome(w0: WorldView, acts: Seq<Action>, k: int, i: int) -> Option<Outcome> {
    match w0.cells[i] {
        Some(id) => if (id as int) < k {
            Some(outcome_of(w0, acts, id as int))
        } else {
            expected_block(w0, acts, w0.entities.len() as int, i)
        },
        None => None,
    }
}

/// The actions of entities below `k` are recorded, with their claims.
spec fn actions_recorded(v: ProcessorView, w0: WorldView, acts: Seq<Action>, k: int) -> bool {
    &&& forall|i: int| 0 <= i < v.actions.len() ==> #[trigger] v.actions[i] == expected_action(w0, acts, k, i)
    &&& forall|i: int, d: Direction|
        0 <= i < v.conflicts.len() ==> (#[trigger] v.conflicts[i].arrived(d) <==> claimed_in(w0, acts, 0, k, i, d))
}

/// Every part boundary of `n` items cut into `PARALLELISM` parts: the first part starts at
/// zero and the last ends at `n`.
proof fn lemma_parts_cover(n: int)
    requires
        0 <= n,
    ensures
        part_start(n, PARALLELISM as int, 0) == 0,
        part_start(n, PARALLELISM as int, PARALLELISM as int) == n,
{
    vstd::arithmetic::div_mod::lemma_div_by_multiple(n, PARALLELISM as int);
    assert(PARALLELISM as int * n == n * PARALLELISM as int) by (nonlinear_arith);
}

/// Drawing actions for a sequence of entities yields one action per entity.
proof fn lemma_draw_len(es: Seq<Entity>, rng: RngView)
    ensures
        draw_actions(es, rng).0.len() == es.len(),
    decreases es.len(),
{
    if es.len() > 0 {
        lemma_draw_len(es.drop_last(), rng);
    }
}

/// Claims by ids below `k + 1` under `acts.push(a)` are those below `k` under `acts`, and
/// that of entity `k`.
proof fn lemma_claims_extend(w0: WorldView, acts: Seq<Action>, a: Action, i: int, d: Direction)
    ensures
        claimed_in(w0, acts.push(a), 0, acts.len() as int + 1, i, d) <==> (claimed_in(w0, acts, 0, acts.len() as int, i, d)
            || claims(w0, acts.push(a), acts.len() as int, i, d)),
{
    let k = acts.len() as int;
    let ext = acts.push(a);
    if claimed_in(w0, ext, 0, k + 1, i, d) {
        let id = choose|id: int| 0 <= id < k + 1 && #[trigger] claims(w0, ext, id, i, d);
        if id < k {
            assert(ext[id] == acts[id]);
            assert(claims(w0, acts, id, i, d));
        }
    }
    if claimed_in(w0, acts, 0, k, i, d) {
        let id = choose|id: int| 0 <= id < k && #[trigger] claims(w0, acts, id, i, d);
        assert(ext[id] == acts[id]);
        assert(claims(w0, ext, id, i, d));
    }
}

impl View for WorldProcessor {
    type V = ProcessorView;

    closed spec fn view(&self) -> ProcessorView {
        ProcessorView {
            world: self.world@,
            locations: self.locations@,
            actions: self.action_grid@,
            conflicts: self.conflict_grid@,
            outcomes: self.outcome_grid@,
        }
    }
}

impl WorldProcessor {
    /// An engine that steps `world`, with empty scratch layers.
    pub fn init(world: World) -> (r: WorldProcessor)
        requires
            world.wf(),
        ensures
            r@.idle(),
            r@.world == world@,
    {
        let size = world.width() * world.height();
        let mut action_grid: Vec<Option<Action>> = Vec::with_capacity(size);
        let mut conflict_grid: Vec<Conflict> = Vec::with_capacity(size);
        let mut outcome_grid: Vec<Option<Outcome>> = Vec::with_capacity(size);
        let mut i: usize = 0;
        while i < size
            invariant
                i <= size,
                action_grid@.len() == i,
                conflict_grid@.len() == i,
                outcome_grid@.len() == i,
                forall|j: int| 0 <= j < i ==> (#[trigger] action_grid@[j]) is None,
                forall|j: int| 0 <= j < i ==> (#[trigger] conflict_grid@[j]).is_clear(),
                forall|j: int| 0 <= j < i ==> (#[trigger] outcome_grid@[j]) is None,
            decreases size - i,
        {
            action_grid.push(None);
            conflict_grid.push(Conflict::none());
            outcome_grid.push(None);
            i = i + 1;
        }
        WorldProcessor { world, locations: Vec::new(), action_grid, conflict_grid, outcome_grid }
    }

    pub fn world(&self) -> (r: &World)
        ensures
            r@ == self@.world,
    {
        &self.world
    }

    /// The action recorded at `location` this tick.
    pub fn action_at(&self, location: &Location) -> (r: Option<Action>)
        requires
            self@.sized(),
            location.wf(self@.world.width, self@.world.height),
        ensures
            r == self@.actions[location.idx()],
    {
        self.action_grid[location.index()]
    }

    /// The claims recorded at `location` this tick.
    pub fn conflict_at(&self, location: &Location) -> (r: Conflict)
        requires
            self@.sized(),
            location.wf(self@.world.width, self@.world.height),
        ensures
            r == self@.conflicts[location.idx()],
    {
        self.conflict_grid[location.index()]
    }

    /// The outcome recorded at `location` this tick.
    pub fn outcome_at(&self, location: &Location) -> (r: Option<Outcome>)
        requires
            self@.sized(),
            location.wf(self@.world.width, self@.world.height),
        ensures
            r == self@.outcomes[location.idx()],
    {
        self.outcome_grid[location.index()]
    }

    /// Chooses the action of each entity with an id in `[start, end)`, records it at the
    /// entity's cell, and flags the claim of a move on the cell it targets.
    fn determine_actions_for_slice(
        &mut self,
        start: usize,
        end: usize,
        rng: &mut RngBuffer,
        Ghost(rng0): Ghost<RngView>,
    )
        requires
            old(self)@.sized(),
            old(self)@.snapshot_of(old(self)@.world),
            start <= end <= old(self)@.world.entities.len(),
            old(rng).wf(),
            old(rng)@ == draw_actions(old(self)@.world.entities.take(start as int), rng0).1,
            actions_recorded(
                old(self)@,
                old(self)@.world,
                draw_actions(old(self)@.world.entities.take(start as int), rng0).0,
                start as int,
            ),
        ensures
            final(self)@ == (ProcessorView {
                actions: final(self)@.actions,
                conflicts: final(self)@.conflicts,
                ..old(self)@
            }),
            final(self)@.sized(),
            final(rng).wf(),
            final(rng)@ == draw_actions(old(self)@.world.entities.take(end as int), rng0).1,
            actions_recorded(
                final(self)@,
                old(self)@.world,
                draw_actions(old(self)@.world.entities.take(end as int), rng0).0,
                end as int,
            ),
    {
        let ghost w0 = self@.world;
        let mut k: usize = start;
        while k < end
            invariant
                start <= k <= end,
                end <= w0.entities.len(),
                w0 == old(self)@.world,
                self@ == (ProcessorView { actions: self@.actions, conflicts: self@.conflicts, ..old(self)@ }),
                self@.sized(),
                self@.snapshot_of(w0),
                rng.wf(),
                rng@ == draw_actions(w0.entities.take(k as int), rng0).1,
                actions_recorded(self@, w0, draw_actions(w0.entities.take(k as int), rng0).0, k as int),
            decreases end - k,
        {
            let ghost acts = draw_actions(w0.entities.take(k as int), rng0).0;
            let ghost rng_before = rng@;
            let ghost before = self.conflict_grid@;
            proof {
                lemma_draw_len(w0.entities.take(k as int), rng0);
                assert(w0.placed(k as int));
            }
            let location = self.locations[k];
            let entity = *self.world.get_entity(&location).unwrap();
            let action = entity.determine_action(&self.world, rng);
            let ghost next = acts.push(action);
            proof {
                assert(next.len() == k + 1);
                let es = w0.entities.take(k as int + 1);
                assert(es.drop_last() =~= w0.entities.take(k as int));
                assert(es.last() == w0.entities[k as int]);
                assert(draw_actions(es, rng0) == (next, rng@));
            }
            let ghost pre = self@;
            match action.conflicting_directions() {
                None => {},
                Some(directions) => {
                    let mut j: usize = 0;
                    while j < directions.len()
                        invariant
                            j <= directions@.len(),
                            directions@.len() == 1,
                            action == Action::Move(directions@[0]),
                            next.len() == k + 1,
                            next[k as int] == action,
                            (k as int) < w0.entities.len(),
                            w0 == old(self)@.world,
                            w0.wf(),
                            entity == w0.entities[k as int],
                            entity.location.wf(w0.width, w0.height),
                            self@ == (ProcessorView { conflicts: self@.conflicts, ..pre }),
                            pre.world == w0,
                            self@.conflicts.len() == before.len(),
                            before.len() == w0.cells.len(),
                            forall|i: int, d: Direction|
                                0 <= i < before.len() ==> (#[trigger] self@.conflicts[i].arrived(d) <==> (
                                before[i].arrived(d) || (j > 0 && claims(w0, next, k as int, i, d)))),
                        decreases directions@.len() - j,
                    {
                        let direction = directions[j];
                        let conflict_location = self.world.add(&entity.location, &direction);
                        let index = conflict_location.index();
                        let mut conflict = self.conflict_grid[index];
                        conflict.add_from(&direction);
                        self.conflict_grid.set(index, conflict);
                        proof {
                            assert(index == target_index(w0, k as int, direction));
                            assert forall|i: int, d: Direction|
                                0 <= i < before.len() implies (#[trigger] self@.conflicts[i].arrived(d) <==> (
                                before[i].arrived(d) || claims(w0, next, k as int, i, d))) by {
                                if i != index {
                                    assert(!claims(w0, next, k as int, i, d) || d != direction);
                                }
                            }
                        }
                        j = j + 1;
                    }
                },
            }
            self.action_grid.set(entity.location.index(), Some(action));
            proof {
                let v = self@;
                assert forall|i: int| 0 <= i < v.actions.len() implies #[trigger] v.actions[i]
                    == expected_action(w0, next, k as int + 1, i) by {
                    if i != location.idx() {
                        if let Some(id) = w0.cells[i] {
                            assert(id != k);
                            if (id as int) < k {
                                assert(next[id as int] == acts[id as int]);
                            }
                        }
                    }
                }
                assert forall|i: int, d: Direction| 0 <= i < v.conflicts.len() implies (
                    #[trigger] v.conflicts[i].arrived(d) <==> claimed_in(w0, next, 0, k as int + 1, i, d)) by {
                    lemma_claims_extend(w0, acts, action, i, d);
                    if !(action is Move) {
                        assert(!claims(w0, next, k as int, i, d));
                    }
                }
            }
            k = k + 1;
        }
    }

    /// Phase one: every entity chooses its action, part by part, and moves flag the cells
    /// they claim.
    fn determine_actions(&mut self, rng: &mut RngBuffer)
        requires
            old(self)@.sized(),
            old(self)@.snapshot_of(old(self)@.world),
            old(self)@.scratch_clear(),
            old(rng).wf(),
        ensures
            final(self)@ == (ProcessorView {
                actions: final(self)@.actions,
                conflicts: final(self)@.conflicts,
                ..old(self)@
            }),
            final(self)@.sized(),
            final(rng).wf(),
            final(rng)@ == draw_actions(old(self)@.world.entities, old(rng)@).1,
            actions_recorded(
                final(self)@,
                old(self)@.world,
                draw_actions(old(self)@.world.entities, old(rng)@).0,
                old(self)@.world.entities.len() as int,
            ),
    {
        let ghost w0 = self@.world;
        let ghost rng0 = rng@;
        let total = self.locations.len();
        proof {
            lemma_parts_cover(total as int);
            assert(w0.entities.take(0) =~= Seq::<Entity>::empty());
            let acts = draw_actions(w0.entities.take(0), rng0).0;
            assert forall|i: int, d: Direction| 0 <= i < self@.conflicts.len() implies (
                #[trigger] self@.conflicts[i].arrived(d) <==> claimed_in(w0, acts, 0, 0, i, d)) by {
                assert(self@.conflicts[i].is_clear());
            }
            assert forall|i: int| 0 <= i < self@.actions.len() implies #[trigger] self@.actions[i]
                == expected_action(w0, acts, 0, i) by {
                assert(self@.actions[i] is None);
            }
        }
        let mut i: usize = 0;
        while i < PARALLELISM
            invariant
                i <= PARALLELISM,
                total == w0.entities.len(),
                w0 == old(self)@.world,
                self@ == (ProcessorView { actions: self@.actions, conflicts: self@.conflicts, ..old(self)@ }),
                self@.sized(),
                self@.snapshot_of(w0),
                rng.wf(),
                ({
                    let done = part_start(total as int, PARALLELISM as int, i as int);
                    &&& rng@ == draw_actions(w0.entities.take(done), rng0).1
                    &&& actions_recorded(self@, w0, draw_actions(w0.entities.take(done), rng0).0, done)
                }),
            decreases PARALLELISM - i,
        {
            let (slice_start, slice_end) = slice_bounds(total, PARALLELISM, i);
            self.determine_actions_for_slice(slice_start, slice_end, rng, Ghost(rng0));
            i = i + 1;
        }
        proof {
            assert(w0.entities.take(total as int) =~= w0.entities);
        }
    }

    /// Marks as blocked each entity with an id in `[start, end)` whose move targets a
    /// contested cell.
    fn resolve_conflicts_for_slice(&mut self, start: usize, end: usize, Ghost(acts): Ghost<Seq<Action>>)
        requires
            old(self)@.sized(),
            old(self)@.snapshot_of(old(self)@.world),
            acts.len() == old(self)@.world.entities.len(),
            start <= end <= acts.len(),
            actions_recorded(old(self)@, old(self)@.world, acts, acts.len() as int),
            forall|i: int|
                0 <= i < old(self)@.outcomes.len() ==> #[trigger] old(self)@.outcomes[i] == expected_block(
                    old(self)@.world,
                    acts,
                    start as int,
                    i,
                ),
        ensures
            final(self)@ == (ProcessorView { outcomes: final(self)@.outcomes, ..old(self)@ }),
            final(self)@.sized(),
            forall|i: int|
                0 <= i < final(self)@.outcomes.len() ==> #[trigger] final(self)@.outcomes[i] == expected_block(
                    old(self)@.world,
                    acts,
                    end as int,
                    i,
                ),
    {
        let ghost w0 = self@.world;
        let mut k: usize = start;
        while k < end
            invariant
                start <= k <= end,
                end <= acts.len(),
                acts.len() == w0.entities.len(),
                w0 == old(self)@.world,
                self@ == (ProcessorView { outcomes: self@.outcomes, ..old(self)@ }),
                self@.sized(),
                self@.snapshot_of(w0),
                actions_recorded(self@, w0, acts, acts.len() as int),
                forall|i: int|
                    0 <= i < self@.outcomes.len() ==> #[trigger] self@.outcomes[i] == expected_block(w0, acts, k as int, i),
            decreases end - k,
        {
            let location = self.locations[k];
            proof {
                assert(w0.placed(k as int));
                assert(self@.actions[location.idx()] == expected_action(w0, acts, acts.len() as int, location.idx()));
            }
            let action = self.action_grid[location.index()].unwrap();
            let ghost pre = self@;
            match action.conflicting_directions() {
                None => {},
                Some(directions) => {
                    let mut j: usize = 0;
                    while j < directions.len()
                        invariant
                            j <= directions@.len(),
                            directions@.len() == 1,
                            action == Action::Move(directions@[0]),
                            acts[k as int] == action,
                            (k as int) < acts.len(),
                            acts.len() == w0.entities.len(),
                            w0 == old(self)@.world,
                            w0.wf(),
                            location == w0.entities[k as int].location,
                            location.wf(w0.width, w0.height),
                            pre.world == w0,
                            pre.sized(),
                            actions_recorded(pre, w0, acts, acts.len() as int),
                            self@ == (ProcessorView { outcomes: self@.outcomes, ..pre }),
                            self@.outcomes == if j > 0 && move_contested(w0, acts, k as int) {
                                pre.outcomes.update(location.idx(), Some(Outcome::Blocked))
                            } else {
                                pre.outcomes
                            },
                        decreases directions@.len() - j,
                    {
                        let direction = directions[j];
                        let conflict_location = self.world.add(&location, &direction);
                        let contested_here = self.conflict_grid[conflict_location.index()].is_conflicted();
                        proof {
                            let t = conflict_location.idx();
                            assert(t == target_index(w0, k as int, direction));
                            let c = pre.conflicts[t];
                            assert(c.arrived(Direction::North) == claimed_in(w0, acts, 0, acts.len() as int, t, Direction::North));
                            assert(c.arrived(Direction::Northeast) == claimed_in(w0, acts, 0, acts.len() as int, t, Direction::Northeast));
                            assert(c.arrived(Direction::East) == claimed_in(w0, acts, 0, acts.len() as int, t, Direction::East));
                            assert(c.arrived(Direction::Southeast) == claimed_in(w0, acts, 0, acts.len() as int, t, Direction::Southeast));
                            assert(c.arrived(Direction::South) == claimed_in(w0, acts, 0, acts.len() as int, t, Direction::South));
                            assert(c.arrived(Direction::Southwest) == claimed_in(w0, acts, 0, acts.len() as int, t, Direction::Southwest));
                            assert(c.arrived(Direction::West) == claimed_in(w0, acts, 0, acts.len() as int, t, Direction::West));
                            assert(c.arrived(Direction::Northwest) == claimed_in(w0, acts, 0, acts.len() as int, t, Direction::Northwest));
                            assert(contested_here == contested(w0, acts, t));
                        }
                        if contested_here {
                            self.outcome_grid.set(location.index(), Some(Outcome::Blocked));
                        }
                        j = j + 1;
                    }
                },
            }
            proof {
                let v = self@;
                assert forall|i: int| 0 <= i < v.outcomes.len() implies #[trigger] v.outcomes[i]
                    == expected_block(w0, acts, k as int + 1, i) by {
                    assert(pre.outcomes[i] == expected_block(w0, acts, k as int, i));
                    if i != location.idx() {
                        if let Some(id) = w0.cells[i] {
                            assert(id != k);
                        }
                    } else {
                        assert(w0.cells[i] == Some(k));
                    }
                }
            }
            k = k + 1;
        }
    }

    /// Phase two: part by part, blocks every move into a contested cell.
    fn resolve_conflicts(&mut self, Ghost(acts): Ghost<Seq<Action>>)
        requires
            old(self)@.sized(),
            old(self)@.snapshot_of(old(self)@.world),
            forall|i: int| 0 <= i < old(self)@.outcomes.len() ==> (#[trigger] old(self)@.outcomes[i]) is None,
            acts.len() == old(self)@.world.entities.len(),
            actions_recorded(old(self)@, old(self)@.world, acts, acts.len() as int),
        ensures
            final(self)@ == (ProcessorView { outcomes: final(self)@.outcomes, ..old(self)@ }),
            final(self)@.sized(),
            forall|i: int|
                0 <= i < final(self)@.outcomes.len() ==> #[trigger] final(self)@.outcomes[i] == expected_block(
                    old(self)@.world,
                    acts,
                    acts.len() as int,
                    i,
                ),
    {
        let ghost w0 = self@.world;
        let total = self.locations.len();
        proof {
            lemma_parts_cover(total as int);
            assert forall|i: int| 0 <= i < self@.outcomes.len() implies #[trigger] self@.outcomes[i]
                == expected_block(w0, acts, 0, i) by {
                assert(self@.outcomes[i] is None);
            }
        }
        let mut i: usize = 0;
        while i < PARALLELISM
            invariant
                i <= PARALLELISM,
                total == w0.entities.len(),
                acts.len() == w0.entities.len(),
                w0 == old(self)@.world,
                self@ == (ProcessorView { outcomes: self@.outcomes, ..old(self)@ }),
                self@.sized(),
                self@.snapshot_of(w0),
                actions_recorded(self@, w0, acts, acts.len() as int),
                forall|c: int|
                    0 <= c < self@.outcomes.len() ==> #[trigger] self@.outcomes[c] == expected_block(
                        w0,
                        acts,
                        part_start(total as int, PARALLELISM as int, i as int),
                        c,
                    ),
            decreases PARALLELISM - i,
        {
            let (slice_start, slice_end) = slice_bounds(total, PARALLELISM, i);
            self.resolve_conflicts_for_slice(slice_start, slice_end, Ghost(acts));
            i = i + 1;
        }
    }

    /// Gives each entity with an id in `[start, end)` that is not blocked the outcome of its
    /// action judged by occupancy.
    fn determine_outcomes_for_slice(&mut self, start: usize, end: usize, Ghost(acts): Ghost<Seq<Action>>)
        requires
            old(self)@.sized(),
            old(self)@.snapshot_of(old(self)@.world),
            acts.len() == old(self)@.world.entities.len(),
            start <= end <= acts.len(),
            actions_recorded(old(self)@, old(self)@.world, acts, acts.len() as int),
            forall|i: int|
                0 <= i < old(self)@.outcomes.len() ==> #[trigger] old(self)@.outcomes[i] == expected_outcome(
                    old(self)@.world,
                    acts,
                    start as int,
                    i,
                ),
        ensures
            final(self)@ == (ProcessorView { outcomes: final(self)@.outcomes, ..old(self)@ }),
            final(self)@.sized(),
            forall|i: int|
                0 <= i < final(self)@.outcomes.len() ==> #[trigger] final(self)@.outcomes[i] == expected_outcome(
                    old(self)@.world,
                    acts,
                    end as int,
                    i,
                ),
    {
        let ghost w0 = self@.world;
        let mut k: usize = start;
        while k < end
            invariant
                start <= k <= end,
                end <= acts.len(),
                acts.len() == w0.entities.len(),
                w0 == old(self)@.world,
                self@ == (ProcessorView { outcomes: self@.outcomes, ..old(self)@ }),
                self@.sized(),
                self@.snapshot_of(w0),
                actions_recorded(self@, w0, acts, acts.len() as int),
                forall|i: int|
                    0 <= i < self@.outcomes.len() ==> #[trigger] self@.outcomes[i] == expected_outcome(
                        w0,
                        acts,
                        k as int,
                        i,
                    ),
            decreases end - k,
        {
            let location = self.locations[k];
            proof {
                assert(w0.placed(k as int));
                assert(self@.actions[location.idx()] == expected_action(w0, acts, acts.len() as int, location.idx()));
                assert(self@.outcomes[location.idx()] == expected_outcome(w0, acts, k as int, location.idx()));
            }
            let entity = *self.world.get_entity(&location).unwrap();
            let action = self.action_grid[location.index()].unwrap();
            let ghost pre = self@;
            if self.outcome_grid[location.index()].is_none() {
                let outcome = action.resolve(&entity, &self.world);
                self.outcome_grid.set(location.index(), Some(outcome));
            }
            proof {
                let v = self@;
                assert forall|i: int| 0 <= i < v.outcomes.len() implies #[trigger] v.outcomes[i]
                    == expected_outcome(w0, acts, k as int + 1, i) by {
                    assert(pre.outcomes[i] == expected_outcome(w0, acts, k as int, i));
                    if i != location.idx() {
                        if let Some(id) = w0.cells[i] {
                            assert(id != k);
                        }
                    } else {
                        assert(w0.cells[i] == Some(k));
                    }
                }
            }
            k = k + 1;
        }
    }

    /// Phase three: part by part, every entity that is not blocked gets the outcome of its
    /// action judged by occupancy.
    fn determine_outcomes(&mut self, Ghost(acts): Ghost<Seq<Action>>)
        requires
            old(self)@.sized(),
            old(self)@.snapshot_of(old(self)@.world),
            acts.len() == old(self)@.world.entities.len(),
            actions_recorded(old(self)@, old(self)@.world, acts, acts.len() as int),
            forall|i: int|
                0 <= i < old(self)@.outcomes.len() ==> #[trigger] old(self)@.outcomes[i] == expected_block(
                    old(self)@.world,
                    acts,
                    acts.len() as int,
                    i,
                ),
        ensures
            final(self)@ == (ProcessorView { outcomes: final(self)@.outcomes, ..old(self)@ }),
            final(self)@.sized(),
            forall|i: int|
                0 <= i < final(self)@.outcomes.len() ==> #[trigger] final(self)@.outcomes[i] == expected_outcome(
                    old(self)@.world,
                    acts,
                    acts.len() as int,
                    i,
                ),
    {
        let ghost w0 = self@.world;
        let total = self.locations.len();
        proof {
            lemma_parts_cover(total as int);
            assert forall|i: int| 0 <= i < self@.outcomes.len() implies #[trigger] self@.outcomes[i]
                == expected_outcome(w0, acts, 0, i) by {
                assert(self@.outcomes[i] == expected_block(w0, acts, acts.len() as int, i));
            }
        }
        let mut i: usize = 0;
        while i < PARALLELISM
            invariant
                i <= PARALLELISM,
                total == w0.entities.len(),
                acts.len() == w0.entities.len(),
                w0 == old(self)@.world,
                self@ == (ProcessorView { outcomes: self@.outcomes, ..old(self)@ }),
                self@.sized(),
                self@.snapshot_of(w0),
                actions_recorded(self@, w0, acts, acts.len() as int),
                forall|c: int|
                    0 <= c < self@.outcomes.len() ==> #[trigger] self@.outcomes[c] == expected_outcome(
                        w0,
                        acts,
                        part_start(total as int, PARALLELISM as int, i as int),
                        c,
                    ),
            decreases PARALLELISM - i,
        {
            let (slice_start, slice_end) = slice_bounds(total, PARALLELISM, i);
            self.determine_outcomes_for_slice(slice_start, slice_end, Ghost(acts));
            i = i + 1;
        }
    }

    /// Moves the entity at `location`, entity `k` of `w0`, whose outcome is a move in
    /// `direction`. The destination is free by the resolution rules, so the move succeeds.
    fn resolve_move(
        &mut self,
        location: &Location,
        direction: &Direction,
        Ghost(w0): Ghost<WorldView>,
        Ghost(acts): Ghost<Seq<Action>>,
        Ghost(k): Ghost<int>,
    )
        requires
            w0.wf(),
            acts.len() == w0.entities.len(),
            0 <= k < acts.len(),
            applied_upto(old(self)@.world, w0, acts, k),
            *location == w0.entities[k].location,
            outcome_of(w0, acts, k) == Outcome::Move(*direction),
        ensures
            final(self)@ == (ProcessorView { world: final(self)@.world, ..old(self)@ }),
            applied_upto(final(self)@.world, w0, acts, k + 1),
    {
        let ghost wc = self@.world;
        proof {
            lemma_move_unobstructed(wc, w0, acts, k, *direction);
            assert(w0.placed(k));
            assert(wc.occupant(*location) == Some(k as usize));
            let target = wc.target(*location, *direction);
            assert(target == w0.target(w0.entities[k].location, *direction));
            assert(target.0 + wc.width * target.1 == target_index(w0, k, *direction));
        }
        let result = self.world.move_entity(location, direction);
        proof {
            assert(result is Ok);
            let v = self@.world;
            assert forall|id: int| 0 <= id < k + 1 implies #[trigger] entity_after(v, w0, acts, id) by {
                if id < k {
                    assert(entity_after(wc, w0, acts, id));
                    assert(v.entities[id] == wc.entities[id]);
                }
            }
            assert forall|id: int| k + 1 <= id < w0.entities.len() implies #[trigger] v.entities[id]
                == w0.entities[id] by {
                assert(wc.entities[id] == w0.entities[id]);
            }
        }
    }

    /// Turns the entity at `location`, entity `k` of `w0`, whose outcome is a turn to
    /// `facing`.
    fn resolve_turn(
        &mut self,
        location: &Location,
        facing: &Direction,
        Ghost(w0): Ghost<WorldView>,
        Ghost(acts): Ghost<Seq<Action>>,
        Ghost(k): Ghost<int>,
    )
        requires
            w0.wf(),
            acts.len() == w0.entities.len(),
            0 <= k < acts.len(),
            applied_upto(old(self)@.world, w0, acts, k),
            *location == w0.entities[k].location,
            outcome_of(w0, acts, k) == Outcome::Turn(*facing),
        ensures
            final(self)@ == (ProcessorView { world: final(self)@.world, ..old(self)@ }),
            applied_upto(final(self)@.world, w0, acts, k + 1),
    {
        let ghost wc = self@.world;
        proof {
            assert(wc.entities[k] == w0.entities[k]);
            assert(wc.placed(k));
        }
        let result = self.world.set_facing(location, *facing);
        proof {
            assert(result is Ok);
            let v = self@.world;
            assert forall|id: int| 0 <= id < k + 1 implies #[trigger] entity_after(v, w0, acts, id) by {
                if id < k {
                    assert(entity_after(wc, w0, acts, id));
                    assert(v.entities[id] == wc.entities[id]);
                }
            }
            assert forall|id: int| k + 1 <= id < w0.entities.len() implies #[trigger] v.entities[id]
                == w0.entities[id] by {
                assert(wc.entities[id] == w0.entities[id]);
            }
        }
    }

    /// Applies the outcome of entity `k` of `w0`, which stands at `location`.
    fn apply_outcome_for_location(
        &mut self,
        location: &Location,
        outcome: &Outcome,
        Ghost(w0): Ghost<WorldView>,
        Ghost(acts): Ghost<Seq<Action>>,
        Ghost(k): Ghost<int>,
    )
        requires
            w0.wf(),
            acts.len() == w0.entities.len(),
            0 <= k < acts.len(),
            applied_upto(old(self)@.world, w0, acts, k),
            *location == w0.entities[k].location,
            *outcome == outcome_of(w0, acts, k),
        ensures
            final(self)@ == (ProcessorView { world: final(self)@.world, ..old(self)@ }),
            applied_upto(final(self)@.world, w0, acts, k + 1),
    {
        proof {
            let wc = self@.world;
            assert(wc.entities[k] == w0.entities[k]);
        }
        match outcome {
            Outcome::Wait => {},
            Outcome::Move(direction) => self.resolve_move(location, direction, Ghost(w0), Ghost(acts), Ghost(k)),
            Outcome::Turn(facing) => self.resolve_turn(location, facing, Ghost(w0), Ghost(acts), Ghost(k)),
            Outcome::Blocked => {},
        }
    }

    /// Applies the outcomes of the entities with an id in `[start, end)`, in id order.
    fn apply_outcomes_for_slice(
        &mut self,
        start: usize,
        end: usize,
        Ghost(w0): Ghost<WorldView>,
        Ghost(acts): Ghost<Seq<Action>>,
    )
        requires
            w0.wf(),
            old(self)@.sized(),
            old(self)@.snapshot_of(w0),
            old(self)@.outcomes.len() == w0.cells.len(),
            acts.len() == w0.entities.len(),
            start <= end <= acts.len(),
            forall|i: int|
                0 <= i < old(self)@.outcomes.len() ==> #[trigger] old(self)@.outcomes[i] == expected_outcome(
                    w0,
                    acts,
                    acts.len() as int,
                    i,
                ),
            applied_upto(old(self)@.world, w0, acts, start as int),
        ensures
            final(self)@ == (ProcessorView { world: final(self)@.world, ..old(self)@ }),
            final(self)@.sized(),
            applied_upto(final(self)@.world, w0, acts, end as int),
    {
        let mut k: usize = start;
        while k < end
            invariant
                start <= k <= end,
                end <= acts.len(),
                acts.len() == w0.entities.len(),
                w0.wf(),
                old(self)@.outcomes.len() == w0.cells.len(),
                self@ == (ProcessorView { world: self@.world, ..old(self)@ }),
                self@.sized(),
                self@.snapshot_of(w0),
                forall|i: int|
                    0 <= i < self@.outcomes.len() ==> #[trigger] self@.outcomes[i] == expected_outcome(
                        w0,
                        acts,
                        acts.len() as int,
                        i,
                    ),
                applied_upto(self@.world, w0, acts, k as int),
            decreases end - k,
        {
            let location = self.locations[k];
            proof {
                assert(w0.placed(k as int));
                assert(self@.outcomes[location.idx()] == expected_outcome(w0, acts, acts.len() as int, location.idx()));
            }
            let outcome = self.outcome_grid[location.index()].unwrap();
            self.apply_outcome_for_location(&location, &outcome, Ghost(w0), Ghost(acts), Ghost(k as int));
            k = k + 1;
        }
    }

    /// Phase four: part by part, applies every outcome to the world.
    fn apply_outcomes(&mut self, Ghost(acts): Ghost<Seq<Action>>)
        requires
            old(self)@.sized(),
            old(self)@.snapshot_of(old(self)@.world),
            acts.len() == old(self)@.world.entities.len(),
            forall|i: int|
                0 <= i < old(self)@.outcomes.len() ==> #[trigger] old(self)@.outcomes[i] == expected_outcome(
                    old(self)@.world,
                    acts,
                    acts.len() as int,
                    i,
                ),
        ensures
            final(self)@ == (ProcessorView { world: final(self)@.world, ..old(self)@ }),
            final(self)@.sized(),
            ticked(final(self)@.world, old(self)@.world, acts),
    {
        let ghost w0 = self@.world;
        let total = self.locations.len();
        proof {
            lemma_parts_cover(total as int);
        }
        let mut i: usize = 0;
        while i < PARALLELISM
            invariant
                i <= PARALLELISM,
                total == w0.entities.len(),
                acts.len() == w0.entities.len(),
                w0 == old(self)@.world,
                w0.wf(),
                self@ == (ProcessorView { world: self@.world, ..old(self)@ }),
                self@.sized(),
                self@.snapshot_of(w0),
                self@.outcomes.len() == w0.cells.len(),
                forall|c: int|
                    0 <= c < self@.outcomes.len() ==> #[trigger] self@.outcomes[c] == expected_outcome(
                        w0,
                        acts,
                        acts.len() as int,
                        c,
                    ),
                applied_upto(self@.world, w0, acts, part_start(total as int, PARALLELISM as int, i as int)),
            decreases PARALLELISM - i,
        {
            let (slice_start, slice_end) = slice_bounds(total, PARALLELISM, i);
            self.apply_outcomes_for_slice(slice_start, slice_end, Ghost(w0), Ghost(acts));
            i = i + 1;
        }
    }

    /// Empties the scratch slots that this tick touched: the action and outcome slots of every
    /// processed location and the claims on every cell that a move targeted. Then forgets the
    /// snapshot.
    fn clean_up(&mut self, Ghost(w0): Ghost<WorldView>, Ghost(acts): Ghost<Seq<Action>>)
        requires
            w0.wf(),
            old(self)@.sized(),
            old(self)@.snapshot_of(w0),
            old(self)@.world.width == w0.width,
            old(self)@.world.height == w0.height,
            old(self)@.actions.len() == w0.cells.len(),
            acts.len() == w0.entities.len(),
            actions_recorded(old(self)@, w0, acts, acts.len() as int),
            forall|i: int|
                0 <= i < old(self)@.outcomes.len() ==> #[trigger] old(self)@.outcomes[i] == expected_outcome(
                    w0,
                    acts,
                    acts.len() as int,
                    i,
                ),
        ensures
            final(self)@.world == old(self)@.world,
            final(self)@.idle(),
    {
        let n = self.locations.len();
        let mut k: usize = 0;
        while k < n
            invariant
                k <= n,
                n == acts.len(),
                acts.len() == w0.entities.len(),
                w0.wf(),
                self@.world == old(self)@.world,
                self@.locations == old(self)@.locations,
                self@.sized(),
                self@.snapshot_of(w0),
                self@.world.width == w0.width,
                self@.world.height == w0.height,
                self@.actions.len() == w0.cells.len(),
                forall|i: int|
                    0 <= i < self@.actions.len() ==> #[trigger] self@.actions[i] == if w0.cells[i] is Some
                        && w0.cells[i]->0 >= k {
                        expected_action(w0, acts, acts.len() as int, i)
                    } else {
                        None
                    },
                forall|i: int|
                    0 <= i < self@.outcomes.len() && (#[trigger] self@.outcomes[i]) is Some ==> w0.cells[i] is Some
                        && w0.cells[i]->0 >= k,
                forall|i: int, d: Direction|
                    0 <= i < self@.conflicts.len() && #[trigger] self@.conflicts[i].arrived(d) ==> claimed_in(
                        w0,
                        acts,
                        k as int,
                        acts.len() as int,
                        i,
                        d,
                    ),
            decreases n - k,
        {
            let location = self.locations[k];
            let index = location.index();
            let ghost pre = self@;
            proof {
                assert(w0.placed(k as int));
                assert(pre.actions[index as int] == Some(acts[k as int]));
            }
            let ghost mut cleared: int = -1;
            match self.action_grid[index] {
                Some(Action::Move(direction)) => {
                    let target = self.world.add(&location, &direction);
                    let mut conflict = self.conflict_grid[target.index()];
                    conflict.clear();
                    self.conflict_grid.set(target.index(), conflict);
                    proof {
                        cleared = target.idx();
                        assert(cleared == target_index(w0, k as int, direction));
                    }
                },
                _ => {},
            }
            self.action_grid.set(index, None);
            self.outcome_grid.set(index, None);
            proof {
                let v = self@;
                assert forall|i: int, d: Direction|
                    0 <= i < v.conflicts.len() && #[trigger] v.conflicts[i].arrived(d) implies claimed_in(
                    w0,
                    acts,
                    k as int + 1,
                    acts.len() as int,
                    i,
                    d,
                ) by {
                    if i != cleared {
                        assert(pre.conflicts[i].arrived(d));
                        let id = choose|id: int| k <= id < acts.len() && #[trigger] claims(w0, acts, id, i, d);
                        assert(id != k);
                    }
                }
                assert forall|i: int| 0 <= i < v.actions.len() implies #[trigger] v.actions[i] == if w0.cells[i] is Some
                    && w0.cells[i]->0 >= k + 1 {
                    expected_action(w0, acts, acts.len() as int, i)
                } else {
                    None
                } by {
                    assert(pre.actions[i] == if w0.cells[i] is Some && w0.cells[i]->0 >= k {
                        expected_action(w0, acts, acts.len() as int, i)
                    } else {
                        None
                    });
                    if i != index {
                        if let Some(id) = w0.cells[i] {
                            assert(id != k);
                        }
                    }
                }
                assert forall|i: int|
                    0 <= i < v.outcomes.len() && (#[trigger] v.outcomes[i]) is Some implies w0.cells[i] is Some
                    && w0.cells[i]->0 >= k + 1 by {
                    assert(pre.outcomes[i] is Some);
                    if let Some(id) = w0.cells[i] {
                        assert(id != k);
                    }
                }
            }
            k = k + 1;
        }
        self.locations.clear();
        proof {
            let v = self@;
            assert forall|i: int| 0 <= i < v.world.cells.len() implies (#[trigger] v.conflicts[i]).is_clear() by {
                assert forall|d: Direction| !#[trigger] v.conflicts[i].arrived(d) by {
                    if v.conflicts[i].arrived(d) {
                        assert(claimed_in(w0, acts, acts.len() as int, acts.len() as int, i, d));
                    }
                }
            }
            assert forall|i: int| 0 <= i < v.world.cells.len() implies (#[trigger] v.actions[i]) is None by {
                if let Some(id) = w0.cells[i] {
                    assert(w0.entities[id as int].location.idx() == i);
                }
            }
            assert forall|i: int| 0 <= i < v.world.cells.len() implies (#[trigger] v.outcomes[i]) is None by {
                if v.outcomes[i] is Some {
                    let id = w0.cells[i]->0;
                    assert(w0.entities[id as int].location.idx() == i);
                }
            }
        }
    }

    /// Advances the world by one tick. Every entity draws its action from `rng` in id order;
    /// moves into cells claimed from two or more directions are blocked, as are moves into
    /// cells held by another entity; the remaining outcomes are applied; the scratch layers
    /// are left empty.
    pub fn step(&mut self, rng: &mut RngBuffer)
        requires
            old(self)@.idle(),
            old(rng).wf(),
        ensures
            final(self)@.idle(),
            final(self)@.world.wf(),
            final(self)@.world.entities.len() == old(self)@.world.entities.len(),
            final(rng).wf(),
            final(rng)@ == draw_actions(old(self)@.world.entities, old(rng)@).1,
            ticked(final(self)@.world, old(self)@.world, draw_actions(old(self)@.world.entities, old(rng)@).0),
    {
        let ghost w0 = self@.world;
        let ghost acts = draw_actions(w0.entities, rng@).0;
        proof {
            lemma_draw_len(w0.entities, rng@);
        }
        self.get_locations_for_processing();
        self.determine_actions(rng);
        self.resolve_conflicts(Ghost(acts));
        self.determine_outcomes(Ghost(acts));
        self.apply_outcomes(Ghost(acts));
        self.clean_up(Ghost(w0), Ghost(acts));
    }

    /// Paints the frame black, then the cell of every entity in the entity's colour.
    pub fn draw(&self, buffer: &mut PixelBuffer)
        requires
            self@.world.wf(),
            old(buffer).wf(),
            old(buffer)@.width == self@.world.width,
            old(buffer)@.height == self@.world.height,
        ensures
            final(buffer).wf(),
            final(buffer)@.width == old(buffer)@.width,
            final(buffer)@.height == old(buffer)@.height,
            forall|i: int|
                0 <= i < self@.world.cells.len() ==> #[trigger] final(buffer)@.pixels[i] == if self@.world.cells[i] is Some {
                    rgb_value(255, 255, 255)
                } else {
                    rgb_value(0, 0, 0)
                },
    {
        let ghost w = self@.world;
        let ghost n = w.entities.len() as int;
        buffer.clear(Color::black());
        let entity_slices = self.world.entity_slices(PARALLELISM);
        let mut s: usize = 0;
        while s < PARALLELISM
            invariant
                s <= PARALLELISM,
                w == self@.world,
                w.wf(),
                n == w.entities.len(),
                entity_slices@.len() == PARALLELISM,
                forall|i: int|
                    0 <= i < PARALLELISM ==> 0 <= #[trigger] part_start(n, PARALLELISM as int, i) <= part_start(
                        n,
                        PARALLELISM as int,
                        i + 1,
                    ) <= n,
                forall|i: int|
                    0 <= i < PARALLELISM ==> (#[trigger] entity_slices@[i])@ == w.entities.subrange(
                        part_start(n, PARALLELISM as int, i),
                        part_start(n, PARALLELISM as int, i + 1),
                    ),
                buffer.wf(),
                buffer@.width == w.width,
                buffer@.height == w.height,
                forall|i: int|
                    0 <= i < w.cells.len() ==> #[trigger] buffer@.pixels[i] == if w.cells[i] is Some && (
                    w.cells[i]->0 as int) < part_start(n, PARALLELISM as int, s as int) {
                        rgb_value(255, 255, 255)
                    } else {
                        rgb_value(0, 0, 0)
                    },
            decreases PARALLELISM - s,
        {
            let part = entity_slices[s];
            let ghost first = part_start(n, PARALLELISM as int, s as int);
            proof {
                vstd::arithmetic::div_mod::lemma_div_by_multiple(n, PARALLELISM as int);
                assert(0 <= part_start(n, PARALLELISM as int, s as int));
            }
            let mut j: usize = 0;
            while j < part.len()
                invariant
                    j <= part@.len(),
                    w.wf(),
                    n == w.entities.len(),
                    0 <= first,
                    first + part@.len() <= n,
                    part@ == w.entities.subrange(first, first + part@.len()),
                    buffer.wf(),
                    buffer@.width == w.width,
                    buffer@.height == w.height,
                    forall|i: int|
                        0 <= i < w.cells.len() ==> #[trigger] buffer@.pixels[i] == if w.cells[i] is Some && (
                        w.cells[i]->0 as int) < first + j {
                            rgb_value(255, 255, 255)
                        } else {
                            rgb_value(0, 0, 0)
                        },
                decreases part@.len() - j,
            {
                let entity = &part[j];
                let ghost id = first + j;
                proof {
                    assert(*entity == w.entities[id]);
                    assert(w.placed(id));
                }
                let location = entity.location;
                buffer.draw_pixel(location.x(), location.y(), entity.pixel_color());
                proof {
                    assert forall|i: int| 0 <= i < w.cells.len() implies #[trigger] buffer@.pixels[i] == if w.cells[i] is Some
                        && (w.cells[i]->0 as int) < first + j + 1 {
                        rgb_value(255, 255, 255)
                    } else {
                        rgb_value(0, 0, 0)
                    } by {
                        if i != location.idx() {
                            if let Some(other) = w.cells[i] {
                                assert(other as int != id);
                            }
                        }
                    }
                }
                j = j + 1;
            }
            s = s + 1;
        }
        proof {
            lemma_parts_cover(n);
            assert forall|i: int| 0 <= i < w.cells.len() implies #[trigger] buffer@.pixels[i] == if w.cells[i] is Some {
                rgb_value(255, 255, 255)
            } else {
                rgb_value(0, 0, 0)
            } by {
                if let Some(id) = w.cells[i] {
                    assert((id as int) < n);
                }
            }
        }
    }

    /// Snapshots the location of every entity, in id order.
    fn get_locations_for_processing(&mut self)
        requires
            old(self)@.idle(),
        ensures
            final(self)@ == (ProcessorView { locations: final(self)@.locations, ..old(self)@ }),
            final(self)@.snapshot_of(old(self)@.world),
    {
        let entities = self.world.iter_entities();
        let mut k: usize = 0;
        while k < entities.len()
            invariant
                k <= entities@.len(),
                entities@ == self.world@.entities,
                self.locations@.len() == k,
                forall|j: int| 0 <= j < k ==> #[trigger] self.locations@[j] == entities@[j].location,
                self@ == (ProcessorView { locations: self@.locations, ..old(self)@ }),
            decreases entities@.len() - k,
        {
            self.locations.push(entities[k].location);
            k = k + 1;
        }
    }
}

} // verus!
