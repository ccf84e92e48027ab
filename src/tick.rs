use vstd::prelude::*;
use crate::action::{resolve_spec, Action, Outcome};
use crate::entity::{policy, Entity};
use crate::grid::{count_directions, lemma_index_injective, lemma_step_in_range, lemma_step_injective, Direction};
use crate::rng_buffer::RngView;
use crate::world::WorldView;

verus! {

/// The actions that entities `es` choose one after the other, each drawing from `rng`, and
/// the state of `rng` after the last draw.
pub open spec fn draw_actions(es: Seq<Entity>, rng: RngView) -> (Seq<Action>, RngView)
    decreases es.len(),
{
    if es.len() == 0 {
        (Seq::empty(), rng)
    } else {
        let before = draw_actions(es.drop_last(), rng);
        let (action, after) = policy(es.last().facing, before.1);
        (before.0.push(action), after)
    }
}

/// Row-major index of the cell at coordinates `p`.
pub open spec fn index_of(w: WorldView, p: (int, int)) -> int {
    p.0 + w.width * p.1
}

/// Index of the cell that entity `id` enters by moving in direction `d`.
pub open spec fn target_index(w: WorldView, id: int, d: Direction) -> int {
    index_of(w, w.target(w.entities[id].location, d))
}

/// Entity `id` intends to enter cell `i` by moving in direction `d`.
pub open spec fn claims(w: WorldView, acts: Seq<Action>, id: int, i: int, d: Direction) -> bool {
    &&& acts[id] == Action::Move(d)
    &&& target_index(w, id, d) == i
}

/// Some entity with an id in `[lo, hi)` intends to enter cell `i` moving in direction `d`.
pub open spec fn claimed_in(w: WorldView, acts: Seq<Action>, lo: int, hi: int, i: int, d: Direction) -> bool {
    exists|id: int| lo <= id < hi && #[trigger] claims(w, acts, id, i, d)
}

/// Number of distinct directions from which moves claim cell `i`.
pub open spec fn claim_count(w: WorldView, acts: Seq<Action>, i: int) -> int {
    count_directions(|d: Direction| claimed_in(w, acts, 0, acts.len() as int, i, d))
}

/// Cell `i` is claimed from two or more directions.
pub open spec fn contested(w: WorldView, acts: Seq<Action>, i: int) -> bool {
    claim_count(w, acts, i) >= 2
}

/// Entity `id` intends to move into a contested cell.
pub open spec fn move_contested(w: WorldView, acts: Seq<Action>, id: int) -> bool {
    match acts[id] {
        Action::Move(d) => contested(w, acts, target_index(w, id, d)),
        _ => false,
    }
}

/// The outcome of entity `id` when all entities act by `acts`: a move into a contested cell
/// is blocked; otherwise the action is judged by occupancy alone.
pub open spec fn outcome_of(w: WorldView, acts: Seq<Action>, id: int) -> Outcome {
    if move_contested(w, acts, id) {
        Outcome::Blocked
    } else {
        resolve_spec(acts[id], w.entities[id], w)
    }
}

/// Entity `id` of `after` is entity `id` of `before` with its outcome applied: a move steps
/// it, a turn changes its facing, anything else leaves it as it was.
pub open spec fn entity_after(after: WorldView, before: WorldView, acts: Seq<Action>, id: int) -> bool {
    let e0 = before.entities[id];
    let e1 = after.entities[id];
    match outcome_of(before, acts, id) {
        Outcome::Move(d) => e1.location@ == before.target(e0.location, d) && e1.facing == e0.facing,
        Outcome::Turn(f) => e1.location == e0.location && e1.facing == f,
        _ => e1 == e0,
    }
}

/// The entities of `after` with an id below `k` have their outcomes applied; the others are
/// as in `before`.
pub open spec fn applied_upto(after: WorldView, before: WorldView, acts: Seq<Action>, k: int) -> bool {
    &&& after.wf()
    &&& after.width == before.width
    &&& after.height == before.height
    &&& after.entities.len() == before.entities.len()
    &&& forall|id: int| 0 <= id < k ==> #[trigger] entity_after(after, before, acts, id)
    &&& forall|id: int| k <= id < before.entities.len() ==> #[trigger] after.entities[id] == before.entities[id]
}

/// `after` is the world one tick after `before` when the entities act by `acts`.
pub open spec fn ticked(after: WorldView, before: WorldView, acts: Seq<Action>) -> bool {
    applied_upto(after, before, acts, before.entities.len() as int)
}

/// While outcomes are applied in id order, the entity whose outcome is a move still stands
/// at its cell and its destination is free, unless the destination is its own cell.
pub proof fn lemma_move_unobstructed(wc: WorldView, w0: WorldView, acts: Seq<Action>, k: int, d: Direction)
    requires
        w0.wf(),
        acts.len() == w0.entities.len(),
        0 <= k < acts.len(),
        applied_upto(wc, w0, acts, k),
        outcome_of(w0, acts, k) == Outcome::Move(d),
    ensures
        wc.cells[w0.entities[k].location.idx()] == Some(k as usize),
        ({
            let t = target_index(w0, k, d);
            t == w0.entities[k].location.idx() || wc.cells[t] is None
        }),
{
    let loc_k = w0.entities[k].location;
    assert(wc.entities[k] == w0.entities[k]);
    assert(wc.placed(k));
    assert(w0.placed(k));
    let t = target_index(w0, k, d);
    let (w, h) = (w0.width, w0.height);
    lemma_step_in_range(loc_k@, d, w, h);
    assert(0 <= t < wc.cells.len()) by {
        let p = w0.target(loc_k, d);
        assert(p.0 + w * p.1 < w * h) by (nonlinear_arith)
            requires
                0 <= p.0 < w,
                0 <= p.1 < h,
        ;
        assert(0 <= w * p.1) by (nonlinear_arith)
            requires
                0 <= p.1,
                0 <= w,
        ;
    }
    if t != loc_k.idx() && wc.cells[t] is Some {
        let j = wc.cells[t]->0 as int;
        assert(0 <= j < wc.entities.len());
        let lj = wc.entities[j].location;
        assert(wc.placed(j));
        assert(lj.idx() == t);
        assert(acts[k] == Action::Move(d));
        assert(!move_contested(w0, acts, k));
        assert(claims(w0, acts, k, t, d));
        if j < k {
            assert(entity_after(wc, w0, acts, j));
            assert(w0.placed(j));
            match outcome_of(w0, acts, j) {
                Outcome::Move(dj) => {
                    let pj = w0.target(w0.entities[j].location, dj);
                    lemma_step_in_range(w0.entities[j].location@, dj, w, h);
                    assert(target_index(w0, j, dj) == t);
                    assert(claims(w0, acts, j, t, dj));
                    if dj == d {
                        lemma_index_injective(pj, w0.target(loc_k, d), w);
                        lemma_step_injective(w0.entities[j].location@, loc_k@, d, w, h);
                        assert(w0.entities[j].location.idx() == loc_k.idx());
                    } else {
                        assert(claimed_in(w0, acts, 0, acts.len() as int, t, d));
                        assert(claimed_in(w0, acts, 0, acts.len() as int, t, dj));
                        assert(contested(w0, acts, t));
                    }
                },
                _ => {
                    assert(w0.cells[t] == Some(j as usize));
                },
            }
        } else {
            assert(j > k);
            assert(wc.entities[j] == w0.entities[j]);
            assert(w0.placed(j));
            assert(w0.cells[t] == Some(j as usize));
        }
    }
}

/// A turn is never blocked: whatever the other entities do, an entity whose action is to
/// turn has that turn as its outcome.
pub proof fn lemma_turn_never_blocked(w: WorldView, acts: Seq<Action>, id: int, d: Direction)
    requires
        0 <= id < acts.len(),
        acts[id] == Action::Turn(d),
    ensures
        outcome_of(w, acts, id) == Outcome::Turn(d),
{
}

/// After a tick, an entity whose outcome was a move stands one step from its old location in
/// the direction of the move, and an entity that was blocked or waited has not moved.
pub proof fn lemma_move_correct(after: WorldView, before: WorldView, acts: Seq<Action>, id: int)
    requires
        ticked(after, before, acts),
        0 <= id < before.entities.len(),
    ensures
        match outcome_of(before, acts, id) {
            Outcome::Move(d) => after.entities[id].location@ == before.target(before.entities[id].location, d),
            Outcome::Blocked | Outcome::Wait => after.entities[id].location == before.entities[id].location,
            Outcome::Turn(_) => after.entities[id].location == before.entities[id].location,
        },
{
    assert(entity_after(after, before, acts, id));
}

/// Two entities that move into the same cell from different directions are both blocked,
/// whatever else happens this tick: no claimant wins.
pub proof fn lemma_contention_blocks_all(
    w: WorldView,
    acts: Seq<Action>,
    a: int,
    b: int,
    i: int,
    da: Direction,
    db: Direction,
)
    requires
        0 <= a < acts.len(),
        0 <= b < acts.len(),
        da != db,
        claims(w, acts, a, i, da),
        claims(w, acts, b, i, db),
    ensures
        outcome_of(w, acts, a) == Outcome::Blocked,
        outcome_of(w, acts, b) == Outcome::Blocked,
{
    let f = |d: Direction| claimed_in(w, acts, 0, acts.len() as int, i, d);
    assert(f(da));
    assert(f(db));
    assert(count_directions(f) >= 2) by {
        match da {
            Direction::North => assert(f(Direction::North)),
            Direction::Northeast => assert(f(Direction::Northeast)),
            Direction::East => assert(f(Direction::East)),
            Direction::Southeast => assert(f(Direction::Southeast)),
            Direction::South => assert(f(Direction::South)),
            Direction::Southwest => assert(f(Direction::Southwest)),
            Direction::West => assert(f(Direction::West)),
            Direction::Northwest => assert(f(Direction::Northwest)),
        }
        match db {
            Direction::North => assert(f(Direction::North)),
            Direction::Northeast => assert(f(Direction::Northeast)),
            Direction::East => assert(f(Direction::East)),
            Direction::Southeast => assert(f(Direction::Southeast)),
            Direction::South => assert(f(Direction::South)),
            Direction::Southwest => assert(f(Direction::Southwest)),
            Direction::West => assert(f(Direction::West)),
            Direction::Northwest => assert(f(Direction::Northwest)),
        }
    }
    assert(contested(w, acts, i));
}

} // verus!
