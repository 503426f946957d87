//! The general laws of the automaton, stated and proved once and for all
//! inputs: the tick is a pure, deterministic function of the snapshot
//! board; spawning always restores the full decay budget; a continuously
//! declining cell dies after exactly the budgeted number of ticks; a
//! resting board is a fixed point; and every tick preserves the per-cell
//! state invariant.

use vstd::prelude::*;

use crate::config::DECAY_TICKS;
use crate::rules::Rules;
use crate::ticks_processor::cell_step;
use crate::ticks_processor::count_live_prefix;
use crate::ticks_processor::live_neighbor_count;
use crate::ticks_processor::spawn_step;
use crate::ticks_processor::tick_cell;
use crate::ticks_processor::with_neighbors;
use crate::types::alive_fresh_cell;
use crate::types::cell_ok;
use crate::types::rest_cell;
use crate::types::Board;
use crate::types::Cell;

verus! {

/// The cell left at a coordinate after several whole ticks, seen from
/// that one cell: `ns[t]` is the cell's live-neighbor count in the
/// snapshot of tick `t`.
pub open spec fn iter_cell_step(r: Rules, c: Cell, ns: Seq<u32>) -> Cell
    decreases ns.len(),
{
    if ns.len() == 0 {
        c
    } else {
        iter_cell_step(r, cell_step(r, c, ns[0]), ns.drop_first())
    }
}

/// Running the four phases on a snapshot board is a pure function of
/// that snapshot: two runs over boards with the same shape and the same
/// cells leave identical cells everywhere, so re-running a tick on the
/// same snapshot yields an identical board.
pub proof fn lemma_tick_deterministic(b1: Board, b2: Board, r: Rules)
    requires
        b1.same_shape(b2),
        forall|x: int, y: int, z: int|
            b1.spec_in_bounds(x, y, z) ==> #[trigger] b1.spec_cell(x, y, z) == b2.spec_cell(
                x,
                y,
                z,
            ),
    ensures
        forall|x: int, y: int, z: int|
            b1.spec_in_bounds(x, y, z) ==> #[trigger] tick_cell(b1, r, x, y, z) == tick_cell(
                b2,
                r,
                x,
                y,
                z,
            ),
{
    assert forall|x: int, y: int, z: int| b1.spec_in_bounds(x, y, z) implies #[trigger] tick_cell(
        b1,
        r,
        x,
        y,
        z,
    ) == tick_cell(b2, r, x, y, z) by {
        crate::ticks_processor::lemma_count_depends_on_dead_only(b1, b2, x, y, z);
    }
}

/// A dead cell that meets the birth condition re-enters through the
/// spawn phase alive, not decaying, and with exactly the full decay
/// budget, regardless of any prior decay history.  Entering decay later
/// in the same tick does not consume any of that budget, so the whole
/// tick also ends alive with the full budget.
pub proof fn lemma_spawn_resets_budget(r: Rules, c: Cell, n: u32)
    requires
        c.dead,
        r.spec_should_spawn(n),
    ensures
        spawn_step(r, with_neighbors(c, n)) == alive_fresh_cell(n),
        !cell_step(r, c, n).dead,
        !(cell_step(r, c, n).decaying) ==> cell_step(r, c, n) == alive_fresh_cell(n),
        cell_step(r, c, n).decaying_ticks == DECAY_TICKS,
{
}

/// A dead cell that does not meet the birth condition is untouched by a
/// whole tick except for its refreshed neighbor cache.  In particular, a
/// tick never reduces a cell's decay budget while the cell is dead.
pub proof fn lemma_dead_cell_rests(r: Rules, c: Cell, n: u32)
    requires
        c.dead,
        !r.spec_should_spawn(n),
    ensures
        cell_step(r, c, n) == with_neighbors(c, n),
        cell_step(r, c, n).decaying_ticks == c.decaying_ticks,
{
}

/// A live, decaying cell with `t >= 1` ticks of budget left dies after
/// exactly `t` more ticks, whatever its neighbor counts do meanwhile:
/// once decay has begun, the countdown is unconditional.
pub proof fn lemma_decaying_cell_dies(r: Rules, c: Cell, ns: Seq<u32>)
    requires
        !c.dead,
        c.decaying,
        1 <= c.decaying_ticks <= ns.len(),
    ensures
        forall|j: int|
            0 <= j < c.decaying_ticks ==> {
                let m = #[trigger] iter_cell_step(r, c, ns.take(j));
                !m.dead && m.decaying && m.decaying_ticks == c.decaying_ticks - j
            },
        iter_cell_step(r, c, ns.take(c.decaying_ticks as int)).dead,
    decreases c.decaying_ticks,
{
    let t = c.decaying_ticks as int;
    let c1 = cell_step(r, c, ns[0]);
    assert(ns.take(0) =~= Seq::<u32>::empty());
    assert(iter_cell_step(r, c, ns.take(0)) == c);
    if c.decaying_ticks == 1 {
        assert(c1.dead);
        assert(ns.take(1).drop_first() =~= ns.drop_first().take(0));
        assert(iter_cell_step(r, c, ns.take(1)) == iter_cell_step(r, c1, ns.take(1).drop_first()));
    } else {
        assert(!c1.dead && c1.decaying && c1.decaying_ticks == c.decaying_ticks - 1);
        lemma_decaying_cell_dies(r, c1, ns.drop_first());
        assert forall|j: int| 1 <= j <= t implies iter_cell_step(r, c, ns.take(j))
            == iter_cell_step(r, c1, ns.drop_first().take(j - 1)) by {
            assert(ns.take(j).drop_first() =~= ns.drop_first().take(j - 1));
            assert(ns.take(j)[0] == ns[0]);
            assert(iter_cell_step(r, c, ns.take(j)) == iter_cell_step(
                r,
                cell_step(r, c, ns.take(j)[0]),
                ns.take(j).drop_first(),
            ));
        }
    }
}

/// The decay lifecycle: a dead cell that spawns and from then on always
/// meets the decline condition enters decay on its spawn tick with the
/// full budget, stays alive for exactly `DECAY_TICKS` further ticks, and
/// dies on the tick after that — not one earlier, not one later.
pub proof fn lemma_decay_lifecycle(r: Rules, c: Cell, ns: Seq<u32>)
    requires
        c.dead,
        ns.len() == DECAY_TICKS + 1,
        r.spec_should_spawn(ns[0]),
        forall|i: int| 0 <= i < ns.len() ==> r.spec_should_decay(#[trigger] ns[i]),
    ensures
        forall|j: int| 1 <= j <= DECAY_TICKS ==> !iter_cell_step(r, c, ns.take(j)).dead,
        iter_cell_step(r, c, ns).dead,
{
    let c1 = cell_step(r, c, ns[0]);
    assert(!c1.dead && c1.decaying && c1.decaying_ticks == DECAY_TICKS);
    lemma_decaying_cell_dies(r, c1, ns.drop_first());
    assert forall|j: int| 1 <= j <= DECAY_TICKS + 1 implies iter_cell_step(r, c, ns.take(j))
        == iter_cell_step(r, c1, ns.drop_first().take(j - 1)) by {
        assert(ns.take(j).drop_first() =~= ns.drop_first().take(j - 1));
        assert(ns.take(j)[0] == ns[0]);
        assert(iter_cell_step(r, c, ns.take(j)) == iter_cell_step(
            r,
            cell_step(r, c, ns.take(j)[0]),
            ns.take(j).drop_first(),
        ));
    }
    assert(ns.take(DECAY_TICKS + 1) =~= ns);
}

/// On a board whose live cells have all died down — every cell dead with
/// no decay state left — and whose rules do not spawn on zero neighbors,
/// one tick leaves every cell exactly at rest.  A resting board in
/// particular stays a resting board, so it remains all-dead after any
/// number of ticks.
pub proof fn lemma_rest_board_fixed(b: Board, r: Rules)
    requires
        b.wf(),
        !r.spec_should_spawn(0),
        forall|x: int, y: int, z: int|
            b.spec_in_bounds(x, y, z) ==> {
                let c = #[trigger] b.spec_cell(x, y, z);
                c.dead && !c.decaying && c.decaying_ticks == 0
            },
    ensures
        forall|x: int, y: int, z: int|
            b.spec_in_bounds(x, y, z) ==> #[trigger] tick_cell(b, r, x, y, z) == rest_cell(),
{
    assert forall|x: int, y: int, z: int| b.spec_in_bounds(x, y, z) implies #[trigger] tick_cell(
        b,
        r,
        x,
        y,
        z,
    ) == rest_cell() by {
        lemma_all_dead_count_zero(
            b,
            x,
            y,
            z,
            crate::ticks_processor::adjacency_offsets(b.adjacency),
            crate::ticks_processor::adjacency_offsets(b.adjacency).len() as int,
        );
    }
}

/// On an all-dead board no coordinate has any live neighbors.
proof fn lemma_all_dead_count_zero(
    b: Board,
    x: int,
    y: int,
    z: int,
    offs: Seq<(i32, i32, i32)>,
    n: int,
)
    requires
        forall|i: int, j: int, k: int|
            b.spec_in_bounds(i, j, k) ==> #[trigger] b.spec_cell(i, j, k).dead,
    ensures
        count_live_prefix(b, x, y, z, offs, n) == 0,
    decreases n,
{
    if n > 0 {
        lemma_all_dead_count_zero(b, x, y, z, offs, n - 1);
    }
}

/// Every tick preserves the per-cell state invariant, whatever the
/// neighbor count turns out to be.
pub proof fn lemma_tick_preserves_cell_ok(r: Rules, c: Cell, n: u32)
    requires
        cell_ok(c),
    ensures
        cell_ok(cell_step(r, c, n)),
{
}

/// Board-level form: on a well-formed board whose cells all satisfy the
/// state invariant, every cell a tick produces satisfies it too.
pub proof fn lemma_tick_preserves_cells_ok(b: Board, r: Rules)
    requires
        b.wf(),
        b.cells_ok(),
    ensures
        forall|x: int, y: int, z: int|
            b.spec_in_bounds(x, y, z) ==> cell_ok(#[trigger] tick_cell(b, r, x, y, z)),
{
    assert forall|x: int, y: int, z: int| b.spec_in_bounds(x, y, z) implies cell_ok(
        #[trigger] tick_cell(b, r, x, y, z),
    ) by {
        lemma_tick_preserves_cell_ok(r, b.spec_cell(x, y, z), live_neighbor_count(b, x, y, z) as u32);
    }
}

} // verus!
