//! The tick engine: one discrete simulation step applies, in strict phase
//! order, count → spawn → decay → kill to the whole board.
//!
//! The count phase runs to completion before any cell changes state, so a
//! generation is always computed from a consistent snapshot.  The three
//! mutating phases are per-cell functions of that snapshot; their
//! mathematical counterparts (`spawn_step`, `decay_step`, `kill_step`)
//! compose into `tick_cell`, the exact per-cell meaning of one tick.

use vstd::prelude::*;

use crate::config::DECAY_TICKS;
use crate::rules::Rules;
use crate::types::alive_fresh_cell;
use crate::types::Adjacency;
use crate::types::Board;
use crate::types::Cell;
use crate::types::Position;

verus! {

/// The neighbor offsets of an adjacency pattern.  Planar boards use the
/// full 8-cell Moore neighborhood in the x-y plane; volumetric boards use
/// the 6 face-adjacent cells.
pub open spec fn adjacency_offsets(adj: Adjacency) -> Seq<(i32, i32, i32)> {
    match adj {
        Adjacency::Planar8 => seq![
            (-1i32, -1i32, 0i32),
            (-1i32, 0i32, 0i32),
            (-1i32, 1i32, 0i32),
            (0i32, -1i32, 0i32),
            (0i32, 1i32, 0i32),
            (1i32, -1i32, 0i32),
            (1i32, 0i32, 0i32),
            (1i32, 1i32, 0i32),
        ],
        Adjacency::Volumetric6 => seq![
            (1i32, 0i32, 0i32),
            (0i32, 1i32, 0i32),
            (0i32, 0i32, 1i32),
            (-1i32, 0i32, 0i32),
            (0i32, -1i32, 0i32),
            (0i32, 0i32, -1i32),
        ],
    }
}

/// Whether the coordinate holds a live cell.  Out-of-range coordinates are
/// simply not live: they are skipped, not wrapped and not counted as dead
/// neighbors.
pub open spec fn live_at(b: Board, x: int, y: int, z: int) -> bool {
    b.spec_in_bounds(x, y, z) && !b.spec_cell(x, y, z).dead
}

/// How many of the first `n` offsets point at a live cell, seen from
/// `(x, y, z)`.
pub open spec fn count_live_prefix(
    b: Board,
    x: int,
    y: int,
    z: int,
    offs: Seq<(i32, i32, i32)>,
    n: int,
) -> nat
    decreases n,
{
    if n <= 0 {
        0
    } else {
        count_live_prefix(b, x, y, z, offs, n - 1) + if live_at(
            b,
            x + offs[n - 1].0,
            y + offs[n - 1].1,
            z + offs[n - 1].2,
        ) {
            1nat
        } else {
            0nat
        }
    }
}

/// The live-neighbor count of `(x, y, z)` under the board's adjacency
/// pattern.
pub open spec fn live_neighbor_count(b: Board, x: int, y: int, z: int) -> nat {
    count_live_prefix(
        b,
        x,
        y,
        z,
        adjacency_offsets(b.adjacency),
        adjacency_offsets(b.adjacency).len() as int,
    )
}

/// The cell `c` with its cached neighbor count replaced by `n`.
pub open spec fn with_neighbors(c: Cell, n: u32) -> Cell {
    Cell { decaying: c.decaying, decaying_ticks: c.decaying_ticks, dead: c.dead, neighbors: n }
}

/// The live-neighbor count reads only the board's shape and its dead
/// flags: two boards that agree on those agree on every count.
pub proof fn lemma_count_depends_on_dead_only(b1: Board, b2: Board, x: int, y: int, z: int)
    requires
        b1.same_shape(b2),
        forall|i: int, j: int, k: int|
            b1.spec_in_bounds(i, j, k) ==> #[trigger] b1.spec_cell(i, j, k).dead
                == b2.spec_cell(i, j, k).dead,
    ensures
        live_neighbor_count(b1, x, y, z) == live_neighbor_count(b2, x, y, z),
{
    let offs = adjacency_offsets(b1.adjacency);
    assert forall|n: int| 0 <= n <= offs.len() implies count_live_prefix(b1, x, y, z, offs, n)
        == count_live_prefix(b2, x, y, z, offs, n) by {
        lemma_count_prefix_depends_on_dead_only(b1, b2, x, y, z, offs, n);
    }
}

proof fn lemma_count_prefix_depends_on_dead_only(
    b1: Board,
    b2: Board,
    x: int,
    y: int,
    z: int,
    offs: Seq<(i32, i32, i32)>,
    n: int,
)
    requires
        b1.same_shape(b2),
        forall|i: int, j: int, k: int|
            b1.spec_in_bounds(i, j, k) ==> #[trigger] b1.spec_cell(i, j, k).dead
                == b2.spec_cell(i, j, k).dead,
    ensures
        count_live_prefix(b1, x, y, z, offs, n) == count_live_prefix(b2, x, y, z, offs, n),
    decreases n,
{
    if n > 0 {
        lemma_count_prefix_depends_on_dead_only(b1, b2, x, y, z, offs, n - 1);
    }
}

/// The neighbor offsets of an adjacency pattern, as a runtime list.
fn adjacency_offset_list(adj: Adjacency) -> (r: Vec<(i32, i32, i32)>)
    ensures
        r@ == adjacency_offsets(adj),
{
    let mut v: Vec<(i32, i32, i32)> = Vec::new();
    match adj {
        Adjacency::Planar8 => {
            v.push((-1, -1, 0));
            v.push((-1, 0, 0));
            v.push((-1, 1, 0));
            v.push((0, -1, 0));
            v.push((0, 1, 0));
            v.push((1, -1, 0));
            v.push((1, 0, 0));
            v.push((1, 1, 0));
            assert(v@ =~= adjacency_offsets(adj));
        },
        Adjacency::Volumetric6 => {
            v.push((1, 0, 0));
            v.push((0, 1, 0));
            v.push((0, 0, 1));
            v.push((-1, 0, 0));
            v.push((0, -1, 0));
            v.push((0, 0, -1));
            assert(v@ =~= adjacency_offsets(adj));
        },
    }
    v
}

/// Recomputes the cached neighbor count of one cell from the board's
/// current dead/alive state.  Nothing else changes.
pub fn count_cell_neighbors(board: &mut Board, x: usize, y: usize, z: usize)
    requires
        old(board).wf(),
        old(board).spec_in_bounds(x as int, y as int, z as int),
    ensures
        final(board).wf(),
        final(board).same_shape(*old(board)),
        final(board).spec_cell(x as int, y as int, z as int) == with_neighbors(
            old(board).spec_cell(x as int, y as int, z as int),
            live_neighbor_count(*old(board), x as int, y as int, z as int) as u32,
        ),
        forall|i: int, j: int, k: int|
            old(board).spec_in_bounds(i, j, k) && !(i == x && j == y && k == z)
                ==> #[trigger] final(board).spec_cell(i, j, k) == old(board).spec_cell(i, j, k),
{
    let offsets = adjacency_offset_list(board.adjacency);
    let mut count: u32 = 0;
    let mut i: usize = 0;
    while i < offsets.len()
        invariant
            *board == *old(board),
            board.wf(),
            board.spec_in_bounds(x as int, y as int, z as int),
            offsets@ == adjacency_offsets(board.adjacency),
            i <= offsets@.len(),
            offsets@.len() <= 8,
            count <= i,
            count as nat == count_live_prefix(
                *board,
                x as int,
                y as int,
                z as int,
                offsets@,
                i as int,
            ),
        decreases offsets@.len() - i,
    {
        let (dx, dy, dz) = offsets[i];
        let nx = x as i32 + dx;
        let ny = y as i32 + dy;
        let nz = z as i32 + dz;
        let mut alive = false;
        if nx >= 0 && (nx as usize) < board.width && ny >= 0 && (ny as usize) < board.height && nz
            >= 0 && (nz as usize) < board.depth {
            alive = !board.get(nx as usize, ny as usize, nz as usize).dead;
        }
        assert(alive == live_at(*board, x as int + dx as int, y as int + dy as int, z as int + dz as int));
        if alive {
            count = count + 1;
        }
        i = i + 1;
    }
    let mut c = board.get(x, y, z);
    c.neighbors = count;
    board.set_cell(x, y, z, c);
}

/// Recomputes the cached neighbor count of every cell from the board's
/// current dead/alive state.  This phase runs to completion before any
/// cell's own state changes, so the counts form a consistent snapshot of
/// the previous generation.  Only the `neighbors` fields change.
#[verifier::loop_isolation(false)]
pub fn count_neighbors(board: &mut Board)
    requires
        old(board).wf(),
    ensures
        final(board).wf(),
        final(board).same_shape(*old(board)),
        forall|i: int, j: int, k: int|
            old(board).spec_in_bounds(i, j, k) ==> #[trigger] final(board).spec_cell(i, j, k)
                == with_neighbors(
                old(board).spec_cell(i, j, k),
                live_neighbor_count(*old(board), i, j, k) as u32,
            ),
{
    let mut x: usize = 0;
    while x < board.width
        invariant
            board.wf(),
            board.same_shape(*old(board)),
            x <= board.width,
            forall|i: int, j: int, k: int|
                old(board).spec_in_bounds(i, j, k) && i < x ==> #[trigger] board.spec_cell(i, j, k)
                    == with_neighbors(
                    old(board).spec_cell(i, j, k),
                    live_neighbor_count(*old(board), i, j, k) as u32,
                ),
            forall|i: int, j: int, k: int|
                old(board).spec_in_bounds(i, j, k) && i >= x ==> #[trigger] board.spec_cell(
                    i,
                    j,
                    k,
                ) == old(board).spec_cell(i, j, k),
        decreases board.width - x,
    {
        let mut y: usize = 0;
        while y < board.height
            invariant
                board.wf(),
                board.same_shape(*old(board)),
                x < board.width,
                y <= board.height,
                forall|i: int, j: int, k: int|
                    old(board).spec_in_bounds(i, j, k) && i < x ==> #[trigger] board.spec_cell(
                        i,
                        j,
                        k,
                    ) == with_neighbors(
                        old(board).spec_cell(i, j, k),
                        live_neighbor_count(*old(board), i, j, k) as u32,
                    ),
                forall|j: int, k: int|
                    0 <= j < y && 0 <= k < board.depth ==> #[trigger] board.spec_cell(x as int, j, k)
                        == with_neighbors(
                        old(board).spec_cell(x as int, j, k),
                        live_neighbor_count(*old(board), x as int, j, k) as u32,
                    ),
                forall|j: int, k: int|
                    y <= j < board.height && 0 <= k < board.depth ==> #[trigger] board.spec_cell(
                        x as int,
                        j,
                        k,
                    ) == old(board).spec_cell(x as int, j, k),
                forall|i: int, j: int, k: int|
                    old(board).spec_in_bounds(i, j, k) && i > x ==> #[trigger] board.spec_cell(
                        i,
                        j,
                        k,
                    ) == old(board).spec_cell(i, j, k),
            decreases board.height - y,
        {
            let mut z: usize = 0;
            while z < board.depth
                invariant
                    board.wf(),
                    board.same_shape(*old(board)),
                    x < board.width,
                    y < board.height,
                    z <= board.depth,
                    forall|i: int, j: int, k: int|
                        old(board).spec_in_bounds(i, j, k) && i < x ==> #[trigger] board.spec_cell(
                            i,
                            j,
                            k,
                        ) == with_neighbors(
                            old(board).spec_cell(i, j, k),
                            live_neighbor_count(*old(board), i, j, k) as u32,
                        ),
                    forall|j: int, k: int|
                        0 <= j < y && 0 <= k < board.depth ==> #[trigger] board.spec_cell(
                            x as int,
                            j,
                            k,
                        ) == with_neighbors(
                            old(board).spec_cell(x as int, j, k),
                            live_neighbor_count(*old(board), x as int, j, k) as u32,
                        ),
                    forall|k: int|
                        0 <= k < z ==> #[trigger] board.spec_cell(x as int, y as int, k)
                            == with_neighbors(
                            old(board).spec_cell(x as int, y as int, k),
                            live_neighbor_count(*old(board), x as int, y as int, k) as u32,
                        ),
                    forall|k: int|
                        z <= k < board.depth ==> #[trigger] board.spec_cell(x as int, y as int, k)
                            == old(board).spec_cell(x as int, y as int, k),
                    forall|j: int, k: int|
                        y < j < board.height && 0 <= k < board.depth ==> #[trigger] board.spec_cell(
                            x as int,
                            j,
                            k,
                        ) == old(board).spec_cell(x as int, j, k),
                    forall|i: int, j: int, k: int|
                        old(board).spec_in_bounds(i, j, k) && i > x ==> #[trigger] board.spec_cell(
                            i,
                            j,
                            k,
                        ) == old(board).spec_cell(i, j, k),
                decreases board.depth - z,
            {
                let ghost pre = *board;
                count_cell_neighbors(board, x, y, z);
                proof {
                    assert forall|i: int, j: int, k: int|
                        pre.spec_in_bounds(i, j, k) implies #[trigger] pre.spec_cell(i, j, k).dead
                        == old(board).spec_cell(i, j, k).dead by {
                        assert(pre.spec_cell(i, j, k) == with_neighbors(
                            old(board).spec_cell(i, j, k),
                            live_neighbor_count(*old(board), i, j, k) as u32,
                        ) || pre.spec_cell(i, j, k) == old(board).spec_cell(i, j, k));
                    }
                    lemma_count_depends_on_dead_only(
                        pre,
                        *old(board),
                        x as int,
                        y as int,
                        z as int,
                    );
                }
                z = z + 1;
            }
            y = y + 1;
        }
        x = x + 1;
    }
}

/// What the spawn phase does to one cell: a dead cell that meets the
/// birth condition comes back alive-fresh, with the full decay budget;
/// every other cell is untouched.
pub open spec fn spawn_step(r: Rules, c: Cell) -> Cell {
    if c.dead && r.spec_should_spawn(c.neighbors) {
        alive_fresh_cell(c.neighbors)
    } else {
        c
    }
}

/// What the decay phase does to one cell.  Dead cells are untouched.  A
/// live cell that meets the decline condition and is not yet decaying
/// enters its decline phase; independently, a cell that was already
/// decaying when the phase began counts its budget down by one.  Entering
/// decay does not consume a countdown tick in the same phase pass: the
/// countdown starts the following tick.
pub open spec fn decay_step(r: Rules, c: Cell) -> Cell {
    if c.dead {
        c
    } else {
        Cell {
            decaying: c.decaying || r.spec_should_decay(c.neighbors),
            decaying_ticks: if c.decaying && c.decaying_ticks > 0 {
                (c.decaying_ticks - 1) as u32
            } else {
                c.decaying_ticks
            },
            dead: false,
            neighbors: c.neighbors,
        }
    }
}

/// What the kill phase does to one cell: a live, decaying cell whose
/// budget has reached zero dies, returning to the resting state (its
/// cached neighbor count is left alone; the next count phase rewrites
/// it).  Every other cell is untouched.
pub open spec fn kill_step(c: Cell) -> Cell {
    if !c.dead && c.decaying && c.decaying_ticks == 0 {
        Cell { decaying: false, decaying_ticks: 0, dead: true, neighbors: c.neighbors }
    } else {
        c
    }
}

/// One of the three mutating phases of a tick.
#[derive(Clone, Copy, PartialEq, Eq, Structural, Debug)]
pub enum Phase {
    Spawn,
    Decay,
    Kill,
}

/// The per-cell meaning of one mutating phase.
pub open spec fn phase_step(ph: Phase, r: Rules, c: Cell) -> Cell {
    match ph {
        Phase::Spawn => spawn_step(r, c),
        Phase::Decay => decay_step(r, c),
        Phase::Kill => kill_step(c),
    }
}

/// Whether a phase flips the dead flag of a cell, which is exactly what
/// the host renderer must be told about.
pub open spec fn phase_flips(ph: Phase, r: Rules, c: Cell) -> bool {
    c.dead != phase_step(ph, r, c).dead
}

/// Whether a reported coordinate is a genuine flip of this phase on this
/// board.
pub open spec fn flip_entry_ok(b: Board, ph: Phase, r: Rules, p: Position) -> bool {
    &&& b.spec_in_bounds(p.x as int, p.y as int, p.z as int)
    &&& phase_flips(ph, r, b.spec_cell(p.x as int, p.y as int, p.z as int))
}

/// Whether `p` comes strictly before `(x, y, z)` in the order the phases
/// walk the board.
pub open spec fn lex_before(p: Position, x: int, y: int, z: int) -> bool {
    ||| p.x < x
    ||| (p.x == x && p.y < y)
    ||| (p.x == x && p.y == y && p.z < z)
}

/// Applies one mutating phase to one cell.
fn apply_cell_phase(ph: Phase, rules: &Rules, c: Cell) -> (r: Cell)
    ensures
        r == phase_step(ph, *rules, c),
{
    match ph {
        Phase::Spawn => {
            if c.dead && rules.should_spawn(c.neighbors) {
                Cell {
                    decaying: false,
                    decaying_ticks: DECAY_TICKS,
                    dead: false,
                    neighbors: c.neighbors,
                }
            } else {
                c
            }
        },
        Phase::Decay => {
            if c.dead {
                c
            } else {
                let was_decaying = c.decaying;
                let decaying = was_decaying || rules.should_decay(c.neighbors);
                let ticks = if was_decaying && c.decaying_ticks > 0 {
                    c.decaying_ticks - 1
                } else {
                    c.decaying_ticks
                };
                Cell { decaying, decaying_ticks: ticks, dead: false, neighbors: c.neighbors }
            }
        },
        Phase::Kill => {
            if !c.dead && c.decaying && c.decaying_ticks == 0 {
                Cell { decaying: false, decaying_ticks: 0, dead: true, neighbors: c.neighbors }
            } else {
                c
            }
        },
    }
}

/// Applies one mutating phase to every cell, in a fixed walking order,
/// and reports each coordinate whose dead flag flipped, exactly once.
#[verifier::loop_isolation(false)]
fn apply_phase(board: &mut Board, rules: &Rules, ph: Phase) -> (changed: Vec<Position>)
    requires
        old(board).wf(),
    ensures
        final(board).wf(),
        final(board).same_shape(*old(board)),
        forall|i: int, j: int, k: int|
            old(board).spec_in_bounds(i, j, k) ==> #[trigger] final(board).spec_cell(i, j, k)
                == phase_step(ph, *rules, old(board).spec_cell(i, j, k)),
        forall|p: Position| #[trigger]
            changed@.contains(p) <==> flip_entry_ok(*old(board), ph, *rules, p),
        forall|a: int, b: int| 0 <= a < b < changed@.len() ==> changed@[a] != changed@[b],
{
    let mut changed: Vec<Position> = Vec::new();
    let mut x: usize = 0;
    while x < board.width
        invariant
            board.wf(),
            board.same_shape(*old(board)),
            x <= board.width,
            forall|i: int, j: int, k: int|
                old(board).spec_in_bounds(i, j, k) && i < x ==> #[trigger] board.spec_cell(i, j, k)
                    == phase_step(ph, *rules, old(board).spec_cell(i, j, k)),
            forall|i: int, j: int, k: int|
                old(board).spec_in_bounds(i, j, k) && i >= x ==> #[trigger] board.spec_cell(
                    i,
                    j,
                    k,
                ) == old(board).spec_cell(i, j, k),
            forall|idx: int|
                0 <= idx < changed@.len() ==> flip_entry_ok(
                    *old(board),
                    ph,
                    *rules,
                    #[trigger] changed@[idx],
                ) && lex_before(changed@[idx], x as int, 0, 0),
            forall|p: Position|
                #[trigger] flip_entry_ok(*old(board), ph, *rules, p) && lex_before(p, x as int, 0, 0)
                    ==> changed@.contains(p),
            forall|a: int, b: int| 0 <= a < b < changed@.len() ==> changed@[a] != changed@[b],
        decreases board.width - x,
    {
        let mut y: usize = 0;
        while y < board.height
            invariant
                board.wf(),
                board.same_shape(*old(board)),
                x < board.width,
                y <= board.height,
                forall|i: int, j: int, k: int|
                    old(board).spec_in_bounds(i, j, k) && i < x ==> #[trigger] board.spec_cell(
                        i,
                        j,
                        k,
                    ) == phase_step(ph, *rules, old(board).spec_cell(i, j, k)),
                forall|j: int, k: int|
                    0 <= j < y && 0 <= k < board.depth ==> #[trigger] board.spec_cell(x as int, j, k)
                        == phase_step(ph, *rules, old(board).spec_cell(x as int, j, k)),
                forall|j: int, k: int|
                    y <= j < board.height && 0 <= k < board.depth ==> #[trigger] board.spec_cell(
                        x as int,
                        j,
                        k,
                    ) == old(board).spec_cell(x as int, j, k),
                forall|i: int, j: int, k: int|
                    old(board).spec_in_bounds(i, j, k) && i > x ==> #[trigger] board.spec_cell(
                        i,
                        j,
                        k,
                    ) == old(board).spec_cell(i, j, k),
                forall|idx: int|
                    0 <= idx < changed@.len() ==> flip_entry_ok(
                        *old(board),
                        ph,
                        *rules,
                        #[trigger] changed@[idx],
                    ) && lex_before(changed@[idx], x as int, y as int, 0),
                forall|p: Position|
                    #[trigger] flip_entry_ok(*old(board), ph, *rules, p) && lex_before(
                        p,
                        x as int,
                        y as int,
                        0,
                    ) ==> changed@.contains(p),
                forall|a: int, b: int| 0 <= a < b < changed@.len() ==> changed@[a] != changed@[b],
            decreases board.height - y,
        {
            let mut z: usize = 0;
            while z < board.depth
                invariant
                    board.wf(),
                    board.same_shape(*old(board)),
                    x < board.width,
                    y < board.height,
                    z <= board.depth,
                    forall|i: int, j: int, k: int|
                        old(board).spec_in_bounds(i, j, k) && i < x ==> #[trigger] board.spec_cell(
                            i,
                            j,
                            k,
                        ) == phase_step(ph, *rules, old(board).spec_cell(i, j, k)),
                    forall|j: int, k: int|
                        0 <= j < y && 0 <= k < board.depth ==> #[trigger] board.spec_cell(
                            x as int,
                            j,
                            k,
                        ) == phase_step(ph, *rules, old(board).spec_cell(x as int, j, k)),
                    forall|k: int|
                        0 <= k < z ==> #[trigger] board.spec_cell(x as int, y as int, k)
                            == phase_step(
                            ph,
                            *rules,
                            old(board).spec_cell(x as int, y as int, k),
                        ),
                    forall|k: int|
                        z <= k < board.depth ==> #[trigger] board.spec_cell(x as int, y as int, k)
                            == old(board).spec_cell(x as int, y as int, k),
                    forall|j: int, k: int|
                        y < j < board.height && 0 <= k < board.depth ==> #[trigger] board.spec_cell(
                            x as int,
                            j,
                            k,
                        ) == old(board).spec_cell(x as int, j, k),
                    forall|i: int, j: int, k: int|
                        old(board).spec_in_bounds(i, j, k) && i > x ==> #[trigger] board.spec_cell(
                            i,
                            j,
                            k,
                        ) == old(board).spec_cell(i, j, k),
                    forall|idx: int|
                        0 <= idx < changed@.len() ==> flip_entry_ok(
                            *old(board),
                            ph,
                            *rules,
                            #[trigger] changed@[idx],
                        ) && lex_before(changed@[idx], x as int, y as int, z as int),
                    forall|p: Position|
                        #[trigger] flip_entry_ok(*old(board), ph, *rules, p) && lex_before(
                            p,
                            x as int,
                            y as int,
                            z as int,
                        ) ==> changed@.contains(p),
                    forall|a: int, b: int|
                        0 <= a < b < changed@.len() ==> changed@[a] != changed@[b],
                decreases board.depth - z,
            {
                let cell = board.get(x, y, z);
                let newc = apply_cell_phase(ph, rules, cell);
                let ghost prev_changed = changed@;
                if newc.dead != cell.dead {
                    changed.push(Position { x, y, z });
                }
                board.set_cell(x, y, z, newc);
                proof {
                    assert forall|q: Position| prev_changed.contains(q) implies changed@.contains(
                        q,
                    ) by {
                        let idx = choose|idx: int|
                            0 <= idx < prev_changed.len() && prev_changed[idx] == q;
                        assert(changed@[idx] == q);
                    }
                    assert forall|p: Position|
                        #[trigger] flip_entry_ok(*old(board), ph, *rules, p) && lex_before(
                            p,
                            x as int,
                            y as int,
                            z as int + 1,
                        ) implies changed@.contains(p) by {
                        if lex_before(p, x as int, y as int, z as int) {
                            assert(prev_changed.contains(p));
                        } else {
                            assert(p == (Position { x, y, z }));
                            assert(changed@[changed@.len() - 1] == p);
                        }
                    }
                }
                z = z + 1;
            }
            y = y + 1;
        }
        x = x + 1;
    }
    proof {
        assert forall|p: Position| changed@.contains(p) implies flip_entry_ok(
            *old(board),
            ph,
            *rules,
            p,
        ) by {
            let idx = choose|idx: int| 0 <= idx < changed@.len() && changed@[idx] == p;
        }
    }
    changed
}

/// Spawn phase: every dead cell whose cached neighbor count meets the
/// birth condition comes back alive-fresh; no other cell changes.  The
/// result reports each newly alive coordinate exactly once.
pub fn spawn_cells(board: &mut Board, rules: &Rules) -> (spawned: Vec<Position>)
    requires
        old(board).wf(),
    ensures
        final(board).wf(),
        final(board).same_shape(*old(board)),
        forall|i: int, j: int, k: int|
            old(board).spec_in_bounds(i, j, k) ==> #[trigger] final(board).spec_cell(i, j, k)
                == spawn_step(*rules, old(board).spec_cell(i, j, k)),
        forall|p: Position| #[trigger]
            spawned@.contains(p) <==> (old(board).spec_in_bounds(p.x as int, p.y as int, p.z as int)
                && old(board).spec_cell(p.x as int, p.y as int, p.z as int).dead
                && rules.spec_should_spawn(
                old(board).spec_cell(p.x as int, p.y as int, p.z as int).neighbors,
            )),
        forall|a: int, b: int| 0 <= a < b < spawned@.len() ==> spawned@[a] != spawned@[b],
{
    apply_phase(board, rules, Phase::Spawn)
}

/// Decay phase: every live cell that meets the decline condition enters
/// decay, and every cell that was already decaying counts its budget
/// down by one.  No dead flag changes in this phase.
pub fn decay_cells(board: &mut Board, rules: &Rules)
    requires
        old(board).wf(),
    ensures
        final(board).wf(),
        final(board).same_shape(*old(board)),
        forall|i: int, j: int, k: int|
            old(board).spec_in_bounds(i, j, k) ==> #[trigger] final(board).spec_cell(i, j, k)
                == decay_step(*rules, old(board).spec_cell(i, j, k)),
{
    let _ = apply_phase(board, rules, Phase::Decay);
}

/// Kill phase: every live, decaying cell whose budget has reached zero
/// dies; no other cell changes.  The result reports each newly dead
/// coordinate exactly once.
pub fn kill_cells(board: &mut Board) -> (killed: Vec<Position>)
    requires
        old(board).wf(),
    ensures
        final(board).wf(),
        final(board).same_shape(*old(board)),
        forall|i: int, j: int, k: int|
            old(board).spec_in_bounds(i, j, k) ==> #[trigger] final(board).spec_cell(i, j, k)
                == kill_step(old(board).spec_cell(i, j, k)),
        forall|p: Position| #[trigger]
            killed@.contains(p) <==> (old(board).spec_in_bounds(p.x as int, p.y as int, p.z as int)
                && !old(board).spec_cell(p.x as int, p.y as int, p.z as int).dead && old(
                board,
            ).spec_cell(p.x as int, p.y as int, p.z as int).decaying && old(board).spec_cell(
                p.x as int,
                p.y as int,
                p.z as int,
            ).decaying_ticks == 0),
        forall|a: int, b: int| 0 <= a < b < killed@.len() ==> killed@[a] != killed@[b],
{
    // The kill phase reads no thresholds; any rule values do.
    let rules = Rules { birth_min: 0, birth_max: 0, survive_min: 0, survive_max: 0 };
    apply_phase(board, &rules, Phase::Kill)
}

/// The per-cell meaning of one whole tick, given the cell's snapshot
/// state `c` and its live-neighbor count `n` in that snapshot: count
/// writes the cache, then spawn, decay and kill apply in order.
pub open spec fn cell_step(r: Rules, c: Cell, n: u32) -> Cell {
    kill_step(decay_step(r, spawn_step(r, with_neighbors(c, n))))
}

/// The cell a whole tick leaves at `(x, y, z)`, as a pure function of
/// the snapshot board.
pub open spec fn tick_cell(b: Board, r: Rules, x: int, y: int, z: int) -> Cell {
    cell_step(r, b.spec_cell(x, y, z), live_neighbor_count(b, x, y, z) as u32)
}

/// The coordinates a tick reports back to the host: those whose dead
/// flag flipped, each exactly once, split into newly alive and newly
/// dead.
pub struct TickReport {
    pub spawned: Vec<Position>,
    pub killed: Vec<Position>,
}

/// One discrete simulation step: count, then spawn, then decay, then
/// kill, each phase running over the whole board before the next begins.
/// Every cell ends exactly at `tick_cell` of the snapshot board, and the
/// report lists exactly the coordinates whose dead flag flipped.
pub fn process_tick(board: &mut Board, rules: &Rules) -> (report: TickReport)
    requires
        old(board).wf(),
    ensures
        final(board).wf(),
        final(board).same_shape(*old(board)),
        forall|i: int, j: int, k: int|
            old(board).spec_in_bounds(i, j, k) ==> #[trigger] final(board).spec_cell(i, j, k)
                == tick_cell(*old(board), *rules, i, j, k),
        forall|p: Position| #[trigger]
            report.spawned@.contains(p) <==> (old(board).spec_in_bounds(
                p.x as int,
                p.y as int,
                p.z as int,
            ) && old(board).spec_cell(p.x as int, p.y as int, p.z as int).dead && !tick_cell(
                *old(board),
                *rules,
                p.x as int,
                p.y as int,
                p.z as int,
            ).dead),
        forall|p: Position| #[trigger]
            report.killed@.contains(p) <==> (old(board).spec_in_bounds(
                p.x as int,
                p.y as int,
                p.z as int,
            ) && !old(board).spec_cell(p.x as int, p.y as int, p.z as int).dead && tick_cell(
                *old(board),
                *rules,
                p.x as int,
                p.y as int,
                p.z as int,
            ).dead),
        forall|a: int, b: int|
            0 <= a < b < report.spawned@.len() ==> report.spawned@[a] != report.spawned@[b],
        forall|a: int, b: int|
            0 <= a < b < report.killed@.len() ==> report.killed@[a] != report.killed@[b],
{
    count_neighbors(board);
    let spawned = spawn_cells(board, rules);
    decay_cells(board, rules);
    let killed = kill_cells(board);
    TickReport { spawned, killed }
}

} // verus!
