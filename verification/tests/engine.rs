use decaying_life::config::DECAY_TICKS;
use decaying_life::rules::Rules;
use decaying_life::ticks_processor::count_neighbors;
use decaying_life::ticks_processor::process_tick;
use decaying_life::ticks_processor::spawn_cells;
use decaying_life::types::Adjacency;
use decaying_life::types::Board;
use decaying_life::types::Cell;
use decaying_life::types::Position;

#[test]
fn moore_neighbor_counts_on_3x3() {
    // Alive pattern: (0,0), (1,1), (2,1).
    let mut b = Board::new(3, 3, 1, Adjacency::Planar8);
    b.seed_cell(0, 0, 0);
    b.seed_cell(1, 1, 0);
    b.seed_cell(2, 1, 0);
    count_neighbors(&mut b);
    // Manual enumeration under the 8-way Moore rule, clamped at edges:
    // boundary cells simply have fewer candidate neighbors.
    let expected = [[1, 2, 1], [3, 2, 2], [2, 1, 2]];
    for x in 0..3 {
        for y in 0..3 {
            assert_eq!(b.get(x, y, 0).neighbors, expected[x][y], "at ({}, {})", x, y);
        }
    }
}

#[test]
fn face_neighbor_counts_on_3x3x3() {
    // Alive pattern: (1,1,1) and (0,1,1).
    let mut b = Board::new(3, 3, 3, Adjacency::Volumetric6);
    b.seed_cell(1, 1, 1);
    b.seed_cell(0, 1, 1);
    count_neighbors(&mut b);
    // Face adjacency only: the two live cells see each other.
    assert_eq!(b.get(1, 1, 1).neighbors, 1);
    assert_eq!(b.get(0, 1, 1).neighbors, 1);
    // Each face neighbor of a live cell counts it once.
    assert_eq!(b.get(2, 1, 1).neighbors, 1);
    assert_eq!(b.get(1, 0, 1).neighbors, 1);
    assert_eq!(b.get(1, 1, 0).neighbors, 1);
    assert_eq!(b.get(0, 0, 1).neighbors, 1);
    // Diagonal and cross-axis cells count nothing.
    assert_eq!(b.get(2, 2, 1).neighbors, 0);
    assert_eq!(b.get(0, 0, 0).neighbors, 0);
    assert_eq!(b.get(2, 2, 2).neighbors, 0);
}

fn blinker_board() -> Board {
    let mut b = Board::new(3, 3, 1, Adjacency::Planar8);
    b.seed_cell(1, 0, 0);
    b.seed_cell(1, 1, 0);
    b.seed_cell(1, 2, 0);
    b
}

#[test]
fn tick_is_deterministic_for_equal_snapshots() {
    let rules = Rules::classic_life();
    let mut b1 = blinker_board();
    let mut b2 = blinker_board();
    let r1 = process_tick(&mut b1, &rules);
    let r2 = process_tick(&mut b2, &rules);
    for x in 0..3 {
        for y in 0..3 {
            assert_eq!(b1.get(x, y, 0), b2.get(x, y, 0), "at ({}, {})", x, y);
        }
    }
    assert_eq!(r1.spawned, r2.spawned);
    assert_eq!(r1.killed, r2.killed);
}

#[test]
fn decay_lifecycle_takes_exactly_the_budget() {
    // An isolated seeded cell always has zero neighbors, so under the
    // classic rules it declines from its first tick on.  It enters decay
    // on tick 1 without losing budget, then counts down one per tick:
    // alive through tick DECAY_TICKS, dead on tick DECAY_TICKS + 1.
    let rules = Rules::classic_life();
    let mut b = Board::new(1, 1, 1, Adjacency::Planar8);
    b.seed_cell(0, 0, 0);
    for tick in 1..=DECAY_TICKS {
        let report = process_tick(&mut b, &rules);
        let c = b.get(0, 0, 0);
        assert!(!c.dead, "dead too early, tick {}", tick);
        assert!(c.decaying);
        assert_eq!(c.decaying_ticks, DECAY_TICKS - (tick - 1));
        assert!(report.spawned.is_empty());
        assert!(report.killed.is_empty());
    }
    let report = process_tick(&mut b, &rules);
    let c = b.get(0, 0, 0);
    assert!(c.dead);
    assert!(!c.decaying);
    assert_eq!(c.decaying_ticks, 0);
    assert_eq!(report.killed, vec![Position { x: 0, y: 0, z: 0 }]);
    assert!(report.spawned.is_empty());
}

#[test]
fn spawn_resets_budget_regardless_of_history() {
    let rules = Rules::classic_life();
    let mut b = Board::new(3, 3, 1, Adjacency::Planar8);
    b.seed_cell(0, 1, 0);
    b.seed_cell(1, 0, 0);
    b.seed_cell(1, 1, 0);
    // Scribble stale decay history into the dead corner that is about to
    // be reborn: spawning must wipe it.
    b.set_cell(0, 0, 0, Cell { decaying: true, decaying_ticks: 1, dead: true, neighbors: 7 });
    count_neighbors(&mut b);
    assert_eq!(b.get(0, 0, 0).neighbors, 3);
    let spawned = spawn_cells(&mut b, &rules);
    assert!(spawned.contains(&Position { x: 0, y: 0, z: 0 }));
    let c = b.get(0, 0, 0);
    assert!(!c.dead);
    assert!(!c.decaying);
    assert_eq!(c.decaying_ticks, DECAY_TICKS);
}

#[test]
fn spawned_cell_ends_the_tick_with_full_budget() {
    let rules = Rules::classic_life();
    let mut b = Board::new(3, 3, 1, Adjacency::Planar8);
    b.seed_cell(0, 1, 0);
    b.seed_cell(1, 0, 0);
    b.seed_cell(1, 1, 0);
    b.set_cell(0, 0, 0, Cell { decaying: true, decaying_ticks: 1, dead: true, neighbors: 7 });
    let report = process_tick(&mut b, &rules);
    let c = b.get(0, 0, 0);
    assert!(!c.dead);
    assert!(!c.decaying);
    assert_eq!(c.decaying_ticks, DECAY_TICKS);
    assert!(report.spawned.contains(&Position { x: 0, y: 0, z: 0 }));
}

#[test]
fn rest_state_is_idempotent() {
    // All dead, and the classic rules do not spawn on zero neighbors, so
    // the board stays all-dead tick after tick.
    let rules = Rules::classic_life();
    let mut b = Board::new(4, 4, 1, Adjacency::Planar8);
    for _ in 0..5 {
        let report = process_tick(&mut b, &rules);
        assert!(report.spawned.is_empty());
        assert!(report.killed.is_empty());
        for x in 0..4 {
            for y in 0..4 {
                let c = b.get(x, y, 0);
                assert!(c.dead);
                assert!(!c.decaying);
                assert_eq!(c.decaying_ticks, 0);
                assert_eq!(c.neighbors, 0);
            }
        }
    }
}

#[test]
fn single_seed_scenario_on_5x5() {
    // One seed at (2,2) of a 5x5 planar board.  After one tick its own
    // neighbor count is 0, it declines without losing budget yet, and no
    // other cell's dead flag changes: the ring around it counts only 1
    // live neighbor, below the classic birth threshold.
    let rules = Rules::classic_life();
    let mut b = Board::new(5, 5, 1, Adjacency::Planar8);
    b.seed_cell(2, 2, 0);
    let report = process_tick(&mut b, &rules);
    assert_eq!(b.get(2, 2, 0).neighbors, 0);
    let c = b.get(2, 2, 0);
    assert!(!c.dead);
    assert!(c.decaying);
    assert_eq!(c.decaying_ticks, DECAY_TICKS);
    assert_eq!(b.get(1, 1, 0).neighbors, 1);
    assert_eq!(b.get(1, 2, 0).neighbors, 1);
    assert_eq!(b.get(3, 3, 0).neighbors, 1);
    assert_eq!(b.get(0, 0, 0).neighbors, 0);
    for x in 0..5 {
        for y in 0..5 {
            if !(x == 2 && y == 2) {
                assert!(b.get(x, y, 0).dead, "({}, {}) flipped", x, y);
            }
        }
    }
    assert!(report.spawned.is_empty());
    assert!(report.killed.is_empty());
}

#[test]
fn volumetric_tick_spawns_on_three_face_neighbors() {
    let rules = Rules::classic_life();
    let mut b = Board::new(3, 3, 3, Adjacency::Volumetric6);
    b.seed_cell(0, 1, 1);
    b.seed_cell(2, 1, 1);
    b.seed_cell(1, 0, 1);
    let report = process_tick(&mut b, &rules);
    // Only the center touches all three seeds face-on.
    assert_eq!(report.spawned, vec![Position { x: 1, y: 1, z: 1 }]);
    assert!(report.killed.is_empty());
    let c = b.get(1, 1, 1);
    assert!(!c.dead);
    assert!(!c.decaying);
    assert_eq!(c.decaying_ticks, DECAY_TICKS);
    // The seeds saw at most one live neighbor, so they enter decay but
    // survive this tick with their full budget.
    for (x, y, z) in [(0, 1, 1), (2, 1, 1), (1, 0, 1)] {
        let s = b.get(x, y, z);
        assert!(!s.dead);
        assert!(s.decaying);
        assert_eq!(s.decaying_ticks, DECAY_TICKS);
    }
}

#[test]
fn report_lists_each_flip_once() {
    // A vertical blinker: its two horizontal ends are born, nothing dies
    // on the first tick.
    let rules = Rules::classic_life();
    let mut b = blinker_board();
    let report = process_tick(&mut b, &rules);
    assert_eq!(
        report.spawned,
        vec![Position { x: 0, y: 1, z: 0 }, Position { x: 2, y: 1, z: 0 }]
    );
    assert!(report.killed.is_empty());
    assert!(!b.get(0, 1, 0).dead);
    assert!(!b.get(2, 1, 0).dead);
    assert!(!b.get(1, 1, 0).dead);
}
