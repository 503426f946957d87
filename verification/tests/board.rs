use decaying_life::config::DECAY_TICKS;
use decaying_life::types::Adjacency;
use decaying_life::types::Board;
use decaying_life::types::Cell;

#[test]
fn new_board_starts_all_dead() {
    let b = Board::new(3, 2, 2, Adjacency::Volumetric6);
    assert_eq!(b.width, 3);
    assert_eq!(b.height, 2);
    assert_eq!(b.depth, 2);
    assert_eq!(b.adjacency, Adjacency::Volumetric6);
    for x in 0..3 {
        for y in 0..2 {
            for z in 0..2 {
                let c = b.get(x, y, z);
                assert!(c.dead);
                assert!(!c.decaying);
                assert_eq!(c.decaying_ticks, 0);
                assert_eq!(c.neighbors, 0);
            }
        }
    }
}

#[test]
fn default_cell_is_resting() {
    let c = Cell::default();
    assert!(c.dead);
    assert!(!c.decaying);
    assert_eq!(c.decaying_ticks, 0);
    assert_eq!(c.neighbors, 0);
}

#[test]
fn seed_cell_is_alive_fresh() {
    let mut b = Board::new(2, 2, 1, Adjacency::Planar8);
    b.seed_cell(1, 0, 0);
    let c = b.get(1, 0, 0);
    assert!(!c.dead);
    assert!(!c.decaying);
    assert_eq!(c.decaying_ticks, DECAY_TICKS);
    assert!(b.get(0, 0, 0).dead);
    assert!(b.get(0, 1, 0).dead);
    assert!(b.get(1, 1, 0).dead);
}

#[test]
fn set_cell_touches_only_one_cell() {
    let mut b = Board::new(2, 2, 1, Adjacency::Planar8);
    let probe = Cell { decaying: true, decaying_ticks: 2, dead: false, neighbors: 5 };
    b.set_cell(0, 1, 0, probe);
    assert_eq!(b.get(0, 1, 0), probe);
    assert_eq!(b.get(0, 0, 0), Cell::default());
    assert_eq!(b.get(1, 0, 0), Cell::default());
    assert_eq!(b.get(1, 1, 0), Cell::default());
}
