use decaying_life::config::DECAY_TICKS;
use decaying_life::setup::create_board;
use decaying_life::setup::malformed_line_numbers;
use decaying_life::setup::parse_seed_line;
use decaying_life::setup::SeedError;
use decaying_life::types::Adjacency;

fn bytes(s: &str) -> Vec<u8> {
    s.as_bytes().to_vec()
}

#[test]
fn create_board_marks_seeded_cells_alive_fresh() {
    let seed = bytes("1;2\n0;0\n");
    let b = create_board(&seed, 5, 5, 1, Adjacency::Planar8).unwrap();
    for x in 0..5 {
        for y in 0..5 {
            let c = b.get(x, y, 0);
            if (x == 1 && y == 2) || (x == 0 && y == 0) {
                assert!(!c.dead);
                assert!(!c.decaying);
                assert_eq!(c.decaying_ticks, DECAY_TICKS);
            } else {
                assert!(c.dead);
                assert!(!c.decaying);
                assert_eq!(c.decaying_ticks, 0);
            }
        }
    }
}

#[test]
fn seed_z_defaults_to_zero() {
    let seed = bytes("1;1\n2;2;1\n");
    let b = create_board(&seed, 3, 3, 3, Adjacency::Volumetric6).unwrap();
    assert!(!b.get(1, 1, 0).dead);
    assert!(!b.get(2, 2, 1).dead);
    assert!(b.get(1, 1, 1).dead);
    assert!(b.get(2, 2, 0).dead);
}

#[test]
fn malformed_lines_are_skipped() {
    let seed = bytes("1;1\nbogus\n2;2;3;4\n0;2\n");
    assert_eq!(malformed_line_numbers(&seed), vec![1, 2]);
    let b = create_board(&seed, 5, 5, 1, Adjacency::Planar8).unwrap();
    assert!(!b.get(1, 1, 0).dead);
    assert!(!b.get(0, 2, 0).dead);
    let mut alive = 0;
    for x in 0..5 {
        for y in 0..5 {
            if !b.get(x, y, 0).dead {
                alive += 1;
            }
        }
    }
    assert_eq!(alive, 2);
}

#[test]
fn wrong_field_count_is_malformed() {
    assert!(parse_seed_line(&bytes("7")).is_none());
    assert!(parse_seed_line(&bytes("1;2;3;4")).is_none());
    assert_eq!(parse_seed_line(&bytes("1;2")), Some((1, 2, 0)));
    assert_eq!(parse_seed_line(&bytes("4;5;6")), Some((4, 5, 6)));
}

#[test]
fn non_digit_fields_are_malformed() {
    assert!(parse_seed_line(&bytes("+1;1")).is_none());
    assert!(parse_seed_line(&bytes("-1;2")).is_none());
    assert!(parse_seed_line(&bytes("1; 2")).is_none());
    assert!(parse_seed_line(&bytes(";2")).is_none());
    assert!(parse_seed_line(&bytes("1;")).is_none());
}

#[test]
fn overflowing_coordinate_is_malformed() {
    let seed = bytes("123456789012345678901234567890;1\n2;2\n");
    assert_eq!(malformed_line_numbers(&seed), vec![0]);
    let b = create_board(&seed, 5, 5, 1, Adjacency::Planar8).unwrap();
    assert!(!b.get(2, 2, 0).dead);
    assert!(b.get(1, 1, 0).dead);
}

#[test]
fn out_of_range_seed_is_fatal() {
    let seed = bytes("1;1\n9;9\n2;2\n");
    match create_board(&seed, 5, 5, 1, Adjacency::Planar8) {
        Ok(_) => panic!("out-of-range seed was accepted"),
        Err(err) => assert_eq!(err, SeedError::OutOfRange { x: 9, y: 9, z: 0 }),
    }
}

#[test]
fn out_of_range_depth_is_fatal_on_planar_boards() {
    let seed = bytes("1;1;1\n");
    match create_board(&seed, 5, 5, 1, Adjacency::Planar8) {
        Ok(_) => panic!("out-of-range depth was accepted"),
        Err(err) => assert_eq!(err, SeedError::OutOfRange { x: 1, y: 1, z: 1 }),
    }
}

#[test]
fn crlf_line_endings_are_tolerated() {
    let seed = bytes("1;1\r\n2;2\r\n");
    let b = create_board(&seed, 5, 5, 1, Adjacency::Planar8).unwrap();
    assert!(!b.get(1, 1, 0).dead);
    assert!(!b.get(2, 2, 0).dead);
}

#[test]
fn empty_seed_gives_an_all_dead_board() {
    let seed = bytes("");
    assert!(malformed_line_numbers(&seed).is_empty());
    let b = create_board(&seed, 3, 3, 1, Adjacency::Planar8).unwrap();
    for x in 0..3 {
        for y in 0..3 {
            assert!(b.get(x, y, 0).dead);
        }
    }
}

#[test]
fn blank_lines_are_malformed_not_fatal() {
    let seed = bytes("\n\n1;1\n");
    assert_eq!(malformed_line_numbers(&seed), vec![0, 1]);
    let b = create_board(&seed, 3, 3, 1, Adjacency::Planar8).unwrap();
    assert!(!b.get(1, 1, 0).dead);
}
