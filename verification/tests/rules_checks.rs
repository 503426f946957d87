use decaying_life::rules::Rules;

#[test]
fn classic_birth_window() {
    let r = Rules::classic_life();
    assert!(!r.should_spawn(0));
    assert!(!r.should_spawn(1));
    assert!(!r.should_spawn(2));
    assert!(r.should_spawn(3));
    assert!(!r.should_spawn(4));
    assert!(!r.should_spawn(8));
}

#[test]
fn classic_decline_window() {
    let r = Rules::classic_life();
    assert!(r.should_decay(0));
    assert!(r.should_decay(1));
    assert!(!r.should_decay(2));
    assert!(!r.should_decay(3));
    assert!(r.should_decay(4));
    assert!(r.should_decay(8));
}

#[test]
fn custom_windows_are_honored() {
    let r = Rules { birth_min: 1, birth_max: 2, survive_min: 0, survive_max: 6 };
    assert!(!r.should_spawn(0));
    assert!(r.should_spawn(1));
    assert!(r.should_spawn(2));
    assert!(!r.should_spawn(3));
    assert!(!r.should_decay(0));
    assert!(!r.should_decay(6));
    assert!(r.should_decay(7));
}
