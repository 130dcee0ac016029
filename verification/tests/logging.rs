use mobcam::logging::{Changed, Level};

#[test]
fn only_changes_are_reported() {
    let mut logged: Changed<Level> = Changed::default();
    assert!(logged.changed(Level::Warning));
    assert!(!logged.changed(Level::Warning));
    assert!(logged.changed(Level::Info));
    assert!(logged.changed(Level::Warning));
}

#[test]
fn pairs_change_when_either_part_does() {
    let mut logged: Changed<(u32, bool)> = Changed::default();
    assert!(logged.changed((1, true)));
    assert!(!logged.changed((1, true)));
    assert!(logged.changed((1, false)));
    assert!(logged.changed((2, false)));
}

#[test]
fn a_run_of_values_reports_each_change() {
    let mut logged: Changed<i32> = Changed::default();
    assert!(logged.changed(1));
    assert!(!logged.changed(1));
    assert!(logged.changed(2));
    assert!(logged.changed(1));
}
