use sudokuroyale::solve::cancelable::Cancelable;

#[test]
fn test_cancel_sets_signal() {
    let c = Cancelable::new();
    c.clear();
    assert!(!c.is_canceled());

    c.cancel();
    assert!(c.is_canceled());
}

#[test]
fn test_clear_resets_signal() {
    let c = Cancelable::new();
    c.cancel();
    assert!(c.is_canceled());

    c.clear();
    assert!(!c.is_canceled());
}

#[test]
fn test_multiple_cancel_clear() {
    let c = Cancelable::new();

    c.clear();
    assert!(!c.is_canceled());

    c.cancel();
    assert!(c.is_canceled());

    c.cancel();
    assert!(c.is_canceled());

    c.clear();
    assert!(!c.is_canceled());
}

#[test]
fn clones_share_the_signal() {
    let c = Cancelable::new();
    let d = c.clone();
    c.cancel();
    assert!(d.is_canceled());
    d.clear();
    assert!(!c.is_canceled());
}
