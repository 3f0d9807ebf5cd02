use daebug::watcher::Debouncer;

#[test]
fn debouncer_starts_empty() {
    let debouncer = Debouncer::new(200);
    assert_eq!(debouncer.len(), 0);
}

#[test]
fn a_burst_is_handed_out_once() {
    let mut debouncer = Debouncer::new(200);
    debouncer.notify("page", 1_000);
    debouncer.notify("page", 1_050);
    debouncer.notify("page", 1_120);
    assert_eq!(debouncer.len(), 1);
    assert!(debouncer.take_due(1_200).is_empty());
    assert!(debouncer.take_due(1_319).is_empty());
    assert_eq!(debouncer.take_due(1_320), vec![String::from("page")]);
    assert_eq!(debouncer.len(), 0);
    assert!(debouncer.take_due(5_000).is_empty());
}

#[test]
fn pages_are_kept_apart_and_in_order() {
    let mut debouncer = Debouncer::new(100);
    debouncer.notify("a", 0);
    debouncer.notify("b", 50);
    debouncer.notify("c", 10);
    debouncer.notify("a", 60);
    assert_eq!(debouncer.take_due(150), vec![String::from("b"), String::from("c")]);
    assert_eq!(debouncer.len(), 1);
    assert_eq!(debouncer.take_due(160), vec![String::from("a")]);
}

#[test]
fn a_clock_that_steps_back_hands_out_nothing() {
    let mut debouncer = Debouncer::new(100);
    debouncer.notify("a", 1_000);
    assert!(debouncer.take_due(900).is_empty());
    assert_eq!(debouncer.len(), 1);
    let mut eager = Debouncer::new(0);
    eager.notify("a", 1_000);
    assert!(eager.take_due(999).is_empty());
    assert_eq!(eager.take_due(1_000), vec![String::from("a")]);
}
