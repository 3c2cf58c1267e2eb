use dynprops::attribute::Attribute;
use dynprops::bundle::PropsBundle;
use dynprops::listener::HandlerId;

#[test]
fn a_new_bundle_is_empty_and_clean() {
    let bundle = PropsBundle::new();
    assert_eq!(bundle.generation(), 0);
    assert!(!bundle.is_dirty());
    assert_eq!(bundle.update_callback(), None);
    assert!(bundle.attributes().is_empty());
    assert!(bundle.listeners().is_empty());
    assert!(bundle.pending_update().is_none());
}

#[test]
fn every_mutation_advances_the_generation() {
    let mut bundle = PropsBundle::new();
    assert!(bundle.add_attribute(Attribute::disabled()));
    assert_eq!(bundle.generation(), 1);
    assert!(bundle.add_attribute(Attribute::disabled()));
    assert_eq!(bundle.generation(), 2);
    assert!(bundle.remove_attribute("disabled"));
    assert_eq!(bundle.generation(), 3);
    assert!(bundle.remove_attribute("disabled"));
    assert_eq!(bundle.generation(), 4);
    assert!(bundle.add_listener("a", "click", HandlerId(1)));
    assert_eq!(bundle.generation(), 5);
    assert!(bundle.remove_listener("a"));
    assert_eq!(bundle.generation(), 6);
    assert!(bundle.remove_listener("never-set"));
    assert_eq!(bundle.generation(), 7);
}

#[test]
fn mutations_reach_the_bags() {
    let mut bundle = PropsBundle::new();
    bundle.add_attribute(Attribute::aria_atomic(true));
    bundle.add_attribute(Attribute::custom("x", Some("1")));
    bundle.add_listener("a", "click", HandlerId(1));
    bundle.add_listener("b", "click", HandlerId(2));
    bundle.remove_attribute("aria-atomic");
    bundle.remove_listener("a");
    assert_eq!(bundle.attributes().entries(), vec![Attribute::custom("x", Some("1"))]);
    let listeners = bundle.listeners().entries();
    assert_eq!(listeners.len(), 1);
    assert_eq!(listeners[0].key, "b");
    assert_eq!(listeners[0].serial, 2);
}

#[test]
fn a_mutation_marks_the_bundle_dirty() {
    let mut bundle = PropsBundle::new();
    bundle.add_attribute(Attribute::disabled());
    assert!(bundle.is_dirty());
    bundle.mark_clean();
    assert!(!bundle.is_dirty());
    assert_eq!(bundle.generation(), 1);
    bundle.remove_listener("none");
    assert!(bundle.is_dirty());
}

#[test]
fn a_snapshot_does_not_see_later_mutations() {
    let mut bundle = PropsBundle::new();
    bundle.add_attribute(Attribute::aria_atomic(true));
    let snapshot = bundle.snapshot();
    bundle.add_attribute(Attribute::disabled());
    bundle.add_listener("a", "click", HandlerId(1));
    assert_eq!(snapshot.generation(), 1);
    assert_eq!(snapshot.attributes().entries(), vec![Attribute::aria_atomic(true)]);
    assert!(snapshot.listeners().is_empty());
    let next = bundle.snapshot();
    assert_eq!(next.generation(), 3);
    assert_eq!(next.attributes().len(), 2);
    assert!(!snapshot.same_content(&next));
}

#[test]
fn two_snapshots_of_one_state_are_equal() {
    let mut bundle = PropsBundle::new();
    bundle.add_attribute(Attribute::aria_atomic(true));
    bundle.add_listener("a", "click", HandlerId(1));
    let first = bundle.snapshot();
    let second = bundle.snapshot();
    assert_eq!(first.generation(), second.generation());
    assert!(first.same_content(&second));
    assert!(first.clone().same_content(&first));
}

#[test]
fn an_update_is_pending_only_with_callback_and_mutation() {
    let mut without = PropsBundle::new();
    without.add_attribute(Attribute::disabled());
    assert!(without.pending_update().is_none());

    let mut with = PropsBundle::with_update_callback(HandlerId(77));
    assert_eq!(with.update_callback(), Some(HandlerId(77)));
    assert!(with.pending_update().is_none());
    with.add_attribute(Attribute::disabled());
    let update = with.pending_update().unwrap();
    assert_eq!(update.callback, HandlerId(77));
    assert_eq!(update.snapshot.generation(), 1);
    assert_eq!(update.snapshot.attributes().entries(), vec![Attribute::disabled()]);
    with.mark_clean();
    assert!(with.pending_update().is_none());
}

#[test]
fn adopt_takes_the_content_at_a_later_generation() {
    let mut source = PropsBundle::new();
    source.add_attribute(Attribute::disabled());
    source.add_listener("a", "click", HandlerId(1));
    let snapshot = source.snapshot();
    assert_eq!(snapshot.generation(), 2);

    let mut target = PropsBundle::with_update_callback(HandlerId(5));
    target.add_attribute(Attribute::aria_atomic(false));
    assert!(!target.holds(&snapshot));
    assert!(target.adopt(snapshot));
    assert_eq!(target.generation(), 3);
    assert!(!target.is_dirty());
    assert_eq!(target.update_callback(), Some(HandlerId(5)));
    assert_eq!(target.attributes().entries(), vec![Attribute::disabled()]);
    assert_eq!(target.listeners().len(), 1);
    assert!(target.holds(&source.snapshot()));
    assert!(target.add_listener("b", "click", HandlerId(2)));
    assert_eq!(target.listeners().get("b").unwrap().serial, 2);
}

#[test]
fn adopt_never_lowers_the_generation() {
    let mut old = PropsBundle::new();
    old.add_attribute(Attribute::disabled());
    let snapshot = old.snapshot();

    let mut target = PropsBundle::new();
    let mut round = 0;
    while round < 10 {
        target.add_attribute(Attribute::aria_atomic(true));
        round += 1;
    }
    assert_eq!(target.generation(), 10);
    assert!(target.adopt(snapshot));
    assert_eq!(target.generation(), 11);
    assert_eq!(target.attributes().entries(), vec![Attribute::disabled()]);
}

#[test]
fn an_update_is_taken_once() {
    let mut bundle = PropsBundle::with_update_callback(HandlerId(9));
    bundle.add_listener("a", "click", HandlerId(1));
    let update = bundle.take_update().unwrap();
    assert_eq!(update.callback, HandlerId(9));
    assert_eq!(update.snapshot.generation(), 1);
    assert!(!bundle.is_dirty());
    assert!(bundle.take_update().is_none());
    assert_eq!(bundle.generation(), 1);

    let mut silent = PropsBundle::new();
    silent.add_attribute(Attribute::disabled());
    assert!(silent.take_update().is_none());
    assert!(silent.is_dirty());
}
