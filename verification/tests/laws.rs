use dynprops::attribute::{Attribute, Family, Value};
use dynprops::bundle::PropsBundle;
use dynprops::element::{Element, Registration, Slot};
use dynprops::injector::DomInjector;
use dynprops::listener::HandlerId;

fn sample() -> PropsBundle {
    let mut bundle = PropsBundle::new();
    bundle.add_attribute(Attribute::aria_atomic(false));
    bundle.add_attribute(Attribute::custom("gone-soon", Some("x")));
    bundle.add_attribute(Attribute::new(Family::Aria, "aria-level", Value::Integer(-2)));
    bundle.add_listener("a", "click", HandlerId(1));
    bundle.add_listener("b", "keydown", HandlerId(2));
    bundle.remove_attribute("gone-soon");
    bundle.add_attribute(Attribute::aria_atomic(true));
    bundle.add_listener("a", "click", HandlerId(3));
    bundle
}

#[test]
fn a_fresh_element_ends_up_equal_to_the_snapshot() {
    let snapshot = sample().snapshot();
    let mut element = Element::new();
    let mut injector = DomInjector::new();
    let report = injector.reconcile(&mut element, &snapshot);
    assert!(report.failures.is_empty());

    let mut expected = Vec::new();
    for attribute in snapshot.attributes().entries() {
        let payload = attribute.payload().unwrap();
        expected.push(Slot { name: attribute.key, value: payload.unwrap_or_default() });
    }
    assert_eq!(element.attributes(), expected);
    assert_eq!(
        expected,
        vec![
            Slot { name: "aria-atomic".to_string(), value: "true".to_string() },
            Slot { name: "aria-level".to_string(), value: "-2".to_string() },
        ]
    );

    let mut registered = Vec::new();
    for (i, listener) in snapshot.listeners().entries().into_iter().enumerate() {
        registered.push(Registration {
            handle: i as u64,
            event: listener.event,
            handler: listener.handler,
        });
    }
    assert_eq!(element.registrations(), registered);
    assert_eq!(registered[0].event, "keydown");
    assert_eq!(registered[1].handler, HandlerId(3));
}

#[test]
fn reconciling_twice_is_reconciling_once() {
    let snapshot = sample().snapshot();
    let mut once = Element::new();
    let mut first = DomInjector::new();
    first.reconcile(&mut once, &snapshot);

    let mut twice = Element::new();
    let mut second = DomInjector::new();
    second.reconcile(&mut twice, &snapshot);
    let report = second.reconcile(&mut twice, &snapshot);

    assert!(report.failures.is_empty());
    assert_eq!(once.attributes(), twice.attributes());
    assert_eq!(once.registrations(), twice.registrations());
    assert_eq!(once.journal(), twice.journal());
    assert_eq!(first.installed_attributes(), second.installed_attributes());
    assert_eq!(first.installed_listeners(), second.installed_listeners());
    assert_eq!(first.last_generation(), second.last_generation());
}

#[test]
fn a_later_reconcile_leaves_nothing_of_the_earlier_snapshot() {
    let mut bundle = sample();
    let mut element = Element::new();
    let mut injector = DomInjector::new();
    injector.reconcile(&mut element, &bundle.snapshot());

    bundle.remove_attribute("aria-level");
    bundle.remove_listener("b");
    bundle.add_attribute(Attribute::disabled());
    bundle.add_listener("c", "click", HandlerId(9));
    injector.reconcile(&mut element, &bundle.snapshot());

    assert_eq!(element.attribute("aria-level"), None);
    assert_eq!(element.attribute("aria-atomic"), Some("true".to_string()));
    assert_eq!(element.attribute("disabled"), Some(String::new()));
    assert_eq!(element.attributes().len(), 2);
    assert!(element.dispatch("keydown").is_empty());
    assert_eq!(element.dispatch("click"), vec![HandlerId(3), HandlerId(9)]);
    assert_eq!(element.registrations().len(), 2);
}

#[test]
fn nothing_leaks_past_unmount() {
    let mut bundle = sample();
    let mut element = Element::new();
    let mut injector = DomInjector::new();
    injector.reconcile(&mut element, &bundle.snapshot());
    bundle.add_listener("b", "keyup", HandlerId(5));
    bundle.add_attribute(Attribute::custom("x", None));
    injector.reconcile(&mut element, &bundle.snapshot());
    injector.unmount(&mut element);
    assert!(element.attributes().is_empty());
    assert!(element.registrations().is_empty());
}

#[test]
fn no_listener_key_is_registered_twice() {
    let mut bundle = PropsBundle::new();
    let mut element = Element::new();
    let mut injector = DomInjector::new();
    let mut round: u64 = 0;
    while round < 6 {
        bundle.add_listener("a", "click", HandlerId(round));
        if round % 2 == 0 {
            bundle.add_listener("b", "click", HandlerId(100 + round));
        }
        injector.reconcile(&mut element, &bundle.snapshot());
        let registrations = element.registrations();
        let installed = injector.installed_listeners();
        assert_eq!(registrations.len(), 2);
        assert_eq!(installed.len(), 2);
        assert_ne!(installed[0].key, installed[1].key);
        assert_ne!(registrations[0].handle, registrations[1].handle);
        assert!(element.is_registered(injector.handle_of("a").unwrap()));
        assert!(element.is_registered(injector.handle_of("b").unwrap()));
        round += 1;
    }
    assert_eq!(element.dispatch("click").len(), 2);
}
