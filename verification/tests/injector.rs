use dynprops::attribute::{Attribute, Family, Value};
use dynprops::bundle::PropsBundle;
use dynprops::element::{DomOp, Element, Slot};
use dynprops::injector::{DomInjector, Failure};
use dynprops::listener::HandlerId;
use dynprops::mount::{FailureKind, Phase};

#[test]
fn a_new_injector_is_fresh() {
    let injector = DomInjector::new();
    assert_eq!(injector.phase(), Phase::Fresh);
    assert!(injector.installed_attributes().is_empty());
    assert!(injector.installed_listeners().is_empty());
    assert_eq!(injector.handle_of("a"), None);
}

#[test]
fn the_first_reconcile_installs_every_entry_in_order() {
    let mut bundle = PropsBundle::new();
    bundle.add_attribute(Attribute::aria_atomic(true));
    bundle.add_attribute(Attribute::disabled());
    bundle.add_attribute(Attribute::new(Family::Aria, "aria-level", Value::Integer(3)));
    bundle.add_listener("a", "click", HandlerId(1));
    bundle.add_listener("b", "focus", HandlerId(2));
    let snapshot = bundle.snapshot();

    let mut element = Element::new();
    let mut injector = DomInjector::new();
    let report = injector.reconcile(&mut element, &snapshot);

    assert!(report.failures.is_empty());
    assert_eq!(injector.phase(), Phase::Live);
    assert_eq!(injector.last_generation(), 5);
    assert_eq!(
        element.attributes(),
        vec![
            Slot { name: "aria-atomic".to_string(), value: "true".to_string() },
            Slot { name: "disabled".to_string(), value: String::new() },
            Slot { name: "aria-level".to_string(), value: "3".to_string() },
        ]
    );
    let registrations = element.registrations();
    assert_eq!(registrations.len(), 2);
    assert_eq!(registrations[0].event, "click");
    assert_eq!(registrations[0].handler, HandlerId(1));
    assert_eq!(registrations[1].event, "focus");
    assert_eq!(registrations[1].handler, HandlerId(2));
    assert_eq!(injector.installed_attributes(), snapshot.attributes().entries());
    assert_eq!(injector.installed_listeners(), snapshot.listeners().entries());
    assert_eq!(injector.handle_of("a"), Some(registrations[0].handle));
    assert_eq!(injector.handle_of("b"), Some(registrations[1].handle));
}

#[test]
fn removals_come_before_additions() {
    let mut bundle = PropsBundle::new();
    bundle.add_attribute(Attribute::custom("old", Some("1")));
    bundle.add_listener("gone", "click", HandlerId(1));
    let mut element = Element::new();
    let mut injector = DomInjector::new();
    injector.reconcile(&mut element, &bundle.snapshot());
    element.take_journal();

    bundle.remove_attribute("old");
    bundle.add_attribute(Attribute::custom("new", Some("2")));
    bundle.remove_listener("gone");
    bundle.add_listener("come", "click", HandlerId(2));
    injector.reconcile(&mut element, &bundle.snapshot());

    assert_eq!(
        element.take_journal(),
        vec![
            DomOp::RemoveAttribute { name: "old".to_string() },
            DomOp::SetAttribute { name: "new".to_string(), value: "2".to_string() },
            DomOp::RemoveEventListener { handle: 0 },
            DomOp::AddEventListener {
                event: "click".to_string(),
                handler: HandlerId(2),
                handle: 1,
            },
        ]
    );
}

#[test]
fn only_changed_entries_are_written() {
    let mut bundle = PropsBundle::new();
    bundle.add_attribute(Attribute::aria_atomic(true));
    bundle.add_attribute(Attribute::custom("x", Some("1")));
    bundle.add_listener("a", "click", HandlerId(1));
    let mut element = Element::new();
    let mut injector = DomInjector::new();
    injector.reconcile(&mut element, &bundle.snapshot());
    element.take_journal();

    bundle.add_attribute(Attribute::custom("x", Some("2")));
    injector.reconcile(&mut element, &bundle.snapshot());
    assert_eq!(
        element.take_journal(),
        vec![DomOp::SetAttribute { name: "x".to_string(), value: "2".to_string() }]
    );
    assert_eq!(element.attribute("aria-atomic"), Some("true".to_string()));
}

#[test]
fn a_presence_attribute_added_again_takes_the_standard_path() {
    let mut bundle = PropsBundle::new();
    bundle.add_attribute(Attribute::disabled());
    let mut element = Element::new();
    let mut injector = DomInjector::new();
    injector.reconcile(&mut element, &bundle.snapshot());
    element.take_journal();

    bundle.add_attribute(Attribute::disabled());
    let snapshot = bundle.snapshot();
    let report = injector.reconcile(&mut element, &snapshot);
    assert!(report.failures.is_empty());
    assert_eq!(injector.last_generation(), snapshot.generation());
    assert_eq!(element.attribute("disabled"), Some(String::new()));
    assert!(element.take_journal().is_empty());
}

#[test]
fn the_injector_does_not_read_the_element_to_spare_a_write() {
    let mut bundle = PropsBundle::new();
    bundle.add_attribute(Attribute::custom("x", Some("1")));
    let mut element = Element::new();
    let mut injector = DomInjector::new();
    injector.reconcile(&mut element, &bundle.snapshot());

    element.set_attribute("x", "2");
    element.take_journal();
    bundle.add_attribute(Attribute::custom("x", Some("2")));
    injector.reconcile(&mut element, &bundle.snapshot());
    assert_eq!(
        element.take_journal(),
        vec![DomOp::SetAttribute { name: "x".to_string(), value: "2".to_string() }]
    );
}

#[test]
fn a_replaced_listener_is_registered_once() {
    let mut bundle = PropsBundle::new();
    bundle.add_listener("a", "click", HandlerId(1));
    bundle.add_listener("b", "click", HandlerId(2));
    let mut element = Element::new();
    let mut injector = DomInjector::new();
    injector.reconcile(&mut element, &bundle.snapshot());
    let old = injector.handle_of("a").unwrap();
    element.take_journal();

    bundle.add_listener("a", "click", HandlerId(3));
    injector.reconcile(&mut element, &bundle.snapshot());

    assert_eq!(element.registrations().len(), 2);
    assert!(!element.is_registered(old));
    let new = injector.handle_of("a").unwrap();
    assert_ne!(old, new);
    assert!(element.is_registered(new));
    assert_eq!(element.dispatch("click"), vec![HandlerId(2), HandlerId(3)]);
    assert_eq!(
        element.take_journal(),
        vec![
            DomOp::RemoveEventListener { handle: old },
            DomOp::AddEventListener {
                event: "click".to_string(),
                handler: HandlerId(3),
                handle: new,
            },
        ]
    );
}

#[test]
fn an_equal_listener_set_again_is_registered_anew() {
    let mut bundle = PropsBundle::new();
    bundle.add_listener("a", "click", HandlerId(1));
    let mut element = Element::new();
    let mut injector = DomInjector::new();
    injector.reconcile(&mut element, &bundle.snapshot());
    let old = injector.handle_of("a").unwrap();

    bundle.add_listener("a", "click", HandlerId(1));
    injector.reconcile(&mut element, &bundle.snapshot());
    let new = injector.handle_of("a").unwrap();
    assert_ne!(old, new);
    assert_eq!(element.registrations().len(), 1);
    assert_eq!(element.dispatch("click"), vec![HandlerId(1)]);
}

#[test]
fn an_invalid_name_is_reported_and_the_rest_installed() {
    let mut bundle = PropsBundle::new();
    bundle.add_attribute(Attribute::custom("first", Some("1")));
    bundle.add_attribute(Attribute::custom("not a name", Some("2")));
    bundle.add_attribute(Attribute::custom("last", Some("3")));
    let mut element = Element::new();
    let mut injector = DomInjector::new();
    let report = injector.reconcile(&mut element, &bundle.snapshot());

    assert_eq!(
        report.failures,
        vec![Failure { key: "not a name".to_string(), kind: FailureKind::InvalidName }]
    );
    assert_eq!(element.attribute("first"), Some("1".to_string()));
    assert_eq!(element.attribute("last"), Some("3".to_string()));
    assert_eq!(element.attributes().len(), 2);
    let installed = injector.installed_attributes();
    assert_eq!(installed.len(), 2);
    assert_eq!(installed[0].key, "first");
    assert_eq!(installed[1].key, "last");
    assert_eq!(injector.phase(), Phase::Live);
}

#[test]
fn a_value_without_string_form_is_reported() {
    let mut bundle = PropsBundle::new();
    bundle.add_attribute(Attribute::new(
        Family::Aria,
        "aria-haspopup",
        Value::Token("Dialog".to_string()),
    ));
    bundle.add_attribute(Attribute::aria_atomic(true));
    let mut element = Element::new();
    let mut injector = DomInjector::new();
    let report = injector.reconcile(&mut element, &bundle.snapshot());
    assert_eq!(
        report.failures,
        vec![Failure { key: "aria-haspopup".to_string(), kind: FailureKind::Serialization }]
    );
    assert_eq!(element.attribute("aria-haspopup"), None);
    assert_eq!(element.attribute("aria-atomic"), Some("true".to_string()));
    assert_eq!(injector.installed_attributes(), vec![Attribute::aria_atomic(true)]);
}

#[test]
fn a_value_that_stops_serializing_leaves_nothing_stale() {
    let mut bundle = PropsBundle::new();
    bundle.add_attribute(Attribute::new(
        Family::Aria,
        "aria-haspopup",
        Value::Token("dialog".to_string()),
    ));
    let mut element = Element::new();
    let mut injector = DomInjector::new();
    injector.reconcile(&mut element, &bundle.snapshot());
    assert_eq!(element.attribute("aria-haspopup"), Some("dialog".to_string()));

    bundle.add_attribute(Attribute::new(
        Family::Aria,
        "aria-haspopup",
        Value::Token(String::new()),
    ));
    let report = injector.reconcile(&mut element, &bundle.snapshot());
    assert_eq!(
        report.failures,
        vec![Failure { key: "aria-haspopup".to_string(), kind: FailureKind::Serialization }]
    );
    assert_eq!(element.attribute("aria-haspopup"), None);
    assert!(injector.installed_attributes().is_empty());
}

#[test]
fn a_failed_registration_is_reported_and_the_rest_registered() {
    let mut bundle = PropsBundle::new();
    bundle.add_listener("a", "click", HandlerId(1));
    bundle.add_listener("nameless", "", HandlerId(2));
    bundle.add_listener("b", "click", HandlerId(3));
    let mut element = Element::new();
    let mut injector = DomInjector::new();
    let report = injector.reconcile(&mut element, &bundle.snapshot());
    assert_eq!(
        report.failures,
        vec![Failure { key: "nameless".to_string(), kind: FailureKind::Registration }]
    );
    assert_eq!(element.dispatch("click"), vec![HandlerId(1), HandlerId(3)]);
    assert_eq!(injector.installed_listeners().len(), 2);
    assert_eq!(injector.handle_of("nameless"), None);
}

#[test]
fn failures_are_reported_attributes_first() {
    let mut bundle = PropsBundle::new();
    bundle.add_listener("nameless", "", HandlerId(2));
    bundle.add_attribute(Attribute::custom("a b", None));
    bundle.add_attribute(Attribute::new(Family::Custom, "t", Value::Token("X".to_string())));
    let mut element = Element::new();
    let mut injector = DomInjector::new();
    let report = injector.reconcile(&mut element, &bundle.snapshot());
    assert_eq!(
        report.failures,
        vec![
            Failure { key: "a b".to_string(), kind: FailureKind::InvalidName },
            Failure { key: "t".to_string(), kind: FailureKind::Serialization },
            Failure { key: "nameless".to_string(), kind: FailureKind::Registration },
        ]
    );
}

#[test]
fn a_failure_is_reported_again_at_the_next_generation() {
    let mut bundle = PropsBundle::new();
    bundle.add_attribute(Attribute::custom("a b", None));
    let mut element = Element::new();
    let mut injector = DomInjector::new();
    assert_eq!(injector.reconcile(&mut element, &bundle.snapshot()).failures.len(), 1);
    assert_eq!(injector.reconcile(&mut element, &bundle.snapshot()).failures.len(), 0);
    bundle.add_attribute(Attribute::custom("ok", None));
    assert_eq!(injector.reconcile(&mut element, &bundle.snapshot()).failures.len(), 1);
    assert_eq!(element.attribute("ok"), Some(String::new()));
}

#[test]
fn foreign_attributes_are_tolerated() {
    let mut bundle = PropsBundle::new();
    bundle.add_attribute(Attribute::disabled());
    let mut element = Element::new();
    element.set_attribute("class", "btn");
    element.add_event_listener("click", HandlerId(99));
    let mut injector = DomInjector::new();
    injector.reconcile(&mut element, &bundle.snapshot());
    bundle.remove_attribute("disabled");
    injector.reconcile(&mut element, &bundle.snapshot());
    injector.unmount(&mut element);
    assert_eq!(
        element.attributes(),
        vec![Slot { name: "class".to_string(), value: "btn".to_string() }]
    );
    assert_eq!(element.dispatch("click"), vec![HandlerId(99)]);
}

#[test]
fn unmount_of_a_fresh_injector_cleans_nothing() {
    let mut element = Element::new();
    element.set_attribute("class", "btn");
    element.take_journal();
    let mut injector = DomInjector::new();
    injector.unmount(&mut element);
    assert_eq!(injector.phase(), Phase::Retired);
    assert_eq!(element.writes(), 0);
    assert_eq!(element.attribute("class"), Some("btn".to_string()));
}

#[test]
fn unmount_twice_is_unmount_once() {
    let mut bundle = PropsBundle::new();
    bundle.add_attribute(Attribute::disabled());
    bundle.add_listener("a", "click", HandlerId(1));
    let mut element = Element::new();
    let mut injector = DomInjector::new();
    injector.reconcile(&mut element, &bundle.snapshot());
    injector.unmount(&mut element);
    element.take_journal();
    injector.unmount(&mut element);
    assert_eq!(element.writes(), 0);
    assert_eq!(injector.phase(), Phase::Retired);
}

#[test]
fn names_and_values_outside_ascii_pass_through() {
    let mut bundle = PropsBundle::new();
    bundle.add_attribute(Attribute::custom("data-größe", Some("zwölf → 12")));
    bundle.add_listener("schlüssel", "click", HandlerId(8));
    let mut element = Element::new();
    let mut injector = DomInjector::new();
    let report = injector.reconcile(&mut element, &bundle.snapshot());
    assert!(report.failures.is_empty());
    assert_eq!(element.attribute("data-größe"), Some("zwölf → 12".to_string()));
    assert_eq!(element.dispatch("click"), vec![HandlerId(8)]);
    assert_eq!(injector.handle_of("schlüssel"), Some(0));
}

#[test]
fn a_large_bundle_is_installed_and_removed_whole() {
    let mut bundle = PropsBundle::new();
    let mut i: u64 = 0;
    while i < 300 {
        bundle.add_attribute(Attribute::new(
            Family::Custom,
            &format!("data-n{}", i),
            Value::Integer(i as i64),
        ));
        bundle.add_listener(&format!("l{}", i), "click", HandlerId(i));
        i += 1;
    }
    let mut element = Element::new();
    let mut injector = DomInjector::new();
    assert!(injector.reconcile(&mut element, &bundle.snapshot()).failures.is_empty());
    assert_eq!(element.attributes().len(), 300);
    assert_eq!(element.registrations().len(), 300);
    assert_eq!(element.attribute("data-n299"), Some("299".to_string()));
    let handlers = element.dispatch("click");
    assert_eq!(handlers.len(), 300);
    assert_eq!(handlers[0], HandlerId(0));
    assert_eq!(handlers[299], HandlerId(299));

    let mut i: u64 = 0;
    while i < 300 {
        if i % 2 == 0 {
            bundle.remove_attribute(&format!("data-n{}", i));
            bundle.remove_listener(&format!("l{}", i));
        }
        i += 1;
    }
    injector.reconcile(&mut element, &bundle.snapshot());
    assert_eq!(element.attributes().len(), 150);
    assert_eq!(element.registrations().len(), 150);
    assert_eq!(element.attribute("data-n0"), None);
    assert_eq!(element.attribute("data-n1"), Some("1".to_string()));
    assert_eq!(element.dispatch("click")[0], HandlerId(1));

    injector.unmount(&mut element);
    assert!(element.attributes().is_empty());
    assert!(element.registrations().is_empty());
}

#[test]
fn a_refused_attribute_is_struck_from_record_and_element() {
    let mut bundle = PropsBundle::new();
    bundle.add_attribute(Attribute::custom("kept", Some("1")));
    bundle.add_attribute(Attribute::custom("refused", Some("2")));
    bundle.add_listener("a", "click", HandlerId(1));
    let mut element = Element::new();
    let mut injector = DomInjector::new();
    injector.reconcile(&mut element, &bundle.snapshot());
    element.take_journal();

    injector.refused_attribute(&mut element, "refused");
    assert_eq!(element.attribute("refused"), None);
    assert_eq!(element.attribute("kept"), Some("1".to_string()));
    assert_eq!(injector.installed_attributes(), vec![Attribute::custom("kept", Some("1"))]);
    assert_eq!(injector.installed_listeners().len(), 1);
    assert_eq!(element.registrations().len(), 1);
    assert_eq!(
        element.take_journal(),
        vec![DomOp::RemoveAttribute { name: "refused".to_string() }]
    );

    bundle.add_attribute(Attribute::custom("refused", Some("3")));
    injector.reconcile(&mut element, &bundle.snapshot());
    assert_eq!(element.attribute("refused"), Some("3".to_string()));

    injector.unmount(&mut element);
    assert!(element.attributes().is_empty());
}

#[test]
fn a_refused_listener_is_struck_from_record_and_element() {
    let mut bundle = PropsBundle::new();
    bundle.add_listener("a", "click", HandlerId(1));
    bundle.add_listener("b", "click", HandlerId(2));
    bundle.add_attribute(Attribute::disabled());
    let mut element = Element::new();
    let mut injector = DomInjector::new();
    injector.reconcile(&mut element, &bundle.snapshot());
    let refused = injector.handle_of("a").unwrap();
    let kept = injector.handle_of("b").unwrap();
    element.take_journal();

    injector.refused_listener(&mut element, "a");
    assert_eq!(injector.handle_of("a"), None);
    assert_eq!(injector.handle_of("b"), Some(kept));
    assert!(!element.is_registered(refused));
    assert!(element.is_registered(kept));
    assert_eq!(element.dispatch("click"), vec![HandlerId(2)]);
    assert_eq!(element.attribute("disabled"), Some(String::new()));
    assert_eq!(
        element.take_journal(),
        vec![DomOp::RemoveEventListener { handle: refused }]
    );

    injector.refused_listener(&mut element, "never-set");
    assert_eq!(injector.installed_listeners().len(), 1);
    assert_eq!(element.writes(), 0);

    bundle.add_listener("a", "click", HandlerId(1));
    injector.reconcile(&mut element, &bundle.snapshot());
    assert_eq!(element.dispatch("click"), vec![HandlerId(2), HandlerId(1)]);
}
