use dynprops::element::{DomOp, Element, Registration, Slot};
use dynprops::listener::HandlerId;

#[test]
fn a_new_element_is_empty() {
    let element = Element::new();
    assert!(element.attributes().is_empty());
    assert!(element.registrations().is_empty());
    assert!(element.journal().is_empty());
    assert_eq!(element.writes(), 0);
    assert_eq!(element.attribute("disabled"), None);
    assert!(element.dispatch("click").is_empty());
}

#[test]
fn set_attribute_writes_and_overwrites() {
    let mut element = Element::new();
    assert!(element.set_attribute("a", "1"));
    assert!(element.set_attribute("b", ""));
    assert!(element.set_attribute("a", "2"));
    assert_eq!(element.attribute("a"), Some("2".to_string()));
    assert_eq!(element.attribute("b"), Some(String::new()));
    assert_eq!(
        element.attributes(),
        vec![
            Slot { name: "a".to_string(), value: "2".to_string() },
            Slot { name: "b".to_string(), value: String::new() },
        ]
    );
    assert_eq!(element.writes(), 3);
}

#[test]
fn set_attribute_refuses_an_invalid_name() {
    let mut element = Element::new();
    assert!(!element.set_attribute("two words", "x"));
    assert!(!element.set_attribute("", "x"));
    assert!(element.attributes().is_empty());
    assert_eq!(element.writes(), 0);
}

#[test]
fn remove_attribute_ensures_absence() {
    let mut element = Element::new();
    element.set_attribute("a", "1");
    element.remove_attribute("a");
    assert_eq!(element.attribute("a"), None);
    element.remove_attribute("a");
    assert_eq!(element.attribute("a"), None);
    assert_eq!(
        element.journal(),
        vec![
            DomOp::SetAttribute { name: "a".to_string(), value: "1".to_string() },
            DomOp::RemoveAttribute { name: "a".to_string() },
            DomOp::RemoveAttribute { name: "a".to_string() },
        ]
    );
}

#[test]
fn registrations_get_handles_in_a_row() {
    let mut element = Element::new();
    assert_eq!(element.add_event_listener("click", HandlerId(10)), Some(0));
    assert_eq!(element.add_event_listener("focus", HandlerId(11)), Some(1));
    assert_eq!(element.add_event_listener("click", HandlerId(12)), Some(2));
    assert_eq!(
        element.registrations(),
        vec![
            Registration { handle: 0, event: "click".to_string(), handler: HandlerId(10) },
            Registration { handle: 1, event: "focus".to_string(), handler: HandlerId(11) },
            Registration { handle: 2, event: "click".to_string(), handler: HandlerId(12) },
        ]
    );
    assert!(element.is_registered(1));
    assert!(!element.is_registered(3));
}

#[test]
fn a_registration_without_event_name_is_refused() {
    let mut element = Element::new();
    assert_eq!(element.add_event_listener("", HandlerId(1)), None);
    assert!(element.registrations().is_empty());
    assert_eq!(element.writes(), 0);
    assert_eq!(element.add_event_listener("click", HandlerId(1)), Some(0));
}

#[test]
fn dispatch_runs_the_handlers_of_the_event_in_order() {
    let mut element = Element::new();
    element.add_event_listener("click", HandlerId(1));
    element.add_event_listener("focus", HandlerId(2));
    element.add_event_listener("click", HandlerId(3));
    assert_eq!(element.dispatch("click"), vec![HandlerId(1), HandlerId(3)]);
    assert_eq!(element.dispatch("focus"), vec![HandlerId(2)]);
    assert!(element.dispatch("keydown").is_empty());
}

#[test]
fn a_removed_registration_no_longer_runs() {
    let mut element = Element::new();
    let first = element.add_event_listener("click", HandlerId(1)).unwrap();
    element.add_event_listener("click", HandlerId(2));
    element.remove_event_listener(first);
    assert_eq!(element.dispatch("click"), vec![HandlerId(2)]);
    assert!(!element.is_registered(first));
    element.remove_event_listener(first);
    assert_eq!(element.dispatch("click"), vec![HandlerId(2)]);
    assert_eq!(element.add_event_listener("click", HandlerId(3)), Some(2));
}

#[test]
fn the_journal_is_handed_out_once() {
    let mut element = Element::new();
    element.set_attribute("a", "1");
    element.add_event_listener("click", HandlerId(4));
    let taken = element.take_journal();
    assert_eq!(
        taken,
        vec![
            DomOp::SetAttribute { name: "a".to_string(), value: "1".to_string() },
            DomOp::AddEventListener {
                event: "click".to_string(),
                handler: HandlerId(4),
                handle: 0,
            },
        ]
    );
    assert_eq!(element.writes(), 0);
    assert!(element.take_journal().is_empty());
    assert_eq!(element.attribute("a"), Some("1".to_string()));
    element.remove_event_listener(0);
    assert_eq!(element.take_journal(), vec![DomOp::RemoveEventListener { handle: 0 }]);
}
