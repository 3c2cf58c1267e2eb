use dynprops::attribute::{Attribute, ButtonTypeOption, Family, Value};
use dynprops::attribute_bag::AttributeBag;
use dynprops::listener::{HandlerId, ListenerBag};

fn keys_of(bag: &AttributeBag) -> Vec<String> {
    let mut keys = Vec::new();
    for attribute in bag.entries() {
        keys.push(attribute.key);
    }
    keys
}

fn listener_keys_of(bag: &ListenerBag) -> Vec<String> {
    let mut keys = Vec::new();
    for listener in bag.entries() {
        keys.push(listener.key);
    }
    keys
}

#[test]
fn set_appends_new_keys_in_order() {
    let mut bag = AttributeBag::new();
    assert!(bag.is_empty());
    bag.set(Attribute::aria_atomic(true));
    bag.set(Attribute::disabled());
    let entries = bag.entries();
    assert_eq!(entries.len(), 2);
    assert_eq!(bag.len(), 2);
    assert_eq!(entries[0].key, "aria-atomic");
    assert_eq!(entries[0].family, Family::Aria);
    assert_eq!(entries[0].value, Value::Flag(true));
    assert_eq!(entries[1].key, "disabled");
    assert_eq!(entries[1].value, Value::Presence);
}

#[test]
fn set_replaces_in_place() {
    let mut bag = AttributeBag::new();
    bag.set(Attribute::aria_atomic(true));
    bag.set(Attribute::button_type(ButtonTypeOption::Submit));
    bag.set(Attribute::disabled());
    bag.set(Attribute::aria_atomic(false));
    assert_eq!(keys_of(&bag), vec!["aria-atomic", "type", "disabled"]);
    assert_eq!(bag.get("aria-atomic").map(|a| a.value.clone()), Some(Value::Flag(false)));
}

#[test]
fn set_is_idempotent() {
    let mut once = AttributeBag::new();
    once.set(Attribute::disabled());
    once.set(Attribute::custom("a", Some("1")));
    let mut twice = once.clone();
    twice.set(Attribute::disabled());
    twice.set(Attribute::custom("a", Some("1")));
    assert!(once.same(&twice));
}

#[test]
fn remove_of_an_unknown_key_changes_nothing() {
    let mut bag = AttributeBag::new();
    bag.set(Attribute::disabled());
    let before = bag.clone();
    bag.remove("never-set");
    assert!(bag.same(&before));
    assert_eq!(bag.len(), 1);
}

#[test]
fn remove_takes_the_key_out() {
    let mut bag = AttributeBag::new();
    bag.set(Attribute::aria_atomic(true));
    bag.set(Attribute::disabled());
    bag.set(Attribute::custom("x", None));
    bag.remove("disabled");
    assert_eq!(keys_of(&bag), vec!["aria-atomic", "x"]);
    assert!(!bag.contains("disabled"));
    assert!(bag.contains("x"));
    assert!(bag.get("disabled").is_none());
}

#[test]
fn set_then_remove_leaves_no_trace_in_an_attribute_bag() {
    let mut seen = AttributeBag::new();
    seen.set(Attribute::aria_atomic(true));
    seen.set(Attribute::custom("x", Some("1")));
    let never = seen.clone();
    seen.set(Attribute::disabled());
    seen.remove("disabled");
    assert!(seen.same(&never));
    assert_eq!(seen.entries(), never.entries());
}

#[test]
fn set_then_remove_of_a_held_key_is_remove() {
    let mut bag = AttributeBag::new();
    bag.set(Attribute::aria_atomic(true));
    bag.set(Attribute::disabled());
    let mut removed = bag.clone();
    removed.remove("aria-atomic");
    bag.set(Attribute::aria_atomic(false));
    bag.remove("aria-atomic");
    assert!(bag.same(&removed));
}

#[test]
fn attribute_diff_lists_stale_keys_and_changed_entries() {
    let mut previous = AttributeBag::new();
    previous.set(Attribute::aria_atomic(true));
    previous.set(Attribute::disabled());
    previous.set(Attribute::custom("kept", Some("same")));
    previous.set(Attribute::custom("gone", Some("x")));

    let mut current = AttributeBag::new();
    current.set(Attribute::custom("new", None));
    current.set(Attribute::custom("kept", Some("same")));
    current.set(Attribute::aria_atomic(false));

    let diff = current.diff(&previous);
    assert_eq!(diff.to_remove, vec!["disabled", "gone"]);
    assert_eq!(diff.to_set.len(), 2);
    assert_eq!(diff.to_set[0], Attribute::custom("new", None));
    assert_eq!(diff.to_set[1], Attribute::aria_atomic(false));
}

#[test]
fn attribute_diff_against_an_empty_bag_sets_everything() {
    let mut current = AttributeBag::new();
    current.set(Attribute::aria_atomic(true));
    current.set(Attribute::disabled());
    let diff = current.diff(&AttributeBag::new());
    assert!(diff.to_remove.is_empty());
    assert_eq!(diff.to_set, current.entries());
}

#[test]
fn attribute_diff_of_equal_bags_is_empty() {
    let mut current = AttributeBag::new();
    current.set(Attribute::aria_atomic(true));
    current.set(Attribute::disabled());
    let diff = current.diff(&current.clone());
    assert!(diff.to_remove.is_empty());
    assert!(diff.to_set.is_empty());
}

#[test]
fn attribute_diff_is_stable() {
    let mut previous = AttributeBag::new();
    previous.set(Attribute::disabled());
    previous.set(Attribute::custom("a", Some("1")));
    let mut current = AttributeBag::new();
    current.set(Attribute::custom("a", Some("2")));
    current.set(Attribute::custom("b", None));
    let first = current.diff(&previous);
    let second = current.diff(&previous);
    assert_eq!(first.to_remove, second.to_remove);
    assert_eq!(first.to_set, second.to_set);
}

#[test]
fn attribute_diff_ignores_the_family() {
    let mut previous = AttributeBag::new();
    previous.set(Attribute::new(Family::Custom, "disabled", Value::Presence));
    let mut current = AttributeBag::new();
    current.set(Attribute::disabled());
    let diff = current.diff(&previous);
    assert!(diff.to_remove.is_empty());
    assert!(diff.to_set.is_empty());
}

#[test]
fn listeners_keep_insertion_order_and_get_serials() {
    let mut bag = ListenerBag::new();
    assert!(bag.is_empty());
    assert!(bag.set("a", "click", HandlerId(1)));
    assert!(bag.set("b", "click", HandlerId(2)));
    assert!(bag.set("c", "focus", HandlerId(3)));
    let entries = bag.entries();
    assert_eq!(entries.len(), 3);
    assert_eq!(bag.len(), 3);
    assert_eq!(entries[0].key, "a");
    assert_eq!(entries[0].event, "click");
    assert_eq!(entries[0].handler, HandlerId(1));
    assert_eq!(entries[0].serial, 1);
    assert_eq!(entries[1].serial, 2);
    assert_eq!(entries[2].key, "c");
    assert_eq!(entries[2].event, "focus");
    assert_eq!(entries[2].serial, 3);
    assert_eq!(bag.serials_issued(), 3);
}

#[test]
fn replacing_a_listener_is_remove_then_set() {
    let mut bag = ListenerBag::new();
    bag.set("a", "click", HandlerId(1));
    bag.set("b", "click", HandlerId(2));
    bag.set("a", "focus", HandlerId(9));
    assert_eq!(listener_keys_of(&bag), vec!["b", "a"]);
    let replaced = bag.get("a").unwrap();
    assert_eq!(replaced.event, "focus");
    assert_eq!(replaced.handler, HandlerId(9));
    assert_eq!(replaced.serial, 3);
}

#[test]
fn an_equal_listener_set_again_is_still_a_replacement() {
    let mut bag = ListenerBag::new();
    bag.set("a", "click", HandlerId(1));
    bag.set("b", "click", HandlerId(2));
    let before = bag.clone();
    bag.set("a", "click", HandlerId(1));
    assert_eq!(listener_keys_of(&bag), vec!["b", "a"]);
    let diff = bag.diff(&before);
    assert!(diff.to_remove.is_empty());
    assert_eq!(diff.to_set.len(), 1);
    assert_eq!(diff.to_set[0].key, "a");
    assert_eq!(diff.to_set[0].serial, 3);
}

#[test]
fn removing_a_listener_takes_the_key_out() {
    let mut bag = ListenerBag::new();
    bag.set("a", "click", HandlerId(1));
    bag.set("b", "click", HandlerId(2));
    bag.remove("a");
    assert_eq!(listener_keys_of(&bag), vec!["b"]);
    assert!(!bag.contains("a"));
    assert!(bag.contains("b"));
    bag.remove("never-set");
    assert_eq!(listener_keys_of(&bag), vec!["b"]);
}

#[test]
fn set_then_remove_leaves_no_trace_in_a_listener_bag() {
    let mut seen = ListenerBag::new();
    seen.set("a", "click", HandlerId(1));
    let never = seen.entries();
    seen.set("k", "click", HandlerId(7));
    seen.remove("k");
    assert_eq!(seen.entries(), never);
}

#[test]
fn listener_diff_lists_stale_keys_and_replaced_entries() {
    let mut previous = ListenerBag::new();
    previous.set("kept", "click", HandlerId(1));
    previous.set("gone", "click", HandlerId(2));
    previous.set("again", "click", HandlerId(3));
    let mut current = previous.clone();
    current.remove("gone");
    current.set("again", "click", HandlerId(3));
    current.set("new", "keydown", HandlerId(4));

    let diff = current.diff(&previous);
    assert_eq!(diff.to_remove, vec!["gone"]);
    assert_eq!(diff.to_set.len(), 2);
    assert_eq!(diff.to_set[0].key, "again");
    assert_eq!(diff.to_set[1].key, "new");
    assert_eq!(diff.to_set[1].event, "keydown");
}

#[test]
fn listener_diff_of_a_bag_with_itself_is_empty() {
    let mut bag = ListenerBag::new();
    bag.set("a", "click", HandlerId(1));
    bag.set("b", "click", HandlerId(2));
    let diff = bag.diff(&bag.clone());
    assert!(diff.to_remove.is_empty());
    assert!(diff.to_set.is_empty());
}

#[test]
fn find_and_at_agree() {
    let mut bag = ListenerBag::new();
    bag.set("a", "click", HandlerId(1));
    bag.set("b", "click", HandlerId(2));
    assert_eq!(bag.find(&"b".to_string()), Some(1));
    assert_eq!(bag.find(&"z".to_string()), None);
    assert_eq!(bag.at(1).key, "b");
}

#[test]
fn attribute_diff_compares_payloads() {
    let mut previous = AttributeBag::new();
    previous.set(Attribute::aria_atomic(true));
    previous.set(Attribute::disabled());
    previous.set(Attribute::new(Family::Aria, "aria-level", Value::Integer(2)));
    let mut current = AttributeBag::new();
    current.set(Attribute::new(Family::Aria, "aria-atomic", Value::Text("true".to_string())));
    current.set(Attribute::new(Family::ButtonHtml, "disabled", Value::Text(String::new())));
    current.set(Attribute::new(Family::Aria, "aria-level", Value::Token("2".to_string())));
    let diff = current.diff(&previous);
    assert!(diff.to_remove.is_empty());
    assert_eq!(diff.to_set.len(), 1);
    assert_eq!(diff.to_set[0].key, "disabled");
}
