use dynprops::attribute::{Attribute, ButtonTypeOption};
use dynprops::bundle::{PropsBundle, Update};
use dynprops::host::{Msg, PropsHost, REMOVE_LISTENER_HANDLER, TOGGLE_HANDLER};
use dynprops::listener::HandlerId;

#[test]
fn create_seeds_the_primary_bundle() {
    let host = PropsHost::create();
    assert!(!host.btn_disabled());
    let rendering = host.render();
    assert_eq!(
        rendering.primary.attributes().entries(),
        vec![Attribute::aria_atomic(true), Attribute::button_type(ButtonTypeOption::Submit)]
    );
    let listeners = rendering.primary.listeners().entries();
    assert_eq!(listeners.len(), 2);
    assert_eq!(listeners[0].key, "my-disabled");
    assert_eq!(listeners[0].event, "click");
    assert_eq!(listeners[0].handler, HandlerId(TOGGLE_HANDLER));
    assert_eq!(listeners[1].key, "click-event");
    assert_eq!(listeners[1].event, "click");
    assert_eq!(listeners[1].handler, HandlerId(REMOVE_LISTENER_HANDLER));
    assert_eq!(rendering.primary.generation(), 4);
    assert!(rendering.warning.attributes().is_empty());
    assert!(rendering.warning.listeners().is_empty());
    assert_eq!(rendering.warning.generation(), 0);
}

#[test]
fn toggle_sets_disabled_and_the_custom_attribute() {
    let mut host = PropsHost::create();
    assert!(host.update(Msg::ToggleDisabled));
    assert!(host.btn_disabled());
    let primary = host.render().primary;
    assert_eq!(
        primary.attributes().entries(),
        vec![
            Attribute::aria_atomic(true),
            Attribute::button_type(ButtonTypeOption::Submit),
            Attribute::disabled(),
            Attribute::custom("my-custom-attribute", Some("lalalala")),
        ]
    );
    assert_eq!(primary.generation(), 6);
}

#[test]
fn toggle_off_removes_disabled_and_keeps_the_custom_attribute() {
    let mut host = PropsHost::create();
    host.update(Msg::ToggleDisabled);
    assert!(host.update(Msg::ToggleDisabled));
    assert!(!host.btn_disabled());
    let primary = host.render().primary;
    assert_eq!(
        primary.attributes().entries(),
        vec![
            Attribute::aria_atomic(true),
            Attribute::button_type(ButtonTypeOption::Submit),
            Attribute::custom("my-custom-attribute", Some("lalalala")),
        ]
    );
    assert_eq!(primary.generation(), 8);
}

#[test]
fn remove_listener_asks_for_a_render() {
    let mut host = PropsHost::create();
    assert!(host.update(Msg::RemoveListener("click-event".to_string())));
    let listeners = host.render().primary.listeners().entries();
    assert_eq!(listeners.len(), 1);
    assert_eq!(listeners[0].key, "my-disabled");
    assert_eq!(host.render().primary.generation(), 5);
    assert!(host.update(Msg::RemoveListener("never-set".to_string())));
    assert_eq!(host.render().primary.listeners().len(), 1);
    assert_eq!(host.render().primary.generation(), 6);
}

#[test]
fn messages_leave_the_warning_bundle_alone() {
    let mut host = PropsHost::create();
    host.update(Msg::ToggleDisabled);
    host.update(Msg::RemoveListener("click-event".to_string()));
    let warning = host.render().warning;
    assert_eq!(warning.generation(), 0);
    assert!(warning.attributes().is_empty());
}

#[test]
fn handlers_send_their_messages() {
    assert_eq!(PropsHost::on_event(HandlerId(TOGGLE_HANDLER)), Some(Msg::ToggleDisabled));
    assert_eq!(
        PropsHost::on_event(HandlerId(REMOVE_LISTENER_HANDLER)),
        Some(Msg::RemoveListener("click-event".to_string()))
    );
    assert_eq!(PropsHost::on_event(HandlerId(0)), None);
    assert_eq!(PropsHost::on_event(HandlerId(3)), None);
}

#[test]
fn fire_handles_the_message_of_the_handler() {
    let mut host = PropsHost::create();
    assert!(host.fire(HandlerId(TOGGLE_HANDLER)));
    assert!(host.btn_disabled());
    assert!(host.fire(HandlerId(REMOVE_LISTENER_HANDLER)));
    assert_eq!(host.render().primary.listeners().len(), 1);
    let before = host.render().primary.generation();
    assert!(!host.fire(HandlerId(1234)));
    assert_eq!(host.render().primary.generation(), before);
}

#[test]
fn a_message_clone_is_equal() {
    let msg = Msg::RemoveListener("click-event".to_string());
    assert_eq!(msg.clone(), msg);
    assert_eq!(Msg::ToggleDisabled.clone(), Msg::ToggleDisabled);
}

#[test]
fn an_update_replaces_the_bundle_with_that_callback() {
    let mut host = PropsHost::create_with_callbacks(HandlerId(100), HandlerId(200));
    let mut copy = PropsBundle::with_update_callback(HandlerId(200));
    copy.add_attribute(Attribute::custom("from-child", Some("1")));
    let update = copy.pending_update().unwrap();
    assert!(host.accept(update));
    let rendering = host.render();
    assert_eq!(
        rendering.warning.attributes().entries(),
        vec![Attribute::custom("from-child", Some("1"))]
    );
    assert_eq!(rendering.warning.generation(), 2);
    assert_eq!(rendering.primary.generation(), 4);
}

#[test]
fn an_update_with_the_same_content_asks_for_no_render() {
    let mut host = PropsHost::create_with_callbacks(HandlerId(100), HandlerId(200));
    let snapshot = host.render().primary;
    let generation = snapshot.generation();
    assert!(!host.accept(Update { callback: HandlerId(100), snapshot }));
    assert_eq!(host.render().primary.generation(), generation);
    assert_eq!(host.render().primary.attributes().len(), 2);
}

#[test]
fn an_update_for_nobody_is_ignored() {
    let mut host = PropsHost::create();
    let mut copy = PropsBundle::with_update_callback(HandlerId(100));
    copy.add_attribute(Attribute::disabled());
    assert!(!host.accept(copy.pending_update().unwrap()));
    assert_eq!(host.render().primary.attributes().len(), 2);
    assert!(host.render().warning.attributes().is_empty());
}

#[test]
fn a_self_removal_sent_by_a_child_reaches_the_parent() {
    let mut host = PropsHost::create_with_callbacks(HandlerId(100), HandlerId(200));
    let mut copy = PropsBundle::with_update_callback(HandlerId(100));
    copy.adopt(host.render().primary);
    copy.remove_listener("click-event");
    let update = copy.take_update().unwrap();
    assert_eq!(update.snapshot.generation(), 6);
    assert!(host.accept(update));
    let listeners = host.render().primary.listeners().entries();
    assert_eq!(listeners.len(), 1);
    assert_eq!(listeners[0].key, "my-disabled");
    assert_eq!(host.render().primary.generation(), 7);
}

#[test]
fn a_render_leaves_the_bundles_clean() {
    let mut host = PropsHost::create();
    assert!(host.is_dirty());
    host.rendered();
    assert!(!host.is_dirty());
    host.update(Msg::RemoveListener("click-event".to_string()));
    assert!(host.is_dirty());
    let generation = host.render().primary.generation();
    host.rendered();
    assert!(!host.is_dirty());
    assert_eq!(host.render().primary.generation(), generation);
}

#[test]
fn two_toggles_leave_only_the_custom_attribute() {
    let mut host = PropsHost::create();
    let before = host.render().primary.attributes().entries();
    assert!(host.update(Msg::ToggleDisabled));
    assert!(host.update(Msg::ToggleDisabled));
    assert!(!host.btn_disabled());
    let mut expected = before;
    expected.push(Attribute::custom("my-custom-attribute", Some("lalalala")));
    assert_eq!(host.render().primary.attributes().entries(), expected);

    assert!(host.update(Msg::ToggleDisabled));
    assert!(host.update(Msg::ToggleDisabled));
    assert_eq!(host.render().primary.attributes().entries(), expected);
    assert!(!host.btn_disabled());
}

#[test]
fn the_flag_follows_the_bundle() {
    let mut host = PropsHost::create();
    let mut round = 0;
    while round < 5 {
        let rendered = host.update(Msg::ToggleDisabled);
        assert!(rendered);
        let held = host.render().primary.attributes().contains("disabled");
        assert_eq!(host.btn_disabled(), held);
        round += 1;
    }
    assert!(host.btn_disabled());
}
