use dynprops::attribute::Attribute;
use dynprops::bundle::PropsBundle;
use dynprops::element::{Element, Slot};
use dynprops::host::{Msg, PropsHost, REMOVE_LISTENER_HANDLER, TOGGLE_HANDLER};
use dynprops::injector::DomInjector;
use dynprops::listener::HandlerId;
use dynprops::mount::Phase;

fn toggle_host() -> PropsHost {
    let mut bundle = PropsBundle::new();
    bundle.add_attribute(Attribute::aria_atomic(true));
    bundle.add_listener("toggle", "click", HandlerId(TOGGLE_HANDLER));
    PropsHost::with_bundles(bundle, PropsBundle::new())
}

fn click(host: &mut PropsHost, element: &Element) -> Vec<Msg> {
    let mut sent = Vec::new();
    for handler in element.dispatch("click") {
        if let Some(msg) = PropsHost::on_event(handler) {
            sent.push(msg.clone());
            let render = host.update(msg);
            assert!(render);
        }
    }
    sent
}

#[test]
fn toggle_disabled() {
    let mut host = toggle_host();
    let mut element = Element::new();
    let mut injector = DomInjector::new();
    injector.reconcile(&mut element, &host.render().primary);
    assert_eq!(
        element.attributes(),
        vec![Slot { name: "aria-atomic".to_string(), value: "true".to_string() }]
    );

    assert_eq!(click(&mut host, &element), vec![Msg::ToggleDisabled]);

    let next = host.render().primary;
    let disabled = next.attributes().get("disabled").unwrap().clone();
    assert_eq!(disabled.payload(), Ok(None));
    let custom = next.attributes().get("my-custom-attribute").unwrap().clone();
    assert_eq!(custom.payload(), Ok(Some("lalalala".to_string())));

    let report = injector.reconcile(&mut element, &next);
    assert!(report.failures.is_empty());
    assert_eq!(element.attribute("disabled"), Some(String::new()));
    assert_eq!(element.attribute("my-custom-attribute"), Some("lalalala".to_string()));
    assert_eq!(element.attribute("aria-atomic"), Some("true".to_string()));
}

#[test]
fn second_click_untoggles() {
    let mut host = toggle_host();
    let mut element = Element::new();
    let mut injector = DomInjector::new();
    injector.reconcile(&mut element, &host.render().primary);
    click(&mut host, &element);
    injector.reconcile(&mut element, &host.render().primary);

    assert_eq!(click(&mut host, &element), vec![Msg::ToggleDisabled]);
    injector.reconcile(&mut element, &host.render().primary);

    assert_eq!(element.attribute("disabled"), None);
    assert_eq!(element.attribute("my-custom-attribute"), Some("lalalala".to_string()));
    assert_eq!(element.attribute("aria-atomic"), Some("true".to_string()));
}

#[test]
fn self_removing_listener() {
    let mut bundle = PropsBundle::new();
    bundle.add_listener("click-event", "click", HandlerId(REMOVE_LISTENER_HANDLER));
    let mut host = PropsHost::with_bundles(bundle, PropsBundle::new());
    let mut element = Element::new();
    let mut injector = DomInjector::new();
    injector.reconcile(&mut element, &host.render().primary);
    assert_eq!(element.registrations().len(), 1);

    let handlers = element.dispatch("click");
    assert_eq!(handlers, vec![HandlerId(REMOVE_LISTENER_HANDLER)]);
    let msg = PropsHost::on_event(handlers[0]).unwrap();
    assert_eq!(msg, Msg::RemoveListener("click-event".to_string()));
    let render = host.update(msg);
    assert!(render);
    assert_eq!(element.registrations().len(), 1);

    injector.reconcile(&mut element, &host.render().primary);
    assert!(element.registrations().is_empty());
    assert_eq!(injector.handle_of("click-event"), None);
    assert!(click(&mut host, &element).is_empty());
}

#[test]
fn two_listeners_same_event() {
    let mut bundle = PropsBundle::new();
    bundle.add_listener("a", "click", HandlerId(41));
    bundle.add_listener("b", "click", HandlerId(42));
    let mut element = Element::new();
    let mut injector = DomInjector::new();
    injector.reconcile(&mut element, &bundle.snapshot());
    assert_eq!(element.dispatch("click"), vec![HandlerId(41), HandlerId(42)]);
}

#[test]
fn unmount_cleanup() {
    let mut host = PropsHost::create();
    let mut element = Element::new();
    let mut injector = DomInjector::new();
    injector.reconcile(&mut element, &host.render().primary);
    click(&mut host, &element);
    injector.reconcile(&mut element, &host.render().primary);
    click(&mut host, &element);
    injector.reconcile(&mut element, &host.render().primary);

    injector.unmount(&mut element);
    assert!(element.attributes().is_empty());
    assert!(element.registrations().is_empty());
    assert!(injector.installed_attributes().is_empty());
    assert!(injector.installed_listeners().is_empty());
    assert_eq!(injector.phase(), Phase::Retired);

    element.take_journal();
    host.update(Msg::ToggleDisabled);
    let report = injector.reconcile(&mut element, &host.render().primary);
    assert!(report.failures.is_empty());
    assert_eq!(element.writes(), 0);
    assert!(element.attributes().is_empty());
    assert!(element.registrations().is_empty());
    assert_eq!(injector.phase(), Phase::Retired);
}

#[test]
fn generation_short_circuit() {
    let mut bundle = PropsBundle::new();
    bundle.add_attribute(Attribute::aria_atomic(true));
    bundle.add_listener("a", "click", HandlerId(1));
    let first = bundle.snapshot();
    let second = bundle.snapshot();
    assert_eq!(first.generation(), second.generation());

    let mut element = Element::new();
    let mut injector = DomInjector::new();
    injector.reconcile(&mut element, &first);
    let writes = element.writes();
    assert_eq!(writes, 2);
    let report = injector.reconcile(&mut element, &second);
    assert!(report.failures.is_empty());
    assert_eq!(element.writes(), writes);
}

#[test]
fn the_demo_removes_its_own_listener_and_toggles() {
    let mut host = PropsHost::create();
    let mut element = Element::new();
    let mut injector = DomInjector::new();
    injector.reconcile(&mut element, &host.render().primary);

    let sent = click(&mut host, &element);
    assert_eq!(
        sent,
        vec![Msg::ToggleDisabled, Msg::RemoveListener("click-event".to_string())]
    );
    injector.reconcile(&mut element, &host.render().primary);
    assert_eq!(element.attribute("disabled"), Some(String::new()));
    assert_eq!(element.attribute("type"), Some("submit".to_string()));
    assert_eq!(element.dispatch("click"), vec![HandlerId(TOGGLE_HANDLER)]);

    assert_eq!(click(&mut host, &element), vec![Msg::ToggleDisabled]);
    injector.reconcile(&mut element, &host.render().primary);
    assert_eq!(element.attribute("disabled"), None);
    assert_eq!(element.attribute("my-custom-attribute"), Some("lalalala".to_string()));
}

#[test]
fn a_click_after_the_removal_toggles_only() {
    let mut host = PropsHost::create();
    let mut element = Element::new();
    let mut injector = DomInjector::new();
    injector.reconcile(&mut element, &host.render().primary);

    let render = host.update(Msg::RemoveListener("click-event".to_string()));
    assert!(render);
    injector.reconcile(&mut element, &host.render().primary);
    assert_eq!(injector.handle_of("click-event"), None);
    assert_eq!(element.registrations().len(), 1);
    assert_eq!(click(&mut host, &element), vec![Msg::ToggleDisabled]);
}
