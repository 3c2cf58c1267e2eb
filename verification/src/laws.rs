//! What holds of the library as a whole: laws that relate several of its
//! operations, each proved from the definitions of the operations.

use crate::attribute::{AttributeView, ButtonTypeOption};
use crate::attribute_bag::{changed_attributes, payload_changed};
use crate::bundle::{BundleView, Mutation, SnapshotView};
use crate::element::{ElementView, RegistrationView, SlotView};
use crate::host::{HostView, MsgView, REMOVE_LISTENER_HANDLER, TOGGLE_HANDLER};
use crate::keyed::{
    absent_from, distinct_keys, has_key, keys, lemma_filter_all, lemma_filter_empty,
    lemma_keys_contains, lemma_position, lemma_position_in_range, lemma_upsert,
    lemma_upsert_without, lemma_without, lookup, position, stale_keys, upsert, without,
};
use crate::listener::{changed_listeners, replaced, HandlerId, ListenerView};
use crate::mount::{
    attribute_failures, handles_from, has_event, is_writable, listener_failures,
    listener_handlers, registrations_of, slots_of, turns_wf, wanted_listener, wanted_text,
    InjectorView, Mount, Phase, Turn,
};
use crate::steps::{
    lemma_dispatch_of_registrations, lemma_drop_attributes, lemma_drop_listeners,
    lemma_front_turns_wf, lemma_mirrored_attribute, lemma_no_failures,
    lemma_put_attributes_failures, lemma_put_attributes_fresh, lemma_put_attributes_keeps,
    lemma_put_listeners_fresh, lemma_put_listeners_keeps, lemma_run_mirrored,
    lemma_sync_attributes, lemma_sync_keeps, lemma_sync_listeners, lemma_sync_retires_handle,
    lemma_unmount_empties, lemma_unmount_listeners,
};
use crate::text::name_char;
use vstd::prelude::*;

verus! {

/// Whether an element accepts every entry of a snapshot: every attribute
/// can be written and every listener has an event with a name.
pub open spec fn acceptable(snapshot: SnapshotView) -> bool {
    &&& forall|i: int|
        0 <= i < snapshot.attributes.len() ==> (#[trigger] snapshot.attributes[i]).writable()
    &&& forall|i: int|
        0 <= i < snapshot.listeners.len() ==> (#[trigger] snapshot.listeners[i]).event.len() > 0
}

/// The first reconciliation of an element that was just mounted leaves on
/// it the entries of the snapshot that the element accepts, in the order of
/// the snapshot, and nothing else: the attributes that can be written, each
/// with the string of its value, and one registration for each listener
/// whose event has a name. The entries that the element refuses are
/// reported, attributes first. An event then runs the handlers of the
/// listeners for that event, in the order in which the bag holds them.
pub proof fn first_install_matches_snapshot(snapshot: SnapshotView)
    requires
        snapshot.wf(),
    ensures
        ({
            let r = Mount::mounted().reconcile(snapshot);
            let listeners = snapshot.listeners.filter(has_event());
            &&& r.element.attrs == slots_of(snapshot.attributes.filter(is_writable()))
            &&& r.element.listeners == registrations_of(
                listeners,
                handles_from(0, listeners.len()),
            )
            &&& r.injector.attrs == snapshot.attributes.filter(is_writable())
            &&& r.injector.listeners == listeners
            &&& r.failures == attribute_failures(snapshot.attributes) + listener_failures(
                snapshot.listeners,
            )
            &&& forall|event: Seq<char>| #[trigger]
                r.element.dispatch(event) == listener_handlers(listeners, event)
        }),
{
    let m = Mount::mounted();
    let none = Seq::<AttributeView>::empty();
    let nobody = Seq::<ListenerView>::empty();
    assert(m.injector.attrs =~= none);
    assert(m.injector.listeners =~= nobody);
    lemma_filter_empty(none, absent_from(snapshot.attributes));
    lemma_filter_empty(nobody, absent_from(snapshot.listeners));
    assert(stale_keys(snapshot.attributes, none) =~= Seq::<Seq<char>>::empty());
    assert(stale_keys(snapshot.listeners, nobody) =~= Seq::<Seq<char>>::empty());
    assert forall|i: int| 0 <= i < snapshot.attributes.len() implies payload_changed(none)(
        #[trigger] snapshot.attributes[i],
    ) by {
        assert(!has_key(none, snapshot.attributes[i].key));
    }
    lemma_filter_all(snapshot.attributes, payload_changed(none));
    assert forall|i: int| 0 <= i < snapshot.listeners.len() implies replaced(nobody)(
        #[trigger] snapshot.listeners[i],
    ) by {
        assert(!has_key(nobody, snapshot.listeners[i].key));
    }
    lemma_filter_all(snapshot.listeners, replaced(nobody));
    assert(changed_attributes(snapshot.attributes, none) == snapshot.attributes);
    assert(changed_listeners(snapshot.listeners, nobody) == snapshot.listeners);
    let live = m.went_live(snapshot.generation);
    let a2 = live.put_attributes(snapshot.attributes);
    assert(m.sync(snapshot) == a2.put_listeners(snapshot.listeners));
    lemma_put_attributes_fresh(live, snapshot.attributes);
    lemma_put_attributes_failures(live, snapshot.attributes);
    lemma_put_attributes_keeps(live, snapshot.attributes);
    lemma_put_listeners_fresh(a2, snapshot.listeners);
    lemma_put_listeners_keeps(a2, snapshot.listeners);
    let r = m.reconcile(snapshot);
    assert(r == m.sync(snapshot));
    assert(r.injector.attrs == snapshot.attributes.filter(is_writable()));
    assert(r.injector.listeners == snapshot.listeners.filter(has_event()));
    lemma_sync_keeps(m, snapshot);
    assert(m.element.attrs =~= slots_of(m.injector.attrs));
    assert(m.element.listeners =~= registrations_of(m.injector.listeners, m.injector.handles));
    assert(r.mirrored());
    let listeners = snapshot.listeners.filter(has_event());
    assert(r.failures =~= attribute_failures(snapshot.attributes) + listener_failures(
        snapshot.listeners,
    ));
    assert forall|event: Seq<char>| #[trigger]
        r.element.dispatch(event) == listener_handlers(listeners, event) by {
        lemma_dispatch_of_registrations(listeners, handles_from(0, listeners.len()), event);
    }
}

/// Whatever mutations are made on a bundle, one after the other, it keeps
/// its invariant: no key occurs twice in either bag. Its generation is the
/// number of mutations made, as long as the counter can hold that number.
pub proof fn mutations_keep_the_bundle_sound(bundle: BundleView, list: Seq<Mutation>)
    requires
        bundle.content.wf(),
    ensures
        bundle.mutate_all(list).content.wf(),
        bundle.mutate_all(list).update_callback == bundle.update_callback,
        bundle.content.generation + list.len() <= u64::MAX ==> bundle.mutate_all(
            list,
        ).content.generation == bundle.content.generation + list.len(),
        bundle.content.generation <= bundle.mutate_all(list).content.generation,
    decreases list.len(),
{
    if list.len() > 0 {
        mutations_keep_the_bundle_sound(bundle, list.drop_last());
        let before = bundle.mutate_all(list.drop_last());
        match list.last() {
            Mutation::AddAttribute(attribute) => {
                lemma_upsert(before.content.attributes, attribute);
            },
            Mutation::RemoveAttribute(key) => {
                lemma_without(before.content.attributes, key);
            },
            Mutation::AddListener { key, event, handler } => {
                lemma_without(before.content.listeners, key);
                let rest = without(before.content.listeners, key);
                let l = ListenerView {
                    key,
                    event,
                    handler,
                    serial: (before.content.issued + 1) as u64,
                };
                assert(upsert(rest, l) == rest.push(l));
                lemma_upsert(rest, l);
            },
            Mutation::RemoveListener(key) => {
                lemma_without(before.content.listeners, key);
            },
        }
    }
}

/// Whatever mutations were made on a bundle since it was made, the first
/// reconciliation of an element that was just mounted leaves on the
/// element the entries of the bundle that the element accepts, in the
/// order of the bags, and nothing else.
pub proof fn first_install_after_any_mutations(list: Seq<Mutation>)
    ensures
        ({
            let snapshot = BundleView::empty(None).mutate_all(list).content;
            let r = Mount::mounted().reconcile(snapshot);
            &&& r.element.attrs == slots_of(snapshot.attributes.filter(is_writable()))
            &&& r.element.listeners == registrations_of(
                snapshot.listeners.filter(has_event()),
                handles_from(0, snapshot.listeners.filter(has_event()).len()),
            )
            &&& acceptable(snapshot) ==> r.element.attrs == slots_of(snapshot.attributes)
                && r.element.listeners == registrations_of(
                snapshot.listeners,
                handles_from(0, snapshot.listeners.len()),
            ) && r.failures.len() == 0
        }),
{
    mutations_keep_the_bundle_sound(BundleView::empty(None), list);
    let snapshot = BundleView::empty(None).mutate_all(list).content;
    first_install_matches_snapshot(snapshot);
    if acceptable(snapshot) {
        first_install_of_acceptable_snapshot(snapshot);
    }
}

/// Where the element accepts every entry of the snapshot, the first
/// reconciliation leaves the attributes of the element equal to the
/// entries of the attribute bag and its registrations equal to the entries
/// of the listener bag, and reports nothing.
pub proof fn first_install_of_acceptable_snapshot(snapshot: SnapshotView)
    requires
        snapshot.wf(),
        acceptable(snapshot),
    ensures
        ({
            let r = Mount::mounted().reconcile(snapshot);
            &&& r.element.attrs == slots_of(snapshot.attributes)
            &&& r.element.listeners == registrations_of(
                snapshot.listeners,
                handles_from(0, snapshot.listeners.len()),
            )
            &&& r.failures.len() == 0
        }),
{
    first_install_matches_snapshot(snapshot);
    lemma_filter_all(snapshot.attributes, is_writable());
    lemma_filter_all(snapshot.listeners, has_event());
    assert(attribute_failures(snapshot.attributes).len() == 0) by {
        lemma_no_failures(snapshot);
    }
    assert(listener_failures(snapshot.listeners).len() == 0) by {
        lemma_no_failures(snapshot);
    }
}

/// Every reconciliation that is not ignored makes the element match the
/// snapshot, provided that nobody but the injector wrote to the element
/// and that the element has handles left for the listeners of the
/// snapshot. Under every key the element holds the string that the
/// snapshot asks for, and no attribute where it asks for none; the
/// registrations are those of the listeners that the snapshot asks for,
/// one for each; nothing is left of earlier snapshots.
pub proof fn every_install_matches_snapshot(
    injector: InjectorView,
    element: ElementView,
    snapshot: SnapshotView,
)
    requires
        Mount::of(injector, element).mirrored(),
        snapshot.wf(),
        !Mount::of(injector, element).ignores(snapshot),
        element.next_handle + snapshot.listeners.len() <= u64::MAX,
    ensures
        ({
            let r = Mount::of(injector, element).reconcile(snapshot);
            &&& r.mirrored()
            &&& forall|k: Seq<char>| #[trigger] r.element.attribute(k) == wanted_text(snapshot, k)
            &&& forall|k: Seq<char>| #[trigger]
                lookup(r.injector.listeners, k) == wanted_listener(snapshot, k)
            &&& r.element.listeners == registrations_of(r.injector.listeners, r.injector.handles)
        }),
{
    let m = Mount::of(injector, element);
    let r = m.reconcile(snapshot);
    lemma_sync_keeps(m, snapshot);
    assert forall|k: Seq<char>| #[trigger] r.element.attribute(k) == wanted_text(snapshot, k) by {
        lemma_sync_attributes(m, snapshot, k);
        lemma_mirrored_attribute(r, k);
        if has_key(snapshot.attributes, k) {
            lemma_position_in_range(snapshot.attributes, k);
        }
        if has_key(r.injector.attrs, k) {
            lemma_position_in_range(r.injector.attrs, k);
        }
    }
    assert forall|k: Seq<char>| #[trigger]
        lookup(r.injector.listeners, k) == wanted_listener(snapshot, k) by {
        lemma_sync_listeners(m, snapshot, k);
    }
}

/// Reconciling the same snapshot twice is reconciling it once: the second
/// call leaves injector and element as the first left them, writes
/// nothing, and reports nothing.
pub proof fn reconcile_is_idempotent(
    injector: InjectorView,
    element: ElementView,
    snapshot: SnapshotView,
)
    requires
        injector.wf(),
        element.wf(),
    ensures
        ({
            let once = Mount::of(injector, element).reconcile(snapshot);
            let twice = Mount::of(once.injector, once.element).reconcile(snapshot);
            &&& twice.injector == once.injector
            &&& twice.element == once.element
            &&& twice.element.journal == once.element.journal
            &&& twice.failures.len() == 0
        }),
{
    let m = Mount::of(injector, element);
    if !m.ignores(snapshot) {
        lemma_sync_keeps(m, snapshot);
    }
}

/// A snapshot of the generation that was installed last is ignored,
/// whatever it holds: the element is not written to.
pub proof fn same_generation_is_ignored(
    injector: InjectorView,
    element: ElementView,
    snapshot: SnapshotView,
)
    requires
        injector.phase == Phase::Live,
        injector.last_generation == snapshot.generation,
    ensures
        Mount::of(injector, element).reconcile(snapshot) == Mount::of(injector, element),
{
}

/// An attribute bag in which a key was set and then removed is the bag in
/// which the key was only removed; where the bag did not hold the key, it
/// is the bag as it was.
pub proof fn set_then_remove_attribute(bag: Seq<AttributeView>, attribute: AttributeView)
    requires
        distinct_keys(bag),
    ensures
        without(upsert(bag, attribute), attribute.key) == without(bag, attribute.key),
        !has_key(bag, attribute.key) ==> without(upsert(bag, attribute), attribute.key) == bag,
{
    lemma_upsert_without(bag, attribute);
}

/// A listener bag in which a key was set and then removed holds what the
/// bag holds in which the key was only removed; where the bag did not hold
/// the key, it holds what it held.
pub proof fn set_then_remove_listener(bag: Seq<ListenerView>, listener: ListenerView)
    requires
        distinct_keys(bag),
    ensures
        without(without(bag, listener.key).push(listener), listener.key) == without(
            bag,
            listener.key,
        ),
        !has_key(bag, listener.key) ==> without(bag.push(listener), listener.key) == bag,
{
    let rest = without(bag, listener.key);
    lemma_without(bag, listener.key);
    assert(upsert(rest, listener) == rest.push(listener));
    lemma_upsert_without(rest, listener);
    assert(without(rest, listener.key) == rest);
}

/// Unmounting removes what the injector has on record, whatever else
/// stands on the element: no attribute that was on record is present
/// afterwards and no handle that was on record is live, every other
/// attribute and registration is as it was, the record is empty, and the
/// injector is retired.
pub proof fn unmount_clears_the_record(injector: InjectorView, element: ElementView)
    requires
        injector.wf(),
        element.wf(),
    ensures
        ({
            let r = Mount::of(injector, element).unmount();
            &&& r.wf()
            &&& r.injector.phase == Phase::Retired
            &&& r.injector.attrs.len() == 0
            &&& r.injector.listeners.len() == 0
            &&& r.injector.handles.len() == 0
            &&& forall|k: Seq<char>|
                has_key(injector.attrs, k) ==> (#[trigger] r.element.attribute(k)) is None
            &&& forall|k: Seq<char>|
                !has_key(injector.attrs, k) ==> (#[trigger] r.element.attribute(k))
                    == element.attribute(k)
            &&& forall|h: u64|
                injector.handles.contains(h) ==> !(#[trigger] has_key(r.element.listeners, h))
            &&& forall|h: u64|
                !injector.handles.contains(h) ==> (#[trigger] lookup(r.element.listeners, h))
                    == lookup(element.listeners, h)
        }),
{
    let m = Mount::of(injector, element);
    lemma_unmount_empties(m);
    lemma_unmount_listeners(m);
    assert forall|h: u64| injector.handles.contains(h) implies !(#[trigger] has_key(
        m.unmount().element.listeners,
        h,
    )) by {
        assert(lookup(m.unmount().element.listeners, h) == None::<RegistrationView>);
    }
    let ak = keys(injector.attrs);
    lemma_drop_attributes(m, ak);
    let a = m.drop_attributes(ak);
    lemma_drop_listeners(a, keys(injector.listeners));
    let r = m.unmount();
    assert(r.element.attrs == a.element.attrs);
    assert forall|k: Seq<char>|
        has_key(injector.attrs, k) implies (#[trigger] r.element.attribute(k)) is None by {
        lemma_keys_contains(injector.attrs, k);
        assert(lookup(a.element.attrs, k) == None::<SlotView>);
    }
    assert forall|k: Seq<char>| !has_key(injector.attrs, k) implies (#[trigger] r.element.attribute(
        k,
    )) == element.attribute(k) by {
        lemma_keys_contains(injector.attrs, k);
        assert(lookup(a.element.attrs, k) == lookup(element.attrs, k));
    }
}

/// Whatever an element lives through from its mounting on, once it is
/// unmounted it holds no attribute and no registration, and its injector
/// has nothing on record.
pub proof fn unmount_leaves_nothing(turns: Seq<Turn>)
    requires
        turns_wf(turns),
        turns.len() > 0,
        turns.last() is Unmount,
    ensures
        ({
            let r = Mount::mounted().run(turns);
            &&& r.element.attrs.len() == 0
            &&& r.element.listeners.len() == 0
            &&& r.injector.attrs.len() == 0
            &&& r.injector.listeners.len() == 0
            &&& r.injector.phase == Phase::Retired
        }),
{
    let head = turns.drop_last();
    lemma_front_turns_wf(turns);
    lemma_run_mirrored(head);
    let before = Mount::mounted().run(head);
    let start = Mount::of(before.injector, before.element);
    lemma_unmount_empties(start);
}

/// After unmounting, every snapshot that arrives is ignored.
pub proof fn retired_injector_ignores(
    injector: InjectorView,
    element: ElementView,
    snapshot: SnapshotView,
)
    requires
        injector.wf(),
        element.wf(),
    ensures
        ({
            let retired = Mount::of(injector, element).unmount();
            Mount::of(retired.injector, retired.element).reconcile(snapshot) == Mount::of(
                retired.injector,
                retired.element,
            )
        }),
{
}

/// Between any two turns, every listener key has one registration on the
/// element and no more: the registrations of the element are those of the
/// listeners on record, one for each, no listener key is on record twice,
/// and no handle is live twice. A listener that was replaced under its key
/// has therefore left the element before the turn is over.
pub proof fn one_registration_for_each_listener(turns: Seq<Turn>)
    requires
        turns_wf(turns),
    ensures
        ({
            let r = Mount::mounted().run(turns);
            &&& r.element.listeners == registrations_of(r.injector.listeners, r.injector.handles)
            &&& r.element.listeners.len() == r.injector.listeners.len()
            &&& distinct_keys(r.injector.listeners)
            &&& distinct_keys(r.element.listeners)
        }),
{
    lemma_run_mirrored(turns);
}

/// A listener that a snapshot replaces under its key, or no longer holds,
/// has left the element when the reconciliation is over: no registration
/// is live under the handle it had. Where the key has a listener again,
/// that one is live under a handle that the element gave out later. The
/// old and the new registration of a key never stand on the element
/// together between two turns.
pub proof fn replaced_listener_leaves_the_element(
    injector: InjectorView,
    element: ElementView,
    snapshot: SnapshotView,
    key: Seq<char>,
)
    requires
        Mount::of(injector, element).mirrored(),
        snapshot.wf(),
        !Mount::of(injector, element).ignores(snapshot),
        has_key(injector.listeners, key),
        lookup(snapshot.listeners, key) != lookup(injector.listeners, key),
    ensures
        ({
            let r = Mount::of(injector, element).reconcile(snapshot);
            &&& !has_key(r.element.listeners, injector.handle_of(key))
            &&& has_key(r.injector.listeners, key) ==> {
                &&& r.injector.handle_of(key) > injector.handle_of(key)
                &&& has_key(r.element.listeners, r.injector.handle_of(key))
            }
        }),
{
    let m = Mount::of(injector, element);
    lemma_sync_retires_handle(m, snapshot, key);
    lemma_sync_keeps(m, snapshot);
    let r = m.reconcile(snapshot);
    if has_key(r.injector.listeners, key) {
        lemma_position_in_range(r.injector.listeners, key);
        let p = position(r.injector.listeners, key);
        assert(r.element.listeners[p].handle == r.injector.handles[p]);
    }
}

/// Whatever an element lives through from its mounting on, its attributes
/// are those on record, each with the string of its value.
pub proof fn element_mirrors_the_record(turns: Seq<Turn>)
    requires
        turns_wf(turns),
    ensures
        Mount::mounted().run(turns).mirrored(),
{
    lemma_run_mirrored(turns);
}

/// Whatever an element lives through from its mounting on, an event runs
/// on it the handlers of the listeners on record for that event, in the
/// order of the record.
pub proof fn dispatch_runs_the_recorded_listeners(turns: Seq<Turn>, event: Seq<char>)
    requires
        turns_wf(turns),
    ensures
        ({
            let r = Mount::mounted().run(turns);
            r.element.dispatch(event) == listener_handlers(r.injector.listeners, event)
        }),
{
    lemma_run_mirrored(turns);
    let r = Mount::mounted().run(turns);
    lemma_dispatch_of_registrations(r.injector.listeners, r.injector.handles, event);
}

/// Setting an attribute twice is setting it once.
pub proof fn set_is_idempotent(bag: Seq<AttributeView>, attribute: AttributeView)
    requires
        distinct_keys(bag),
    ensures
        upsert(upsert(bag, attribute), attribute) == upsert(bag, attribute),
{
    let once = upsert(bag, attribute);
    lemma_upsert(bag, attribute);
    lemma_position_in_range(once, attribute.key);
    assert(once[position(once, attribute.key)] == attribute);
    assert(upsert(once, attribute) =~= once);
}

/// Between a bag and itself there is nothing to do: no key is stale and
/// no entry has changed.
pub proof fn diff_with_itself_is_empty(attributes: Seq<AttributeView>, listeners: Seq<ListenerView>)
    requires
        distinct_keys(attributes),
        distinct_keys(listeners),
    ensures
        stale_keys(attributes, attributes).len() == 0,
        changed_attributes(attributes, attributes).len() == 0,
        stale_keys(listeners, listeners).len() == 0,
        changed_listeners(listeners, listeners).len() == 0,
{
    assert forall|i: int| 0 <= i < attributes.len() implies !absent_from(attributes)(
        #[trigger] attributes[i],
    ) && !payload_changed(attributes)(attributes[i]) by {
        lemma_position(attributes, i);
    }
    assert forall|i: int| 0 <= i < listeners.len() implies !absent_from(listeners)(
        #[trigger] listeners[i],
    ) && !replaced(listeners)(listeners[i]) by {
        lemma_position(listeners, i);
    }
    attributes.lemma_all_neg_filter_empty(absent_from(attributes));
    attributes.lemma_all_neg_filter_empty(payload_changed(attributes));
    listeners.lemma_all_neg_filter_empty(absent_from(listeners));
    listeners.lemma_all_neg_filter_empty(replaced(listeners));
}

/// The names and values of the demo page are what the element accepts:
/// `disabled` and `my-custom-attribute` can be written.
pub proof fn demo_attributes_are_writable()
    ensures
        AttributeView::disabled().writable(),
        AttributeView::disabled().text() == Seq::<char>::empty(),
        AttributeView::custom("my-custom-attribute"@, Some("lalalala"@)).writable(),
        AttributeView::custom("my-custom-attribute"@, Some("lalalala"@)).text() == "lalalala"@,
        "disabled"@ != "my-custom-attribute"@,
{
    reveal_strlit("disabled");
    reveal_strlit("my-custom-attribute");
    let d = "disabled"@;
    let c = "my-custom-attribute"@;
    assert(d.len() == 8);
    assert(c.len() == 19);
    assert forall|i: int| 0 <= i < d.len() implies name_char(#[trigger] d[i]) by {
        assert(d[0] == 'd' && d[1] == 'i' && d[2] == 's' && d[3] == 'a' && d[4] == 'b' && d[5]
            == 'l' && d[6] == 'e' && d[7] == 'd');
    }
    assert forall|i: int| 0 <= i < c.len() implies name_char(#[trigger] c[i]) by {
        assert(c[0] == 'm' && c[1] == 'y' && c[2] == '-' && c[3] == 'c' && c[4] == 'u' && c[5]
            == 's' && c[6] == 't' && c[7] == 'o' && c[8] == 'm' && c[9] == '-');
        assert(c[10] == 'a' && c[11] == 't' && c[12] == 't' && c[13] == 'r' && c[14] == 'i'
            && c[15] == 'b' && c[16] == 'u' && c[17] == 't' && c[18] == 'e');
    }
}

/// After a toggle the bundle holds `disabled` exactly where the flag is
/// set, and `my-custom-attribute="lalalala"` either way; the flag is the
/// opposite of what it was, and the generation has advanced by the two
/// mutations made.
pub proof fn toggle_sets_disabled_with_the_flag(host: HostView)
    requires
        host.wf(),
        host.primary.content.generation + 2 <= u64::MAX,
    ensures
        ({
            let toggled = host.toggled();
            &&& toggled.wf()
            &&& toggled.btn_disabled == !host.btn_disabled
            &&& has_key(toggled.primary.content.attributes, "disabled"@) == toggled.btn_disabled
            &&& toggled.btn_disabled ==> lookup(toggled.primary.content.attributes, "disabled"@)
                == Some(AttributeView::disabled())
            &&& lookup(toggled.primary.content.attributes, "my-custom-attribute"@) == Some(
                AttributeView::custom("my-custom-attribute"@, Some("lalalala"@)),
            )
            &&& toggled.primary.content.generation == host.primary.content.generation + 2
            &&& toggled.primary.content.listeners == host.primary.content.listeners
            &&& toggled.warning == host.warning
        }),
{
    demo_attributes_are_writable();
    let bag = host.primary.content.attributes;
    let custom = AttributeView::custom("my-custom-attribute"@, Some("lalalala"@));
    if !host.btn_disabled {
        lemma_upsert(bag, AttributeView::disabled());
        lemma_upsert(upsert(bag, AttributeView::disabled()), custom);
    } else {
        lemma_without(bag, "disabled"@);
        lemma_upsert(without(bag, "disabled"@), custom);
    }
}

/// A toggle reaches the element with the next reconciliation: on an
/// element that shows the bundle as it was, and to which nobody but the
/// injector wrote, `disabled` stands as the empty string where the flag is
/// now set and is absent where it is not, and `my-custom-attribute` stands
/// as `lalalala`.
pub proof fn toggle_reaches_the_element(
    host: HostView,
    injector: InjectorView,
    element: ElementView,
)
    requires
        host.wf(),
        host.primary.content.generation + 2 <= u64::MAX,
        Mount::of(injector, element).mirrored(),
        injector.phase != Phase::Retired,
        injector.phase == Phase::Live ==> injector.last_generation
            == host.primary.content.generation,
    ensures
        ({
            let toggled = host.toggled();
            let r = Mount::of(injector, element).reconcile(toggled.primary.content);
            &&& r.element.attribute("disabled"@) == if toggled.btn_disabled {
                Some(Seq::<char>::empty())
            } else {
                None
            }
            &&& r.element.attribute("my-custom-attribute"@) == Some("lalalala"@)
        }),
{
    demo_attributes_are_writable();
    toggle_sets_disabled_with_the_flag(host);
    let toggled = host.toggled();
    let snapshot = toggled.primary.content;
    let m = Mount::of(injector, element);
    assert(!m.ignores(snapshot));
    lemma_sync_keeps(m, snapshot);
    let r = m.reconcile(snapshot);
    lemma_sync_attributes(m, snapshot, "disabled"@);
    lemma_mirrored_attribute(r, "disabled"@);
    lemma_sync_attributes(m, snapshot, "my-custom-attribute"@);
    lemma_mirrored_attribute(r, "my-custom-attribute"@);
    if has_key(r.injector.attrs, "disabled"@) {
        lemma_position_in_range(r.injector.attrs, "disabled"@);
    }
    if has_key(r.injector.attrs, "my-custom-attribute"@) {
        lemma_position_in_range(r.injector.attrs, "my-custom-attribute"@);
    }
}

/// Removing a listener through the parent takes it out of the bundle and
/// leaves the attributes alone; with the next reconciliation it is gone
/// from the record of the injector.
pub proof fn removed_listener_leaves_the_bundle(host: HostView, key: Seq<char>)
    requires
        host.wf(),
        host.primary.content.generation < u64::MAX,
    ensures
        ({
            let after = host.update(MsgView::RemoveListener(key));
            &&& after.wf()
            &&& !has_key(after.primary.content.listeners, key)
            &&& after.primary.content.attributes == host.primary.content.attributes
            &&& after.primary.content.generation == host.primary.content.generation + 1
            &&& after.btn_disabled == host.btn_disabled
            &&& after.warning == host.warning
            &&& wanted_listener(after.primary.content, key) is None
        }),
{
    lemma_without(host.primary.content.listeners, key);
}

/// After initial setup the flag says what the primary bundle holds: the
/// flag is clear and the bundle holds no `disabled`.
pub proof fn created_host_agrees(primary: Option<HandlerId>, warning: Option<HandlerId>)
    ensures
        HostView::created(primary, warning).wf(),
        HostView::created(primary, warning).agrees(),
        !HostView::created(primary, warning).btn_disabled,
{
    reveal_strlit("disabled");
    reveal_strlit("aria-atomic");
    reveal_strlit("type");
    let none = Seq::<AttributeView>::empty();
    let atomic = AttributeView::aria_atomic(true);
    let kind = AttributeView::button_type(ButtonTypeOption::Submit);
    assert("disabled"@.len() != "aria-atomic"@.len());
    assert("disabled"@.len() != "type"@.len());
    lemma_upsert(none, atomic);
    lemma_upsert(upsert(none, atomic), kind);
    let seeded = upsert(upsert(none, atomic), kind);
    assert(lookup(seeded, "disabled"@) == lookup(none, "disabled"@));
    let start = BundleView::empty(primary);
    let list = seq![
        Mutation::AddAttribute(atomic),
        Mutation::AddAttribute(kind),
        Mutation::AddListener {
            key: "my-disabled"@,
            event: "click"@,
            handler: HandlerId(TOGGLE_HANDLER),
        },
        Mutation::AddListener {
            key: "click-event"@,
            event: "click"@,
            handler: HandlerId(REMOVE_LISTENER_HANDLER),
        },
    ];
    mutations_keep_the_bundle_sound(start, list);
    assert(start.mutate_all(list) == HostView::created(primary, warning).primary) by {
        reveal_with_fuel(BundleView::mutate_all, 5);
        assert(list.drop_last().drop_last().drop_last().drop_last().len() == 0);
    }
}

/// A message keeps the flag true to the bundle: where the flag said what
/// the primary bundle holds, it does so after the message was handled,
/// whether the message could be applied or not.
pub proof fn update_keeps_the_flag_true(host: HostView, msg: MsgView)
    requires
        host.wf(),
        host.agrees(),
    ensures
        host.update(msg).wf(),
        host.update(msg).agrees(),
{
    demo_attributes_are_writable();
    match msg {
        MsgView::ToggleDisabled => {
            if host.can_toggle() {
                toggle_sets_disabled_with_the_flag(host);
            }
        },
        MsgView::RemoveListener(key) => {
            lemma_without(host.primary.content.listeners, key);
        },
    }
}

/// Setting `disabled` and the custom attribute and then removing `disabled`
/// leaves no trace of `disabled`: the bag is the one in which only the
/// custom attribute was set, key for key, value for value and in the same
/// order.
pub proof fn set_both_then_remove_one(
    bag: Seq<AttributeView>,
    gone: AttributeView,
    kept: AttributeView,
)
    requires
        distinct_keys(bag),
        !has_key(bag, gone.key),
        kept.key != gone.key,
    ensures
        without(upsert(upsert(bag, gone), kept), gone.key) == upsert(bag, kept),
{
    let first = upsert(bag, gone);
    lemma_upsert(bag, gone);
    assert(first == bag.push(gone));
    let second = upsert(first, kept);
    lemma_upsert(first, kept);
    let n = bag.len() as int;
    assert(lookup(first, kept.key) == lookup(bag, kept.key));
    if has_key(bag, kept.key) {
        lemma_position_in_range(bag, kept.key);
        let p = position(bag, kept.key);
        assert(first[p] == bag[p]);
        lemma_position(first, p);
        assert(second == first.update(p, kept));
        assert(second[n] == gone);
        lemma_position(second, n);
        assert(second.remove(n) =~= bag.update(p, kept));
    } else {
        assert(second == first.push(kept));
        assert(second[n] == gone);
        lemma_position(second, n);
        assert(second.remove(n) =~= bag.push(kept));
    }
}

/// Two toggles, starting with the flag clear, leave the attributes of the
/// primary bundle as one `set` of `my-custom-attribute="lalalala"` would:
/// `disabled` was set and removed again and has left no trace, no entry
/// has moved, and the flag is clear again. The listeners are as they were.
pub proof fn two_toggles_leave_the_custom_attribute(host: HostView)
    requires
        host.wf(),
        host.agrees(),
        !host.btn_disabled,
        host.primary.content.generation + 4 <= u64::MAX,
    ensures
        ({
            let twice = host.toggled().toggled();
            &&& twice.btn_disabled == host.btn_disabled
            &&& twice.primary.content.attributes == upsert(
                host.primary.content.attributes,
                AttributeView::custom("my-custom-attribute"@, Some("lalalala"@)),
            )
            &&& twice.primary.content.listeners == host.primary.content.listeners
            &&& twice.primary.content.generation == host.primary.content.generation + 4
            &&& twice.warning == host.warning
            &&& twice.agrees()
        }),
{
    demo_attributes_are_writable();
    let bag = host.primary.content.attributes;
    let disabled = AttributeView::disabled();
    let custom = AttributeView::custom("my-custom-attribute"@, Some("lalalala"@));
    toggle_sets_disabled_with_the_flag(host);
    let once = host.toggled();
    toggle_sets_disabled_with_the_flag(once);
    set_both_then_remove_one(bag, disabled, custom);
    set_is_idempotent(bag, custom);
    assert(once.primary.content.attributes == upsert(upsert(bag, disabled), custom));
}

/// The removal of a listener reaches the element with the render that it
/// asks for: the parent asks for a render, and once the element, which
/// showed the bundle as it was and to which nobody but the injector wrote,
/// is reconciled with the new snapshot, the record holds no listener under
/// the key, the registration that the key had is no longer live, and an
/// event runs the handlers of the listeners that are left, in their order.
pub proof fn removal_reaches_the_element(
    host: HostView,
    injector: InjectorView,
    element: ElementView,
    key: Seq<char>,
    event: Seq<char>,
)
    requires
        host.wf(),
        host.primary.mutable(),
        Mount::of(injector, element).mirrored(),
        injector.phase != Phase::Retired,
        injector.phase == Phase::Live ==> injector.last_generation
            == host.primary.content.generation,
        element.next_handle + host.primary.content.listeners.len() <= u64::MAX,
    ensures
        ({
            let msg = MsgView::RemoveListener(key);
            let after = host.update(msg);
            let r = Mount::of(injector, element).reconcile(after.primary.content);
            &&& host.wants_render(msg)
            &&& after != host
            &&& lookup(r.injector.listeners, key) is None
            &&& has_key(injector.listeners, key) ==> !has_key(
                r.element.listeners,
                injector.handle_of(key),
            )
            &&& r.element.dispatch(event) == listener_handlers(r.injector.listeners, event)
            &&& forall|k: Seq<char>| #[trigger]
                lookup(r.injector.listeners, k) == wanted_listener(after.primary.content, k)
        }),
{
    removed_listener_leaves_the_bundle(host, key);
    let after = host.update(MsgView::RemoveListener(key));
    let snapshot = after.primary.content;
    let m = Mount::of(injector, element);
    lemma_without(host.primary.content.listeners, key);
    assert(snapshot.listeners.len() <= host.primary.content.listeners.len());
    assert(!m.ignores(snapshot));
    every_install_matches_snapshot(injector, element, snapshot);
    let r = m.reconcile(snapshot);
    assert(lookup(r.injector.listeners, key) == wanted_listener(snapshot, key));
    if has_key(injector.listeners, key) {
        assert(lookup(snapshot.listeners, key) is None);
        replaced_listener_leaves_the_element(injector, element, snapshot, key);
    }
    lemma_dispatch_of_registrations(r.injector.listeners, r.injector.handles, event);
}

} // verus!
