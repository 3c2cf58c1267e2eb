//! What the steps of a reconciliation preserve and what they leave behind:
//! the lemmas from which the laws of the library are proved.

use crate::attribute::AttributeView;
use crate::attribute_bag::{changed_attributes, payload_changed};
use crate::bundle::SnapshotView;
use crate::element::{
    handlers_of, lemma_add_event_listener_wf, lemma_remove_attribute_wf,
    lemma_remove_event_listener_wf, lemma_set_attribute_wf, listens_to, ElementView,
};
use crate::keyed::{
    distinct_keys, has_key, keys, lemma_distinct_front, lemma_filter_empty, lemma_filter_keys,
    lemma_filter_last, lemma_keys_contains, lemma_no_key_is_empty, lemma_position,
    lemma_position_in_range, lemma_stale_keys, lemma_upsert, lemma_without, lookup, position,
    stale_keys, upsert, without, Keyed,
};
use crate::listener::{changed_listeners, replaced, ListenerView};
use crate::mount::{
    attribute_failures, drops_handle, handles_from, has_event, is_for, is_unwritable,
    is_writable, lacks_event, listener_failures, listener_handlers, recorded_payload,
    registrations_of, slot_of, slots_of, turns_wf, wanted_listener, wanted_payload, InjectorView,
    Mount, Phase, Turn,
};
use vstd::prelude::*;

verus! {

/// Removing one key more.
pub proof fn lemma_drop_attributes_next(m: Mount, list: Seq<Seq<char>>, i: int)
    requires
        0 <= i < list.len(),
    ensures
        m.drop_attributes(list.take(i + 1)) == m.drop_attributes(list.take(i)).drop_attribute(
            list[i],
        ),
{
    assert(list.take(i + 1).drop_last() =~= list.take(i));
}

/// Writing one attribute more.
pub proof fn lemma_put_attributes_next(m: Mount, list: Seq<AttributeView>, i: int)
    requires
        0 <= i < list.len(),
    ensures
        m.put_attributes(list.take(i + 1)) == m.put_attributes(list.take(i)).put_attribute(
            list[i],
        ),
{
    assert(list.take(i + 1).drop_last() =~= list.take(i));
}

/// De-registering one key more.
pub proof fn lemma_drop_listeners_next(m: Mount, list: Seq<Seq<char>>, i: int)
    requires
        0 <= i < list.len(),
    ensures
        m.drop_listeners(list.take(i + 1)) == m.drop_listeners(list.take(i)).drop_listener(
            list[i],
        ),
{
    assert(list.take(i + 1).drop_last() =~= list.take(i));
}

/// Registering one listener more.
pub proof fn lemma_put_listeners_next(m: Mount, list: Seq<ListenerView>, i: int)
    requires
        0 <= i < list.len(),
    ensures
        m.put_listeners(list.take(i + 1)) == m.put_listeners(list.take(i)).put_listener(list[i]),
{
    assert(list.take(i + 1).drop_last() =~= list.take(i));
}

/// Removing an attribute keeps the invariants.
pub proof fn lemma_drop_attribute_wf(m: Mount, key: Seq<char>)
    requires
        m.wf(),
    ensures
        m.drop_attribute(key).wf(),
{
    lemma_without(m.injector.attrs, key);
    lemma_remove_attribute_wf(m.element, key);
}

/// Writing an attribute keeps the invariants of a live injector.
pub proof fn lemma_put_attribute_wf(m: Mount, a: AttributeView)
    requires
        m.wf(),
        m.injector.phase == Phase::Live,
    ensures
        m.put_attribute(a).wf(),
{
    lemma_upsert(m.injector.attrs, a);
    lemma_set_attribute_wf(m.element, a.key, a.text());
    lemma_drop_attribute_wf(m, a.key);
}

/// De-registering a listener keeps the invariants, and leaves nothing on
/// record under the key.
pub proof fn lemma_drop_listener_wf(m: Mount, key: Seq<char>)
    requires
        m.wf(),
    ensures
        m.drop_listener(key).wf(),
        m.drop_listener(key).injector.listeners == without(m.injector.listeners, key),
        !has_key(m.drop_listener(key).injector.listeners, key),
{
    lemma_without(m.injector.listeners, key);
    if has_key(m.injector.listeners, key) {
        lemma_position_in_range(m.injector.listeners, key);
        let p = position(m.injector.listeners, key);
        lemma_remove_event_listener_wf(m.element, m.injector.handles[p]);
    }
}

/// Registering a listener keeps the invariants of a live injector.
pub proof fn lemma_put_listener_wf(m: Mount, l: ListenerView)
    requires
        m.wf(),
        m.injector.phase == Phase::Live,
    ensures
        m.put_listener(l).wf(),
{
    lemma_drop_listener_wf(m, l.key);
    let c = m.drop_listener(l.key);
    lemma_add_event_listener_wf(c.element, l.event, l.handler);
    if c.element.can_register(l.event) {
        let s = c.injector.listeners;
        let r = s.push(l);
        assert forall|i: int, j: int| 0 <= i < j < r.len() implies r[i].key() != r[j].key() by {
            if j == s.len() {
                assert(r[i] == s[i]);
                if s[i].key() == l.key() {
                    assert(has_key(s, l.key));
                }
            } else {
                assert(r[i] == s[i]);
                assert(r[j] == s[j]);
                assert(s[i].key() != s[j].key());
            }
        }
    }
}

/// Removing an attribute keeps the element the mirror of the record.
pub proof fn lemma_drop_attribute_mirrored(m: Mount, key: Seq<char>)
    requires
        m.mirrored(),
    ensures
        m.drop_attribute(key).mirrored(),
{
    lemma_drop_attribute_wf(m, key);
    let r = m.drop_attribute(key);
    if has_key(m.injector.attrs, key) {
        lemma_position_in_range(m.injector.attrs, key);
        let p = position(m.injector.attrs, key);
        assert(m.element.attrs[p] == slot_of(m.injector.attrs[p]));
        lemma_position(m.element.attrs, p);
        assert(r.element.attrs =~= slots_of(r.injector.attrs));
    } else {
        if has_key(m.element.attrs, key) {
            lemma_position_in_range(m.element.attrs, key);
            let q = position(m.element.attrs, key);
            assert(m.element.attrs[q] == slot_of(m.injector.attrs[q]));
            assert(m.injector.attrs[q].key() == key);
        }
        assert(r.element.attrs =~= slots_of(r.injector.attrs));
    }
}

/// Writing an attribute keeps the element the mirror of the record.
pub proof fn lemma_put_attribute_mirrored(m: Mount, a: AttributeView)
    requires
        m.mirrored(),
        m.injector.phase == Phase::Live,
    ensures
        m.put_attribute(a).mirrored(),
{
    lemma_put_attribute_wf(m, a);
    lemma_drop_attribute_mirrored(m, a.key);
    if a.writable() {
        let r = m.put_attribute(a);
        if has_key(m.injector.attrs, a.key) {
            lemma_position_in_range(m.injector.attrs, a.key);
            let p = position(m.injector.attrs, a.key);
            assert(m.element.attrs[p] == slot_of(m.injector.attrs[p]));
            lemma_position(m.element.attrs, p);
            assert(r.element.attrs =~= slots_of(r.injector.attrs));
        } else {
            if has_key(m.element.attrs, a.key) {
                lemma_position_in_range(m.element.attrs, a.key);
                let q = position(m.element.attrs, a.key);
                assert(m.element.attrs[q] == slot_of(m.injector.attrs[q]));
                assert(m.injector.attrs[q].key() == a.key);
            }
            assert(r.element.attrs =~= slots_of(r.injector.attrs));
        }
    }
}

/// De-registering a listener keeps the element the mirror of the record.
pub proof fn lemma_drop_listener_mirrored(m: Mount, key: Seq<char>)
    requires
        m.mirrored(),
    ensures
        m.drop_listener(key).mirrored(),
{
    lemma_drop_listener_wf(m, key);
    let r = m.drop_listener(key);
    if has_key(m.injector.listeners, key) {
        lemma_position_in_range(m.injector.listeners, key);
        let p = position(m.injector.listeners, key);
        assert(m.element.listeners[p].handle == m.injector.handles[p]);
        lemma_position(m.element.listeners, p);
        assert(r.element.listeners =~= registrations_of(r.injector.listeners, r.injector.handles));
    }
}

/// Registering a listener keeps the element the mirror of the record.
pub proof fn lemma_put_listener_mirrored(m: Mount, l: ListenerView)
    requires
        m.mirrored(),
        m.injector.phase == Phase::Live,
    ensures
        m.put_listener(l).mirrored(),
{
    lemma_put_listener_wf(m, l);
    lemma_drop_listener_mirrored(m, l.key);
    let c = m.drop_listener(l.key);
    if c.element.can_register(l.event) {
        let r = m.put_listener(l);
        assert(r.element.listeners =~= registrations_of(r.injector.listeners, r.injector.handles));
    }
}

/// Removing attributes one after the other keeps the invariants and
/// touches nothing but the attributes; it keeps the element the mirror of
/// the record where it was.
pub proof fn lemma_drop_attributes_keeps(m: Mount, list: Seq<Seq<char>>)
    requires
        m.wf(),
    ensures
        m.drop_attributes(list).wf(),
        m.drop_attributes(list).injector.phase == m.injector.phase,
        m.drop_attributes(list).injector.last_generation == m.injector.last_generation,
        m.drop_attributes(list).injector.listeners == m.injector.listeners,
        m.drop_attributes(list).injector.handles == m.injector.handles,
        m.drop_attributes(list).element.listeners == m.element.listeners,
        m.drop_attributes(list).element.next_handle == m.element.next_handle,
        m.mirrored() ==> m.drop_attributes(list).mirrored(),
    decreases list.len(),
{
    if list.len() > 0 {
        lemma_drop_attributes_keeps(m, list.drop_last());
        let r = m.drop_attributes(list.drop_last());
        lemma_drop_attribute_wf(r, list.last());
        if m.mirrored() {
            lemma_drop_attribute_mirrored(r, list.last());
        }
    }
}

/// Writing attributes one after the other keeps the invariants of a live
/// injector and touches nothing but the attributes; it keeps the element
/// the mirror of the record where it was.
pub proof fn lemma_put_attributes_keeps(m: Mount, list: Seq<AttributeView>)
    requires
        m.wf(),
        m.injector.phase == Phase::Live,
    ensures
        m.put_attributes(list).wf(),
        m.put_attributes(list).injector.phase == Phase::Live,
        m.put_attributes(list).injector.last_generation == m.injector.last_generation,
        m.put_attributes(list).injector.listeners == m.injector.listeners,
        m.put_attributes(list).injector.handles == m.injector.handles,
        m.put_attributes(list).element.listeners == m.element.listeners,
        m.put_attributes(list).element.next_handle == m.element.next_handle,
        m.mirrored() ==> m.put_attributes(list).mirrored(),
    decreases list.len(),
{
    if list.len() > 0 {
        lemma_put_attributes_keeps(m, list.drop_last());
        let r = m.put_attributes(list.drop_last());
        lemma_put_attribute_wf(r, list.last());
        if m.mirrored() {
            lemma_put_attribute_mirrored(r, list.last());
        }
    }
}

/// De-registering listeners one after the other keeps the invariants and
/// touches nothing but the listeners; it keeps the element the mirror of
/// the record where it was.
pub proof fn lemma_drop_listeners_keeps(m: Mount, list: Seq<Seq<char>>)
    requires
        m.wf(),
    ensures
        m.drop_listeners(list).wf(),
        m.drop_listeners(list).injector.phase == m.injector.phase,
        m.drop_listeners(list).injector.last_generation == m.injector.last_generation,
        m.drop_listeners(list).injector.attrs == m.injector.attrs,
        m.drop_listeners(list).element.attrs == m.element.attrs,
        m.drop_listeners(list).element.next_handle == m.element.next_handle,
        m.mirrored() ==> m.drop_listeners(list).mirrored(),
    decreases list.len(),
{
    if list.len() > 0 {
        lemma_drop_listeners_keeps(m, list.drop_last());
        let r = m.drop_listeners(list.drop_last());
        if has_key(r.injector.listeners, list.last()) {
            lemma_position_in_range(r.injector.listeners, list.last());
        }
        lemma_drop_listener_wf(r, list.last());
        if m.mirrored() {
            lemma_drop_listener_mirrored(r, list.last());
        }
    }
}

/// Registering listeners one after the other keeps the invariants of a
/// live injector and touches nothing but the listeners; it keeps the
/// element the mirror of the record where it was.
pub proof fn lemma_put_listeners_keeps(m: Mount, list: Seq<ListenerView>)
    requires
        m.wf(),
        m.injector.phase == Phase::Live,
    ensures
        m.put_listeners(list).wf(),
        m.put_listeners(list).injector.phase == Phase::Live,
        m.put_listeners(list).injector.last_generation == m.injector.last_generation,
        m.put_listeners(list).injector.attrs == m.injector.attrs,
        m.put_listeners(list).element.attrs == m.element.attrs,
        m.mirrored() ==> m.put_listeners(list).mirrored(),
    decreases list.len(),
{
    if list.len() > 0 {
        lemma_put_listeners_keeps(m, list.drop_last());
        let r = m.put_listeners(list.drop_last());
        if has_key(r.injector.listeners, list.last().key) {
            lemma_position_in_range(r.injector.listeners, list.last().key);
        }
        lemma_put_listener_wf(r, list.last());
        if m.mirrored() {
            lemma_put_listener_mirrored(r, list.last());
        }
    }
}

/// Unmounting keeps the invariants and leaves the record of the injector
/// empty; where the element was the mirror of the record, it is empty
/// afterwards too.
pub proof fn lemma_unmount_empties(m: Mount)
    requires
        m.wf(),
    ensures
        m.unmount().wf(),
        m.unmount().injector.attrs.len() == 0,
        m.unmount().injector.listeners.len() == 0,
        m.unmount().injector.handles.len() == 0,
        m.mirrored() ==> m.unmount().mirrored() && m.unmount().element.attrs.len() == 0
            && m.unmount().element.listeners.len() == 0,
{
    let ak = keys(m.injector.attrs);
    let lk = keys(m.injector.listeners);
    lemma_drop_attributes(m, ak);
    lemma_drop_attributes_keeps(m, ak);
    let a = m.drop_attributes(ak);
    assert forall|k: Seq<char>| !has_key(a.injector.attrs, k) by {
        lemma_keys_contains(m.injector.attrs, k);
        assert(lookup(a.injector.attrs, k) == None::<AttributeView>);
    }
    lemma_no_key_is_empty(a.injector.attrs);
    lemma_drop_listeners(a, lk);
    lemma_drop_listeners_keeps(a, lk);
    let b = a.drop_listeners(lk);
    assert forall|k: Seq<char>| !has_key(b.injector.listeners, k) by {
        lemma_keys_contains(m.injector.listeners, k);
        assert(lookup(b.injector.listeners, k) == None::<ListenerView>);
    }
    lemma_no_key_is_empty(b.injector.listeners);
    if m.mirrored() {
        assert(b.mirrored());
        assert(b.element.attrs.len() == b.injector.attrs.len());
        assert(b.element.listeners.len() == b.injector.listeners.len());
        let r = m.unmount();
        assert(r.element.attrs =~= slots_of(r.injector.attrs));
        assert(r.element.listeners =~= registrations_of(r.injector.listeners, r.injector.handles));
    }
}

/// Removing attributes removes exactly the keys named: in the record and on
/// the element every other key keeps what it had, and nothing else changes.
pub proof fn lemma_drop_attributes(m: Mount, list: Seq<Seq<char>>)
    requires
        distinct_keys(m.injector.attrs),
        distinct_keys(m.element.attrs),
    ensures
        distinct_keys(m.drop_attributes(list).injector.attrs),
        distinct_keys(m.drop_attributes(list).element.attrs),
        forall|k: Seq<char>| #[trigger]
            lookup(m.drop_attributes(list).injector.attrs, k) == if list.contains(k) {
                None
            } else {
                lookup(m.injector.attrs, k)
            },
        forall|k: Seq<char>| #[trigger]
            lookup(m.drop_attributes(list).element.attrs, k) == if list.contains(k) {
                None
            } else {
                lookup(m.element.attrs, k)
            },
        m.drop_attributes(list).injector == (InjectorView {
            attrs: m.drop_attributes(list).injector.attrs,
            ..m.injector
        }),
        m.drop_attributes(list).element.listeners == m.element.listeners,
        m.drop_attributes(list).element.next_handle == m.element.next_handle,
        m.drop_attributes(list).failures == m.failures,
    decreases list.len(),
{
    if list.len() > 0 {
        let head = list.drop_last();
        let k0 = list.last();
        lemma_drop_attributes(m, head);
        let r = m.drop_attributes(head);
        lemma_without(r.injector.attrs, k0);
        lemma_without(r.element.attrs, k0);
        assert forall|k: Seq<char>| list.contains(k) == (head.contains(k) || k == k0) by {
            if head.contains(k) {
                let i = choose|i: int| 0 <= i < head.len() && head[i] == k;
                assert(list[i] == k);
            }
            if list.contains(k) {
                let i = choose|i: int| 0 <= i < list.len() && list[i] == k;
                if i < head.len() {
                    assert(head[i] == k);
                }
            }
            if k == k0 {
                assert(list[list.len() - 1] == k);
            }
        }
        let f = m.drop_attributes(list);
        assert forall|k: Seq<char>| #[trigger]
            lookup(f.injector.attrs, k) == if list.contains(k) {
                None
            } else {
                lookup(m.injector.attrs, k)
            } by {
            if k != k0 {
                assert(lookup(f.injector.attrs, k) == lookup(r.injector.attrs, k));
            }
        }
        assert forall|k: Seq<char>| #[trigger]
            lookup(f.element.attrs, k) == if list.contains(k) {
                None
            } else {
                lookup(m.element.attrs, k)
            } by {
            if k != k0 {
                assert(lookup(f.element.attrs, k) == lookup(r.element.attrs, k));
            }
        }
    } else {
        assert forall|k: Seq<char>| !list.contains(k) by {}
    }
}

/// De-registering listeners strikes exactly the keys named from the record;
/// every other key keeps its listener and its handle, and the attributes
/// are not touched.
pub proof fn lemma_drop_listeners(m: Mount, list: Seq<Seq<char>>)
    requires
        distinct_keys(m.injector.listeners),
        m.injector.handles.len() == m.injector.listeners.len(),
    ensures
        distinct_keys(m.drop_listeners(list).injector.listeners),
        m.drop_listeners(list).injector.handles.len() == m.drop_listeners(
            list,
        ).injector.listeners.len(),
        forall|k: Seq<char>| #[trigger]
            lookup(m.drop_listeners(list).injector.listeners, k) == if list.contains(k) {
                None
            } else {
                lookup(m.injector.listeners, k)
            },
        forall|k: Seq<char>|
            !list.contains(k) && has_key(m.injector.listeners, k) ==> (#[trigger] m.drop_listeners(
                list,
            ).injector.handle_of(k)) == m.injector.handle_of(k),
        m.drop_listeners(list).injector == (InjectorView {
            listeners: m.drop_listeners(list).injector.listeners,
            handles: m.drop_listeners(list).injector.handles,
            ..m.injector
        }),
        m.drop_listeners(list).element.attrs == m.element.attrs,
        m.drop_listeners(list).element.next_handle == m.element.next_handle,
        m.drop_listeners(list).failures == m.failures,
    decreases list.len(),
{
    if list.len() > 0 {
        let head = list.drop_last();
        let k0 = list.last();
        lemma_drop_listeners(m, head);
        let r = m.drop_listeners(head);
        lemma_without(r.injector.listeners, k0);
        assert forall|k: Seq<char>| list.contains(k) == (head.contains(k) || k == k0) by {
            if head.contains(k) {
                let i = choose|i: int| 0 <= i < head.len() && head[i] == k;
                assert(list[i] == k);
            }
            if list.contains(k) {
                let i = choose|i: int| 0 <= i < list.len() && list[i] == k;
                if i < head.len() {
                    assert(head[i] == k);
                }
            }
            if k == k0 {
                assert(list[list.len() - 1] == k);
            }
        }
        let f = m.drop_listeners(list);
        assert(f == r.drop_listener(k0));
        if has_key(r.injector.listeners, k0) {
            lemma_position_in_range(r.injector.listeners, k0);
        }
        assert(f.injector.listeners == without(r.injector.listeners, k0));
        assert forall|k: Seq<char>| #[trigger]
            lookup(f.injector.listeners, k) == if list.contains(k) {
                None
            } else {
                lookup(m.injector.listeners, k)
            } by {
            if k != k0 {
                assert(lookup(f.injector.listeners, k) == lookup(r.injector.listeners, k));
            }
        }
        assert forall|k: Seq<char>|
            !list.contains(k) && has_key(m.injector.listeners, k) implies (
        #[trigger] f.injector.handle_of(k)) == m.injector.handle_of(k) by {
            assert(!head.contains(k));
            assert(lookup(r.injector.listeners, k) == lookup(m.injector.listeners, k));
            assert(r.injector.handle_of(k) == m.injector.handle_of(k));
            lemma_handle_survives(r.injector, k0, k);
        }
    } else {
        assert forall|k: Seq<char>| !list.contains(k) by {}
    }
}

/// Striking one listener from the record leaves every other listener with
/// its handle.
pub proof fn lemma_handle_survives(inj: InjectorView, gone: Seq<char>, k: Seq<char>)
    requires
        distinct_keys(inj.listeners),
        inj.handles.len() == inj.listeners.len(),
        has_key(inj.listeners, k),
        k != gone,
    ensures
        has_key(without(inj.listeners, gone), k),
        Mount::of(inj, ElementView::fresh()).drop_listener(gone).injector.handle_of(k)
            == inj.handle_of(k),
{
    lemma_without(inj.listeners, gone);
    assert(lookup(without(inj.listeners, gone), k) == lookup(inj.listeners, k));
    lemma_position_in_range(inj.listeners, k);
    if has_key(inj.listeners, gone) {
        lemma_position_in_range(inj.listeners, gone);
        let p = position(inj.listeners, gone);
        let a = position(inj.listeners, k);
        let r = inj.listeners.remove(p);
        let ra = if a < p { a } else { a - 1 };
        assert(r[ra] == inj.listeners[a]);
        lemma_position(r, ra);
        assert(inj.handles.remove(p)[ra] == inj.handles[a]);
    }
}

/// Installing a snapshot keeps the invariants and leaves the injector live
/// at the generation of the snapshot; it keeps the element the mirror of
/// the record where it was.
pub proof fn lemma_sync_keeps(m: Mount, snapshot: SnapshotView)
    requires
        m.wf(),
    ensures
        m.sync(snapshot).wf(),
        m.sync(snapshot).injector.phase == Phase::Live,
        m.sync(snapshot).injector.last_generation == snapshot.generation,
        m.mirrored() ==> m.sync(snapshot).mirrored(),
{
    let installed = m.injector;
    let live = m.went_live(snapshot.generation);
    let a1 = live.drop_attributes(stale_keys(snapshot.attributes, installed.attrs));
    lemma_drop_attributes_keeps(live, stale_keys(snapshot.attributes, installed.attrs));
    let a2 = a1.put_attributes(changed_attributes(snapshot.attributes, installed.attrs));
    lemma_put_attributes_keeps(a1, changed_attributes(snapshot.attributes, installed.attrs));
    let a3 = a2.drop_listeners(stale_keys(snapshot.listeners, installed.listeners));
    lemma_drop_listeners_keeps(a2, stale_keys(snapshot.listeners, installed.listeners));
    lemma_put_listeners_keeps(a3, changed_listeners(snapshot.listeners, installed.listeners));
}

/// What the record holds after attributes were written, key by key: an
/// attribute of the list is on record where it could be written and absent
/// where it could not; every other key keeps what it had. The listeners
/// are not touched.
pub proof fn lemma_put_attributes_record(m: Mount, list: Seq<AttributeView>)
    requires
        distinct_keys(m.injector.attrs),
        distinct_keys(list),
    ensures
        distinct_keys(m.put_attributes(list).injector.attrs),
        forall|k: Seq<char>| #[trigger]
            lookup(m.put_attributes(list).injector.attrs, k) == match lookup(list, k) {
                Some(a) => if a.writable() {
                    Some(a)
                } else {
                    None
                },
                None => lookup(m.injector.attrs, k),
            },
        m.put_attributes(list).injector == (InjectorView {
            attrs: m.put_attributes(list).injector.attrs,
            ..m.injector
        }),
        m.put_attributes(list).element.listeners == m.element.listeners,
        m.put_attributes(list).element.next_handle == m.element.next_handle,
    decreases list.len(),
{
    if list.len() > 0 {
        let head = list.drop_last();
        let a = list.last();
        lemma_distinct_front(list);
        lemma_put_attributes_record(m, head);
        let r = m.put_attributes(head);
        lemma_upsert(head, a);
        lemma_upsert(r.injector.attrs, a);
        lemma_without(r.injector.attrs, a.key);
        let f = m.put_attributes(list);
        assert(f == r.put_attribute(a));
        assert forall|k: Seq<char>| #[trigger]
            lookup(f.injector.attrs, k) == match lookup(list, k) {
                Some(a) => if a.writable() {
                    Some(a)
                } else {
                    None
                },
                None => lookup(m.injector.attrs, k),
            } by {
            if k == a.key {
                assert(lookup(list, k) == Some(a));
            } else {
                assert(lookup(list, k) == lookup(head, k));
                assert(lookup(f.injector.attrs, k) == lookup(r.injector.attrs, k));
            }
        }
    } else {
        assert forall|k: Seq<char>| lookup(list, k) == None::<AttributeView> by {}
    }
}

/// What the record holds after listeners were registered, key by key,
/// where the element does not run out of handles: a listener of the list
/// is on record where its event has a name and absent where it has none;
/// every other key keeps what it had. The attributes are not touched.
pub proof fn lemma_put_listeners_record(m: Mount, list: Seq<ListenerView>)
    requires
        distinct_keys(m.injector.listeners),
        m.injector.handles.len() == m.injector.listeners.len(),
        distinct_keys(list),
        m.element.next_handle + list.len() <= u64::MAX,
    ensures
        distinct_keys(m.put_listeners(list).injector.listeners),
        m.put_listeners(list).injector.handles.len() == m.put_listeners(
            list,
        ).injector.listeners.len(),
        forall|k: Seq<char>| #[trigger]
            lookup(m.put_listeners(list).injector.listeners, k) == match lookup(list, k) {
                Some(l) => if l.event.len() > 0 {
                    Some(l)
                } else {
                    None
                },
                None => lookup(m.injector.listeners, k),
            },
        m.put_listeners(list).injector == (InjectorView {
            listeners: m.put_listeners(list).injector.listeners,
            handles: m.put_listeners(list).injector.handles,
            ..m.injector
        }),
        m.put_listeners(list).element.attrs == m.element.attrs,
        m.element.next_handle <= m.put_listeners(list).element.next_handle <= m.element.next_handle
            + list.len(),
    decreases list.len(),
{
    if list.len() > 0 {
        let head = list.drop_last();
        let l = list.last();
        lemma_distinct_front(list);
        lemma_put_listeners_record(m, head);
        let r = m.put_listeners(head);
        lemma_upsert(head, l);
        lemma_without(r.injector.listeners, l.key);
        let c = r.drop_listener(l.key);
        if has_key(r.injector.listeners, l.key) {
            lemma_position_in_range(r.injector.listeners, l.key);
        }
        assert(c.injector.listeners == without(r.injector.listeners, l.key));
        lemma_upsert(c.injector.listeners, l);
        let f = m.put_listeners(list);
        assert(f == r.put_listener(l));
        assert(c.element.can_register(l.event) == (l.event.len() > 0));
        assert forall|k: Seq<char>| #[trigger]
            lookup(f.injector.listeners, k) == match lookup(list, k) {
                Some(l) => if l.event.len() > 0 {
                    Some(l)
                } else {
                    None
                },
                None => lookup(m.injector.listeners, k),
            } by {
            if k == l.key {
                assert(lookup(list, k) == Some(l));
                if l.event.len() > 0 {
                    assert(f.injector.listeners == upsert(c.injector.listeners, l));
                }
            } else {
                assert(lookup(list, k) == lookup(head, k));
                assert(lookup(c.injector.listeners, k) == lookup(r.injector.listeners, k));
                if l.event.len() > 0 {
                    assert(f.injector.listeners == upsert(c.injector.listeners, l));
                }
            }
        }
    } else {
        assert forall|k: Seq<char>| lookup(list, k) == None::<ListenerView> by {}
    }
}

/// All but the last of a sequence of turns with sound snapshots have sound
/// snapshots.
pub proof fn lemma_front_turns_wf(turns: Seq<Turn>)
    requires
        turns_wf(turns),
        turns.len() > 0,
    ensures
        turns_wf(turns.drop_last()),
{
    let head = turns.drop_last();
    assert forall|i: int| 0 <= i < head.len() implies (
    (#[trigger] head[i]) matches Turn::Arrival(s) ==> s.wf()) by {
        assert(head[i] == turns[i]);
    }
}

/// Whatever turns an element lives through from its mounting on, it stays
/// the mirror of the record of its injector.
pub proof fn lemma_run_mirrored(turns: Seq<Turn>)
    requires
        turns_wf(turns),
    ensures
        Mount::mounted().run(turns).mirrored(),
    decreases turns.len(),
{
    if turns.len() == 0 {
        let m = Mount::mounted();
        assert(m.element.attrs =~= slots_of(m.injector.attrs));
        assert(m.element.listeners =~= registrations_of(m.injector.listeners, m.injector.handles));
    } else {
        let head = turns.drop_last();
        lemma_front_turns_wf(turns);
        lemma_run_mirrored(head);
        let r = Mount::mounted().run(head);
        let start = Mount::of(r.injector, r.element);
        assert(start.mirrored());
        match turns.last() {
            Turn::Arrival(snapshot) => {
                lemma_sync_keeps(start, snapshot);
            },
            Turn::RefusedAttribute(key) => {
                lemma_drop_attribute_mirrored(start, key);
            },
            Turn::RefusedListener(key) => {
                lemma_drop_listener_mirrored(start, key);
            },
            Turn::Unmount => {
                lemma_unmount_empties(start);
            },
        }
    }
}

/// On an element that mirrors the record, an attribute is present exactly
/// where the record holds its key, with the string of the recorded value.
pub proof fn lemma_mirrored_attribute(m: Mount, k: Seq<char>)
    requires
        m.mirrored(),
    ensures
        m.element.attribute(k) == match lookup(m.injector.attrs, k) {
            Some(a) => Some(a.text()),
            None => None,
        },
{
    if has_key(m.injector.attrs, k) {
        lemma_position_in_range(m.injector.attrs, k);
        let p = position(m.injector.attrs, k);
        assert(m.element.attrs[p] == slot_of(m.injector.attrs[p]));
        lemma_position(m.element.attrs, p);
    } else if has_key(m.element.attrs, k) {
        lemma_position_in_range(m.element.attrs, k);
        let q = position(m.element.attrs, k);
        assert(m.element.attrs[q] == slot_of(m.injector.attrs[q]));
        assert(m.injector.attrs[q].key() == k);
    }
}

/// After a snapshot was installed, the record holds under every attribute
/// key the value that the snapshot asks for, and none where it asks for
/// none.
pub proof fn lemma_sync_attributes(m: Mount, snapshot: SnapshotView, k: Seq<char>)
    requires
        m.wf(),
        snapshot.wf(),
    ensures
        recorded_payload(m.sync(snapshot).injector, k) == wanted_payload(snapshot, k),
{
    let prev = m.injector.attrs;
    let cur = snapshot.attributes;
    let live = m.went_live(snapshot.generation);
    let stale = stale_keys(cur, prev);
    let changed = changed_attributes(cur, prev);
    let a1 = live.drop_attributes(stale);
    lemma_drop_attributes(live, stale);
    lemma_drop_attributes_keeps(live, stale);
    lemma_stale_keys(cur, prev, k);
    lemma_filter_keys(cur, payload_changed(prev));
    let a2 = a1.put_attributes(changed);
    lemma_put_attributes_record(a1, changed);
    lemma_put_attributes_keeps(a1, changed);
    let a3 = a2.drop_listeners(stale_keys(snapshot.listeners, m.injector.listeners));
    lemma_drop_listeners_keeps(a2, stale_keys(snapshot.listeners, m.injector.listeners));
    lemma_put_listeners_keeps(a3, changed_listeners(snapshot.listeners, m.injector.listeners));
    let r = m.sync(snapshot);
    assert(r.injector.attrs == a2.injector.attrs);
    if has_key(cur, k) {
        lemma_position_in_range(cur, k);
        let a = cur[position(cur, k)];
        assert(lookup(cur, k) == Some(a));
        if payload_changed(prev)(a) {
            assert(lookup(changed, k) == Some(a));
        } else {
            assert(lookup(changed, k) == None::<AttributeView>);
            assert(!stale.contains(k));
            let p = lookup(prev, k)->0;
            assert(lookup(prev, k) == Some(p));
            assert(p.value.payload() == a.value.payload());
            lemma_position_in_range(prev, k);
            assert(prev[position(prev, k)].writable());
            assert(p.key == a.key);
        }
    } else {
        assert(lookup(changed, k) == None::<AttributeView>);
    }
}

/// After a snapshot was installed on an element that had handles left for
/// all its listeners, the record holds under every listener key the
/// listener that the snapshot asks for, and none where it asks for none.
pub proof fn lemma_sync_listeners(m: Mount, snapshot: SnapshotView, k: Seq<char>)
    requires
        m.wf(),
        snapshot.wf(),
        m.element.next_handle + snapshot.listeners.len() <= u64::MAX,
    ensures
        lookup(m.sync(snapshot).injector.listeners, k) == wanted_listener(snapshot, k),
{
    let prev = m.injector.listeners;
    let cur = snapshot.listeners;
    let live = m.went_live(snapshot.generation);
    let a1 = live.drop_attributes(stale_keys(snapshot.attributes, m.injector.attrs));
    lemma_drop_attributes_keeps(live, stale_keys(snapshot.attributes, m.injector.attrs));
    let a2 = a1.put_attributes(changed_attributes(snapshot.attributes, m.injector.attrs));
    lemma_put_attributes_keeps(a1, changed_attributes(snapshot.attributes, m.injector.attrs));
    let stale = stale_keys(cur, prev);
    let changed = changed_listeners(cur, prev);
    let a3 = a2.drop_listeners(stale);
    lemma_drop_listeners(a2, stale);
    lemma_drop_listeners_keeps(a2, stale);
    lemma_stale_keys(cur, prev, k);
    lemma_filter_keys(cur, replaced(prev));
    cur.lemma_filter_len(replaced(prev));
    lemma_put_listeners_record(a3, changed);
    if has_key(cur, k) {
        lemma_position_in_range(cur, k);
        let l = cur[position(cur, k)];
        assert(lookup(cur, k) == Some(l));
        if replaced(prev)(l) {
            assert(lookup(changed, k) == Some(l));
        } else {
            assert(lookup(changed, k) == None::<ListenerView>);
            assert(!stale.contains(k));
            assert(lookup(prev, k) == Some(l));
            lemma_position_in_range(prev, k);
            assert(prev[position(prev, k)].event.len() > 0);
        }
    } else {
        assert(lookup(changed, k) == None::<ListenerView>);
    }
}

/// Writing attributes reports exactly those that cannot be written.
pub proof fn lemma_put_attributes_failures(m: Mount, list: Seq<AttributeView>)
    ensures
        m.put_attributes(list).failures == m.failures + attribute_failures(list),
    decreases list.len(),
{
    if list.len() > 0 {
        let head = list.drop_last();
        lemma_put_attributes_failures(m, head);
        lemma_filter_last(list, is_unwritable());
        assert(m.put_attributes(list).failures =~= m.failures + attribute_failures(list));
    } else {
        lemma_filter_empty(list, is_unwritable());
        assert(m.put_attributes(list).failures =~= m.failures + attribute_failures(list));
    }
}

/// Into an empty record, and onto an element that holds none of them, the
/// attributes that can be written go in the order of the list.
pub proof fn lemma_put_attributes_fresh(m: Mount, list: Seq<AttributeView>)
    requires
        m.injector.attrs.len() == 0,
        distinct_keys(list),
    ensures
        m.put_attributes(list).injector.attrs == list.filter(is_writable()),
    decreases list.len(),
{
    if list.len() > 0 {
        let head = list.drop_last();
        let a = list.last();
        lemma_distinct_front(list);
        lemma_put_attributes_fresh(m, head);
        lemma_filter_last(list, is_writable());
        lemma_filter_keys(head, is_writable());
        let r = m.put_attributes(head);
        assert(lookup(r.injector.attrs, a.key) == None::<AttributeView>);
        assert(!has_key(r.injector.attrs, a.key));
    } else {
        lemma_filter_empty(list, is_writable());
        assert(m.put_attributes(list).injector.attrs =~= list.filter(is_writable()));
    }
}

/// Into an empty record, on an element with handles left for all of them,
/// the listeners whose event has a name are registered in the order of the
/// list, under handles in a row; the others are reported.
pub proof fn lemma_put_listeners_fresh(m: Mount, list: Seq<ListenerView>)
    requires
        m.injector.listeners.len() == 0,
        m.injector.handles.len() == 0,
        distinct_keys(list),
        m.element.next_handle + list.len() <= u64::MAX,
    ensures
        m.put_listeners(list).injector.listeners == list.filter(has_event()),
        m.put_listeners(list).injector.handles == handles_from(
            m.element.next_handle,
            list.filter(has_event()).len(),
        ),
        m.put_listeners(list).element.next_handle == m.element.next_handle + list.filter(
            has_event(),
        ).len(),
        m.put_listeners(list).failures == m.failures + listener_failures(list),
    decreases list.len(),
{
    if list.len() > 0 {
        let head = list.drop_last();
        let l = list.last();
        lemma_distinct_front(list);
        lemma_put_listeners_fresh(m, head);
        lemma_filter_last(list, has_event());
        lemma_filter_last(list, lacks_event());
        lemma_filter_keys(head, has_event());
        head.lemma_filter_len(has_event());
        let r = m.put_listeners(head);
        assert(lookup(r.injector.listeners, l.key) == None::<ListenerView>);
        assert(!has_key(r.injector.listeners, l.key));
        let f = m.put_listeners(list);
        assert(f == r.put_listener(l));
        assert(r.drop_listener(l.key) == r);
        assert(f.injector.handles =~= handles_from(
            m.element.next_handle,
            list.filter(has_event()).len(),
        ));
        assert(f.failures =~= m.failures + listener_failures(list));
    } else {
        lemma_filter_empty(list, has_event());
        lemma_filter_empty(list, lacks_event());
        let f = m.put_listeners(list);
        assert(f.injector.handles =~= handles_from(
            m.element.next_handle,
            list.filter(has_event()).len(),
        ));
        assert(f.failures =~= m.failures + listener_failures(list));
    }
}

/// The handlers that an event runs on the registrations of a list of
/// listeners are the handlers of the listeners for that event, in order.
pub proof fn lemma_dispatch_of_registrations(
    list: Seq<ListenerView>,
    handles: Seq<u64>,
    event: Seq<char>,
)
    requires
        handles.len() == list.len(),
    ensures
        handlers_of(registrations_of(list, handles).filter(listens_to(event)))
            == listener_handlers(list, event),
    decreases list.len(),
{
    let regs = registrations_of(list, handles);
    if list.len() > 0 {
        let head = list.drop_last();
        let front = handles.drop_last();
        lemma_dispatch_of_registrations(head, front, event);
        lemma_filter_last(regs, listens_to(event));
        lemma_filter_last(list, is_for(event));
        assert(regs.drop_last() =~= registrations_of(head, front));
        let kept = regs.drop_last().filter(listens_to(event));
        let chosen = head.filter(is_for(event));
        assert(handlers_of(kept) == listener_handlers(head, event));
        assert(regs.last().event == list.last().event);
        assert(regs.last().handler == list.last().handler);
        if list.last().event == event {
            assert(handlers_of(kept.push(regs.last())) =~= handlers_of(kept).push(
                regs.last().handler,
            ));
            assert(listener_handlers(list, event) =~= listener_handlers(head, event).push(
                list.last().handler,
            ));
        }
    } else {
        lemma_filter_empty(regs, listens_to(event));
        lemma_filter_empty(list, is_for(event));
        assert(handlers_of(regs.filter(listens_to(event))) =~= listener_handlers(list, event));
    }
}

/// Where every attribute can be written and every listener has an event
/// with a name, nothing is reported.
pub proof fn lemma_no_failures(snapshot: SnapshotView)
    requires
        forall|i: int|
            0 <= i < snapshot.attributes.len() ==> (#[trigger] snapshot.attributes[i]).writable(),
        forall|i: int|
            0 <= i < snapshot.listeners.len() ==> (#[trigger] snapshot.listeners[i]).event.len()
                > 0,
    ensures
        attribute_failures(snapshot.attributes).len() == 0,
        listener_failures(snapshot.listeners).len() == 0,
{
    snapshot.attributes.lemma_all_neg_filter_empty(is_unwritable());
    snapshot.listeners.lemma_all_neg_filter_empty(lacks_event());
}

/// De-registering listeners removes from the element exactly the
/// registrations whose handles the record holds for them; every other
/// registration stays as it was.
pub proof fn lemma_drop_listeners_element(m: Mount, list: Seq<Seq<char>>)
    requires
        distinct_keys(m.injector.listeners),
        m.injector.handles.len() == m.injector.listeners.len(),
        distinct_keys(m.element.listeners),
    ensures
        distinct_keys(m.drop_listeners(list).element.listeners),
        forall|h: u64| #[trigger]
            lookup(m.drop_listeners(list).element.listeners, h) == if drops_handle(
                m.injector,
                list,
                h,
            ) {
                None
            } else {
                lookup(m.element.listeners, h)
            },
    decreases list.len(),
{
    let inj = m.injector;
    if list.len() > 0 {
        let head = list.drop_last();
        let k0 = list.last();
        lemma_drop_listeners_element(m, head);
        lemma_drop_listeners(m, head);
        let r = m.drop_listeners(head);
        let f = m.drop_listeners(list);
        assert(f == r.drop_listener(k0));
        assert forall|k: Seq<char>| list.contains(k) == (head.contains(k) || k == k0) by {
            if head.contains(k) {
                let i = choose|i: int| 0 <= i < head.len() && head[i] == k;
                assert(list[i] == k);
            }
            if list.contains(k) {
                let i = choose|i: int| 0 <= i < list.len() && list[i] == k;
                if i < head.len() {
                    assert(head[i] == k);
                }
            }
            if k == k0 {
                assert(list[list.len() - 1] == k);
            }
        }
        assert(lookup(r.injector.listeners, k0) == if head.contains(k0) {
            None
        } else {
            lookup(inj.listeners, k0)
        });
        if has_key(r.injector.listeners, k0) {
            assert(!head.contains(k0));
            assert(has_key(inj.listeners, k0));
            lemma_position_in_range(inj.listeners, k0);
            lemma_position_in_range(r.injector.listeners, k0);
            let p = position(inj.listeners, k0);
            let h0 = inj.handles[p];
            assert(r.injector.handle_of(k0) == inj.handle_of(k0));
            assert(f.element.listeners == without(r.element.listeners, h0));
            lemma_without(r.element.listeners, h0);
            assert forall|h: u64| #[trigger]
                lookup(f.element.listeners, h) == if drops_handle(inj, list, h) {
                    None
                } else {
                    lookup(m.element.listeners, h)
                } by {
                if h == h0 {
                    assert(inj.listeners[p].key == k0);
                    assert(drops_handle(inj, list, h));
                } else {
                    assert(lookup(f.element.listeners, h) == lookup(r.element.listeners, h));
                    if drops_handle(inj, list, h) {
                        let i = choose|i: int|
                            0 <= i < inj.listeners.len() && list.contains(
                                (#[trigger] inj.listeners[i]).key,
                            ) && inj.handles[i] == h;
                        if inj.listeners[i].key == k0 {
                            lemma_position(inj.listeners, i);
                            assert(false);
                        }
                        assert(head.contains(inj.listeners[i].key));
                        assert(drops_handle(inj, head, h));
                    }
                    if drops_handle(inj, head, h) {
                        let i = choose|i: int|
                            0 <= i < inj.listeners.len() && head.contains(
                                (#[trigger] inj.listeners[i]).key,
                            ) && inj.handles[i] == h;
                        assert(list.contains(inj.listeners[i].key));
                        assert(drops_handle(inj, list, h));
                    }
                }
            }
        } else {
            assert(f == r);
            assert forall|h: u64| drops_handle(inj, list, h) == drops_handle(inj, head, h) by {
                if drops_handle(inj, list, h) {
                    let i = choose|i: int|
                        0 <= i < inj.listeners.len() && list.contains(
                            (#[trigger] inj.listeners[i]).key,
                        ) && inj.handles[i] == h;
                    if inj.listeners[i].key == k0 {
                        lemma_position(inj.listeners, i);
                        assert(has_key(inj.listeners, k0));
                        assert(head.contains(k0));
                    }
                    assert(head.contains(inj.listeners[i].key));
                    assert(drops_handle(inj, head, h));
                }
                if drops_handle(inj, head, h) {
                    let i = choose|i: int|
                        0 <= i < inj.listeners.len() && head.contains(
                            (#[trigger] inj.listeners[i]).key,
                        ) && inj.handles[i] == h;
                    assert(list.contains(inj.listeners[i].key));
                    assert(drops_handle(inj, list, h));
                }
            }
        }
    } else {
        assert forall|h: u64| !drops_handle(inj, list, h) by {
            if drops_handle(inj, list, h) {
                let i = choose|i: int|
                    0 <= i < inj.listeners.len() && list.contains(
                        (#[trigger] inj.listeners[i]).key,
                    ) && inj.handles[i] == h;
                assert(list.contains(inj.listeners[i].key));
            }
        }
    }
}

/// Unmounting de-registers every handle on record and no other: a handle
/// that the record held is not live afterwards, and every other
/// registration is as it was.
pub proof fn lemma_unmount_listeners(m: Mount)
    requires
        m.wf(),
    ensures
        forall|h: u64| #[trigger]
            lookup(m.unmount().element.listeners, h) == if m.injector.handles.contains(h) {
                None
            } else {
                lookup(m.element.listeners, h)
            },
{
    let ak = keys(m.injector.attrs);
    let lk = keys(m.injector.listeners);
    lemma_drop_attributes(m, ak);
    let a = m.drop_attributes(ak);
    lemma_drop_listeners_element(a, lk);
    assert forall|h: u64| drops_handle(a.injector, lk, h) == m.injector.handles.contains(h) by {
        if drops_handle(a.injector, lk, h) {
            let i = choose|i: int|
                0 <= i < a.injector.listeners.len() && lk.contains(
                    (#[trigger] a.injector.listeners[i]).key,
                ) && a.injector.handles[i] == h;
            assert(m.injector.handles[i] == h);
        }
        if m.injector.handles.contains(h) {
            let i = choose|i: int| 0 <= i < m.injector.handles.len() && m.injector.handles[i] == h;
            assert(lk[i] == m.injector.listeners[i].key);
            assert(lk.contains(a.injector.listeners[i].key));
        }
    }
}

/// Where listeners were registered one after the other, a key of the list
/// has a handle that the element gave out during the registrations, and
/// every other key has the listener and the handle it had.
pub proof fn lemma_put_listeners_handles(m: Mount, list: Seq<ListenerView>)
    requires
        m.wf(),
        m.injector.phase == Phase::Live,
        distinct_keys(list),
    ensures
        m.element.next_handle <= m.put_listeners(list).element.next_handle,
        forall|k: Seq<char>|
            has_key(list, k) && has_key(m.put_listeners(list).injector.listeners, k) ==> (
            #[trigger] m.put_listeners(list).injector.handle_of(k)) >= m.element.next_handle,
        forall|k: Seq<char>|
            !has_key(list, k) ==> (#[trigger] lookup(m.put_listeners(list).injector.listeners, k))
                == lookup(m.injector.listeners, k),
        forall|k: Seq<char>|
            !has_key(list, k) && has_key(m.injector.listeners, k) ==> (
            #[trigger] m.put_listeners(list).injector.handle_of(k)) == m.injector.handle_of(k),
    decreases list.len(),
{
    if list.len() > 0 {
        let head = list.drop_last();
        let l = list.last();
        lemma_distinct_front(list);
        lemma_upsert(head, l);
        lemma_put_listeners_handles(m, head);
        lemma_put_listeners_keeps(m, head);
        let r = m.put_listeners(head);
        lemma_drop_listener_wf(r, l.key);
        lemma_put_listener_wf(r, l);
        let c = r.drop_listener(l.key);
        let f = m.put_listeners(list);
        assert(f == r.put_listener(l));
        lemma_without(r.injector.listeners, l.key);
        let registered = c.element.can_register(l.event);
        if registered {
            assert(f.injector.listeners == upsert(c.injector.listeners, l));
            lemma_upsert(c.injector.listeners, l);
        }
        assert forall|k: Seq<char>| has_key(list, k) == (has_key(head, k) || k == l.key) by {
            if k != l.key {
                assert(lookup(list, k) == lookup(head, k));
            } else {
                assert(lookup(list, k) == Some(l));
            }
        }
        assert forall|k: Seq<char>| k != l.key && has_key(r.injector.listeners, k) implies has_key(
            f.injector.listeners,
            k,
        ) && f.injector.handle_of(k) == r.injector.handle_of(k) by {
            lemma_handle_survives(r.injector, l.key, k);
            assert(lookup(c.injector.listeners, k) == lookup(r.injector.listeners, k));
            if registered {
                lemma_position_in_range(c.injector.listeners, k);
                let a = position(c.injector.listeners, k);
                assert(f.injector.listeners[a] == c.injector.listeners[a]);
                lemma_position(f.injector.listeners, a);
            }
        }
        assert forall|k: Seq<char>| k != l.key implies lookup(f.injector.listeners, k) == lookup(
            r.injector.listeners,
            k,
        ) by {
            assert(lookup(c.injector.listeners, k) == lookup(r.injector.listeners, k));
        }
        assert forall|k: Seq<char>|
            has_key(list, k) && has_key(f.injector.listeners, k) implies (
        #[trigger] f.injector.handle_of(k)) >= m.element.next_handle by {
            if k == l.key {
                assert(registered);
                let n = c.injector.listeners.len() as int;
                assert(f.injector.listeners[n] == l);
                lemma_position(f.injector.listeners, n);
            } else {
                assert(has_key(r.injector.listeners, k));
            }
        }
        assert forall|k: Seq<char>| !has_key(list, k) implies (#[trigger] lookup(
            f.injector.listeners,
            k,
        )) == lookup(m.injector.listeners, k) by {
            assert(lookup(f.injector.listeners, k) == lookup(r.injector.listeners, k));
        }
        assert forall|k: Seq<char>|
            !has_key(list, k) && has_key(m.injector.listeners, k) implies (
        #[trigger] f.injector.handle_of(k)) == m.injector.handle_of(k) by {
            assert(lookup(r.injector.listeners, k) == lookup(m.injector.listeners, k));
            assert(has_key(r.injector.listeners, k));
        }
    } else {
        assert forall|k: Seq<char>| !has_key(list, k) by {}
    }
}

/// After a snapshot was installed on an element to which nobody but the
/// injector wrote, no registration is live under the handle that a
/// listener had which the snapshot replaces or no longer holds.
pub proof fn lemma_sync_retires_handle(m: Mount, snapshot: SnapshotView, k: Seq<char>)
    requires
        m.mirrored(),
        snapshot.wf(),
        has_key(m.injector.listeners, k),
        lookup(snapshot.listeners, k) != lookup(m.injector.listeners, k),
    ensures
        !has_key(m.sync(snapshot).element.listeners, m.injector.handle_of(k)),
        has_key(m.sync(snapshot).injector.listeners, k) ==> m.sync(snapshot).injector.handle_of(k)
            >= m.element.next_handle,
        m.injector.handle_of(k) < m.element.next_handle,
{
    let prev = m.injector.listeners;
    let cur = snapshot.listeners;
    let live = m.went_live(snapshot.generation);
    let a1 = live.drop_attributes(stale_keys(snapshot.attributes, m.injector.attrs));
    lemma_drop_attributes_keeps(live, stale_keys(snapshot.attributes, m.injector.attrs));
    let a2 = a1.put_attributes(changed_attributes(snapshot.attributes, m.injector.attrs));
    lemma_put_attributes_keeps(a1, changed_attributes(snapshot.attributes, m.injector.attrs));
    let stale = stale_keys(cur, prev);
    let changed = changed_listeners(cur, prev);
    let a3 = a2.drop_listeners(stale);
    lemma_drop_listeners(a2, stale);
    lemma_drop_listeners_keeps(a2, stale);
    lemma_filter_keys(cur, replaced(prev));
    let r = a3.put_listeners(changed);
    lemma_put_listeners_handles(a3, changed);
    lemma_put_listeners_keeps(a3, changed);
    lemma_sync_keeps(m, snapshot);
    assert(r == m.sync(snapshot));
    lemma_position_in_range(prev, k);
    let p = position(prev, k);
    let h0 = m.injector.handles[p];
    assert(m.element.listeners[p].handle == h0);
    assert(h0 < m.element.next_handle);
    assert forall|key: Seq<char>| has_key(r.injector.listeners, key) && key != k implies (
    #[trigger] r.injector.handle_of(key)) != h0 by {
        if has_key(changed, key) {
            assert(r.injector.handle_of(key) >= a3.element.next_handle);
        } else {
            assert(lookup(r.injector.listeners, key) == lookup(a3.injector.listeners, key));
            assert(has_key(a3.injector.listeners, key));
            lemma_stale_keys(cur, prev, key);
            assert(has_key(prev, key));
            assert(a3.injector.handle_of(key) == m.injector.handle_of(key));
            assert(r.injector.handle_of(key) == a3.injector.handle_of(key));
            lemma_position_in_range(prev, key);
            let q = position(prev, key);
            assert(m.element.listeners[q].handle == m.injector.handles[q]);
            if m.injector.handles[q] == h0 {
                lemma_position(m.element.listeners, q);
                lemma_position(m.element.listeners, p);
                assert(q == p);
                assert(false);
            }
        }
    }
    lemma_stale_keys(cur, prev, k);
    if has_key(cur, k) {
        lemma_position_in_range(cur, k);
        assert(replaced(prev)(cur[position(cur, k)]));
        assert(lookup(changed, k) == lookup(cur, k));
        assert(has_key(changed, k));
    } else {
        assert(stale.contains(k));
        assert(lookup(changed, k) == None::<ListenerView>);
        assert(!has_key(changed, k));
        assert(lookup(a3.injector.listeners, k) == None::<ListenerView>);
        assert(lookup(r.injector.listeners, k) == lookup(a3.injector.listeners, k));
    }
    if has_key(r.element.listeners, h0) {
        lemma_position_in_range(r.element.listeners, h0);
        let j = position(r.element.listeners, h0);
        assert(r.element.listeners[j].handle == r.injector.handles[j]);
        let key = r.injector.listeners[j].key;
        lemma_position(r.injector.listeners, j);
        assert(r.injector.handle_of(key) == h0);
        assert(key == k);
        assert(r.injector.handle_of(k) >= a3.element.next_handle);
        assert(false);
    }
}

} // verus!
