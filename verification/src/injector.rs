//! The injector: the reconciler that owns the writes to one element and
//! drives its attributes and listeners to equal the bundle's.

use crate::attribute::{Attribute, AttributeView, SerializeError};
use crate::attribute_bag::{attribute_views, AttributeBag};
use crate::bundle::Snapshot;
use crate::element::Element;
use crate::keyed::{has_key, key_views, keys, lemma_without, lookup, position};
use crate::laws::unmount_clears_the_record;
use crate::listener::{listener_views, Listener, ListenerBag, ListenerView};
use crate::mount::{
    recorded_payload, wanted_listener, wanted_payload, wanted_text, write_failure, FailureKind,
    FailureView, InjectorView, Mount, Phase,
};
use crate::steps::{
    lemma_drop_attribute_mirrored, lemma_drop_attribute_wf, lemma_drop_attributes_next,
    lemma_drop_listener_mirrored, lemma_drop_listener_wf, lemma_drop_listeners_next,
    lemma_handle_survives, lemma_mirrored_attribute, lemma_put_attribute_wf,
    lemma_put_attributes_next, lemma_put_listener_wf, lemma_put_listeners_next,
    lemma_sync_attributes, lemma_sync_keeps, lemma_sync_listeners, lemma_unmount_empties,
};
use vstd::prelude::*;

verus! {

/// A failure on one key, as a reconciliation reports it.
#[derive(PartialEq, Eq, Debug)]
pub struct Failure {
    pub key: String,
    pub kind: FailureKind,
}

impl View for Failure {
    type V = FailureView;

    open spec fn view(&self) -> FailureView {
        FailureView { key: self.key@, kind: self.kind }
    }
}

/// The views of a list of failures, in order.
pub open spec fn failure_views(list: Seq<Failure>) -> Seq<FailureView> {
    list.map_values(|f: Failure| f@)
}

/// What a reconciliation has to tell: the entries that did not reach the
/// element, in the order in which they were tried.
#[derive(PartialEq, Eq, Debug)]
pub struct Report {
    pub failures: Vec<Failure>,
}

/// The reconciler of one element.
pub struct DomInjector {
    phase: Phase,
    attrs: AttributeBag,
    listeners: ListenerBag,
    handles: Vec<u64>,
    last_generation: u64,
}

impl View for DomInjector {
    type V = InjectorView;

    closed spec fn view(&self) -> InjectorView {
        InjectorView {
            phase: self.phase,
            attrs: self.attrs@,
            listeners: self.listeners@,
            handles: self.handles@,
            last_generation: self.last_generation,
        }
    }
}

impl DomInjector {
    /// The invariant of the injector.
    pub open spec fn wf(&self) -> bool {
        self@.wf()
    }

    /// The injector of an element that was just mounted.
    pub fn new() -> (injector: DomInjector)
        ensures
            injector.wf(),
            injector@ == InjectorView::fresh(),
    {
        DomInjector {
            phase: Phase::Fresh,
            attrs: AttributeBag::new(),
            listeners: ListenerBag::new(),
            handles: Vec::new(),
            last_generation: 0,
        }
    }

    /// Where the element stands in its life.
    pub fn phase(&self) -> (phase: Phase)
        ensures
            phase == self@.phase,
    {
        self.phase
    }

    /// The generation of the snapshot installed last.
    pub fn last_generation(&self) -> (g: u64)
        ensures
            g == self@.last_generation,
    {
        self.last_generation
    }

    /// The attributes that stand on the element by the injector's doing.
    pub fn installed_attributes(&self) -> (list: Vec<Attribute>)
        ensures
            attribute_views(list@) == self@.attrs,
    {
        self.attrs.entries()
    }

    /// The listeners that are registered by the injector's doing.
    pub fn installed_listeners(&self) -> (list: Vec<Listener>)
        ensures
            listener_views(list@) == self@.listeners,
    {
        self.listeners.entries()
    }

    /// The handle under which the listener `key` is registered, if it is.
    pub fn handle_of(&self, key: &str) -> (handle: Option<u64>)
        requires
            self.wf(),
        ensures
            handle == if has_key(self@.listeners, key@) {
                Some(self@.handles[position(self@.listeners, key@)])
            } else {
                None
            },
    {
        let key = String::from_str(key);
        match self.listeners.find(&key) {
            Some(i) => Some(self.handles[i]),
            None => None,
        }
    }

    /// The key of the listener that is registered under `handle`, if the
    /// record holds the handle.
    pub fn key_of(&self, handle: u64) -> (key: Option<String>)
        requires
            self.wf(),
        ensures
            match key {
                Some(k) => exists|i: int|
                    #[trigger] self@.first_with_handle(handle, i) && self@.listeners[i].key == k@,
                None => !self@.handles.contains(handle),
            },
    {
        let mut i: usize = 0;
        while i < self.handles.len()
            invariant
                self.wf(),
                i <= self.handles.len(),
                forall|j: int| 0 <= j < i ==> self@.handles[j] != handle,
            decreases self.handles.len() - i,
        {
            if self.handles[i] == handle {
                let key = self.listeners.at(i).key.clone();
                assert(self@.first_with_handle(handle, i as int));
                return Some(key);
            }
            i += 1;
        }
        None
    }

    fn drop_attribute(&mut self, element: &mut Element, key: &str)
        requires
            old(self).wf(),
            old(element).wf(),
        ensures
            final(self).wf(),
            final(element).wf(),
            final(self)@ == Mount::of(old(self)@, old(element)@).drop_attribute(key@).injector,
            final(element)@ == Mount::of(old(self)@, old(element)@).drop_attribute(key@).element,
    {
        proof {
            lemma_drop_attribute_wf(Mount::of(self@, element@), key@);
        }
        element.remove_attribute(key);
        self.attrs.remove(key);
    }

    fn put_attribute(
        &mut self,
        element: &mut Element,
        attribute: &Attribute,
        failures: &mut Vec<Failure>,
    )
        requires
            old(self).wf(),
            old(element).wf(),
            old(self)@.phase == Phase::Live,
        ensures
            final(self).wf(),
            final(element).wf(),
            final(self)@.phase == Phase::Live,
            (Mount {
                injector: final(self)@,
                element: final(element)@,
                failures: failure_views(final(failures)@),
            }) == (Mount {
                injector: old(self)@,
                element: old(element)@,
                failures: failure_views(old(failures)@),
            }).put_attribute(attribute@),
    {
        let ghost before = Mount {
            injector: self@,
            element: element@,
            failures: failure_views(failures@),
        };
        proof {
            lemma_put_attribute_wf(before, attribute@);
        }
        let kind = match attribute.value.serialize() {
            Ok(payload) => {
                let text = match payload {
                    Some(s) => s,
                    None => String::new(),
                };
                assert(text@ == attribute@.text());
                if element.set_attribute(attribute.key.as_str(), text.as_str()) {
                    self.attrs.set(attribute.clone());
                    return;
                }
                FailureKind::InvalidName
            },
            Err(SerializeError::MalformedToken) => FailureKind::Serialization,
        };
        assert(!attribute@.writable());
        assert(kind == write_failure(attribute@));
        assert(element@ == old(element)@);
        if self.attrs.contains(attribute.key.as_str()) {
            self.drop_attribute(element, attribute.key.as_str());
        }
        failures.push(Failure { key: attribute.key.clone(), kind });
        assert(failure_views(failures@) =~= before.put_attribute(attribute@).failures);
    }

    fn drop_listener(&mut self, element: &mut Element, key: &str)
        requires
            old(self).wf(),
            old(element).wf(),
        ensures
            final(self).wf(),
            final(element).wf(),
            final(self)@ == Mount::of(old(self)@, old(element)@).drop_listener(key@).injector,
            final(element)@ == Mount::of(old(self)@, old(element)@).drop_listener(key@).element,
            !has_key(final(self)@.listeners, key@),
    {
        proof {
            lemma_drop_listener_wf(Mount::of(self@, element@), key@);
        }
        let name = String::from_str(key);
        match self.listeners.find(&name) {
            Some(i) => {
                let handle: u64 = self.handles[i];
                element.remove_event_listener(handle);
                self.listeners.remove(key);
                self.handles.remove(i);
            },
            None => {},
        }
    }

    fn put_listener(
        &mut self,
        element: &mut Element,
        listener: &Listener,
        failures: &mut Vec<Failure>,
    )
        requires
            old(self).wf(),
            old(element).wf(),
            old(self)@.phase == Phase::Live,
        ensures
            final(self).wf(),
            final(element).wf(),
            final(self)@.phase == Phase::Live,
            (Mount {
                injector: final(self)@,
                element: final(element)@,
                failures: failure_views(final(failures)@),
            }) == (Mount {
                injector: old(self)@,
                element: old(element)@,
                failures: failure_views(old(failures)@),
            }).put_listener(listener@),
    {
        let ghost before = Mount {
            injector: self@,
            element: element@,
            failures: failure_views(failures@),
        };
        proof {
            lemma_put_listener_wf(before, listener@);
            lemma_drop_listener_wf(before, listener@.key);
        }
        self.drop_listener(element, listener.key.as_str());
        match element.add_event_listener(listener.event.as_str(), listener.handler) {
            Some(handle) => {
                self.listeners.adopt(listener.clone());
                self.handles.push(handle);
            },
            None => {
                failures.push(
                    Failure { key: listener.key.clone(), kind: FailureKind::Registration },
                );
                assert(failure_views(failures@) =~= before.put_listener(listener@).failures);
            },
        }
    }

    /// Takes a snapshot of the bundle and makes the element match it.
    ///
    /// A retired injector ignores the snapshot, and so does a live one
    /// that installed the same generation last: the element is not
    /// touched. Otherwise the attributes that the snapshot no longer holds
    /// are removed and the new and changed ones written, then the same for
    /// the listeners, and the injector is live at the snapshot's
    /// generation. An entry that the element refuses is reported and
    /// skipped; the others are still installed.
    pub fn reconcile(&mut self, element: &mut Element, snapshot: &Snapshot) -> (report: Report)
        requires
            old(self).wf(),
            old(element).wf(),
            snapshot.wf(),
        ensures
            final(self).wf(),
            final(element).wf(),
            (Mount {
                injector: final(self)@,
                element: final(element)@,
                failures: failure_views(report.failures@),
            }) == Mount::of(old(self)@, old(element)@).reconcile(snapshot@),
            Mount::of(old(self)@, old(element)@).ignores(snapshot@) ==> final(self)@ == old(self)@
                && final(element)@ == old(element)@ && report.failures@.len() == 0,
            !Mount::of(old(self)@, old(element)@).ignores(snapshot@) ==> {
                &&& final(self)@.phase == Phase::Live
                &&& final(self)@.last_generation == snapshot@.generation
                &&& forall|k: Seq<char>| #[trigger]
                    recorded_payload(final(self)@, k) == wanted_payload(snapshot@, k)
                &&& old(element)@.next_handle + snapshot@.listeners.len() <= u64::MAX
                    ==> forall|k: Seq<char>| #[trigger]
                    lookup(final(self)@.listeners, k) == wanted_listener(snapshot@, k)
                &&& Mount::of(old(self)@, old(element)@).mirrored()
                    ==> forall|k: Seq<char>| #[trigger]
                    final(element)@.attribute(k) == wanted_text(snapshot@, k)
            },
            Mount::of(old(self)@, old(element)@).mirrored() ==> Mount::of(
                final(self)@,
                final(element)@,
            ).mirrored(),
    {
        let mut failures: Vec<Failure> = Vec::new();
        assert(failure_views(failures@) =~= Seq::<FailureView>::empty());
        proof {
            let start = Mount::of(self@, element@);
            if !start.ignores(snapshot@) {
                lemma_sync_keeps(start, snapshot@);
                assert forall|k: Seq<char>| #[trigger]
                    recorded_payload(start.sync(snapshot@).injector, k) == wanted_payload(
                        snapshot@,
                        k,
                    ) by {
                    lemma_sync_attributes(start, snapshot@, k);
                }
                if element@.next_handle + snapshot@.listeners.len() <= u64::MAX {
                    assert forall|k: Seq<char>| #[trigger]
                        lookup(start.sync(snapshot@).injector.listeners, k) == wanted_listener(
                            snapshot@,
                            k,
                        ) by {
                        lemma_sync_listeners(start, snapshot@, k);
                    }
                }
                if start.mirrored() {
                    assert forall|k: Seq<char>| #[trigger]
                        start.sync(snapshot@).element.attribute(k) == wanted_text(snapshot@, k) by {
                        lemma_sync_attributes(start, snapshot@, k);
                        lemma_mirrored_attribute(start.sync(snapshot@), k);
                    }
                }
            }
        }
        let ignore = match self.phase {
            Phase::Retired => true,
            Phase::Live => self.last_generation == snapshot.generation(),
            Phase::Fresh => false,
        };
        if ignore {
            return Report { failures };
        }
        let ghost start = Mount::of(self@, element@);
        let attrs = snapshot.attributes().diff(&self.attrs);
        let listeners = snapshot.listeners().diff(&self.listeners);
        let ghost stale_attrs = key_views(attrs.to_remove@);
        let ghost new_attrs = attribute_views(attrs.to_set@);
        let ghost stale_listeners = key_views(listeners.to_remove@);
        let ghost new_listeners = listener_views(listeners.to_set@);
        self.phase = Phase::Live;
        self.last_generation = snapshot.generation();
        let ghost live = start.went_live(snapshot@.generation);

        let mut i: usize = 0;
        assert(stale_attrs.take(0) =~= Seq::<Seq<char>>::empty());
        while i < attrs.to_remove.len()
            invariant
                i <= attrs.to_remove.len(),
                stale_attrs == key_views(attrs.to_remove@),
                self.wf(),
                element.wf(),
                self@.phase == Phase::Live,
                failures@.len() == 0,
                Mount::of(self@, element@) == live.drop_attributes(stale_attrs.take(i as int)),
            decreases attrs.to_remove.len() - i,
        {
            proof {
                lemma_drop_attributes_next(live, stale_attrs, i as int);
            }
            self.drop_attribute(element, attrs.to_remove[i].as_str());
            i += 1;
        }
        assert(stale_attrs.take(i as int) =~= stale_attrs);
        let ghost a1 = live.drop_attributes(stale_attrs);

        let mut i: usize = 0;
        assert(new_attrs.take(0) =~= Seq::<AttributeView>::empty());
        while i < attrs.to_set.len()
            invariant
                i <= attrs.to_set.len(),
                new_attrs == attribute_views(attrs.to_set@),
                self.wf(),
                element.wf(),
                self@.phase == Phase::Live,
                (Mount {
                    injector: self@,
                    element: element@,
                    failures: failure_views(failures@),
                }) == a1.put_attributes(new_attrs.take(i as int)),
            decreases attrs.to_set.len() - i,
        {
            proof {
                lemma_put_attributes_next(a1, new_attrs, i as int);
            }
            self.put_attribute(element, &attrs.to_set[i], &mut failures);
            i += 1;
        }
        assert(new_attrs.take(i as int) =~= new_attrs);
        let ghost a2 = a1.put_attributes(new_attrs);

        let mut i: usize = 0;
        assert(stale_listeners.take(0) =~= Seq::<Seq<char>>::empty());
        while i < listeners.to_remove.len()
            invariant
                i <= listeners.to_remove.len(),
                stale_listeners == key_views(listeners.to_remove@),
                self.wf(),
                element.wf(),
                self@.phase == Phase::Live,
                (Mount {
                    injector: self@,
                    element: element@,
                    failures: failure_views(failures@),
                }) == a2.drop_listeners(stale_listeners.take(i as int)),
            decreases listeners.to_remove.len() - i,
        {
            proof {
                lemma_drop_listeners_next(a2, stale_listeners, i as int);
            }
            self.drop_listener(element, listeners.to_remove[i].as_str());
            i += 1;
        }
        assert(stale_listeners.take(i as int) =~= stale_listeners);
        let ghost a3 = a2.drop_listeners(stale_listeners);

        let mut i: usize = 0;
        assert(new_listeners.take(0) =~= Seq::<ListenerView>::empty());
        while i < listeners.to_set.len()
            invariant
                i <= listeners.to_set.len(),
                new_listeners == listener_views(listeners.to_set@),
                self.wf(),
                element.wf(),
                self@.phase == Phase::Live,
                (Mount {
                    injector: self@,
                    element: element@,
                    failures: failure_views(failures@),
                }) == a3.put_listeners(new_listeners.take(i as int)),
            decreases listeners.to_set.len() - i,
        {
            proof {
                lemma_put_listeners_next(a3, new_listeners, i as int);
            }
            self.put_listener(element, &listeners.to_set[i], &mut failures);
            i += 1;
        }
        assert(new_listeners.take(i as int) =~= new_listeners);
        Report { failures }
    }

    /// Takes the word of the node in the browser that it refused the
    /// attribute `key`, whatever the element of the library made of it: the
    /// attribute is removed from the element and struck from the record,
    /// so that the record says "not installed" and is true. Every other
    /// attribute and every listener stays as it was.
    pub fn refused_attribute(&mut self, element: &mut Element, key: &str)
        requires
            old(self).wf(),
            old(element).wf(),
        ensures
            final(self).wf(),
            final(element).wf(),
            Mount::of(final(self)@, final(element)@) == Mount::of(
                old(self)@,
                old(element)@,
            ).drop_attribute(key@),
            !has_key(final(self)@.attrs, key@),
            final(element)@.attribute(key@) is None,
            forall|other: Seq<char>|
                other != key@ ==> (#[trigger] lookup(final(self)@.attrs, other)) == lookup(
                    old(self)@.attrs,
                    other,
                ),
            forall|other: Seq<char>|
                other != key@ ==> (#[trigger] final(element)@.attribute(other)) == old(
                    element,
                )@.attribute(other),
            final(self)@.listeners == old(self)@.listeners,
            final(self)@.handles == old(self)@.handles,
            final(element)@.listeners == old(element)@.listeners,
            Mount::of(old(self)@, old(element)@).mirrored() ==> Mount::of(
                final(self)@,
                final(element)@,
            ).mirrored(),
    {
        proof {
            let start = Mount::of(self@, element@);
            lemma_without(start.injector.attrs, key@);
            lemma_without(start.element.attrs, key@);
            if start.mirrored() {
                lemma_drop_attribute_mirrored(start, key@);
            }
            assert forall|other: Seq<char>| other != key@ implies (
            #[trigger] start.drop_attribute(key@).element.attribute(other))
                == start.element.attribute(other) by {
                assert(lookup(start.drop_attribute(key@).element.attrs, other) == lookup(
                    start.element.attrs,
                    other,
                ));
            }
        }
        self.drop_attribute(element, key);
    }

    /// Takes the word of the node in the browser that it refused to
    /// register the listener `key`: the registration under the handle on
    /// record for the key is removed from the element, and the key is
    /// struck from the record. Every other listener keeps its handle and
    /// its registration, and the attributes stay as they were.
    pub fn refused_listener(&mut self, element: &mut Element, key: &str)
        requires
            old(self).wf(),
            old(element).wf(),
        ensures
            final(self).wf(),
            final(element).wf(),
            Mount::of(final(self)@, final(element)@) == Mount::of(
                old(self)@,
                old(element)@,
            ).drop_listener(key@),
            !has_key(final(self)@.listeners, key@),
            has_key(old(self)@.listeners, key@) ==> !has_key(
                final(element)@.listeners,
                old(self)@.handle_of(key@),
            ),
            forall|other: Seq<char>|
                other != key@ ==> (#[trigger] lookup(final(self)@.listeners, other)) == lookup(
                    old(self)@.listeners,
                    other,
                ),
            forall|other: Seq<char>|
                other != key@ && has_key(old(self)@.listeners, other) ==> (
                #[trigger] final(self)@.handle_of(other)) == old(self)@.handle_of(other),
            forall|h: u64|
                !(has_key(old(self)@.listeners, key@) && h == old(self)@.handle_of(key@)) ==> (
                #[trigger] lookup(final(element)@.listeners, h)) == lookup(
                    old(element)@.listeners,
                    h,
                ),
            final(self)@.attrs == old(self)@.attrs,
            final(element)@.attrs == old(element)@.attrs,
            Mount::of(old(self)@, old(element)@).mirrored() ==> Mount::of(
                final(self)@,
                final(element)@,
            ).mirrored(),
    {
        proof {
            let start = Mount::of(self@, element@);
            lemma_drop_listener_wf(start, key@);
            lemma_without(start.injector.listeners, key@);
            if start.mirrored() {
                lemma_drop_listener_mirrored(start, key@);
            }
            if has_key(start.injector.listeners, key@) {
                lemma_without(start.element.listeners, start.injector.handle_of(key@));
            }
            assert forall|other: Seq<char>|
                other != key@ && has_key(start.injector.listeners, other) implies (
            #[trigger] start.drop_listener(key@).injector.handle_of(other))
                == start.injector.handle_of(other) by {
                lemma_handle_survives(start.injector, key@, other);
            }
        }
        self.drop_listener(element, key);
    }

    /// Unmounts the element: every attribute and every listener on record
    /// is removed from it, and the injector retires. Snapshots that arrive
    /// later are ignored.
    pub fn unmount(&mut self, element: &mut Element)
        requires
            old(self).wf(),
            old(element).wf(),
        ensures
            final(self).wf(),
            final(element).wf(),
            Mount::of(final(self)@, final(element)@) == Mount::of(
                old(self)@,
                old(element)@,
            ).unmount(),
            final(self)@.phase == Phase::Retired,
            final(self)@.attrs.len() == 0,
            final(self)@.listeners.len() == 0,
            final(self)@.handles.len() == 0,
            forall|k: Seq<char>|
                has_key(old(self)@.attrs, k) ==> (#[trigger] final(element)@.attribute(k)) is None,
            forall|h: u64|
                old(self)@.handles.contains(h) ==> !(#[trigger] has_key(
                    final(element)@.listeners,
                    h,
                )),
    {
        let ghost start = Mount::of(self@, element@);
        proof {
            unmount_clears_the_record(self@, element@);
        }
        let attrs = self.attrs.entries();
        let listeners = self.listeners.entries();
        let ghost attr_keys = keys(start.injector.attrs);
        let ghost listener_keys = keys(start.injector.listeners);

        let mut i: usize = 0;
        assert(attr_keys.take(0) =~= Seq::<Seq<char>>::empty());
        while i < attrs.len()
            invariant
                i <= attrs.len(),
                attribute_views(attrs@) == start.injector.attrs,
                attr_keys == keys(start.injector.attrs),
                self.wf(),
                element.wf(),
                Mount::of(self@, element@) == start.drop_attributes(attr_keys.take(i as int)),
            decreases attrs.len() - i,
        {
            proof {
                lemma_drop_attributes_next(start, attr_keys, i as int);
                assert(attr_keys[i as int] == attribute_views(attrs@)[i as int].key);
            }
            self.drop_attribute(element, attrs[i].key.as_str());
            i += 1;
        }
        assert(attr_keys.take(i as int) =~= attr_keys);
        let ghost a1 = start.drop_attributes(attr_keys);

        let mut i: usize = 0;
        assert(listener_keys.take(0) =~= Seq::<Seq<char>>::empty());
        while i < listeners.len()
            invariant
                i <= listeners.len(),
                listener_views(listeners@) == start.injector.listeners,
                listener_keys == keys(start.injector.listeners),
                self.wf(),
                element.wf(),
                Mount::of(self@, element@) == a1.drop_listeners(listener_keys.take(i as int)),
            decreases listeners.len() - i,
        {
            proof {
                lemma_drop_listeners_next(a1, listener_keys, i as int);
                assert(listener_keys[i as int] == listener_views(listeners@)[i as int].key);
            }
            self.drop_listener(element, listeners[i].key.as_str());
            i += 1;
        }
        assert(listener_keys.take(i as int) =~= listener_keys);
        self.phase = Phase::Retired;
        proof {
            lemma_unmount_empties(start);
        }
    }
}

} // verus!
