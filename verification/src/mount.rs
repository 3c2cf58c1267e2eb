//! The mathematical model of an injector and its element: the state that a
//! reconciliation steps through, and the steps.

use crate::attribute::AttributeView;
use crate::attribute_bag::changed_attributes;
use crate::bundle::SnapshotView;
use crate::element::{ElementView, RegistrationView, SlotView};
use crate::keyed::{distinct_keys, has_key, keys, lookup, position, stale_keys, upsert, without};
use crate::listener::{changed_listeners, HandlerId, ListenerView};
use crate::text::valid_name;
use vstd::prelude::*;

verus! {

/// Where a mounted element stands in its life.
#[derive(Clone, Copy, PartialEq, Eq, Debug, Structural)]
pub enum Phase {
    /// Mounted; nothing was installed yet.
    Fresh,
    /// A bundle was installed.
    Live,
    /// Unmounted; bundles that still arrive are ignored.
    Retired,
}

/// Why an entry of a bundle did not reach the element.
#[derive(Clone, Copy, PartialEq, Eq, Debug, Structural)]
pub enum FailureKind {
    /// The value of the attribute has no string form.
    Serialization,
    /// The DOM layer refused the name of the attribute.
    InvalidName,
    /// The DOM layer refused to register the listener.
    Registration,
}

/// A failure on one key, as a reconciliation reports it.
pub struct FailureView {
    pub key: Seq<char>,
    pub kind: FailureKind,
}

/// The state of an injector: its phase and what it has installed.
pub struct InjectorView {
    pub phase: Phase,
    /// The attributes that stand on the element by the injector's doing.
    pub attrs: Seq<AttributeView>,
    /// The listeners that are registered by the injector's doing.
    pub listeners: Seq<ListenerView>,
    /// The handle of each of these registrations, index by index.
    pub handles: Seq<u64>,
    /// The generation of the snapshot installed last.
    pub last_generation: u64,
}

impl InjectorView {
    /// The injector of an element that was just mounted.
    pub open spec fn fresh() -> InjectorView {
        InjectorView {
            phase: Phase::Fresh,
            attrs: Seq::empty(),
            listeners: Seq::empty(),
            handles: Seq::empty(),
            last_generation: 0,
        }
    }

    /// The handle under which the listener `key` is registered; meaningful
    /// where a listener is installed under `key`.
    pub open spec fn handle_of(self, key: Seq<char>) -> u64 {
        self.handles[position(self.listeners, key)]
    }

    /// Whether `i` is the first index at which the record holds the handle
    /// `handle`.
    pub open spec fn first_with_handle(self, handle: u64, i: int) -> bool {
        &&& 0 <= i < self.handles.len()
        &&& self.handles[i] == handle
        &&& forall|j: int| 0 <= j < i ==> self.handles[j] != handle
    }

    /// The invariant of an injector: no key is installed twice, every
    /// installed listener has its handle, what is installed is what an
    /// element accepts, and only a live injector has anything installed.
    pub open spec fn wf(self) -> bool {
        &&& distinct_keys(self.attrs)
        &&& distinct_keys(self.listeners)
        &&& self.handles.len() == self.listeners.len()
        &&& forall|i: int| 0 <= i < self.attrs.len() ==> (#[trigger] self.attrs[i]).writable()
        &&& forall|i: int|
            0 <= i < self.listeners.len() ==> (#[trigger] self.listeners[i]).event.len() > 0
        &&& self.phase != Phase::Live ==> self.attrs.len() == 0 && self.listeners.len() == 0
    }
}

/// The kind of failure of an attribute that cannot be written.
pub open spec fn write_failure(a: AttributeView) -> FailureKind {
    if a.value.payload() is Err {
        FailureKind::Serialization
    } else {
        FailureKind::InvalidName
    }
}

/// An injector together with its element and the failures reported so far:
/// the state that a reconciliation steps through.
pub struct Mount {
    pub injector: InjectorView,
    pub element: ElementView,
    pub failures: Seq<FailureView>,
}

impl Mount {
    /// An injector and its element before a reconciliation: nothing has
    /// failed yet.
    pub open spec fn of(injector: InjectorView, element: ElementView) -> Mount {
        Mount { injector, element, failures: Seq::empty() }
    }

    /// The invariants of the injector and of the element.
    pub open spec fn wf(self) -> bool {
        self.injector.wf() && self.element.wf()
    }

    /// Removes the attribute `key` from the element and from the record of
    /// what is installed.
    pub open spec fn drop_attribute(self, key: Seq<char>) -> Mount {
        Mount {
            injector: InjectorView { attrs: without(self.injector.attrs, key), ..self.injector },
            element: self.element.remove_attribute(key),
            ..self
        }
    }

    /// Removes the attributes `keys`, one after the other.
    pub open spec fn drop_attributes(self, keys: Seq<Seq<char>>) -> Mount
        decreases keys.len(),
    {
        if keys.len() == 0 {
            self
        } else {
            self.drop_attributes(keys.drop_last()).drop_attribute(keys.last())
        }
    }

    /// Writes one attribute. Where it can be written, the element gets its
    /// string and the record gets the attribute. Where it cannot, the
    /// failure is reported, and what the key had installed before is
    /// removed, so that the record says "not installed" and is true.
    pub open spec fn put_attribute(self, a: AttributeView) -> Mount {
        if a.writable() {
            Mount {
                injector: InjectorView { attrs: upsert(self.injector.attrs, a), ..self.injector },
                element: self.element.set_attribute(a.key, a.text()),
                ..self
            }
        } else {
            let cleared = if has_key(self.injector.attrs, a.key) {
                self.drop_attribute(a.key)
            } else {
                self
            };
            Mount {
                failures: self.failures.push(FailureView { key: a.key, kind: write_failure(a) }),
                ..cleared
            }
        }
    }

    /// Writes the attributes `list`, one after the other.
    pub open spec fn put_attributes(self, list: Seq<AttributeView>) -> Mount
        decreases list.len(),
    {
        if list.len() == 0 {
            self
        } else {
            self.put_attributes(list.drop_last()).put_attribute(list.last())
        }
    }

    /// De-registers the listener installed under `key`, if there is one, by
    /// the handle on record, and strikes it from the record.
    pub open spec fn drop_listener(self, key: Seq<char>) -> Mount {
        if has_key(self.injector.listeners, key) {
            let p = position(self.injector.listeners, key);
            Mount {
                injector: InjectorView {
                    listeners: self.injector.listeners.remove(p),
                    handles: self.injector.handles.remove(p),
                    ..self.injector
                },
                element: self.element.remove_event_listener(self.injector.handles[p]),
                ..self
            }
        } else {
            self
        }
    }

    /// De-registers the listeners installed under `keys`, one after the
    /// other.
    pub open spec fn drop_listeners(self, keys: Seq<Seq<char>>) -> Mount
        decreases keys.len(),
    {
        if keys.len() == 0 {
            self
        } else {
            self.drop_listeners(keys.drop_last()).drop_listener(keys.last())
        }
    }

    /// Registers one listener: first what its key had registered before is
    /// de-registered, then the listener is registered and recorded with its
    /// handle. Where the element refuses the registration, the failure is
    /// reported and the key has nothing registered.
    pub open spec fn put_listener(self, l: ListenerView) -> Mount {
        let cleared = self.drop_listener(l.key);
        if cleared.element.can_register(l.event) {
            Mount {
                injector: InjectorView {
                    listeners: cleared.injector.listeners.push(l),
                    handles: cleared.injector.handles.push(cleared.element.next_handle),
                    ..cleared.injector
                },
                element: cleared.element.add_event_listener(l.event, l.handler),
                ..cleared
            }
        } else {
            Mount {
                failures: cleared.failures.push(
                    FailureView { key: l.key, kind: FailureKind::Registration },
                ),
                ..cleared
            }
        }
    }

    /// Registers the listeners `list`, one after the other.
    pub open spec fn put_listeners(self, list: Seq<ListenerView>) -> Mount
        decreases list.len(),
    {
        if list.len() == 0 {
            self
        } else {
            self.put_listeners(list.drop_last()).put_listener(list.last())
        }
    }

    /// The injector goes live at the generation `generation`.
    pub open spec fn went_live(self, generation: u64) -> Mount {
        Mount {
            injector: InjectorView {
                phase: Phase::Live,
                last_generation: generation,
                ..self.injector
            },
            ..self
        }
    }

    /// Installs a snapshot after what is installed: stale attributes are
    /// removed, then new and changed ones written; stale listeners are
    /// de-registered, then new and replaced ones registered.
    pub open spec fn sync(self, snapshot: SnapshotView) -> Mount {
        let installed = self.injector;
        self.went_live(snapshot.generation).drop_attributes(
            stale_keys(snapshot.attributes, installed.attrs),
        ).put_attributes(changed_attributes(snapshot.attributes, installed.attrs)).drop_listeners(
            stale_keys(snapshot.listeners, installed.listeners),
        ).put_listeners(changed_listeners(snapshot.listeners, installed.listeners))
    }

    /// Whether the arrival of `snapshot` changes nothing: the injector is
    /// retired, or it is live and installed that generation last.
    pub open spec fn ignores(self, snapshot: SnapshotView) -> bool {
        self.injector.phase == Phase::Retired || (self.injector.phase == Phase::Live
            && self.injector.last_generation == snapshot.generation)
    }

    /// The arrival of a snapshot.
    pub open spec fn reconcile(self, snapshot: SnapshotView) -> Mount {
        if self.ignores(snapshot) {
            self
        } else {
            self.sync(snapshot)
        }
    }

    /// The unmounting of the element: everything on record is removed from
    /// the element, and the injector retires.
    pub open spec fn unmount(self) -> Mount {
        let cleared = self.drop_attributes(keys(self.injector.attrs)).drop_listeners(
            keys(self.injector.listeners),
        );
        Mount { injector: InjectorView { phase: Phase::Retired, ..cleared.injector }, ..cleared }
    }
}

/// What happens to a mounted element between two turns of the event loop.
pub enum Turn {
    /// A render hands the injector a snapshot.
    Arrival(SnapshotView),
    /// The node in the browser refused the attribute under the given key.
    RefusedAttribute(Seq<char>),
    /// The node in the browser refused the listener under the given key.
    RefusedListener(Seq<char>),
    /// The element is unmounted.
    Unmount,
}

impl Mount {
    /// One turn: the injector reconciles the snapshot that arrives, takes
    /// the word of the node on a key that it refused, or unmounts. The
    /// failures are those of this turn.
    pub open spec fn turn(self, t: Turn) -> Mount {
        let start = Mount::of(self.injector, self.element);
        match t {
            Turn::Arrival(snapshot) => start.reconcile(snapshot),
            Turn::RefusedAttribute(key) => start.drop_attribute(key),
            Turn::RefusedListener(key) => start.drop_listener(key),
            Turn::Unmount => start.unmount(),
        }
    }

    /// The turns `turns`, one after the other.
    pub open spec fn run(self, turns: Seq<Turn>) -> Mount
        decreases turns.len(),
    {
        if turns.len() == 0 {
            self
        } else {
            self.run(turns.drop_last()).turn(turns.last())
        }
    }

    /// An element that was just mounted, with its injector.
    pub open spec fn mounted() -> Mount {
        Mount::of(InjectorView::fresh(), ElementView::fresh())
    }
}

/// Whether every snapshot that arrives in `turns` keeps its invariant.
pub open spec fn turns_wf(turns: Seq<Turn>) -> bool {
    forall|i: int|
        0 <= i < turns.len() ==> ((#[trigger] turns[i]) matches Turn::Arrival(s) ==> s.wf())
}

/// The attribute that stands on an element for an installed attribute.
pub open spec fn slot_of(a: AttributeView) -> SlotView {
    SlotView { name: a.key, value: a.text() }
}

/// The attributes that stand on an element for a list of installed
/// attributes, in order.
pub open spec fn slots_of(list: Seq<AttributeView>) -> Seq<SlotView> {
    list.map_values(|a: AttributeView| slot_of(a))
}

/// The registrations that stand on an element for a list of installed
/// listeners and their handles, in order.
pub open spec fn registrations_of(list: Seq<ListenerView>, handles: Seq<u64>) -> Seq<
    RegistrationView,
> {
    Seq::new(
        list.len(),
        |i: int|
            RegistrationView {
                handle: handles[i],
                event: list[i].event,
                handler: list[i].handler,
            },
    )
}

impl Mount {
    /// The element holds what the injector has on record and nothing else:
    /// its attributes are those installed, each with the string of its
    /// value, and its registrations are those of the installed listeners,
    /// one for each, under the handles on record.
    pub open spec fn mirrored(self) -> bool {
        &&& self.wf()
        &&& self.element.attrs == slots_of(self.injector.attrs)
        &&& self.element.listeners == registrations_of(
            self.injector.listeners,
            self.injector.handles,
        )
    }
}

/// What a snapshot asks to have installed under the attribute key `k`:
/// the payload of the attribute it holds under the key, where that
/// attribute can be written.
pub open spec fn wanted_payload(snapshot: SnapshotView, k: Seq<char>) -> Option<
    Option<Seq<char>>,
> {
    match lookup(snapshot.attributes, k) {
        Some(a) => match a.value.payload() {
            Ok(payload) => if valid_name(a.key) {
                Some(payload)
            } else {
                None
            },
            Err(_) => None,
        },
        None => None,
    }
}

/// The string that a snapshot asks to have on the element under the
/// attribute key `k`: that of the value it holds under the key, where the
/// attribute can be written.
pub open spec fn wanted_text(snapshot: SnapshotView, k: Seq<char>) -> Option<Seq<char>> {
    match lookup(snapshot.attributes, k) {
        Some(a) => if a.writable() {
            Some(a.text())
        } else {
            None
        },
        None => None,
    }
}

/// What a snapshot asks to have registered under the listener key `k`: the
/// listener it holds under the key, where its event has a name.
pub open spec fn wanted_listener(snapshot: SnapshotView, k: Seq<char>) -> Option<ListenerView> {
    match lookup(snapshot.listeners, k) {
        Some(l) => if l.event.len() > 0 {
            Some(l)
        } else {
            None
        },
        None => None,
    }
}

/// The payload on record under the attribute key `k`.
pub open spec fn recorded_payload(injector: InjectorView, k: Seq<char>) -> Option<
    Option<Seq<char>>,
> {
    match lookup(injector.attrs, k) {
        Some(a) => match a.value.payload() {
            Ok(payload) => Some(payload),
            Err(_) => None,
        },
        None => None,
    }
}

/// The test that an attribute can be written.
pub open spec fn is_writable() -> spec_fn(AttributeView) -> bool {
    |a: AttributeView| a.writable()
}

/// The test that an attribute cannot be written.
pub open spec fn is_unwritable() -> spec_fn(AttributeView) -> bool {
    |a: AttributeView| !a.writable()
}

/// The test that the event of a listener has a name.
pub open spec fn has_event() -> spec_fn(ListenerView) -> bool {
    |l: ListenerView| l.event.len() > 0
}

/// The test that the event of a listener has no name.
pub open spec fn lacks_event() -> spec_fn(ListenerView) -> bool {
    |l: ListenerView| l.event.len() == 0
}

/// The test that a listener is for `event`.
pub open spec fn is_for(event: Seq<char>) -> spec_fn(ListenerView) -> bool {
    |l: ListenerView| l.event == event
}

/// The failures that writing the attributes `list` reports: one for each
/// attribute that cannot be written, in order.
pub open spec fn attribute_failures(list: Seq<AttributeView>) -> Seq<FailureView> {
    list.filter(is_unwritable()).map_values(
        |a: AttributeView| FailureView { key: a.key, kind: write_failure(a) },
    )
}

/// The failures that registering the listeners `list` reports on an
/// element with handles left: one for each listener whose event has no
/// name, in order.
pub open spec fn listener_failures(list: Seq<ListenerView>) -> Seq<FailureView> {
    list.filter(lacks_event()).map_values(
        |l: ListenerView| FailureView { key: l.key, kind: FailureKind::Registration },
    )
}

/// The handlers of the listeners of `list` that are for `event`, in order.
pub open spec fn listener_handlers(list: Seq<ListenerView>, event: Seq<char>) -> Seq<HandlerId> {
    list.filter(is_for(event)).map_values(|l: ListenerView| l.handler)
}

/// `n` handles in a row, from `first` on.
pub open spec fn handles_from(first: u64, n: nat) -> Seq<u64> {
    Seq::new(n, |i: int| (first + i) as u64)
}

/// Whether de-registering the listeners `list` removes the handle `h`:
/// the record holds the handle for a listener whose key is in the list.
pub open spec fn drops_handle(injector: InjectorView, list: Seq<Seq<char>>, h: u64) -> bool {
    exists|i: int|
        0 <= i < injector.listeners.len() && list.contains((#[trigger] injector.listeners[i]).key)
            && injector.handles[i] == h
}

} // verus!
