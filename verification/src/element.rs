//! An element as the injector sees it: a list of attributes, a list of
//! event-listener registrations, and the four DOM primitives that change
//! them. The element keeps a journal of every write it accepted, so that an
//! embedding can repeat the writes on a browser node and a test can count
//! them.
//!
//! What the element accepts is decided here, by rules of its own: a name
//! without the characters that no attribute name may hold, an event with a
//! name, a handle left to give out. A node in a browser decides for itself
//! and may refuse a write that the element accepted. The embedding then
//! tells the injector, which strikes the key from its record and from the
//! element.

use crate::keyed::{
    distinct_keys, has_key, lemma_filter_next, lemma_position, lemma_upsert, lemma_without, lookup,
    position, upsert, without, Keyed,
};
use crate::listener::HandlerId;
use crate::text::{is_valid_name, valid_name};
use vstd::prelude::*;

verus! {

/// An attribute as it stands on an element: a name and a string.
#[derive(PartialEq, Eq, Debug)]
pub struct Slot {
    pub name: String,
    pub value: String,
}

/// The mathematical content of a [`Slot`].
pub struct SlotView {
    pub name: Seq<char>,
    pub value: Seq<char>,
}

impl Keyed for SlotView {
    type Key = Seq<char>;

    open spec fn key(&self) -> Seq<char> {
        self.name
    }
}

impl View for Slot {
    type V = SlotView;

    open spec fn view(&self) -> SlotView {
        SlotView { name: self.name@, value: self.value@ }
    }
}

impl Clone for Slot {
    fn clone(&self) -> (copy: Self)
        ensures
            copy == *self,
    {
        Slot { name: self.name.clone(), value: self.value.clone() }
    }
}

/// A live event-listener registration on an element.
#[derive(PartialEq, Eq, Debug)]
pub struct Registration {
    /// The handle by which the registration is removed.
    pub handle: u64,
    /// The name of the DOM event.
    pub event: String,
    /// The handler that runs when the event arrives.
    pub handler: HandlerId,
}

/// The mathematical content of a [`Registration`].
pub struct RegistrationView {
    pub handle: u64,
    pub event: Seq<char>,
    pub handler: HandlerId,
}

impl Keyed for RegistrationView {
    type Key = u64;

    open spec fn key(&self) -> u64 {
        self.handle
    }
}

impl View for Registration {
    type V = RegistrationView;

    open spec fn view(&self) -> RegistrationView {
        RegistrationView { handle: self.handle, event: self.event@, handler: self.handler }
    }
}

impl Clone for Registration {
    fn clone(&self) -> (copy: Self)
        ensures
            copy == *self,
    {
        Registration { handle: self.handle, event: self.event.clone(), handler: self.handler }
    }
}

/// A write that an element accepted.
#[derive(PartialEq, Eq, Debug)]
pub enum DomOp {
    SetAttribute { name: String, value: String },
    RemoveAttribute { name: String },
    AddEventListener { event: String, handler: HandlerId, handle: u64 },
    RemoveEventListener { handle: u64 },
}

/// The mathematical content of a [`DomOp`].
pub enum DomOpView {
    SetAttribute { name: Seq<char>, value: Seq<char> },
    RemoveAttribute { name: Seq<char> },
    AddEventListener { event: Seq<char>, handler: HandlerId, handle: u64 },
    RemoveEventListener { handle: u64 },
}

impl View for DomOp {
    type V = DomOpView;

    open spec fn view(&self) -> DomOpView {
        match self {
            DomOp::SetAttribute { name, value } => DomOpView::SetAttribute {
                name: name@,
                value: value@,
            },
            DomOp::RemoveAttribute { name } => DomOpView::RemoveAttribute { name: name@ },
            DomOp::AddEventListener { event, handler, handle } => DomOpView::AddEventListener {
                event: event@,
                handler: *handler,
                handle: *handle,
            },
            DomOp::RemoveEventListener { handle } => DomOpView::RemoveEventListener {
                handle: *handle,
            },
        }
    }
}

impl Clone for DomOp {
    fn clone(&self) -> (copy: Self)
        ensures
            copy == *self,
    {
        match self {
            DomOp::SetAttribute { name, value } => DomOp::SetAttribute {
                name: name.clone(),
                value: value.clone(),
            },
            DomOp::RemoveAttribute { name } => DomOp::RemoveAttribute { name: name.clone() },
            DomOp::AddEventListener { event, handler, handle } => DomOp::AddEventListener {
                event: event.clone(),
                handler: *handler,
                handle: *handle,
            },
            DomOp::RemoveEventListener { handle } => DomOp::RemoveEventListener {
                handle: *handle,
            },
        }
    }
}

/// The views of a list of slots, in order.
pub open spec fn slot_views(list: Seq<Slot>) -> Seq<SlotView> {
    list.map_values(|s: Slot| s@)
}

/// The views of a list of registrations, in order.
pub open spec fn registration_views(list: Seq<Registration>) -> Seq<RegistrationView> {
    list.map_values(|r: Registration| r@)
}

/// The views of a list of writes, in order.
pub open spec fn op_views(list: Seq<DomOp>) -> Seq<DomOpView> {
    list.map_values(|op: DomOp| op@)
}

/// The test that a registration listens to `event`.
pub open spec fn listens_to(event: Seq<char>) -> spec_fn(RegistrationView) -> bool {
    |r: RegistrationView| r.event == event
}

/// The handlers of a list of registrations, in order.
pub open spec fn handlers_of(list: Seq<RegistrationView>) -> Seq<HandlerId> {
    list.map_values(|r: RegistrationView| r.handler)
}

/// The state of an element, and what each DOM primitive does to it.
pub struct ElementView {
    /// The attributes, in the order in which their names were first set.
    pub attrs: Seq<SlotView>,
    /// The live registrations, in the order in which they were made.
    pub listeners: Seq<RegistrationView>,
    /// The handle that the next registration gets.
    pub next_handle: u64,
    /// The writes accepted since the journal was last taken, oldest first.
    pub journal: Seq<DomOpView>,
}

impl ElementView {
    /// An element on which nothing was ever written.
    pub open spec fn fresh() -> ElementView {
        ElementView {
            attrs: Seq::empty(),
            listeners: Seq::empty(),
            next_handle: 0,
            journal: Seq::empty(),
        }
    }

    /// The invariant of an element: no attribute name and no handle occurs
    /// twice, and every live handle was given out before.
    pub open spec fn wf(self) -> bool {
        &&& distinct_keys(self.attrs)
        &&& distinct_keys(self.listeners)
        &&& forall|i: int|
            0 <= i < self.listeners.len() ==> (#[trigger] self.listeners[i]).handle
                < self.next_handle
    }

    /// The string that stands under `name`, if the attribute is present.
    pub open spec fn attribute(self, name: Seq<char>) -> Option<Seq<char>> {
        match lookup(self.attrs, name) {
            Some(slot) => Some(slot.value),
            None => None,
        }
    }

    /// `setAttribute`: a name that the DOM layer accepts gets the value, in
    /// place where it was present and at the end where it was not; any
    /// other name is refused and nothing changes.
    pub open spec fn set_attribute(self, name: Seq<char>, value: Seq<char>) -> ElementView {
        if valid_name(name) {
            ElementView {
                attrs: upsert(self.attrs, SlotView { name, value }),
                journal: self.journal.push(DomOpView::SetAttribute { name, value }),
                ..self
            }
        } else {
            self
        }
    }

    /// `removeAttribute`: the name is absent afterwards.
    pub open spec fn remove_attribute(self, name: Seq<char>) -> ElementView {
        ElementView {
            attrs: without(self.attrs, name),
            journal: self.journal.push(DomOpView::RemoveAttribute { name }),
            ..self
        }
    }

    /// Whether a registration for `event` would be accepted: the event has
    /// a name and a handle is left to give out.
    pub open spec fn can_register(self, event: Seq<char>) -> bool {
        event.len() > 0 && self.next_handle < u64::MAX
    }

    /// `addEventListener`: where it is accepted, the registration is made
    /// after all others, under the next handle; else nothing changes.
    pub open spec fn add_event_listener(self, event: Seq<char>, handler: HandlerId) -> ElementView {
        if self.can_register(event) {
            ElementView {
                listeners: self.listeners.push(
                    RegistrationView { handle: self.next_handle, event, handler },
                ),
                next_handle: (self.next_handle + 1) as u64,
                journal: self.journal.push(
                    DomOpView::AddEventListener { event, handler, handle: self.next_handle },
                ),
                ..self
            }
        } else {
            self
        }
    }

    /// `removeEventListener`: no registration has the handle afterwards.
    pub open spec fn remove_event_listener(self, handle: u64) -> ElementView {
        ElementView {
            listeners: without(self.listeners, handle),
            journal: self.journal.push(DomOpView::RemoveEventListener { handle }),
            ..self
        }
    }

    /// The handlers that run when `event` arrives: those registered for it,
    /// in the order of registration.
    pub open spec fn dispatch(self, event: Seq<char>) -> Seq<HandlerId> {
        handlers_of(self.listeners.filter(listens_to(event)))
    }
}

/// `setAttribute` keeps the invariant of the element.
pub proof fn lemma_set_attribute_wf(e: ElementView, name: Seq<char>, value: Seq<char>)
    requires
        e.wf(),
    ensures
        e.set_attribute(name, value).wf(),
{
    lemma_upsert(e.attrs, SlotView { name, value });
}

/// `removeAttribute` keeps the invariant of the element.
pub proof fn lemma_remove_attribute_wf(e: ElementView, name: Seq<char>)
    requires
        e.wf(),
    ensures
        e.remove_attribute(name).wf(),
{
    lemma_without(e.attrs, name);
}

/// `addEventListener` keeps the invariant of the element.
pub proof fn lemma_add_event_listener_wf(e: ElementView, event: Seq<char>, handler: HandlerId)
    requires
        e.wf(),
    ensures
        e.add_event_listener(event, handler).wf(),
{
    if e.can_register(event) {
        let added = e.add_event_listener(event, handler);
        assert forall|i: int, j: int| 0 <= i < j < added.listeners.len() implies
            added.listeners[i].key() != added.listeners[j].key() by {
            assert(added.listeners[i] == e.listeners[i]);
            if j < e.listeners.len() {
                assert(added.listeners[j] == e.listeners[j]);
                assert(e.listeners[i].key() != e.listeners[j].key());
            }
        }
        assert forall|i: int| 0 <= i < added.listeners.len() implies (
        #[trigger] added.listeners[i]).handle < added.next_handle by {
            if i < e.listeners.len() {
                assert(added.listeners[i] == e.listeners[i]);
            }
        }
    }
}

/// `removeEventListener` keeps the invariant of the element.
pub proof fn lemma_remove_event_listener_wf(e: ElementView, handle: u64)
    requires
        e.wf(),
    ensures
        e.remove_event_listener(handle).wf(),
{
    lemma_without(e.listeners, handle);
}

/// An in-memory element.
pub struct Element {
    attrs: Vec<Slot>,
    listeners: Vec<Registration>,
    next_handle: u64,
    journal: Vec<DomOp>,
}

impl View for Element {
    type V = ElementView;

    closed spec fn view(&self) -> ElementView {
        ElementView {
            attrs: slot_views(self.attrs@),
            listeners: registration_views(self.listeners@),
            next_handle: self.next_handle,
            journal: op_views(self.journal@),
        }
    }
}

impl Element {
    /// The invariant of the element.
    pub open spec fn wf(&self) -> bool {
        self@.wf()
    }

    /// An element on which nothing was ever written.
    pub fn new() -> (element: Element)
        ensures
            element.wf(),
            element@ == ElementView::fresh(),
    {
        let element = Element {
            attrs: Vec::new(),
            listeners: Vec::new(),
            next_handle: 0,
            journal: Vec::new(),
        };
        assert(element@.attrs =~= Seq::<SlotView>::empty());
        assert(element@.listeners =~= Seq::<RegistrationView>::empty());
        assert(element@.journal =~= Seq::<DomOpView>::empty());
        element
    }

    fn find_slot(&self, name: &String) -> (found: Option<usize>)
        requires
            self.wf(),
        ensures
            match found {
                Some(i) => i < self.attrs.len() && has_key(self@.attrs, name@) && position(
                    self@.attrs,
                    name@,
                ) == i,
                None => !has_key(self@.attrs, name@),
            },
    {
        let mut i: usize = 0;
        while i < self.attrs.len()
            invariant
                self.wf(),
                i <= self.attrs.len(),
                forall|j: int| 0 <= j < i ==> (#[trigger] self@.attrs[j]).name != name@,
            decreases self.attrs.len() - i,
        {
            if self.attrs[i].name == *name {
                proof {
                    assert(self@.attrs[i as int].name == name@);
                    lemma_position(self@.attrs, i as int);
                }
                return Some(i);
            }
            i += 1;
        }
        None
    }

    fn find_registration(&self, handle: u64) -> (found: Option<usize>)
        requires
            self.wf(),
        ensures
            match found {
                Some(i) => i < self.listeners.len() && has_key(self@.listeners, handle)
                    && position(self@.listeners, handle) == i,
                None => !has_key(self@.listeners, handle),
            },
    {
        let mut i: usize = 0;
        while i < self.listeners.len()
            invariant
                self.wf(),
                i <= self.listeners.len(),
                forall|j: int| 0 <= j < i ==> (#[trigger] self@.listeners[j]).handle != handle,
            decreases self.listeners.len() - i,
        {
            if self.listeners[i].handle == handle {
                proof {
                    assert(self@.listeners[i as int].handle == handle);
                    lemma_position(self@.listeners, i as int);
                }
                return Some(i);
            }
            i += 1;
        }
        None
    }

    /// `setAttribute`. Returns whether the element accepted the name.
    pub fn set_attribute(&mut self, name: &str, value: &str) -> (accepted: bool)
        requires
            old(self).wf(),
        ensures
            final(self).wf(),
            accepted == valid_name(name@),
            final(self)@ == old(self)@.set_attribute(name@, value@),
    {
        if !is_valid_name(name) {
            return false;
        }
        proof {
            lemma_set_attribute_wf(self@, name@, value@);
        }
        let slot = Slot { name: String::from_str(name), value: String::from_str(value) };
        match self.find_slot(&slot.name) {
            Some(i) => {
                self.attrs[i] = slot;
            },
            None => {
                self.attrs.push(slot);
            },
        }
        self.journal.push(
            DomOp::SetAttribute { name: String::from_str(name), value: String::from_str(value) },
        );
        assert(self@.attrs =~= old(self)@.set_attribute(name@, value@).attrs);
        assert(self@.journal =~= old(self)@.set_attribute(name@, value@).journal);
        assert(self@.listeners =~= old(self)@.listeners);
        true
    }

    /// `removeAttribute`.
    pub fn remove_attribute(&mut self, name: &str)
        requires
            old(self).wf(),
        ensures
            final(self).wf(),
            final(self)@ == old(self)@.remove_attribute(name@),
    {
        proof {
            lemma_remove_attribute_wf(self@, name@);
        }
        let name = String::from_str(name);
        match self.find_slot(&name) {
            Some(i) => {
                self.attrs.remove(i);
            },
            None => {},
        }
        self.journal.push(DomOp::RemoveAttribute { name });
        assert(self@.attrs =~= old(self)@.remove_attribute(name@).attrs);
        assert(self@.journal =~= old(self)@.remove_attribute(name@).journal);
        assert(self@.listeners =~= old(self)@.listeners);
    }

    /// `addEventListener`. Returns the handle of the registration, or
    /// nothing where the element refused it.
    pub fn add_event_listener(&mut self, event: &str, handler: HandlerId) -> (handle: Option<u64>)
        requires
            old(self).wf(),
        ensures
            final(self).wf(),
            handle == if old(self)@.can_register(event@) {
                Some(old(self)@.next_handle)
            } else {
                None
            },
            final(self)@ == old(self)@.add_event_listener(event@, handler),
    {
        if event.is_empty() || self.next_handle == u64::MAX {
            return None;
        }
        proof {
            lemma_add_event_listener_wf(self@, event@, handler);
        }
        let handle: u64 = self.next_handle;
        self.listeners.push(Registration { handle, event: String::from_str(event), handler });
        self.next_handle = handle + 1;
        self.journal.push(
            DomOp::AddEventListener { event: String::from_str(event), handler, handle },
        );
        assert(self@.listeners =~= old(self)@.add_event_listener(event@, handler).listeners);
        assert(self@.journal =~= old(self)@.add_event_listener(event@, handler).journal);
        assert(self@.attrs =~= old(self)@.attrs);
        Some(handle)
    }

    /// `removeEventListener`.
    pub fn remove_event_listener(&mut self, handle: u64)
        requires
            old(self).wf(),
        ensures
            final(self).wf(),
            final(self)@ == old(self)@.remove_event_listener(handle),
    {
        proof {
            lemma_remove_event_listener_wf(self@, handle);
        }
        match self.find_registration(handle) {
            Some(i) => {
                self.listeners.remove(i);
            },
            None => {},
        }
        self.journal.push(DomOp::RemoveEventListener { handle });
        assert(self@.listeners =~= old(self)@.remove_event_listener(handle).listeners);
        assert(self@.journal =~= old(self)@.remove_event_listener(handle).journal);
        assert(self@.attrs =~= old(self)@.attrs);
    }

    /// The string that stands under `name`, if the attribute is present.
    pub fn attribute(&self, name: &str) -> (value: Option<String>)
        requires
            self.wf(),
        ensures
            match value {
                Some(v) => self@.attribute(name@) == Some(v@),
                None => self@.attribute(name@) == None::<Seq<char>>,
            },
    {
        let name = String::from_str(name);
        match self.find_slot(&name) {
            Some(i) => Some(self.attrs[i].value.clone()),
            None => None,
        }
    }

    /// The attributes of the element, in order.
    pub fn attributes(&self) -> (list: Vec<Slot>)
        ensures
            slot_views(list@) == self@.attrs,
    {
        let list = self.attrs.clone();
        assert(slot_views(list@) =~= self@.attrs);
        list
    }

    /// The live registrations of the element, in order.
    pub fn registrations(&self) -> (list: Vec<Registration>)
        ensures
            registration_views(list@) == self@.listeners,
    {
        let list = self.listeners.clone();
        assert(registration_views(list@) =~= self@.listeners);
        list
    }

    /// Whether a registration with `handle` is live.
    pub fn is_registered(&self, handle: u64) -> (live: bool)
        requires
            self.wf(),
        ensures
            live == has_key(self@.listeners, handle),
    {
        self.find_registration(handle).is_some()
    }

    /// The handlers that run when `event` arrives, in the order in which
    /// they were registered.
    pub fn dispatch(&self, event: &str) -> (handlers: Vec<HandlerId>)
        ensures
            handlers@ == self@.dispatch(event@),
    {
        let event = String::from_str(event);
        let mut handlers: Vec<HandlerId> = Vec::new();
        let mut i: usize = 0;
        assert(self@.listeners.take(0) =~= Seq::<RegistrationView>::empty());
        proof {
            reveal(Seq::filter);
        }
        assert(handlers@ =~= handlers_of(self@.listeners.take(0).filter(listens_to(event@))));
        while i < self.listeners.len()
            invariant
                i <= self.listeners.len(),
                handlers@ == handlers_of(
                    self@.listeners.take(i as int).filter(listens_to(event@)),
                ),
            decreases self.listeners.len() - i,
        {
            proof {
                lemma_filter_next(self@.listeners, listens_to(event@), i as int);
            }
            let ghost before = self@.listeners.take(i as int).filter(listens_to(event@));
            if self.listeners[i].event == event {
                handlers.push(self.listeners[i].handler);
                assert(handlers_of(before.push(self@.listeners[i as int])) =~= handlers_of(
                    before,
                ).push(self@.listeners[i as int].handler));
            }
            i += 1;
        }
        assert(self@.listeners.take(i as int) =~= self@.listeners);
        handlers
    }

    /// The writes accepted since the journal was last taken, oldest
    /// first.
    pub fn journal(&self) -> (list: Vec<DomOp>)
        ensures
            op_views(list@) == self@.journal,
    {
        let list = self.journal.clone();
        assert(op_views(list@) =~= self@.journal);
        list
    }

    /// Hands out the journal and starts a new one. Whoever repeats the
    /// writes elsewhere takes them this way, each write once.
    pub fn take_journal(&mut self) -> (list: Vec<DomOp>)
        ensures
            op_views(list@) == old(self)@.journal,
            final(self)@ == (ElementView { journal: Seq::empty(), ..old(self)@ }),
    {
        let mut list: Vec<DomOp> = Vec::new();
        std::mem::swap(&mut list, &mut self.journal);
        assert(self@.journal =~= Seq::<DomOpView>::empty());
        list
    }

    /// The number of writes accepted since the journal was last taken.
    pub fn writes(&self) -> (n: usize)
        ensures
            n == self@.journal.len(),
    {
        self.journal.len()
    }
}

} // verus!
