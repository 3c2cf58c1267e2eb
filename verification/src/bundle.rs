//! The props bundle: the container that a parent holds and mutates, and the
//! snapshots of it that the children see.

use crate::attribute::{Attribute, AttributeView};
use crate::attribute_bag::AttributeBag;
use crate::keyed::{distinct_keys, upsert, without};
use crate::listener::{HandlerId, ListenerBag, ListenerView};
use vstd::prelude::*;

verus! {

/// The mathematical content of a [`Snapshot`].
pub struct SnapshotView {
    pub attributes: Seq<AttributeView>,
    pub listeners: Seq<ListenerView>,
    /// The number of serials that the listener bag has given out.
    pub issued: u64,
    pub generation: u64,
}

impl SnapshotView {
    /// The invariant of a snapshot: no key occurs twice in either bag, every
    /// listener held was given a serial, and no more serials were given out
    /// than mutations were made.
    pub open spec fn wf(self) -> bool {
        &&& distinct_keys(self.attributes)
        &&& distinct_keys(self.listeners)
        &&& self.listeners.len() <= self.issued
        &&& self.issued <= self.generation
    }
}

/// An immutable view of a bundle, as a child sees it during one render.
pub struct Snapshot {
    attributes: AttributeBag,
    listeners: ListenerBag,
    generation: u64,
}

impl View for Snapshot {
    type V = SnapshotView;

    closed spec fn view(&self) -> SnapshotView {
        SnapshotView {
            attributes: self.attributes@,
            listeners: self.listeners@,
            issued: self.listeners.issued(),
            generation: self.generation,
        }
    }
}

impl Snapshot {
    /// The invariant of the snapshot.
    pub open spec fn wf(&self) -> bool {
        self@.wf()
    }

    /// The attributes of the snapshot.
    pub fn attributes(&self) -> (bag: &AttributeBag)
        requires
            self.wf(),
        ensures
            bag.wf(),
            bag@ == self@.attributes,
    {
        &self.attributes
    }

    /// The listeners of the snapshot.
    pub fn listeners(&self) -> (bag: &ListenerBag)
        requires
            self.wf(),
        ensures
            bag.wf(),
            bag@ == self@.listeners,
            bag.issued() == self@.issued,
    {
        &self.listeners
    }

    /// The generation of the bundle when the snapshot was taken.
    pub fn generation(&self) -> (g: u64)
        ensures
            g == self@.generation,
    {
        self.generation
    }

    /// Whether two snapshots hold the same attributes and listeners,
    /// whatever their generations.
    pub fn same_content(&self, other: &Snapshot) -> (equal: bool)
        ensures
            equal == (self@.attributes == other@.attributes && self@.listeners
                == other@.listeners),
    {
        self.attributes.same(&other.attributes) && self.listeners.same(&other.listeners)
    }
}

impl Clone for Snapshot {
    fn clone(&self) -> (copy: Self)
        ensures
            copy@ == self@,
    {
        Snapshot {
            attributes: self.attributes.clone(),
            listeners: self.listeners.clone(),
            generation: self.generation,
        }
    }
}

/// The message by which a mutated bundle reaches its parent: the parent's
/// update callback and the snapshot to hand to it.
pub struct Update {
    pub callback: HandlerId,
    pub snapshot: Snapshot,
}

/// The mathematical content of a [`PropsBundle`], and what each mutation
/// does to it.
pub struct BundleView {
    pub content: SnapshotView,
    pub update_callback: Option<HandlerId>,
    /// Whether the bundle was mutated since it was last marked clean.
    pub dirty: bool,
}

impl BundleView {
    /// A bundle with empty bags at generation zero.
    pub open spec fn empty(update_callback: Option<HandlerId>) -> BundleView {
        BundleView {
            content: SnapshotView {
                attributes: Seq::empty(),
                listeners: Seq::empty(),
                issued: 0,
                generation: 0,
            },
            update_callback,
            dirty: false,
        }
    }

    /// Whether the bundle can still be mutated: its generation counter has
    /// not reached the largest value.
    pub open spec fn mutable(self) -> bool {
        self.content.generation < u64::MAX
    }

    /// The bundle after a mutation that leaves the given bags: the
    /// generation is one more, and the bundle is dirty.
    pub open spec fn mutated(
        self,
        attributes: Seq<AttributeView>,
        listeners: Seq<ListenerView>,
        issued: u64,
    ) -> BundleView {
        BundleView {
            content: SnapshotView {
                attributes,
                listeners,
                issued,
                generation: (self.content.generation + 1) as u64,
            },
            dirty: true,
            ..self
        }
    }

    /// The bundle after `add_attribute`.
    pub open spec fn add_attribute(self, attribute: AttributeView) -> BundleView {
        if self.mutable() {
            self.mutated(
                upsert(self.content.attributes, attribute),
                self.content.listeners,
                self.content.issued,
            )
        } else {
            self
        }
    }

    /// The bundle after `remove_attribute`.
    pub open spec fn remove_attribute(self, key: Seq<char>) -> BundleView {
        if self.mutable() {
            self.mutated(
                without(self.content.attributes, key),
                self.content.listeners,
                self.content.issued,
            )
        } else {
            self
        }
    }

    /// The bundle after `add_listener`.
    pub open spec fn add_listener(
        self,
        key: Seq<char>,
        event: Seq<char>,
        handler: HandlerId,
    ) -> BundleView {
        if self.mutable() {
            let serial: u64 = (self.content.issued + 1) as u64;
            self.mutated(
                self.content.attributes,
                without(self.content.listeners, key).push(
                    ListenerView { key, event, handler, serial },
                ),
                serial,
            )
        } else {
            self
        }
    }

    /// The bundle after `remove_listener`.
    pub open spec fn remove_listener(self, key: Seq<char>) -> BundleView {
        if self.mutable() {
            self.mutated(
                self.content.attributes,
                without(self.content.listeners, key),
                self.content.issued,
            )
        } else {
            self
        }
    }

    /// The message that is due to the parent: the update callback with the
    /// content of the bundle, where the bundle has an update callback and
    /// was mutated since it was last marked clean; none otherwise.
    pub open spec fn due(self) -> Option<(HandlerId, SnapshotView)> {
        match self.update_callback {
            Some(callback) => if self.dirty {
                Some((callback, self.content))
            } else {
                None
            },
            None => None,
        }
    }

    /// Whether the bundle holds the attributes and listeners of a
    /// snapshot, whatever the generations.
    pub open spec fn holds(self, snapshot: SnapshotView) -> bool {
        &&& self.content.attributes == snapshot.attributes
        &&& self.content.listeners == snapshot.listeners
    }

    /// Whether the bundle can take over a snapshot: neither generation
    /// counter has reached the largest value.
    pub open spec fn can_adopt(self, snapshot: SnapshotView) -> bool {
        self.content.generation < u64::MAX && snapshot.generation < u64::MAX
    }

    /// The bundle after `adopt`: it holds what the snapshot holds, at a
    /// generation above both, and is clean.
    pub open spec fn adopt(self, snapshot: SnapshotView) -> BundleView {
        if self.can_adopt(snapshot) {
            let later: u64 = if self.content.generation < snapshot.generation {
                snapshot.generation
            } else {
                self.content.generation
            };
            BundleView {
                content: SnapshotView { generation: (later + 1) as u64, ..snapshot },
                dirty: false,
                ..self
            }
        } else {
            self
        }
    }
}

/// A mutation of a bundle.
pub enum Mutation {
    AddAttribute(AttributeView),
    RemoveAttribute(Seq<char>),
    AddListener { key: Seq<char>, event: Seq<char>, handler: HandlerId },
    RemoveListener(Seq<char>),
}

impl BundleView {
    /// The bundle after one mutation.
    pub open spec fn mutate(self, mutation: Mutation) -> BundleView {
        match mutation {
            Mutation::AddAttribute(attribute) => self.add_attribute(attribute),
            Mutation::RemoveAttribute(key) => self.remove_attribute(key),
            Mutation::AddListener { key, event, handler } => self.add_listener(
                key,
                event,
                handler,
            ),
            Mutation::RemoveListener(key) => self.remove_listener(key),
        }
    }

    /// The bundle after the mutations `list`, one after the other.
    pub open spec fn mutate_all(self, list: Seq<Mutation>) -> BundleView
        decreases list.len(),
    {
        if list.len() == 0 {
            self
        } else {
            self.mutate_all(list.drop_last()).mutate(list.last())
        }
    }
}

/// The container that a parent holds: an attribute bag, a listener bag, the
/// parent's update callback if it gave one, and a generation counter that
/// every mutation advances.
pub struct PropsBundle {
    attributes: AttributeBag,
    listeners: ListenerBag,
    generation: u64,
    update_callback: Option<HandlerId>,
    dirty: bool,
}

impl View for PropsBundle {
    type V = BundleView;

    closed spec fn view(&self) -> BundleView {
        BundleView {
            content: SnapshotView {
                attributes: self.attributes@,
                listeners: self.listeners@,
                issued: self.listeners.issued(),
                generation: self.generation,
            },
            update_callback: self.update_callback,
            dirty: self.dirty,
        }
    }
}

impl PropsBundle {
    /// The invariant of the bundle: that of its content.
    pub open spec fn wf(&self) -> bool {
        self@.content.wf()
    }

    /// An empty bundle without update callback: the parent holds the bundle
    /// itself and renders again after it has mutated it.
    pub fn new() -> (bundle: PropsBundle)
        ensures
            bundle.wf(),
            bundle@ == BundleView::empty(None),
    {
        PropsBundle {
            attributes: AttributeBag::new(),
            listeners: ListenerBag::new(),
            generation: 0,
            update_callback: None,
            dirty: false,
        }
    }

    /// An empty bundle with the parent's update callback: whoever mutates
    /// the bundle hands the parent the new snapshot through it.
    pub fn with_update_callback(callback: HandlerId) -> (bundle: PropsBundle)
        ensures
            bundle.wf(),
            bundle@ == BundleView::empty(Some(callback)),
    {
        PropsBundle {
            attributes: AttributeBag::new(),
            listeners: ListenerBag::new(),
            generation: 0,
            update_callback: Some(callback),
            dirty: false,
        }
    }

    /// Stores an attribute under its key. Returns whether the bundle was
    /// mutated; it is not once the generation counter is exhausted. A
    /// mutation of a bundle with an update callback leaves the message for
    /// the parent due, with the new content.
    pub fn add_attribute(&mut self, attribute: Attribute) -> (applied: bool)
        requires
            old(self).wf(),
        ensures
            final(self).wf(),
            applied == old(self)@.mutable(),
            final(self)@ == old(self)@.add_attribute(attribute@),
            applied ==> final(self)@.due() == match old(self)@.update_callback {
                Some(callback) => Some((callback, final(self)@.content)),
                None => None,
            },
    {
        if self.generation == u64::MAX {
            return false;
        }
        self.attributes.set(attribute);
        self.generation = self.generation + 1;
        self.dirty = true;
        true
    }

    /// Removes the attribute stored under `key`, if there is one. Returns
    /// whether the bundle was mutated; removing an unknown key counts.
    pub fn remove_attribute(&mut self, key: &str) -> (applied: bool)
        requires
            old(self).wf(),
        ensures
            final(self).wf(),
            applied == old(self)@.mutable(),
            final(self)@ == old(self)@.remove_attribute(key@),
            applied ==> final(self)@.due() == match old(self)@.update_callback {
                Some(callback) => Some((callback, final(self)@.content)),
                None => None,
            },
    {
        if self.generation == u64::MAX {
            return false;
        }
        self.attributes.remove(key);
        self.generation = self.generation + 1;
        self.dirty = true;
        true
    }

    /// Stores a listener under `key`, replacing the one that had the key.
    /// Returns whether the bundle was mutated.
    pub fn add_listener(&mut self, key: &str, event: &str, handler: HandlerId) -> (applied: bool)
        requires
            old(self).wf(),
        ensures
            final(self).wf(),
            applied == old(self)@.mutable(),
            final(self)@ == old(self)@.add_listener(key@, event@, handler),
            applied ==> final(self)@.due() == match old(self)@.update_callback {
                Some(callback) => Some((callback, final(self)@.content)),
                None => None,
            },
    {
        if self.generation == u64::MAX {
            return false;
        }
        let stored = self.listeners.set(key, event, handler);
        assert(stored);
        self.generation = self.generation + 1;
        self.dirty = true;
        true
    }

    /// Removes the listener stored under `key`, if there is one. Returns
    /// whether the bundle was mutated; removing an unknown key counts.
    pub fn remove_listener(&mut self, key: &str) -> (applied: bool)
        requires
            old(self).wf(),
        ensures
            final(self).wf(),
            applied == old(self)@.mutable(),
            final(self)@ == old(self)@.remove_listener(key@),
            applied ==> final(self)@.due() == match old(self)@.update_callback {
                Some(callback) => Some((callback, final(self)@.content)),
                None => None,
            },
    {
        if self.generation == u64::MAX {
            return false;
        }
        self.listeners.remove(key);
        self.generation = self.generation + 1;
        self.dirty = true;
        true
    }

    /// The attributes of the bundle.
    pub fn attributes(&self) -> (bag: &AttributeBag)
        requires
            self.wf(),
        ensures
            bag.wf(),
            bag@ == self@.content.attributes,
    {
        &self.attributes
    }

    /// The listeners of the bundle.
    pub fn listeners(&self) -> (bag: &ListenerBag)
        requires
            self.wf(),
        ensures
            bag.wf(),
            bag@ == self@.content.listeners,
            bag.issued() == self@.content.issued,
    {
        &self.listeners
    }

    /// The number of mutations made so far.
    pub fn generation(&self) -> (g: u64)
        ensures
            g == self@.content.generation,
    {
        self.generation
    }

    /// The parent's update callback, if it gave one.
    pub fn update_callback(&self) -> (callback: Option<HandlerId>)
        ensures
            callback == self@.update_callback,
    {
        self.update_callback
    }

    /// Whether the bundle was mutated since it was last marked clean.
    pub fn is_dirty(&self) -> (dirty: bool)
        ensures
            dirty == self@.dirty,
    {
        self.dirty
    }

    /// Marks the bundle clean: the parent has seen its current state.
    pub fn mark_clean(&mut self)
        ensures
            final(self)@ == (BundleView { dirty: false, ..old(self)@ }),
    {
        self.dirty = false;
    }

    /// A snapshot of the bundle as it is now. Later mutations of the
    /// bundle do not reach it.
    pub fn snapshot(&self) -> (snapshot: Snapshot)
        ensures
            snapshot@ == self@.content,
    {
        Snapshot {
            attributes: self.attributes.clone(),
            listeners: self.listeners.clone(),
            generation: self.generation,
        }
    }

    /// The message for the parent, where one is due: the bundle has an
    /// update callback and was mutated since it was last marked clean.
    pub fn pending_update(&self) -> (update: Option<Update>)
        ensures
            match update {
                Some(u) => self@.due() == Some((u.callback, u.snapshot@)),
                None => self@.due() is None,
            },
    {
        match self.update_callback {
            Some(callback) => {
                if self.dirty {
                    Some(Update { callback, snapshot: self.snapshot() })
                } else {
                    None
                }
            },
            None => None,
        }
    }

    /// Takes the message for the parent out of the bundle, where one is
    /// due, and marks the bundle clean: the message is sent once.
    pub fn take_update(&mut self) -> (update: Option<Update>)
        ensures
            match update {
                Some(u) => old(self)@.due() == Some((u.callback, u.snapshot@)),
                None => old(self)@.due() is None,
            },
            final(self)@ == if update is Some {
                (BundleView { dirty: false, ..old(self)@ })
            } else {
                old(self)@
            },
            final(self)@.due() is None,
    {
        let update = self.pending_update();
        if update.is_some() {
            self.dirty = false;
        }
        update
    }

    /// Whether the bundle holds the attributes and listeners of a
    /// snapshot, whatever the generations.
    pub fn holds(&self, snapshot: &Snapshot) -> (equal: bool)
        ensures
            equal == self@.holds(snapshot@),
    {
        self.attributes.same(&snapshot.attributes) && self.listeners.same(&snapshot.listeners)
    }

    /// Takes over the content of a snapshot, as one mutation: the
    /// generation becomes one more than the larger of the bundle's and the
    /// snapshot's, so that no generation is ever seen twice. The bundle is
    /// clean afterwards: its holder has the state that was delivered.
    /// Returns whether the bundle was mutated; it is not once either
    /// generation counter is exhausted.
    pub fn adopt(&mut self, snapshot: Snapshot) -> (applied: bool)
        requires
            old(self).wf(),
            snapshot.wf(),
        ensures
            final(self).wf(),
            applied == old(self)@.can_adopt(snapshot@),
            final(self)@ == old(self)@.adopt(snapshot@),
    {
        if self.generation == u64::MAX || snapshot.generation == u64::MAX {
            return false;
        }
        let later: u64 = if self.generation < snapshot.generation {
            snapshot.generation
        } else {
            self.generation
        };
        self.attributes = snapshot.attributes;
        self.listeners = snapshot.listeners;
        self.generation = later + 1;
        self.dirty = false;
        true
    }
}

} // verus!
