//! Listeners and the listener bag: an ordered mapping from a caller-chosen
//! listener key to an event kind and a handler.

use crate::keyed::{
    absent_from, distinct_keys, has_key, key_views, keys, lemma_filter_next, lemma_position,
    lemma_without, lookup, position, stale_keys, without, Keyed,
};
use vstd::prelude::*;

verus! {

/// Names a handler: a function of one event argument that the embedding
/// application owns. The library stores and hands out the name and never
/// looks inside the handler.
#[derive(Clone, Copy, PartialEq, Eq, Debug, Structural)]
pub struct HandlerId(pub u64);

/// A listener as a bag holds it.
#[derive(PartialEq, Eq, Debug)]
pub struct Listener {
    /// The caller's name for the listener, used to replace and remove it.
    /// It is not the name of a DOM event.
    pub key: String,
    /// The name of the DOM event, such as `click`.
    pub event: String,
    /// The handler to run when the event arrives.
    pub handler: HandlerId,
    /// The number of the `set` call that stored the listener, counted per
    /// bag from one. Storing a listener again, even an equal one, gives it a
    /// new serial, which is how a replacement is told from what it
    /// replaces.
    pub serial: u64,
}

/// The mathematical content of a [`Listener`].
pub struct ListenerView {
    pub key: Seq<char>,
    pub event: Seq<char>,
    pub handler: HandlerId,
    pub serial: u64,
}

impl Keyed for ListenerView {
    type Key = Seq<char>;

    open spec fn key(&self) -> Seq<char> {
        self.key
    }
}

impl View for Listener {
    type V = ListenerView;

    open spec fn view(&self) -> ListenerView {
        ListenerView {
            key: self.key@,
            event: self.event@,
            handler: self.handler,
            serial: self.serial,
        }
    }
}

impl Clone for Listener {
    fn clone(&self) -> (copy: Self)
        ensures
            copy == *self,
    {
        Listener {
            key: self.key.clone(),
            event: self.event.clone(),
            handler: self.handler,
            serial: self.serial,
        }
    }
}

impl Listener {
    /// Whether two listeners have the same content, serial included.
    pub fn same(&self, other: &Listener) -> (equal: bool)
        ensures
            equal == (self@ == other@),
    {
        self.key == other.key && self.event == other.event && self.handler == other.handler
            && self.serial == other.serial
    }
}

/// The views of a list of listeners, in order.
pub open spec fn listener_views(list: Seq<Listener>) -> Seq<ListenerView> {
    list.map_values(|l: Listener| l@)
}

/// The test that `previous` does not hold a listener as it is: the listener
/// is new, or it was stored again since.
pub open spec fn replaced(previous: Seq<ListenerView>) -> spec_fn(ListenerView) -> bool {
    |l: ListenerView| lookup(previous, l.key) != Some(l)
}

/// The listeners of `current` that are new or were stored again since
/// `previous`, in the order of `current`.
pub open spec fn changed_listeners(
    current: Seq<ListenerView>,
    previous: Seq<ListenerView>,
) -> Seq<ListenerView> {
    current.filter(replaced(previous))
}

/// What has to be done to an element that holds the listeners of one bag to
/// make it hold those of another.
pub struct ListenerDiff {
    /// The listener keys to de-register.
    pub to_remove: Vec<String>,
    /// The listeners to register, each after de-registering what its key
    /// had before.
    pub to_set: Vec<Listener>,
}

/// An ordered mapping from listener key to listener. Each key occurs at
/// most once; the order is that of the `set` calls that stored the
/// listeners held.
pub struct ListenerBag {
    entries: Vec<Listener>,
    issued: u64,
}

impl View for ListenerBag {
    type V = Seq<ListenerView>;

    closed spec fn view(&self) -> Seq<ListenerView> {
        listener_views(self.entries@)
    }
}

impl ListenerBag {
    /// The number of serials the bag has given out.
    pub closed spec fn issued(&self) -> u64 {
        self.issued
    }

    /// The invariant of the bag: no key occurs twice.
    pub open spec fn wf(&self) -> bool {
        distinct_keys(self@)
    }

    /// An empty bag.
    pub fn new() -> (bag: ListenerBag)
        ensures
            bag.wf(),
            bag@ == Seq::<ListenerView>::empty(),
            bag.issued() == 0,
    {
        let bag = ListenerBag { entries: Vec::new(), issued: 0 };
        assert(bag@ =~= Seq::<ListenerView>::empty());
        bag
    }

    /// The index of the listener stored under `key`, if there is one.
    pub fn find(&self, key: &String) -> (found: Option<usize>)
        requires
            self.wf(),
        ensures
            match found {
                Some(i) => i < self@.len() && has_key(self@, key@) && position(self@, key@) == i,
                None => !has_key(self@, key@),
            },
    {
        let mut i: usize = 0;
        while i < self.entries.len()
            invariant
                self.wf(),
                i <= self.entries.len(),
                forall|j: int| 0 <= j < i ==> (#[trigger] self@[j]).key != key@,
            decreases self.entries.len() - i,
        {
            if self.entries[i].key == *key {
                proof {
                    assert(self@[i as int].key == key@);
                    lemma_position(self@, i as int);
                }
                return Some(i);
            }
            i += 1;
        }
        None
    }

    /// Stores a listener under `key`, after whatever the bag holds: a
    /// listener that had the key is removed first, so a replacement moves to
    /// the end. The listener gets the next serial of the bag. Nothing is
    /// stored, and `false` returned, once the bag has given out every
    /// serial.
    pub fn set(&mut self, key: &str, event: &str, handler: HandlerId) -> (stored: bool)
        requires
            old(self).wf(),
        ensures
            final(self).wf(),
            stored == (old(self).issued() < u64::MAX),
            stored ==> final(self).issued() == old(self).issued() + 1 && final(self)@ == without(
                old(self)@,
                key@,
            ).push(
                ListenerView { key: key@, event: event@, handler, serial: final(self).issued() },
            ),
            !stored ==> final(self).issued() == old(self).issued() && final(self)@ == old(self)@,
    {
        if self.issued == u64::MAX {
            return false;
        }
        let key = String::from_str(key);
        let listener = Listener {
            key,
            event: String::from_str(event),
            handler,
            serial: self.issued + 1,
        };
        proof {
            lemma_without(self@, listener.key@);
        }
        match self.find(&listener.key) {
            Some(i) => {
                self.entries.remove(i);
                assert(self@ =~= without(old(self)@, listener.key@));
            },
            None => {},
        }
        let ghost rest = self@;
        self.issued = self.issued + 1;
        self.entries.push(listener);
        assert(self@ =~= rest.push(listener@));
        assert forall|i: int, j: int| 0 <= i < j < self@.len() implies self@[i].key()
            != self@[j].key() by {
            if j == rest.len() {
                if rest[i].key() == listener@.key() {
                    assert(has_key(rest, listener@.key()));
                }
            } else {
                assert(rest[i].key() != rest[j].key());
            }
        }
        true
    }

    /// Removes the listener stored under `key`, if there is one.
    pub fn remove(&mut self, key: &str)
        requires
            old(self).wf(),
        ensures
            final(self).wf(),
            final(self).issued() == old(self).issued(),
            final(self)@ == without(old(self)@, key@),
    {
        proof {
            lemma_without(self@, key@);
        }
        let key = String::from_str(key);
        match self.find(&key) {
            Some(i) => {
                self.entries.remove(i);
                assert(self@ =~= without(old(self)@, key@));
            },
            None => {},
        }
    }

    /// Appends a listener that another bag stored, serial and all.
    pub(crate) fn adopt(&mut self, listener: Listener)
        requires
            old(self).wf(),
            !has_key(old(self)@, listener@.key),
        ensures
            final(self).wf(),
            final(self)@ == old(self)@.push(listener@),
            final(self).issued() == old(self).issued(),
    {
        self.entries.push(listener);
        assert(self@ =~= old(self)@.push(listener@));
        assert forall|i: int, j: int| 0 <= i < j < self@.len() implies self@[i].key()
            != self@[j].key() by {
            if j == old(self)@.len() {
                if old(self)@[i].key() == listener@.key() {
                    assert(has_key(old(self)@, listener@.key()));
                }
            } else {
                assert(old(self)@[i].key() != old(self)@[j].key());
            }
        }
    }

    /// The number of listeners in the bag.
    pub fn len(&self) -> (n: usize)
        ensures
            n == self@.len(),
    {
        self.entries.len()
    }

    /// Whether the bag holds no listener.
    pub fn is_empty(&self) -> (empty: bool)
        ensures
            empty == (self@.len() == 0),
    {
        self.entries.len() == 0
    }

    /// Whether the bag holds a listener under `key`.
    pub fn contains(&self, key: &str) -> (held: bool)
        requires
            self.wf(),
        ensures
            held == has_key(self@, key@),
    {
        let key = String::from_str(key);
        self.find(&key).is_some()
    }

    /// The listener stored under `key`, if there is one.
    pub fn get(&self, key: &str) -> (found: Option<&Listener>)
        requires
            self.wf(),
        ensures
            match found {
                Some(l) => lookup(self@, key@) == Some(l@),
                None => lookup(self@, key@) == None::<ListenerView>,
            },
    {
        let key = String::from_str(key);
        match self.find(&key) {
            Some(i) => Some(&self.entries[i]),
            None => None,
        }
    }

    /// The listener at index `i`.
    pub fn at(&self, i: usize) -> (l: &Listener)
        requires
            i < self@.len(),
        ensures
            l@ == self@[i as int],
    {
        &self.entries[i]
    }

    /// The listeners of the bag, in order.
    pub fn entries(&self) -> (list: Vec<Listener>)
        ensures
            listener_views(list@) == self@,
    {
        let list = self.entries.clone();
        assert(listener_views(list@) =~= self@);
        list
    }

    /// The number of serials the bag has given out.
    pub fn serials_issued(&self) -> (n: u64)
        ensures
            n == self.issued(),
    {
        self.issued
    }

    /// Compares the bag with the one whose listeners an element holds: the
    /// keys that the element holds and the bag does not, in the order of
    /// `previous`, and the listeners of the bag that are new or were stored
    /// again since, in the order of the bag.
    pub fn diff(&self, previous: &ListenerBag) -> (diff: ListenerDiff)
        requires
            self.wf(),
            previous.wf(),
        ensures
            key_views(diff.to_remove@) == stale_keys(self@, previous@),
            listener_views(diff.to_set@) == changed_listeners(self@, previous@),
    {
        let mut to_remove: Vec<String> = Vec::new();
        let mut i: usize = 0;
        assert(previous@.take(0) =~= Seq::<ListenerView>::empty());
        proof {
            reveal(Seq::filter);
        }
        while i < previous.entries.len()
            invariant
                i <= previous.entries.len(),
                self.wf(),
                previous.wf(),
                key_views(to_remove@) == keys(previous@.take(i as int).filter(absent_from(self@))),
            decreases previous.entries.len() - i,
        {
            proof {
                lemma_filter_next(previous@, absent_from(self@), i as int);
            }
            let ghost before = to_remove@;
            let ghost kept = previous@.take(i as int).filter(absent_from(self@));
            let stale = self.find(&previous.entries[i].key).is_none();
            assert(stale == absent_from(self@)(previous@[i as int]));
            if stale {
                to_remove.push(previous.entries[i].key.clone());
                assert(key_views(to_remove@) =~= key_views(before).push(previous@[i as int].key));
                assert(keys(kept.push(previous@[i as int])) =~= keys(kept).push(
                    previous@[i as int].key,
                ));
            }
            i += 1;
            assert(key_views(to_remove@) =~= keys(
                previous@.take(i as int).filter(absent_from(self@)),
            ));
        }
        assert(previous@.take(i as int) =~= previous@);
        let mut to_set: Vec<Listener> = Vec::new();
        let mut j: usize = 0;
        assert(self@.take(0) =~= Seq::<ListenerView>::empty());
        while j < self.entries.len()
            invariant
                j <= self.entries.len(),
                self.wf(),
                previous.wf(),
                listener_views(to_set@) == self@.take(j as int).filter(replaced(previous@)),
            decreases self.entries.len() - j,
        {
            proof {
                lemma_filter_next(self@, replaced(previous@), j as int);
            }
            let changed = match previous.find(&self.entries[j].key) {
                Some(p) => !previous.entries[p].same(&self.entries[j]),
                None => true,
            };
            assert(changed == replaced(previous@)(self@[j as int]));
            let ghost before = to_set@;
            if changed {
                to_set.push(self.entries[j].clone());
                assert(listener_views(to_set@) =~= listener_views(before).push(self@[j as int]));
            }
            j += 1;
            assert(listener_views(to_set@) =~= self@.take(j as int).filter(replaced(previous@)));
        }
        assert(self@.take(j as int) =~= self@);
        ListenerDiff { to_remove, to_set }
    }

    /// Whether two bags hold the same listeners in the same order.
    pub fn same(&self, other: &ListenerBag) -> (equal: bool)
        ensures
            equal == (self@ == other@),
    {
        if self.entries.len() != other.entries.len() {
            assert(self@.len() != other@.len());
            return false;
        }
        let mut i: usize = 0;
        while i < self.entries.len()
            invariant
                i <= self.entries.len(),
                self.entries.len() == other.entries.len(),
                forall|j: int| 0 <= j < i ==> self@[j] == other@[j],
            decreases self.entries.len() - i,
        {
            if !self.entries[i].same(&other.entries[i]) {
                assert(self@[i as int] != other@[i as int]);
                return false;
            }
            i += 1;
        }
        assert(self@ =~= other@);
        true
    }
}

impl Clone for ListenerBag {
    fn clone(&self) -> (copy: Self)
        ensures
            copy@ == self@,
            copy.issued() == self.issued(),
    {
        let copy = ListenerBag { entries: self.entries.clone(), issued: self.issued };
        assert(copy@ =~= self@);
        copy
    }
}

} // verus!
