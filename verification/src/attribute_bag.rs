//! The attribute bag: an ordered mapping from attribute key to attribute.

use crate::attribute::{Attribute, AttributeView};
use crate::keyed::{
    absent_from, distinct_keys, has_key, key_views, keys, lemma_filter_next, lemma_position,
    lemma_upsert, lemma_without, lookup, position, stale_keys, upsert, without,
};
use vstd::prelude::*;

verus! {

/// The test that `previous` does not hold an attribute's key with the same
/// payload: the attribute is new, or its payload has changed.
pub open spec fn payload_changed(previous: Seq<AttributeView>) -> spec_fn(AttributeView) -> bool {
    |a: AttributeView|
        match lookup(previous, a.key) {
            Some(p) => p.value.payload() != a.value.payload(),
            None => true,
        }
}

/// The attributes of `current` that are new or whose payload differs from
/// the one `previous` holds, in the order of `current`.
pub open spec fn changed_attributes(
    current: Seq<AttributeView>,
    previous: Seq<AttributeView>,
) -> Seq<AttributeView> {
    current.filter(payload_changed(previous))
}

/// The views of a list of attributes, in order.
pub open spec fn attribute_views(list: Seq<Attribute>) -> Seq<AttributeView> {
    list.map_values(|a: Attribute| a@)
}

/// What has to be done to an element that holds one bag to make it hold
/// another.
pub struct AttributeDiff {
    /// The keys to remove.
    pub to_remove: Vec<String>,
    /// The attributes to write.
    pub to_set: Vec<Attribute>,
}

/// An ordered mapping from attribute key to attribute. Each key occurs at
/// most once; the order is that of first insertion.
pub struct AttributeBag {
    entries: Vec<Attribute>,
}

impl View for AttributeBag {
    type V = Seq<AttributeView>;

    closed spec fn view(&self) -> Seq<AttributeView> {
        attribute_views(self.entries@)
    }
}

impl AttributeBag {
    /// The invariant of the bag: no key occurs twice.
    pub open spec fn wf(&self) -> bool {
        distinct_keys(self@)
    }

    /// An empty bag.
    pub fn new() -> (bag: AttributeBag)
        ensures
            bag.wf(),
            bag@ == Seq::<AttributeView>::empty(),
    {
        let bag = AttributeBag { entries: Vec::new() };
        assert(bag@ =~= Seq::<AttributeView>::empty());
        bag
    }

    fn find(&self, key: &String) -> (found: Option<usize>)
        requires
            self.wf(),
        ensures
            match found {
                Some(i) => i < self.entries.len() && has_key(self@, key@) && position(
                    self@,
                    key@,
                ) == i,
                None => !has_key(self@, key@),
            },
    {
        let mut i: usize = 0;
        while i < self.entries.len()
            invariant
                self.wf(),
                i <= self.entries.len(),
                forall|j: int| 0 <= j < i ==> (#[trigger] self@[j]).key != key@,
            decreases self.entries.len() - i,
        {
            if self.entries[i].key == *key {
                proof {
                    assert(self@[i as int].key == key@);
                    lemma_position(self@, i as int);
                }
                return Some(i);
            }
            i += 1;
        }
        None
    }

    /// Stores `attribute` under its key. An attribute that had the key is
    /// replaced where it stands; a new key is appended.
    pub fn set(&mut self, attribute: Attribute)
        requires
            old(self).wf(),
        ensures
            final(self).wf(),
            final(self)@ == upsert(old(self)@, attribute@),
    {
        proof {
            lemma_upsert(self@, attribute@);
        }
        match self.find(&attribute.key) {
            Some(i) => {
                self.entries[i] = attribute;
                assert(self@ =~= upsert(old(self)@, attribute@));
            },
            None => {
                self.entries.push(attribute);
                assert(self@ =~= upsert(old(self)@, attribute@));
            },
        }
    }

    /// Removes the attribute stored under `key`, if there is one.
    pub fn remove(&mut self, key: &str)
        requires
            old(self).wf(),
        ensures
            final(self).wf(),
            final(self)@ == without(old(self)@, key@),
    {
        proof {
            lemma_without(self@, key@);
        }
        let key = String::from_str(key);
        match self.find(&key) {
            Some(i) => {
                self.entries.remove(i);
                assert(self@ =~= without(old(self)@, key@));
            },
            None => {},
        }
    }

    /// The number of attributes in the bag.
    pub fn len(&self) -> (n: usize)
        ensures
            n == self@.len(),
    {
        self.entries.len()
    }

    /// Whether the bag holds no attribute.
    pub fn is_empty(&self) -> (empty: bool)
        ensures
            empty == (self@.len() == 0),
    {
        self.entries.len() == 0
    }

    /// Whether the bag holds an attribute under `key`.
    pub fn contains(&self, key: &str) -> (held: bool)
        requires
            self.wf(),
        ensures
            held == has_key(self@, key@),
    {
        let key = String::from_str(key);
        self.find(&key).is_some()
    }

    /// The attribute stored under `key`, if there is one.
    pub fn get(&self, key: &str) -> (found: Option<&Attribute>)
        requires
            self.wf(),
        ensures
            match found {
                Some(a) => lookup(self@, key@) == Some(a@),
                None => lookup(self@, key@) == None::<AttributeView>,
            },
    {
        let key = String::from_str(key);
        match self.find(&key) {
            Some(i) => Some(&self.entries[i]),
            None => None,
        }
    }

    /// The attributes of the bag, in order.
    pub fn entries(&self) -> (list: Vec<Attribute>)
        ensures
            attribute_views(list@) == self@,
    {
        let list = self.entries.clone();
        assert(attribute_views(list@) =~= self@);
        list
    }

    /// Compares the bag with the one an element holds: the keys that the
    /// element holds and the bag does not, in the order of `previous`, and
    /// the attributes of the bag that are new or whose payload differs, in
    /// the order of the bag.
    pub fn diff(&self, previous: &AttributeBag) -> (diff: AttributeDiff)
        requires
            self.wf(),
            previous.wf(),
        ensures
            key_views(diff.to_remove@) == stale_keys(self@, previous@),
            attribute_views(diff.to_set@) == changed_attributes(self@, previous@),
    {
        let mut to_remove: Vec<String> = Vec::new();
        let mut i: usize = 0;
        assert(previous@.take(0) =~= Seq::<AttributeView>::empty());
        proof {
            reveal(Seq::filter);
        }
        while i < previous.entries.len()
            invariant
                i <= previous.entries.len(),
                self.wf(),
                previous.wf(),
                key_views(to_remove@) == keys(previous@.take(i as int).filter(absent_from(self@))),
            decreases previous.entries.len() - i,
        {
            proof {
                lemma_filter_next(previous@, absent_from(self@), i as int);
            }
            let ghost before = to_remove@;
            let ghost kept = previous@.take(i as int).filter(absent_from(self@));
            let stale = self.find(&previous.entries[i].key).is_none();
            assert(stale == absent_from(self@)(previous@[i as int]));
            if stale {
                to_remove.push(previous.entries[i].key.clone());
                assert(key_views(to_remove@) =~= key_views(before).push(previous@[i as int].key));
                assert(keys(kept.push(previous@[i as int])) =~= keys(kept).push(
                    previous@[i as int].key,
                ));
            }
            i += 1;
            assert(key_views(to_remove@) =~= keys(
                previous@.take(i as int).filter(absent_from(self@)),
            ));
        }
        assert(previous@.take(i as int) =~= previous@);
        let mut to_set: Vec<Attribute> = Vec::new();
        let mut j: usize = 0;
        assert(self@.take(0) =~= Seq::<AttributeView>::empty());
        while j < self.entries.len()
            invariant
                j <= self.entries.len(),
                self.wf(),
                previous.wf(),
                attribute_views(to_set@) == self@.take(j as int).filter(payload_changed(previous@)),
            decreases self.entries.len() - j,
        {
            proof {
                lemma_filter_next(self@, payload_changed(previous@), j as int);
            }
            let changed = match previous.find(&self.entries[j].key) {
                Some(p) => !previous.entries[p].value.same_payload(&self.entries[j].value),
                None => true,
            };
            assert(changed == payload_changed(previous@)(self@[j as int]));
            let ghost before = to_set@;
            if changed {
                to_set.push(self.entries[j].clone());
                assert(attribute_views(to_set@) =~= attribute_views(before).push(self@[j as int]));
            }
            j += 1;
            assert(attribute_views(to_set@) =~= self@.take(j as int).filter(
                payload_changed(previous@),
            ));
        }
        assert(self@.take(j as int) =~= self@);
        AttributeDiff { to_remove, to_set }
    }

    /// Whether two bags hold the same attributes in the same order.
    pub fn same(&self, other: &AttributeBag) -> (equal: bool)
        ensures
            equal == (self@ == other@),
    {
        if self.entries.len() != other.entries.len() {
            assert(self@.len() != other@.len());
            return false;
        }
        let mut i: usize = 0;
        while i < self.entries.len()
            invariant
                i <= self.entries.len(),
                self.entries.len() == other.entries.len(),
                forall|j: int| 0 <= j < i ==> self@[j] == other@[j],
            decreases self.entries.len() - i,
        {
            let a = &self.entries[i];
            let b = &other.entries[i];
            if !(a.family == b.family && a.key == b.key && a.value.same(&b.value)) {
                assert(self@[i as int] != other@[i as int]);
                return false;
            }
            i += 1;
        }
        assert(self@ =~= other@);
        true
    }
}

impl Clone for AttributeBag {
    fn clone(&self) -> (copy: Self)
        ensures
            copy@ == self@,
    {
        let copy = AttributeBag { entries: self.entries.clone() };
        assert(copy@ =~= self@);
        copy
    }
}

} // verus!
