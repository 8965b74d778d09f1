//! An append-only table from identifiers to values, with numeric handles.
use crate::identifier::Identifier;
use crate::identifier::IdentifierView;
use vstd::prelude::*;

verus! {

/// The position of an entry in the registry that issued the handle.
///
/// A handle is only meaningful for that registry, and only until the
/// registry is cleared.
#[derive(Debug, PartialEq, Eq, Clone, Copy, Structural)]
pub struct RegistryHandle {
    idx: usize,
}

impl RegistryHandle {
    /// The position that the handle names.
    pub closed spec fn index(&self) -> nat {
        self.idx as nat
    }

    /// A handle for the entry at `idx`.
    pub fn new(idx: usize) -> (handle: Self)
        ensures
            handle.index() == idx,
    {
        Self { idx }
    }

    /// The position that the handle names.
    pub fn value(&self) -> (idx: usize)
        ensures
            idx == self.index(),
    {
        self.idx
    }
}

/// Why an entry could not be inserted.
#[derive(Debug, PartialEq, Eq, Structural)]
pub enum RegistryInsertError {
    /// The key is already present.
    EntryAlreadyExists,
}

/// `at` is the position of the first key equal to `id`.
pub open spec fn is_first_match(keys: Seq<IdentifierView>, id: IdentifierView, at: int) -> bool {
    &&& 0 <= at < keys.len()
    &&& keys[at] == id
    &&& forall|j: int| 0 <= j < at ==> keys[j] != id
}

/// The position of the first key equal to `id`, if there is one.
pub open spec fn lookup(keys: Seq<IdentifierView>, id: IdentifierView) -> Option<nat> {
    if keys.contains(id) {
        Some((choose|at: int| is_first_match(keys, id, at)) as nat)
    } else {
        None
    }
}

/// The first match is the only position that `lookup` can give.
pub proof fn lemma_lookup_first(keys: Seq<IdentifierView>, id: IdentifierView, at: int)
    requires
        is_first_match(keys, id, at),
    ensures
        lookup(keys, id) == Some(at as nat),
{
}

/// `lookup` finds a key exactly where the key occurs, and then at its first
/// occurrence.
pub proof fn lemma_lookup_found(keys: Seq<IdentifierView>, id: IdentifierView)
    ensures
        lookup(keys, id) is Some <==> keys.contains(id),
        lookup(keys, id) matches Some(at) ==> is_first_match(keys, id, at as int),
{
    if keys.contains(id) {
        let first = lemma_first_occurrence(keys, id, keys.len() as int);
        lemma_lookup_first(keys, id, first);
    }
}

/// A key that occurs before `bound` has a first occurrence.
proof fn lemma_first_occurrence(keys: Seq<IdentifierView>, id: IdentifierView, bound: int) -> (at:
    int)
    requires
        0 <= bound <= keys.len(),
        exists|j: int| 0 <= j < bound && keys[j] == id,
    ensures
        is_first_match(keys, id, at),
        at < bound,
    decreases bound,
{
    if exists|j: int| 0 <= j < bound - 1 && keys[j] == id {
        lemma_first_occurrence(keys, id, bound - 1)
    } else {
        bound - 1
    }
}

/// Handles are stable: appending a key leaves the handle of every key
/// that was there as it is, and a new key gets the next position.
pub proof fn lemma_push_keeps_handles(
    keys: Seq<IdentifierView>,
    id: IdentifierView,
    other: IdentifierView,
)
    ensures
        keys.contains(other) ==> lookup(keys.push(id), other) == lookup(keys, other),
        !keys.contains(id) ==> lookup(keys.push(id), id) == Some(keys.len()),
        !keys.contains(other) && other != id ==> lookup(keys.push(id), other) is None,
{
    let longer = keys.push(id);
    if keys.contains(other) {
        lemma_lookup_found(keys, other);
        let at = lookup(keys, other).unwrap() as int;
        assert(is_first_match(longer, other, at));
        lemma_lookup_first(longer, other, at);
    }
    if !keys.contains(id) {
        assert(is_first_match(longer, id, keys.len() as int));
        lemma_lookup_first(longer, id, keys.len() as int);
    }
}

/// Among keys that are pairwise distinct, a key stands at one position
/// only, and `lookup` gives that position.
pub proof fn lemma_lookup_distinct(keys: Seq<IdentifierView>, at: int)
    requires
        keys.no_duplicates(),
        0 <= at < keys.len(),
    ensures
        lookup(keys, keys[at]) == Some(at as nat),
{
    lemma_lookup_first(keys, keys[at], at);
}

/// `Vec::capacity`: the allocated room is never less than the length.
#[verifier::external_body]
fn vec_capacity<V>(v: &Vec<V>) -> (room: usize)
    ensures
        room >= v@.len(),
{
    v.capacity()
}

/// Keys and values in insertion order, side by side.
pub struct Registry<T> {
    keys: Vec<Identifier>,
    values: Vec<T>,
}

impl<T> Registry<T> {
    /// The keys, in insertion order.
    pub closed spec fn keys(&self) -> Seq<IdentifierView> {
        self.keys@.map_values(|key: Identifier| key@)
    }

    /// The values, in insertion order.
    pub closed spec fn values(&self) -> Seq<T> {
        self.values@
    }

    /// Every key has its value, and no key occurs twice.
    pub open spec fn wf(&self) -> bool {
        &&& self.keys().len() == self.values().len()
        &&& self.keys().no_duplicates()
    }

    /// An empty registry.
    pub fn new() -> (registry: Self)
        ensures
            registry.keys() == Seq::<IdentifierView>::empty(),
            registry.values() == Seq::<T>::empty(),
            registry.wf(),
    {
        Self { keys: Vec::new(), values: Vec::new() }
    }

    /// An empty registry with room reserved for `capacity` entries.
    pub fn with_capacity(capacity: usize) -> (registry: Self)
        ensures
            registry.keys() == Seq::<IdentifierView>::empty(),
            registry.values() == Seq::<T>::empty(),
            registry.wf(),
    {
        Self { keys: Vec::with_capacity(capacity), values: Vec::with_capacity(capacity) }
    }

    /// The number of entries.
    pub fn len(&self) -> (n: usize)
        ensures
            n == self.keys().len(),
    {
        self.keys.len()
    }

    /// The number of keys that fit without allocating again.
    pub fn key_capacity(&self) -> (room: usize)
        ensures
            room >= self.keys().len(),
    {
        vec_capacity(&self.keys)
    }

    /// The number of values that fit without allocating again.
    pub fn value_capacity(&self) -> (room: usize)
        ensures
            room >= self.values().len(),
    {
        vec_capacity(&self.values)
    }

    /// Whether `id` is a key.
    pub fn contains(&self, id: &Identifier) -> (found: bool)
        ensures
            found == self.keys().contains(id@),
    {
        self.get_handle(id).is_some()
    }

    /// The handle of the entry whose key is `id`.
    pub fn get_handle(&self, id: &Identifier) -> (handle: Option<RegistryHandle>)
        ensures
            handle is Some <==> self.keys().contains(id@),
            handle matches Some(h) ==> is_first_match(self.keys(), id@, h.index() as int),
            match handle {
                Some(h) => lookup(self.keys(), id@) == Some(h.index()),
                None => lookup(self.keys(), id@) is None,
            },
    {
        let mut idx: usize = 0;
        while idx < self.keys.len()
            invariant
                0 <= idx <= self.keys@.len(),
                self.keys().len() == self.keys@.len(),
                forall|j: int| 0 <= j < idx ==> self.keys()[j] != id@,
            decreases self.keys@.len() - idx,
        {
            if *id == self.keys[idx] {
                proof {
                    lemma_lookup_first(self.keys(), id@, idx as int);
                }
                return Some(RegistryHandle::new(idx));
            }
            idx += 1;
        }
        None
    }

    /// The key of the entry that `handle` names.
    pub fn key(&self, handle: &RegistryHandle) -> (key: Option<&Identifier>)
        ensures
            match key {
                Some(k) => handle.index() < self.keys().len() && k@
                    == self.keys()[handle.index() as int],
                None => handle.index() >= self.keys().len(),
            },
    {
        if handle.idx < self.keys.len() {
            Some(&self.keys[handle.idx])
        } else {
            None
        }
    }

    /// The value of the entry that `handle` names.
    pub fn get(&self, handle: &RegistryHandle) -> (value: Option<&T>)
        ensures
            match value {
                Some(v) => handle.index() < self.values().len() && *v
                    == self.values()[handle.index() as int],
                None => handle.index() >= self.values().len(),
            },
    {
        if handle.idx < self.values.len() {
            Some(&self.values[handle.idx])
        } else {
            None
        }
    }

    /// The value of the entry whose key is `id`.
    pub fn get_direct(&self, id: &Identifier) -> (value: Option<&T>)
        ensures
            match value {
                Some(v) => lookup(self.keys(), id@) matches Some(at) && at < self.values().len()
                    && *v == self.values()[at as int],
                None => lookup(self.keys(), id@) matches Some(at) ==> at >= self.values().len(),
            },
            self.wf() ==> (value is Some <==> self.keys().contains(id@)),
    {
        match self.get_handle(id) {
            Some(handle) => self.get(&handle),
            None => None,
        }
    }

    /// Appends the entry `(id, value)`, unless `id` is already a key.
    pub fn insert(&mut self, id: &Identifier, value: T) -> (res: Result<(), RegistryInsertError>)
        ensures
            old(self).keys().contains(id@) ==> res == Err::<(), RegistryInsertError>(
                RegistryInsertError::EntryAlreadyExists,
            ) && *final(self) == *old(self),
            !old(self).keys().contains(id@) ==> res == Ok::<(), RegistryInsertError>(())
                && final(self).keys() == old(self).keys().push(id@) && final(self).values() == old(
                self,
            ).values().push(value),
            old(self).wf() ==> final(self).wf(),
    {
        if !self.contains(id) {
            self.keys.push(id.clone());
            self.values.push(value);
            Ok(())
        } else {
            Err(RegistryInsertError::EntryAlreadyExists)
        }
    }

    /// Removes every entry. Handles issued before no longer name anything.
    pub fn clear(&mut self)
        ensures
            final(self).keys() == Seq::<IdentifierView>::empty(),
            final(self).values() == Seq::<T>::empty(),
            final(self).wf(),
    {
        self.keys.clear();
        self.values.clear();
    }
}

impl<T> Default for Registry<T> {
    fn default() -> (registry: Self)
        ensures
            registry.keys() == Seq::<IdentifierView>::empty(),
            registry.values() == Seq::<T>::empty(),
            registry.wf(),
    {
        Self::new()
    }
}

} // verus!
