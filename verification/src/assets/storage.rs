//! Handles and the append-only storage that issues them.

use std::marker::PhantomData;
use vstd::prelude::*;
use vstd::std_specs::cmp::PartialEqSpecImpl;

verus! {

/// A typed reference to a stored asset: a numeric id and, at compile time
/// only, the type of the asset. It owns nothing and is resolved through the
/// storage that issued it.
#[derive(Debug, Hash)]
pub struct AssetHandle<T> {
    id: u32,
    _marker: PhantomData<T>,
}

impl<T> View for AssetHandle<T> {
    type V = nat;

    /// The numeric id of the handle.
    closed spec fn view(&self) -> nat {
        self.id as nat
    }
}

impl<T> Clone for AssetHandle<T> {
    fn clone(&self) -> (copy: Self)
        ensures
            copy == *self,
    {
        AssetHandle { id: self.id, _marker: PhantomData }
    }
}

impl<T> Copy for AssetHandle<T> {

}

impl<T> PartialEq for AssetHandle<T> {
    fn eq(&self, other: &Self) -> (same: bool) {
        self.id == other.id
    }
}

impl<T> Eq for AssetHandle<T> {

}

impl<T> PartialEqSpecImpl for AssetHandle<T> {
    open spec fn obeys_eq_spec() -> bool {
        true
    }

    open spec fn eq_spec(&self, other: &Self) -> bool {
        *self == *other
    }
}

impl<T> AssetHandle<T> {
    pub(crate) fn new(id: u32) -> (handle: Self)
        ensures
            handle@ == id,
    {
        Self { id, _marker: PhantomData }
    }

    /// The numeric id of the handle.
    pub fn id(&self) -> (id: u32)
        ensures
            id == self@,
    {
        self.id
    }

    /// Two handles of one asset type are equal exactly when their ids are.
    pub proof fn lemma_equal_by_id(self, other: Self)
        ensures
            (self == other) <==> (self@ == other@),
    {
    }
}

/// Owns every stored value of type `T`. Values are only ever appended, and
/// the handle of a value is its position, so a handle once issued stays
/// valid and keeps referring to the same value.
pub struct AssetsStorage<T> {
    storage: Vec<T>,
}

impl<T> View for AssetsStorage<T> {
    type V = Seq<T>;

    /// The stored values in the order of their ids.
    closed spec fn view(&self) -> Seq<T> {
        self.storage@
    }
}

impl<T> AssetsStorage<T> {
    /// A storage that holds nothing.
    pub fn new() -> (storage: Self)
        ensures
            storage@ == Seq::<T>::empty(),
    {
        Self { storage: Vec::new() }
    }

    /// The number of stored values, which is also the next id.
    pub fn len(&self) -> (len: usize)
        ensures
            len == self@.len(),
    {
        self.storage.len()
    }

    /// Whether every id has been issued.
    pub fn is_full(&self) -> (full: bool)
        ensures
            full == (self@.len() >= u32::MAX),
    {
        self.storage.len() >= u32::MAX as usize
    }

    /// Whether `handle` was issued by a storage with these contents.
    pub fn contains(&self, handle: AssetHandle<T>) -> (present: bool)
        ensures
            present == (handle@ < self@.len()),
    {
        (handle.id as usize) < self.storage.len()
    }

    /// Appends `asset` and returns its handle: the next id in sequence.
    pub fn store_asset(&mut self, asset: T) -> (handle: AssetHandle<T>)
        requires
            old(self)@.len() < u32::MAX,
        ensures
            final(self)@ == old(self)@.push(asset),
            handle@ == old(self)@.len(),
    {
        let id = self.storage.len() as u32;
        self.storage.push(asset);
        AssetHandle::new(id)
    }

    /// The value that `handle` refers to.
    pub fn get_asset(&self, handle: AssetHandle<T>) -> (asset: &T)
        requires
            handle@ < self@.len(),
        ensures
            *asset == self@[handle@ as int],
    {
        &self.storage[handle.id as usize]
    }

    /// The value that `handle` refers to, if this storage holds one.
    pub fn find_asset(&self, handle: AssetHandle<T>) -> (asset: Option<&T>)
        ensures
            handle@ < self@.len() ==> asset == Some(&self@[handle@ as int]),
            handle@ >= self@.len() ==> asset is None,
    {
        if self.contains(handle) {
            Some(self.get_asset(handle))
        } else {
            None
        }
    }
}

/// Storing a value and then resolving the returned handle yields that very
/// value.
pub proof fn lemma_store_then_get<T>(before: Seq<T>, asset: T)
    ensures
        ({
            let after = before.push(asset);
            let handle = before.len() as int;
            &&& 0 <= handle < after.len()
            &&& after[handle] == asset
        }),
{
}

/// Storing a value disturbs no handle issued before: each still resolves,
/// and to the value it resolved to.
pub proof fn lemma_store_keeps_handles<T>(before: Seq<T>, asset: T, handle: nat)
    requires
        handle < before.len(),
    ensures
        handle < before.push(asset).len(),
        before.push(asset)[handle as int] == before[handle as int],
{
}

/// Ids are issued in increasing order: a value stored later gets a larger id.
pub proof fn lemma_ids_increase<T>(before: Seq<T>, first: T, second: T)
    ensures
        before.len() < before.push(first).len(),
        before.push(first).len() < before.push(first).push(second).len(),
{
}

} // verus!
