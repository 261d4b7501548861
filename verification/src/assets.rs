//! The asset registry: one typed storage for each registered asset type,
//! and loaders that turn a source description into an asset.
//!
//! Storages and loaders of all types live in two maps that are keyed by
//! type identity and hold erased values. Every access finds the entry of
//! the type it asks for and downcasts it to that type before it is used, so
//! the registry behaves like one typed container for each type.
//!
//! The identity of a type (`std::any::TypeId`) and the outcome of a
//! downcast (`std::any::Any`) come from outside. Of a box it is known what
//! it holds once a value was put into it (`Erased::holds`), and a downcast
//! of such a box gives that value. Of an identity a contract can only say
//! that it is what `TypeId::of` gave for a type (`is_identity_of`): that
//! two identities of one type are equal is not known here. Each operation
//! is therefore split in three:
//!
//! - the generic function (`store_asset`) obtains the identity and states
//!   that, for an identity of its type, it does what the next function
//!   does;
//! - the function that takes the identity as an argument
//!   (`store_asset_under`) states exactly which entry it reads or changes,
//!   and what it returns where the entry is known to hold a storage;
//! - the function that takes the outcome of the lookup and downcast as an
//!   argument (`store_in`) states exactly what is made of it.

use crate::keyed::Key;
use crate::keyed::KeyMap;
use std::any::TypeId;
use vstd::prelude::*;
use vstd::std_specs::convert::FromSpecImpl;

pub mod erased;
pub mod storage;
pub mod texture;

pub use erased::Erased;
pub use storage::AssetHandle;
pub use storage::AssetsStorage;

verus! {

/// A type whose values can be stored in the registry.
pub trait Asset {

}

/// Turns a source description of type `Src` into an asset.
pub trait AssetsLoader<Src> {
    type TAsset: Asset;

    type Error;

    fn load(&self, source: Src) -> Result<Self::TAsset, Self::Error>;
}

/// Names the loader that `load_asset` uses for an asset type and sources
/// of type `Src`.
pub trait AssetHasDefaultLoader<Src>: Sized {
    type Loader: AssetsLoader<Src, TAsset = Self>;
}

/// The identity of an asset type.
#[derive(Debug, Clone, Copy)]
pub struct AssetTypeId(TypeId);

impl AssetTypeId {
    /// Whether this is an identity that `TypeId::of` gives for `TAsset`.
    /// It says where an identity comes from and nothing of the identity
    /// itself: two identities of one type are not known to be equal, nor
    /// those of two types to differ.
    pub closed spec fn is_identity_of<TAsset: Asset + 'static>(self) -> bool {
        call_ensures(erased::type_id_of::<TAsset>, (), self.0)
    }

    /// The identity of `TAsset`: what `TypeId::of` gives for it.
    pub fn of<TAsset: Asset + 'static>() -> (id: Self)
        ensures
            id.is_identity_of::<TAsset>(),
    {
        Self(erased::type_id_of::<TAsset>())
    }
}

impl Key for AssetTypeId {
    fn same(&self, other: &Self) -> (same: bool) {
        erased::same_type_id(&self.0, &other.0)
    }
}

/// The identity of a loader for one type of source: the type of the loader
/// together with the type of the source.
#[derive(Debug, Clone, Copy)]
pub struct LoaderTypeId {
    loader: TypeId,
    source: TypeId,
}

impl LoaderTypeId {
    /// Whether this is made of an identity that `TypeId::of` gives for
    /// `Loader` and one that it gives for `Src`. As for `AssetTypeId`,
    /// nothing follows of the identity itself.
    pub closed spec fn is_identity_of<Loader: AssetsLoader<Src> + 'static, Src: 'static>(self) -> bool {
        &&& call_ensures(erased::type_id_of::<Loader>, (), self.loader)
        &&& call_ensures(erased::type_id_of::<Src>, (), self.source)
    }

    /// The identity of `Loader` as a loader of `Src`: what `TypeId::of`
    /// gives for the one, together with what it gives for the other.
    pub fn of<Loader: AssetsLoader<Src> + 'static, Src: 'static>() -> (id: Self)
        ensures
            id.is_identity_of::<Loader, Src>(),
    {
        Self { loader: erased::type_id_of::<Loader>(), source: erased::type_id_of::<Src>() }
    }
}

impl Key for LoaderTypeId {
    fn same(&self, other: &Self) -> (same: bool) {
        erased::same_type_id(&self.loader, &other.loader) && erased::same_type_id(
            &self.source,
            &other.source,
        )
    }
}

/// Why an operation of the registry failed. `E` is the error of the loader
/// involved.
#[derive(Debug)]
pub enum AssetsManagerError<E> {
    /// The asset type already has a storage.
    AssetAlreadyRegistered(AssetTypeId),
    /// The asset type has no storage.
    UnregisteredAsset(AssetTypeId),
    /// No loader is registered under this identity.
    UnregisteredLoader(LoaderTypeId),
    /// The loader failed.
    LoadingError(E),
    /// The storage of the asset type has issued every id.
    StorageFull(AssetTypeId),
}

impl<E> From<E> for AssetsManagerError<E> {
    /// The error of a loader, as an error of the registry.
    fn from(error: E) -> (wrapped: Self) {
        Self::LoadingError(error)
    }
}

impl<E> FromSpecImpl<E> for AssetsManagerError<E> {
    open spec fn obeys_from_spec() -> bool {
        true
    }

    open spec fn from_spec(error: E) -> Self {
        AssetsManagerError::LoadingError(error)
    }
}

/// Whether `found` is what a downcast of `erased` to `V` gives: the value
/// inside, if it is a `V`, and nothing otherwise. By itself this says where
/// `found` comes from and not what it is; what it is follows where the box
/// is known to hold a value (`Erased::holds`).
pub closed spec fn downcast_of<V: 'static>(erased: Erased, found: Option<&V>) -> bool {
    call_ensures(Erased::downcast_ref::<V>, (&erased,), found)
}

/// Whether `found` is what a downcast of a mutable reference to `erased`
/// gives: the value inside, to be changed in place, if it is a `V`, and
/// nothing otherwise. As `downcast_of`, it says where `found` comes from
/// and not what it is.
pub closed spec fn downcast_mut_of<V: 'static>(erased: Erased, found: Option<&mut V>) -> bool {
    exists|entry: &mut Erased|
        *entry == erased && #[trigger] call_ensures(Erased::downcast_mut::<V>, (entry,), found)
}

/// Whether `erased` is what erasing `value` gave: what `Box::new` made of
/// it. It says where the box comes from; that the box holds `value` is
/// `Erased::holds`.
pub closed spec fn erased_of<V: 'static>(value: V, erased: Erased) -> bool {
    call_ensures(Erased::new::<V>, (value,), erased)
}

/// The asset that `handle` refers to in the storage that a lookup gave, if
/// it gave one and the storage has issued the id of the handle.
pub open spec fn resolved_in<TAsset>(storage: Option<&AssetsStorage<TAsset>>, handle: AssetHandle<TAsset>) -> Option<
    &TAsset,
> {
    match storage {
        Some(found) => if handle@ < found@.len() {
            Some(&found@[handle@ as int])
        } else {
            None
        },
        None => None,
    }
}

/// Whether `stored` is what storing an asset gives for `found`, the
/// outcome of looking up the storage under `key`: `UnregisteredAsset`
/// without a storage, `StorageFull` for one that has issued every id, and
/// otherwise the handle with the next id.
pub open spec fn stored_as<TAsset, E>(
    found: Option<&mut AssetsStorage<TAsset>>,
    key: AssetTypeId,
    stored: Result<AssetHandle<TAsset>, AssetsManagerError<E>>,
) -> bool {
    match found {
        Some(storage) => if storage@.len() >= u32::MAX {
            stored == Err::<AssetHandle<TAsset>, AssetsManagerError<E>>(AssetsManagerError::StorageFull(key))
        } else {
            stored matches Ok(handle) && handle@ == storage@.len()
        },
        None => stored == Err::<AssetHandle<TAsset>, AssetsManagerError<E>>(
            AssetsManagerError::UnregisteredAsset(key),
        ),
    }
}

/// The storage that a lookup under `key` found, or `UnregisteredAsset`.
pub open spec fn found_or_unregistered<TAsset, E>(found: Option<&AssetsStorage<TAsset>>, key: AssetTypeId) -> Result<
    &AssetsStorage<TAsset>,
    AssetsManagerError<E>,
> {
    match found {
        Some(found) => Ok(found),
        None => Err(AssetsManagerError::UnregisteredAsset(key)),
    }
}

/// What a registry holds: the erased storage of each registered asset
/// type, and each registered loader.
pub struct AssetsManagerView {
    pub storages: Map<AssetTypeId, Erased>,
    pub loaders: Map<LoaderTypeId, Erased>,
}

impl AssetsManagerView {
    /// This registry with the value `storage` under `key` and everything
    /// else as it was.
    pub open spec fn with_storage(self, key: AssetTypeId, storage: Erased) -> Self {
        AssetsManagerView { storages: self.storages.insert(key, storage), ..self }
    }

    /// This registry with the value `loader` under `key` and everything
    /// else as it was.
    pub open spec fn with_loader(self, key: LoaderTypeId, loader: Erased) -> Self {
        AssetsManagerView { loaders: self.loaders.insert(key, loader), ..self }
    }

    /// This registry after a storage was registered under `key`: where
    /// `key` had a storage nothing changes, and elsewhere `storage` is put
    /// under `key`.
    pub open spec fn register(self, key: AssetTypeId, storage: Erased) -> Self {
        if self.storages.contains_key(key) {
            self
        } else {
            self.with_storage(key, storage)
        }
    }

    /// Whether `key` has a storage of `TAsset` that holds `contents`, each
    /// asset at the place of its id.
    pub open spec fn stores<TAsset: 'static>(self, key: AssetTypeId, contents: Seq<TAsset>) -> bool {
        &&& self.storages.contains_key(key)
        &&& exists|storage: AssetsStorage<TAsset>| #[trigger]
            self.storages[key].holds(storage) && storage@ == contents
    }

    /// Whether `after` and `registered` are what registering a storage of
    /// `TAsset` under `key` makes of this registry. A free key gets an
    /// empty storage, which is what erasing one gave; a taken key is
    /// reported and nothing changes.
    pub open spec fn registers<TAsset: 'static>(
        self,
        after: Self,
        key: AssetTypeId,
        registered: Result<(), AssetsManagerError<()>>,
    ) -> bool {
        &&& registered is Ok <==> !self.storages.contains_key(key)
        &&& registered matches Err(error) ==> error matches AssetsManagerError::AssetAlreadyRegistered(taken)
            && taken == key
        &&& after == self.register(key, after.storages[key])
        &&& after.storages.contains_key(key)
        &&& registered is Ok ==> after.stores::<TAsset>(key, Seq::empty())
        &&& registered is Ok ==> exists|storage: AssetsStorage<TAsset>|
            storage@ == Seq::<TAsset>::empty() && #[trigger] erased_of(storage, after.storages[key])
    }

    /// Whether `after` is this registry with `loader` under `key`, in
    /// place of the loader that `key` may have had: the value under `key`
    /// is what erasing `loader` gave, and holds it.
    pub open spec fn installs<Loader: 'static>(self, after: Self, key: LoaderTypeId, loader: Loader) -> bool {
        &&& after.loaders.contains_key(key)
        &&& after == self.with_loader(key, after.loaders[key])
        &&& erased_of(loader, after.loaders[key])
        &&& after.loaders[key].holds(loader)
    }

    /// Whether `after` and `stored` are what storing `asset` under `key`
    /// makes of this registry.
    ///
    /// Without a value under `key` the call fails with `UnregisteredAsset`.
    /// With one, the result goes by what a downcast of it to a storage of
    /// `TAsset` gives, as `stored_as` says. Where `key` is known to have a
    /// storage with room, the call succeeds: the handle has the next id
    /// and the storage then holds `asset` behind what it held. A failed
    /// call changes nothing, a successful one the value under `key` alone.
    pub open spec fn stores_asset<TAsset: 'static, E>(
        self,
        after: Self,
        key: AssetTypeId,
        asset: TAsset,
        stored: Result<AssetHandle<TAsset>, AssetsManagerError<E>>,
    ) -> bool {
        &&& stored is Err ==> after == self
        &&& stored is Ok ==> self.storages.contains_key(key) && after == self.with_storage(key, after.storages[key])
        &&& !self.storages.contains_key(key) ==> stored == Err::<AssetHandle<TAsset>, AssetsManagerError<E>>(
            AssetsManagerError::UnregisteredAsset(key),
        )
        &&& self.storages.contains_key(key) ==> exists|found: Option<&mut AssetsStorage<TAsset>>| #[trigger]
            downcast_mut_of(self.storages[key], found) && stored_as(found, key, stored)
        &&& forall|contents: Seq<TAsset>| #[trigger]
            self.stores(key, contents) ==> if contents.len() >= u32::MAX {
                stored == Err::<AssetHandle<TAsset>, AssetsManagerError<E>>(AssetsManagerError::StorageFull(key))
            } else {
                stored matches Ok(handle) && handle@ == contents.len() && after.stores(key, contents.push(asset))
            }
    }

    /// Whether `after` and `loaded` are what is made of `outcome`, the
    /// result of a loader: its error is handed on as `LoadingError` and
    /// nothing changes, and its asset is stored under `key`.
    pub open spec fn stores_loaded<TAsset: 'static, E>(
        self,
        after: Self,
        key: AssetTypeId,
        outcome: Result<TAsset, E>,
        loaded: Result<AssetHandle<TAsset>, AssetsManagerError<E>>,
    ) -> bool {
        match outcome {
            Ok(asset) => self.stores_asset(after, key, asset, loaded),
            Err(error) => after == self && loaded == Err::<AssetHandle<TAsset>, AssetsManagerError<E>>(
                AssetsManagerError::LoadingError(error),
            ),
        }
    }

    /// Whether `after` and `loaded` are what loading from `source` makes
    /// of this registry, with the loader under `loader_key` and the
    /// storage under `asset_key`.
    ///
    /// Without a value under `loader_key`, and with one that a downcast
    /// finds to be no `Loader`, the call fails with `UnregisteredLoader`
    /// and nothing changes. Otherwise the loader that the downcast gives
    /// is called with `source`, and what it returns is dealt with as
    /// `stores_loaded` says. Where `loader_key` is known to hold a loader,
    /// that is the loader called.
    pub open spec fn loads<TAsset: 'static, Loader: AssetsLoader<Src, TAsset = TAsset> + 'static, Src>(
        self,
        after: Self,
        loader_key: LoaderTypeId,
        asset_key: AssetTypeId,
        source: Src,
        loaded: Result<AssetHandle<TAsset>, AssetsManagerError<Loader::Error>>,
    ) -> bool {
        &&& !self.loaders.contains_key(loader_key) ==> after == self && loaded == Err::<
            AssetHandle<TAsset>,
            AssetsManagerError<Loader::Error>,
        >(AssetsManagerError::UnregisteredLoader(loader_key))
        &&& self.loaders.contains_key(loader_key) ==> exists|found: Option<&Loader>| #[trigger]
            downcast_of(self.loaders[loader_key], found) && (found is None <==> (
            loaded matches Err(AssetsManagerError::UnregisteredLoader(_)))) && (match found {
                Some(loader) => exists|outcome: Result<TAsset, Loader::Error>| #[trigger]
                    call_ensures(Loader::load, (loader, source), outcome) && self.stores_loaded(
                        after,
                        asset_key,
                        outcome,
                        loaded,
                    ),
                None => after == self && loaded == Err::<AssetHandle<TAsset>, AssetsManagerError<Loader::Error>>(
                    AssetsManagerError::UnregisteredLoader(loader_key),
                ),
            })
        &&& forall|held: Loader|
            self.loaders.contains_key(loader_key) && #[trigger] self.loaders[loader_key].holds(held) ==> exists|
                outcome: Result<TAsset, Loader::Error>,
            | #[trigger]
                call_ensures(Loader::load, (&held, source), outcome) && self.stores_loaded(
                    after,
                    asset_key,
                    outcome,
                    loaded,
                )
    }

    /// Whether `storage` is what looking up the storage of `TAsset` under
    /// `key` gives: what a downcast of the value under `key` gives, or
    /// `UnregisteredAsset` where there is no value or it is no such
    /// storage. Where `key` is known to hold a storage, that is the result.
    pub open spec fn finds_storage<TAsset: 'static, E>(
        self,
        key: AssetTypeId,
        storage: Result<&AssetsStorage<TAsset>, AssetsManagerError<E>>,
    ) -> bool {
        &&& !self.storages.contains_key(key) ==> storage == Err::<&AssetsStorage<TAsset>, AssetsManagerError<E>>(
            AssetsManagerError::UnregisteredAsset(key),
        )
        &&& self.storages.contains_key(key) ==> exists|found: Option<&AssetsStorage<TAsset>>| #[trigger]
            downcast_of(self.storages[key], found) && storage == found_or_unregistered::<TAsset, E>(found, key)
        &&& forall|held: AssetsStorage<TAsset>|
            self.storages.contains_key(key) && #[trigger] self.storages[key].holds(held) ==> storage == Ok::<
                &AssetsStorage<TAsset>,
                AssetsManagerError<E>,
            >(&held)
    }

    /// Whether `storage` is what looking up the storage of `TAsset` under
    /// `key`, to change it in place, gives and makes of this registry.
    pub open spec fn finds_storage_mut<TAsset: 'static, E>(
        self,
        after: Self,
        key: AssetTypeId,
        storage: Result<&mut AssetsStorage<TAsset>, AssetsManagerError<E>>,
    ) -> bool {
        &&& storage is Err ==> after == self
        &&& storage matches Err(error) ==> error matches AssetsManagerError::UnregisteredAsset(missing) && missing
            == key
        &&& !self.storages.contains_key(key) ==> storage is Err
        &&& storage is Ok ==> self.storages.contains_key(key) && after == self.with_storage(key, after.storages[key])
        &&& self.storages.contains_key(key) ==> exists|found: Option<&mut AssetsStorage<TAsset>>| #[trigger]
            downcast_mut_of(self.storages[key], found) && (found is Some <==> storage is Ok)
        &&& forall|held: AssetsStorage<TAsset>|
            self.storages.contains_key(key) && #[trigger] self.storages[key].holds(held) ==> (
            storage matches Ok(found) && *found == held)
    }

    /// Whether `asset` is what `handle` resolves to under `key`: nothing
    /// where `key` has no value, and elsewhere what the handle refers to in
    /// what a downcast of that value to a storage of `TAsset` gives. Where
    /// `key` is known to have a storage, it is the asset at the place of
    /// the handle's id.
    pub open spec fn resolves<TAsset: 'static>(
        self,
        key: AssetTypeId,
        handle: AssetHandle<TAsset>,
        asset: Option<&TAsset>,
    ) -> bool {
        &&& if self.storages.contains_key(key) {
            exists|found: Option<&AssetsStorage<TAsset>>|
                #[trigger] downcast_of(self.storages[key], found) && asset == resolved_in(found, handle)
        } else {
            asset is None
        }
        &&& forall|contents: Seq<TAsset>| #[trigger]
            self.stores(key, contents) ==> asset == (if handle@ < contents.len() {
                Some(&contents[handle@ as int])
            } else {
                None
            })
    }

    /// Whether `after` is this registry with one more storage, under a key
    /// that had none.
    pub open spec fn registered(self, after: Self) -> bool {
        exists|key: AssetTypeId, storage: Erased|
            !self.storages.contains_key(key) && after == #[trigger] self.with_storage(key, storage)
    }

    /// Whether `after` is this registry with a change inside one of its
    /// storages and nothing else: the same asset types and the same
    /// loaders.
    pub open spec fn stored(self, after: Self) -> bool {
        exists|key: AssetTypeId, storage: Erased|
            self.storages.contains_key(key) && after == #[trigger] self.with_storage(key, storage)
    }

    /// Whether `after` is this registry with a loader put under one key, in
    /// place of the loader that the key may have had.
    pub open spec fn installed(self, after: Self) -> bool {
        exists|key: LoaderTypeId, loader: Erased| after == #[trigger] self.with_loader(key, loader)
    }

    /// Registering under one key twice: the second registration finds the
    /// key taken and changes nothing, so the storage of the first stays
    /// where it is, untouched.
    pub proof fn lemma_register_twice(self, key: AssetTypeId, first: Erased, second: Erased)
        ensures
            self.register(key, first).storages.contains_key(key),
            self.register(key, first).register(key, second) == self.register(key, first),
            !self.storages.contains_key(key) ==> self.register(key, first).register(key, second).storages[key]
                == first,
    {
    }

    /// Registering a storage touches no other storage and no loader.
    pub proof fn lemma_register_keeps_others(self, key: AssetTypeId, storage: Erased, other: AssetTypeId)
        requires
            other != key,
        ensures
            self.register(key, storage).loaders == self.loaders,
            self.register(key, storage).storages.contains_key(other) == self.storages.contains_key(other),
            self.storages.contains_key(other) ==> self.register(key, storage).storages[other]
                == self.storages[other],
    {
    }

    /// Storing an asset and then resolving the returned handle under the
    /// same key yields that very asset, and every handle issued before
    /// still resolves to what it resolved to.
    pub proof fn lemma_store_then_get<TAsset: 'static, E>(
        self,
        after: Self,
        key: AssetTypeId,
        contents: Seq<TAsset>,
        asset: TAsset,
        stored: Result<AssetHandle<TAsset>, AssetsManagerError<E>>,
        handle: AssetHandle<TAsset>,
        got: Option<&TAsset>,
    )
        requires
            self.stores(key, contents),
            contents.len() < u32::MAX,
            self.stores_asset(after, key, asset, stored),
            after.resolves(key, handle, got),
        ensures
            stored matches Ok(issued) && issued@ == contents.len(),
            after.stores(key, contents.push(asset)),
            handle == stored->Ok_0 ==> got == Some(&asset),
            handle@ < contents.len() ==> got == Some(&contents[handle@ as int]),
            handle@ > contents.len() ==> got is None,
    {
        assert(after.stores(key, contents.push(asset)));
    }

    /// What a storage holds stays as it is when a loader is installed or
    /// the value under another key changes.
    pub proof fn lemma_contents_are_kept<TAsset: 'static>(
        self,
        key: AssetTypeId,
        contents: Seq<TAsset>,
        other: AssetTypeId,
        storage: Erased,
        loader_key: LoaderTypeId,
        loader: Erased,
    )
        requires
            self.stores(key, contents),
            other != key,
        ensures
            self.with_storage(other, storage).stores(key, contents),
            self.with_loader(loader_key, loader).stores(key, contents),
    {
        let held = choose|held: AssetsStorage<TAsset>| #[trigger] self.storages[key].holds(held) && held@ == contents;
        assert(self.with_storage(other, storage).storages[key].holds(held));
        assert(self.with_loader(loader_key, loader).storages[key].holds(held));
    }

    /// A storage holds one sequence of assets and no other.
    pub proof fn lemma_contents_are_one<TAsset: 'static>(self, key: AssetTypeId, first: Seq<TAsset>, second: Seq<TAsset>)
        requires
            self.stores(key, first),
            self.stores(key, second),
        ensures
            first == second,
    {
        let one = choose|held: AssetsStorage<TAsset>| #[trigger] self.storages[key].holds(held) && held@ == first;
        let two = choose|held: AssetsStorage<TAsset>| #[trigger] self.storages[key].holds(held) && held@ == second;
        self.storages[key].lemma_holds_one(one, two);
    }

    /// A type that was registered under a key has an empty storage there,
    /// and registering under that key again fails and leaves the storage
    /// with what it holds by then.
    pub proof fn lemma_registered_storage<TAsset: 'static>(
        self,
        after: Self,
        key: AssetTypeId,
        registered: Result<(), AssetsManagerError<()>>,
        contents: Seq<TAsset>,
    )
        requires
            self.registers::<TAsset>(after, key, registered),
        ensures
            registered is Ok ==> after.stores::<TAsset>(key, Seq::empty()),
            self.stores(key, contents) ==> registered is Err && after.stores(key, contents),
    {
    }

    /// A loader that is registered under a key is the one that a load
    /// under that key calls: the last one registered there.
    pub proof fn lemma_installed_loader_is_called<
        TAsset: 'static,
        Loader: AssetsLoader<Src, TAsset = TAsset> + 'static,
        Src,
    >(
        self,
        installed: Self,
        after: Self,
        loader_key: LoaderTypeId,
        loader: Loader,
        asset_key: AssetTypeId,
        source: Src,
        loaded: Result<AssetHandle<TAsset>, AssetsManagerError<Loader::Error>>,
    )
        requires
            self.installs(installed, loader_key, loader),
            installed.loads::<TAsset, Loader, Src>(after, loader_key, asset_key, source, loaded),
        ensures
            !(loaded matches Err(AssetsManagerError::UnregisteredLoader(_))),
            exists|outcome: Result<TAsset, Loader::Error>| #[trigger]
                call_ensures(Loader::load, (&loader, source), outcome) && installed.stores_loaded(
                    after,
                    asset_key,
                    outcome,
                    loaded,
                ),
    {
        assert(installed.loaders[loader_key].holds(loader));
        let outcome = choose|outcome: Result<TAsset, Loader::Error>| #[trigger]
            call_ensures(Loader::load, (&loader, source), outcome) && installed.stores_loaded(
                after,
                asset_key,
                outcome,
                loaded,
            );
        assert(installed.stores_loaded(after, asset_key, outcome, loaded));
    }

    /// Nothing is ever removed: whatever a successful call changes, every
    /// asset type keeps a storage and every loader identity a loader.
    pub proof fn lemma_nothing_is_removed(self, after: Self)
        requires
            self.registered(after) || self.stored(after) || self.installed(after),
        ensures
            forall|key: AssetTypeId| self.storages.contains_key(key) ==> after.storages.contains_key(key),
            forall|key: LoaderTypeId| self.loaders.contains_key(key) ==> after.loaders.contains_key(key),
            self.stored(after) ==> after.storages.dom() == self.storages.dom() && after.loaders == self.loaders,
            self.registered(after) ==> after.loaders == self.loaders,
            self.installed(after) ==> after.storages == self.storages,
    {
        if self.stored(after) {
            assert(after.storages.dom() =~= self.storages.dom());
        }
    }

    /// Registering a loader under a key twice keeps the second loader: the
    /// last registration wins.
    pub proof fn lemma_last_loader_wins(self, key: LoaderTypeId, first: Erased, second: Erased)
        ensures
            self.with_loader(key, first).with_loader(key, second) == self.with_loader(key, second),
            self.with_loader(key, first).with_loader(key, second).loaders[key] == second,
            self.with_loader(key, first).storages == self.storages,
    {
        assert(self.with_loader(key, first).with_loader(key, second).loaders =~= self.with_loader(
            key,
            second,
        ).loaders);
    }
}

/// The asset registry.
pub struct AssetsManager {
    storages: KeyMap<AssetTypeId, Erased>,
    loaders: KeyMap<LoaderTypeId, Erased>,
}

impl View for AssetsManager {
    type V = AssetsManagerView;

    closed spec fn view(&self) -> AssetsManagerView {
        AssetsManagerView { storages: self.storages@, loaders: self.loaders@ }
    }
}

impl AssetsManager {
    /// The invariant of a registry. `new` establishes it and every method
    /// keeps it.
    pub closed spec fn wf(&self) -> bool {
        self.storages.wf() && self.loaders.wf()
    }

    /// A registry without asset types and without loaders.
    pub fn new() -> (manager: Self)
        ensures
            manager.wf(),
            manager@.storages == Map::<AssetTypeId, Erased>::empty(),
            manager@.loaders == Map::<LoaderTypeId, Erased>::empty(),
    {
        Self { storages: KeyMap::new(), loaders: KeyMap::new() }
    }

    /// Whether a storage is registered under `key`.
    pub fn has_storage(&self, key: &AssetTypeId) -> (present: bool)
        requires
            self.wf(),
        ensures
            present == self@.storages.contains_key(*key),
    {
        self.storages.contains_key(key)
    }

    /// Whether a loader is registered under `key`.
    pub fn has_loader(&self, key: &LoaderTypeId) -> (present: bool)
        requires
            self.wf(),
        ensures
            present == self@.loaders.contains_key(*key),
    {
        self.loaders.contains_key(key)
    }

    /// Puts an empty storage of `TAsset` under `key`. Fails with
    /// `AssetAlreadyRegistered` exactly if `key` has a storage already; the
    /// registry then stays as it is, that storage included.
    pub fn register_storage<TAsset: 'static + Asset>(&mut self, key: AssetTypeId) -> (registered: Result<
        (),
        AssetsManagerError<()>,
    >)
        requires
            old(self).wf(),
        ensures
            final(self).wf(),
            old(self)@.registers::<TAsset>(final(self)@, key, registered),
    {
        if self.storages.contains_key(&key) {
            Err(AssetsManagerError::AssetAlreadyRegistered(key))
        } else {
            let storage = AssetsStorage::<TAsset>::new();
            let ghost empty = storage;
            let erased = Erased::new(storage);
            let ghost boxed = erased;
            assert(erased_of(empty, boxed));
            self.storages.insert(key, erased);
            proof {
                assert(self@.storages[key] == boxed);
                assert(boxed.holds(empty) && empty@ == Seq::<TAsset>::empty());
                assert(self@.stores::<TAsset>(key, Seq::empty()));
                assert(self@ == old(self)@.with_storage(key, boxed));
            }
            Ok(())
        }
    }

    /// Gives `TAsset` an empty storage. Fails with `AssetAlreadyRegistered`
    /// if the type has one already, which is then left untouched, as is
    /// the rest of the registry.
    pub fn register_assets_type<TAsset: 'static + Asset>(&mut self) -> (registered: Result<(), AssetsManagerError<()>>)
        requires
            old(self).wf(),
        ensures
            final(self).wf(),
            exists|key: AssetTypeId| #[trigger]
                key.is_identity_of::<TAsset>() && old(self)@.registers::<TAsset>(final(self)@, key, registered),
            match registered {
                Ok(_) => old(self)@.registered(final(self)@),
                Err(error) => final(self)@ == old(self)@ && (error matches AssetsManagerError::AssetAlreadyRegistered(
                    key,
                ) && old(self)@.storages.contains_key(key)),
            },
            old(self)@.storages == Map::<AssetTypeId, Erased>::empty() ==> registered is Ok,
    {
        let key = AssetTypeId::of::<TAsset>();
        let registered = self.register_storage::<TAsset>(key);
        proof {
            if registered is Ok {
                assert(self@ == old(self)@.with_storage(key, self@.storages[key]));
            }
        }
        registered
    }

    /// The value under `key` as a storage of `TAsset`: what a downcast of
    /// that value gives, and nothing where `key` has no value.
    pub fn find_storage<TAsset: 'static + Asset>(&self, key: AssetTypeId) -> (found: Option<&AssetsStorage<TAsset>>)
        requires
            self.wf(),
        ensures
            !self@.storages.contains_key(key) ==> found is None,
            self@.storages.contains_key(key) ==> downcast_of(self@.storages[key], found),
            forall|storage: AssetsStorage<TAsset>|
                self@.storages.contains_key(key) && #[trigger] self@.storages[key].holds(storage) ==> found == Some(
                    &storage,
                ),
    {
        match self.storages.get(&key) {
            Some(erased) => {
                let found = erased.downcast_ref::<AssetsStorage<TAsset>>();
                proof {
                    assert forall|storage: AssetsStorage<TAsset>| #[trigger] erased.holds(storage) implies found
                        == Some(&storage) by {
                        erased.lemma_downcast_of_held(storage, found);
                    }
                }
                found
            },
            None => None,
        }
    }

    /// The value under `key` as a storage of `TAsset`, to be changed in
    /// place: what a downcast of a mutable reference to that value gives,
    /// and nothing where `key` has no value. Nothing else in the registry changes,
    /// and nothing at all where the storage is not found or is left as it
    /// is.
    pub fn find_storage_mut<TAsset: 'static + Asset>(&mut self, key: AssetTypeId) -> (found: Option<
        &mut AssetsStorage<TAsset>,
    >)
        requires
            old(self).wf(),
        ensures
            final(self).wf(),
            !old(self)@.storages.contains_key(key) ==> found is None,
            found is None ==> final(self)@ == old(self)@,
            found is Some ==> old(self)@.storages.contains_key(key) && final(self)@ == old(self)@.with_storage(
                key,
                final(self)@.storages[key],
            ),
            found matches Some(storage) ==> (*final(storage) == *storage ==> final(self)@ == old(self)@),
            old(self)@.storages.contains_key(key) ==> downcast_mut_of(old(self)@.storages[key], found),
            forall|storage: AssetsStorage<TAsset>|
                old(self)@.storages.contains_key(key) && #[trigger] old(self)@.storages[key].holds(storage) ==> (
                found matches Some(found) && *found == storage),
            found matches Some(found) ==> final(self)@.storages[key].holds(*final(found)),
    {
        let found = match self.storages.get_mut(&key) {
            Some(erased) => erased.downcast_mut::<AssetsStorage<TAsset>>(),
            None => None,
        };
        proof {
            let after = after_borrow(*self);
            if found is None {
                assert(after@.storages =~= old(self)@.storages);
            } else {
                assert(after@ == old(self)@.with_storage(key, after@.storages[key]));
                assert(*final(found->Some_0) == *(found->Some_0) ==> after@.storages =~= old(self)@.storages);
            }
        }
        found
    }

    /// What `get_storage` makes of a lookup: the storage that was found,
    /// or `UnregisteredAsset` with the key that was looked up.
    pub fn storage_or_unregistered<'a, TAsset, E>(
        found: Option<&'a AssetsStorage<TAsset>>,
        key: AssetTypeId,
    ) -> (storage: Result<&'a AssetsStorage<TAsset>, AssetsManagerError<E>>)
        ensures
            match found {
                Some(found) => storage == Ok::<&AssetsStorage<TAsset>, AssetsManagerError<E>>(found),
                None => storage == Err::<&AssetsStorage<TAsset>, AssetsManagerError<E>>(
                    AssetsManagerError::UnregisteredAsset(key),
                ),
            },
    {
        match found {
            Some(found) => Ok(found),
            None => Err(AssetsManagerError::UnregisteredAsset(key)),
        }
    }

    /// The storage of `TAsset`, if the type has one.
    pub fn get_storage<TAsset: 'static + Asset, E>(&self) -> (storage: Result<&AssetsStorage<TAsset>, AssetsManagerError<E>>)
        requires
            self.wf(),
        ensures
            exists|key: AssetTypeId| #[trigger] key.is_identity_of::<TAsset>() && self@.finds_storage(key, storage),
            storage matches Err(error) ==> error is UnregisteredAsset,
            self@.storages == Map::<AssetTypeId, Erased>::empty() ==> storage is Err,
    {
        let key = AssetTypeId::of::<TAsset>();
        let found = self.find_storage(key);
        let storage = Self::storage_or_unregistered(found, key);
        proof {
            if self@.storages.contains_key(key) {
                assert(downcast_of(self@.storages[key], found) && storage == found_or_unregistered::<TAsset, E>(
                    found,
                    key,
                ));
            }
            assert(self@.finds_storage(key, storage));
        }
        storage
    }

    /// The storage of `TAsset`, to be changed in place, if the type has
    /// one. Nothing else in the registry changes.
    pub fn get_storage_mut<TAsset: 'static + Asset, E>(&mut self) -> (storage: Result<
        &mut AssetsStorage<TAsset>,
        AssetsManagerError<E>,
    >)
        requires
            old(self).wf(),
        ensures
            final(self).wf(),
            exists|key: AssetTypeId| #[trigger]
                key.is_identity_of::<TAsset>() && old(self)@.finds_storage_mut(final(self)@, key, storage) && (
                storage matches Ok(found) ==> final(self)@.storages[key].holds(*final(found))),
            storage matches Err(error) ==> error is UnregisteredAsset && final(self)@ == old(self)@,
            storage is Ok ==> old(self)@.stored(final(self)@),
            storage matches Ok(storage) ==> (*final(storage) == *storage ==> final(self)@ == old(self)@),
            old(self)@.storages == Map::<AssetTypeId, Erased>::empty() ==> storage is Err,
    {
        let key = AssetTypeId::of::<TAsset>();
        let found = self.find_storage_mut(key);
        let ghost outcome = found;
        let storage = match found {
            Some(storage) => Ok(storage),
            None => Err(AssetsManagerError::UnregisteredAsset(key)),
        };
        proof {
            let after = after_borrow(*self);
            if old(self)@.storages.contains_key(key) {
                assert(downcast_mut_of(old(self)@.storages[key], outcome) && (outcome is Some <==> storage is Ok));
            }
            assert(old(self)@.finds_storage_mut(after@, key, storage));
        }
        storage
    }

    /// What `store_asset` does once the storage has been looked up under
    /// `key`: `storage` is what the lookup gave.
    ///
    /// Without a storage the call fails with `UnregisteredAsset`, and with
    /// one that has issued every id it fails with `StorageFull` and leaves
    /// the storage as it is. Otherwise `asset` is appended to the storage
    /// and gets the next id.
    pub fn store_in<TAsset, E>(storage: Option<&mut AssetsStorage<TAsset>>, key: AssetTypeId, asset: TAsset) -> (stored: Result<
        AssetHandle<TAsset>,
        AssetsManagerError<E>,
    >)
        ensures
            storage is None ==> stored == Err::<AssetHandle<TAsset>, AssetsManagerError<E>>(
                AssetsManagerError::UnregisteredAsset(key),
            ),
            storage matches Some(found) ==> (if found@.len() >= u32::MAX {
                stored == Err::<AssetHandle<TAsset>, AssetsManagerError<E>>(AssetsManagerError::StorageFull(key))
                    && *final(found) == *found
            } else {
                stored matches Ok(handle) && handle@ == found@.len() && final(found)@ == found@.push(asset)
            }),
    {
        match storage {
            Some(found) => {
                if found.is_full() {
                    Err(AssetsManagerError::StorageFull(key))
                } else {
                    Ok(found.store_asset(asset))
                }
            },
            None => Err(AssetsManagerError::UnregisteredAsset(key)),
        }
    }

    /// Puts `asset` into the storage of `TAsset` under `key` and returns
    /// its handle.
    ///
    /// Fails with `UnregisteredAsset` if `key` has no value, or has one
    /// that is no storage of `TAsset`, and with `StorageFull` if the
    /// storage has issued every id. A failed call leaves the registry as
    /// it was; a successful one changes the value under `key` and nothing
    /// else.
    pub fn store_asset_under<TAsset: 'static + Asset, E>(&mut self, key: AssetTypeId, asset: TAsset) -> (stored: Result<
        AssetHandle<TAsset>,
        AssetsManagerError<E>,
    >)
        requires
            old(self).wf(),
        ensures
            final(self).wf(),
            old(self)@.stores_asset(final(self)@, key, asset, stored),
    {
        let storage = self.find_storage_mut::<TAsset>(key);
        let ghost found = storage;
        let stored = Self::store_in(storage, key, asset);
        proof {
            if old(self)@.storages.contains_key(key) {
                assert(downcast_mut_of(old(self)@.storages[key], found) && stored_as(found, key, stored));
            }
            assert forall|contents: Seq<TAsset>| #[trigger] old(self)@.stores(key, contents) implies (
            if contents.len() >= u32::MAX {
                stored == Err::<AssetHandle<TAsset>, AssetsManagerError<E>>(AssetsManagerError::StorageFull(key))
            } else {
                stored matches Ok(handle) && handle@ == contents.len() && self@.stores(key, contents.push(asset))
            }) by {
                let held = choose|held: AssetsStorage<TAsset>| #[trigger]
                    old(self)@.storages[key].holds(held) && held@ == contents;
                assert(old(self)@.storages[key].holds(held));
                if contents.len() < u32::MAX {
                    assert(self@.storages[key].holds(*final(found->Some_0)));
                }
            }
        }
        stored
    }

    /// Puts `asset` into the storage of its type and returns its handle.
    /// Fails with `UnregisteredAsset` if the type has no storage and with
    /// `StorageFull` if the storage has issued every id; the registry is
    /// then as it was.
    pub fn store_asset<TAsset: 'static + Asset>(&mut self, asset: TAsset) -> (stored: Result<
        AssetHandle<TAsset>,
        AssetsManagerError<()>,
    >)
        requires
            old(self).wf(),
        ensures
            final(self).wf(),
            exists|key: AssetTypeId| #[trigger]
                key.is_identity_of::<TAsset>() && old(self)@.stores_asset(final(self)@, key, asset, stored),
            match stored {
                Ok(_) => old(self)@.stored(final(self)@),
                Err(error) => final(self)@ == old(self)@ && (error is UnregisteredAsset || (error matches AssetsManagerError::StorageFull(
                    key,
                ) && old(self)@.storages.contains_key(key))),
            },
            old(self)@.storages == Map::<AssetTypeId, Erased>::empty() ==> stored matches Err(
                AssetsManagerError::UnregisteredAsset(_),
            ),
    {
        let key = AssetTypeId::of::<TAsset>();
        let stored = self.store_asset_under(key, asset);
        proof {
            if old(self)@.storages.contains_key(key) {
                let found = choose|found: Option<&mut AssetsStorage<TAsset>>| #[trigger]
                    downcast_mut_of(old(self)@.storages[key], found) && stored_as(found, key, stored);
                assert(stored_as(found, key, stored));
            }
        }
        stored
    }

    /// What `get_asset` returns once the storage has been looked up:
    /// `storage` is what the lookup gave. The asset is the one with the id
    /// of `handle`, if there is a storage and it has issued that id.
    pub fn find_in<'a, TAsset>(storage: Option<&'a AssetsStorage<TAsset>>, handle: AssetHandle<TAsset>) -> (asset: Option<
        &'a TAsset,
    >)
        ensures
            asset == (match storage {
                Some(found) => if handle@ < found@.len() {
                    Some(&found@[handle@ as int])
                } else {
                    None
                },
                None => None,
            }),
    {
        match storage {
            Some(found) => found.find_asset(handle),
            None => None,
        }
    }

    /// The asset that `handle` refers to in the storage of `TAsset` under
    /// `key`, if there is such a storage and it holds the id of the handle.
    pub fn get_asset_under<TAsset: 'static + Asset>(&self, key: AssetTypeId, handle: AssetHandle<TAsset>) -> (asset: Option<
        &TAsset,
    >)
        requires
            self.wf(),
        ensures
            self@.resolves(key, handle, asset),
    {
        Self::find_in(self.find_storage(key), handle)
    }

    /// The asset that `handle` refers to, if the type has a storage and the
    /// storage holds the id of the handle. Nothing changes.
    pub fn get_asset<TAsset: 'static + Asset>(&self, handle: AssetHandle<TAsset>) -> (asset: Option<&TAsset>)
        requires
            self.wf(),
        ensures
            exists|key: AssetTypeId| #[trigger] key.is_identity_of::<TAsset>() && self@.resolves(key, handle, asset),
            self@.storages == Map::<AssetTypeId, Erased>::empty() ==> asset is None,
    {
        self.get_asset_under(AssetTypeId::of::<TAsset>(), handle)
    }

    /// Puts `loader` under `key`, in place of the loader that `key` may
    /// have had.
    pub fn install_loader<Loader: 'static>(&mut self, key: LoaderTypeId, loader: Loader)
        requires
            old(self).wf(),
        ensures
            final(self).wf(),
            old(self)@.installs(final(self)@, key, loader),
    {
        let erased = Erased::new(loader);
        assert(erased_of(loader, erased));
        self.loaders.insert(key, erased);
    }

    /// Registers `loader` as the loader of its type for sources of type
    /// `Src`. A loader registered before under the same two types is
    /// replaced.
    pub fn register_loader<Loader, TAsset, Src: 'static>(&mut self, loader: Loader) where
        Loader: AssetsLoader<Src, TAsset = TAsset> + 'static,
        TAsset: Asset + 'static,

        requires
            old(self).wf(),
        ensures
            final(self).wf(),
            exists|key: LoaderTypeId| #[trigger]
                key.is_identity_of::<Loader, Src>() && old(self)@.installs(final(self)@, key, loader),
            old(self)@.installed(final(self)@),
    {
        let key = LoaderTypeId::of::<Loader, Src>();
        self.install_loader(key, loader);
        proof {
            assert(self@ == old(self)@.with_loader(key, self@.loaders[key]));
        }
    }

    /// The value under `key` as a `Loader`: what a downcast of that value
    /// gives, and nothing where `key` has no value.
    pub fn find_loader<Loader: 'static>(&self, key: LoaderTypeId) -> (found: Option<&Loader>)
        requires
            self.wf(),
        ensures
            !self@.loaders.contains_key(key) ==> found is None,
            self@.loaders.contains_key(key) ==> downcast_of(self@.loaders[key], found),
            forall|loader: Loader|
                self@.loaders.contains_key(key) && #[trigger] self@.loaders[key].holds(loader) ==> found == Some(
                    &loader,
                ),
    {
        match self.loaders.get(&key) {
            Some(erased) => {
                let found = erased.downcast_ref::<Loader>();
                proof {
                    assert forall|loader: Loader| #[trigger] erased.holds(loader) implies found == Some(&loader) by {
                        erased.lemma_downcast_of_held(loader, found);
                    }
                }
                found
            },
            None => None,
        }
    }

    /// What `load_asset_with` does once the loader has been looked up and,
    /// where there is one, has run, and the storage has been looked up
    /// under `key`: `outcome` is the failed lookup of the loader or what
    /// the loader gave, and `storage` is what the lookup of the storage
    /// gave.
    ///
    /// A failed lookup of the loader and a failed load are handed on, the
    /// second as `LoadingError`, and leave the storage as it was. A loaded
    /// asset is stored as `store_in` stores it.
    pub fn store_loaded<TAsset, E>(
        storage: Option<&mut AssetsStorage<TAsset>>,
        key: AssetTypeId,
        outcome: Result<Result<TAsset, E>, AssetsManagerError<E>>,
    ) -> (loaded: Result<AssetHandle<TAsset>, AssetsManagerError<E>>)
        ensures
            outcome matches Err(error) ==> loaded == Err::<AssetHandle<TAsset>, AssetsManagerError<E>>(error),
            outcome matches Ok(Err(error)) ==> loaded == Err::<AssetHandle<TAsset>, AssetsManagerError<E>>(
                AssetsManagerError::LoadingError(error),
            ),
            !(outcome matches Ok(Ok(_))) ==> (storage matches Some(found) ==> *final(found) == *found),
            outcome matches Ok(Ok(asset)) ==> {
                &&& storage is None ==> loaded == Err::<AssetHandle<TAsset>, AssetsManagerError<E>>(
                    AssetsManagerError::UnregisteredAsset(key),
                )
                &&& storage matches Some(found) ==> (if found@.len() >= u32::MAX {
                    loaded == Err::<AssetHandle<TAsset>, AssetsManagerError<E>>(AssetsManagerError::StorageFull(key))
                        && *final(found) == *found
                } else {
                    loaded matches Ok(handle) && handle@ == found@.len() && final(found)@ == found@.push(asset)
                })
            },
    {
        match outcome {
            Ok(Ok(asset)) => Self::store_in(storage, key, asset),
            Ok(Err(error)) => Err(AssetsManagerError::from(error)),
            Err(error) => Err(error),
        }
    }

    /// Loads an asset from `source` with the loader of type `Loader` under
    /// `loader_key`, and stores it under `asset_key`.
    ///
    /// Fails with `UnregisteredLoader` if `loader_key` has no loader of
    /// that type, with `LoadingError` if the loader fails, and as
    /// `store_asset_under` does if the asset cannot be stored. The loader
    /// runs before the storage is looked up. A failed call leaves the
    /// registry as it was.
    pub fn load_asset_under<TAsset: 'static + Asset, Loader, Src>(
        &mut self,
        loader_key: LoaderTypeId,
        asset_key: AssetTypeId,
        source: Src,
    ) -> (loaded: Result<AssetHandle<TAsset>, AssetsManagerError<Loader::Error>>) where
        Loader: AssetsLoader<Src, TAsset = TAsset> + 'static,

        requires
            old(self).wf(),
        ensures
            final(self).wf(),
            !old(self)@.loaders.contains_key(loader_key) ==> (loaded matches Err(
                AssetsManagerError::UnregisteredLoader(missing),
            ) && missing == loader_key),
            loaded is Err ==> final(self)@ == old(self)@,
            loaded matches Err(error) ==> !(error is AssetAlreadyRegistered),
            loaded matches Err(AssetsManagerError::UnregisteredLoader(missing)) ==> missing == loader_key,
            loaded matches Err(AssetsManagerError::UnregisteredAsset(missing)) ==> missing == asset_key,
            loaded matches Err(AssetsManagerError::StorageFull(full)) ==> full == asset_key
                && old(self)@.storages.contains_key(asset_key),
            loaded is Ok ==> old(self)@.loaders.contains_key(loader_key) && old(self)@.storages.contains_key(
                asset_key,
            ) && final(self)@ == old(self)@.with_storage(asset_key, final(self)@.storages[asset_key]),
            old(self)@.loads::<TAsset, Loader, Src>(final(self)@, loader_key, asset_key, source, loaded),
    {
        let found = self.find_loader::<Loader>(loader_key);
        let ghost seen = found;
        let outcome = match found {
            Some(loader) => Ok(loader.load(source)),
            None => Err(AssetsManagerError::UnregisteredLoader(loader_key)),
        };
        let ghost given = outcome;
        let loaded = self.store_outcome(asset_key, outcome);
        proof {
            if old(self)@.loaders.contains_key(loader_key) {
                assert(downcast_of(old(self)@.loaders[loader_key], seen));
                if seen is Some {
                    assert(call_ensures(Loader::load, (seen->Some_0, source), given->Ok_0));
                }
            }
        }
        loaded
    }

    /// Looks up the storage under `key` and hands it, with `outcome`, to
    /// `store_loaded`.
    fn store_outcome<TAsset: 'static + Asset, E>(
        &mut self,
        key: AssetTypeId,
        outcome: Result<Result<TAsset, E>, AssetsManagerError<E>>,
    ) -> (loaded: Result<AssetHandle<TAsset>, AssetsManagerError<E>>)
        requires
            old(self).wf(),
        ensures
            final(self).wf(),
            match outcome {
                Ok(loaded_or_not) => old(self)@.stores_loaded(final(self)@, key, loaded_or_not, loaded),
                Err(error) => final(self)@ == old(self)@ && loaded == Err::<AssetHandle<TAsset>, AssetsManagerError<E>>(
                    error,
                ),
            },
    {
        let storage = self.find_storage_mut::<TAsset>(key);
        let ghost found = storage;
        let ghost given = outcome;
        let loaded = Self::store_loaded(storage, key, outcome);
        proof {
            if given is Ok && given->Ok_0 is Ok {
                let asset = given->Ok_0->Ok_0;
                if old(self)@.storages.contains_key(key) {
                    assert(downcast_mut_of(old(self)@.storages[key], found) && stored_as(found, key, loaded));
                }
                assert forall|contents: Seq<TAsset>| #[trigger] old(self)@.stores(key, contents) implies (
                if contents.len() >= u32::MAX {
                    loaded == Err::<AssetHandle<TAsset>, AssetsManagerError<E>>(AssetsManagerError::StorageFull(key))
                } else {
                    loaded matches Ok(handle) && handle@ == contents.len() && self@.stores(
                        key,
                        contents.push(asset),
                    )
                }) by {
                    let held = choose|held: AssetsStorage<TAsset>| #[trigger]
                        old(self)@.storages[key].holds(held) && held@ == contents;
                    assert(old(self)@.storages[key].holds(held));
                    if contents.len() < u32::MAX {
                        assert(self@.storages[key].holds(*final(found->Some_0)));
                    }
                }
            }
        }
        loaded
    }

    /// Loads an asset from `source` with the loader registered for
    /// `Loader` and `Src`, and stores it.
    ///
    /// Fails with `UnregisteredLoader` if there is no such loader, with
    /// `LoadingError` if the loader fails, and as `store_asset` does if the
    /// asset cannot be stored. A failed call leaves the registry as it
    /// was; a successful one changes the storage of `TAsset` and nothing
    /// else.
    pub fn load_asset_with<TAsset: 'static + Asset, Loader, Src: 'static>(&mut self, source: Src) -> (loaded: Result<
        AssetHandle<TAsset>,
        AssetsManagerError<Loader::Error>,
    >) where Loader: AssetsLoader<Src, TAsset = TAsset> + 'static
        requires
            old(self).wf(),
        ensures
            final(self).wf(),
            exists|loader_key: LoaderTypeId, asset_key: AssetTypeId|
                #![trigger loader_key.is_identity_of::<Loader, Src>(), asset_key.is_identity_of::<TAsset>()]
                loader_key.is_identity_of::<Loader, Src>() && asset_key.is_identity_of::<TAsset>()
                    && old(self)@.loads::<TAsset, Loader, Src>(final(self)@, loader_key, asset_key, source, loaded),
            match loaded {
                Ok(_) => old(self)@.stored(final(self)@),
                Err(error) => final(self)@ == old(self)@ && !(error is AssetAlreadyRegistered) && (error matches AssetsManagerError::StorageFull(
                    key,
                ) ==> old(self)@.storages.contains_key(key)),
            },
            old(self)@.loaders == Map::<LoaderTypeId, Erased>::empty() ==> loaded matches Err(
                AssetsManagerError::UnregisteredLoader(_),
            ),
    {
        let loader_key = LoaderTypeId::of::<Loader, Src>();
        let asset_key = AssetTypeId::of::<TAsset>();
        self.load_asset_under::<TAsset, Loader, Src>(loader_key, asset_key, source)
    }

    /// `load_asset_with` the default loader of `TAsset` for sources of
    /// type `Src`.
    pub fn load_asset<TAsset, Src: 'static>(&mut self, source: Src) -> (loaded: Result<
        AssetHandle<TAsset>,
        AssetsManagerError<<TAsset::Loader as AssetsLoader<Src>>::Error>,
    >) where TAsset: Asset + AssetHasDefaultLoader<Src> + 'static, TAsset::Loader: 'static
        requires
            old(self).wf(),
        ensures
            final(self).wf(),
            exists|loader_key: LoaderTypeId, asset_key: AssetTypeId|
                #![trigger loader_key.is_identity_of::<TAsset::Loader, Src>(), asset_key.is_identity_of::<TAsset>()]
                loader_key.is_identity_of::<TAsset::Loader, Src>() && asset_key.is_identity_of::<TAsset>()
                    && old(self)@.loads::<TAsset, TAsset::Loader, Src>(
                    final(self)@,
                    loader_key,
                    asset_key,
                    source,
                    loaded,
                ),
            match loaded {
                Ok(_) => old(self)@.stored(final(self)@),
                Err(error) => final(self)@ == old(self)@ && !(error is AssetAlreadyRegistered) && (error matches AssetsManagerError::StorageFull(
                    key,
                ) ==> old(self)@.storages.contains_key(key)),
            },
            old(self)@.loaders == Map::<LoaderTypeId, Erased>::empty() ==> loaded matches Err(
                AssetsManagerError::UnregisteredLoader(_),
            ),
    {
        self.load_asset_with::<TAsset, TAsset::Loader, Src>(source)
    }
}

} // verus!
