//! The weak-reference asset cache: entries keyed by path and asset type that
//! resolve to an asset only while some strong reference to it is held.

use vstd::prelude::*;

use crate::entries::{
    has_key, keys_unique, lemma_map_of_entry, lemma_map_of_push, lemma_map_of_remove, map_of,
};

verus! {

/// Identity of an asset type; the host gives each asset type its own.
pub type TypeKey = u64;

/// Key of a cache entry: a resource path and an asset type.
pub type AssetKey = (Seq<char>, TypeKey);

/// Marker for the plugin that provides the shared [`AssetCache`].
pub struct AssetPlugin;

impl AssetPlugin {
    /// The shared asset cache, empty.
    pub fn build<A>(&self) -> (r: AssetCache<A>)
        ensures
            r.wf(),
            r.entries() == Map::<AssetKey, usize>::empty(),
            r.slot_count() == 0,
    {
        AssetCache::new()
    }
}

/// First step of loading an asset: the cached asset, or the news that it must be
/// loaded.
pub enum LoadStep {
    /// The entry resolved: a new strong reference, and no loading is needed.
    Cached(AssetRef),
    /// No entry resolved: run the asset type's load procedure, then `store_loaded`.
    Load,
}

/// A strong reference to an asset held by an [`AssetCache`]. While one exists for
/// an asset, the asset stays loaded and its cache entry resolves. It is not
/// `Clone`: a further reference comes from [`AssetCache::retain`], and each one
/// is given back with [`AssetCache::release`]. The count is explicit: a reference
/// dropped without `release` keeps its asset loaded.
pub struct AssetRef {
    slot: usize,
}

impl View for AssetRef {
    type V = usize;

    closed spec fn view(&self) -> usize {
        self.slot
    }
}

impl AssetRef {
    /// The storage slot of the asset.
    pub fn slot(&self) -> (r: usize)
        ensures
            r == self@,
    {
        self.slot
    }
}

struct CacheEntry {
    path: String,
    type_key: TypeKey,
    slot: usize,
}

struct AssetSlot<A> {
    asset: Option<A>,
    strong: usize,
}

spec fn entry_seq(v: Seq<CacheEntry>) -> Seq<(AssetKey, usize)> {
    v.map_values(|e: CacheEntry| ((e.path@, e.type_key), e.slot))
}

/// Assets in storage slots with counts of strong references, and non-owning
/// entries that map a path and asset type to a slot.
pub struct AssetCache<A> {
    cache: Vec<CacheEntry>,
    slots: Vec<AssetSlot<A>>,
}

impl<A> AssetCache<A> {
    /// The entries: for each key, the slot it refers to.
    pub closed spec fn entries(&self) -> Map<AssetKey, usize> {
        map_of(entry_seq(self.cache@))
    }

    /// Number of storage slots handed out so far.
    pub closed spec fn slot_count(&self) -> nat {
        self.slots@.len()
    }

    /// Number of strong references to the asset in `slot`.
    pub closed spec fn count_of(&self, slot: usize) -> nat {
        if slot < self.slots@.len() {
            self.slots@[slot as int].strong as nat
        } else {
            0
        }
    }

    /// The asset in `slot`, while it is loaded.
    pub closed spec fn asset_at(&self, slot: usize) -> Option<A> {
        if slot < self.slots@.len() {
            self.slots@[slot as int].asset
        } else {
            None
        }
    }

    /// The entry for `key` resolves: some strong reference to its asset is held.
    pub open spec fn resolves(&self, key: AssetKey) -> bool {
        self.entries().contains_key(key) && self.count_of(self.entries()[key]) > 0
    }

    /// No key repeats, entries refer to existing slots, and a slot holds its asset
    /// exactly while a strong reference to it exists.
    pub closed spec fn wf(&self) -> bool {
        &&& keys_unique(entry_seq(self.cache@))
        &&& forall|i: int| 0 <= i < self.cache@.len() ==> #[trigger] self.cache@[i].slot < self.slots@.len()
        &&& forall|s: int|
            0 <= s < self.slots@.len() ==> (#[trigger] self.slots@[s].strong > 0)
                == self.slots@[s].asset is Some
    }

    /// The slots other than `skip` keep their counts and assets.
    pub open spec fn other_slots_kept(pre: Self, post: Self, skip: usize) -> bool {
        forall|s: usize|
            s != skip ==> #[trigger] post.count_of(s) == pre.count_of(s) && post.asset_at(s)
                == pre.asset_at(s)
    }

    /// `post` is `pre` after inserting `asset` under `key`, and `r` the strong
    /// reference handed back: a free slot (one that no entry refers to and no strong
    /// reference holds), or else a new one, holds the asset with one strong
    /// reference, and the entry for `key` refers to it, whatever it referred to.
    pub open spec fn insert_effect(pre: Self, post: Self, key: AssetKey, asset: A, r: AssetRef) -> bool {
        &&& if r@ < pre.slot_count() {
            &&& pre.count_of(r@) == 0
            &&& forall|k: AssetKey| #[trigger] pre.entries().contains_key(k) ==> pre.entries()[k] != r@
            &&& post.slot_count() == pre.slot_count()
        } else {
            &&& r@ == pre.slot_count()
            &&& post.slot_count() == pre.slot_count() + 1
        }
        &&& post.entries() == pre.entries().insert(key, r@)
        &&& post.count_of(r@) == 1
        &&& post.asset_at(r@) == Some(asset)
        &&& Self::other_slots_kept(pre, post, r@)
    }

    /// `post` is `pre` after a lookup of `key` that returned `r`: a strong reference
    /// exactly when the entry resolves, which then counts one more reference.
    pub open spec fn get_effect(pre: Self, post: Self, key: AssetKey, r: Option<AssetRef>) -> bool {
        &&& r is Some == pre.resolves(key)
        &&& post.entries() == pre.entries()
        &&& post.slot_count() == pre.slot_count()
        &&& match r {
            Some(h) => {
                &&& h@ == pre.entries()[key]
                &&& post.count_of(h@) == pre.count_of(h@) + 1
                &&& post.asset_at(h@) == pre.asset_at(h@)
                &&& Self::other_slots_kept(pre, post, h@)
            },
            None => Self::other_slots_kept(pre, post, pre.slot_count() as usize) && post.count_of(
                pre.slot_count() as usize,
            ) == pre.count_of(pre.slot_count() as usize),
        }
    }

    /// `post` is `pre` after giving back the strong reference `r`: one reference
    /// fewer, and the asset is dropped with the last one.
    pub open spec fn release_effect(pre: Self, post: Self, r: AssetRef) -> bool {
        &&& post.entries() == pre.entries()
        &&& post.slot_count() == pre.slot_count()
        &&& post.count_of(r@) == pre.count_of(r@) - 1
        &&& post.asset_at(r@) == (if post.count_of(r@) == 0 {
            None
        } else {
            pre.asset_at(r@)
        })
        &&& Self::other_slots_kept(pre, post, r@)
    }

    /// `post` is `pre` after a sweep: exactly the entries that resolve remain.
    pub open spec fn clear_effect(pre: Self, post: Self) -> bool {
        &&& forall|k: AssetKey| #[trigger] post.entries().contains_key(k) == pre.resolves(k)
        &&& forall|k: AssetKey| pre.resolves(k) ==> #[trigger] post.entries()[k] == pre.entries()[k]
        &&& post.slot_count() == pre.slot_count()
        &&& forall|s: usize| #[trigger] post.count_of(s) == pre.count_of(s) && post.asset_at(s)
            == pre.asset_at(s)
    }

    pub fn new() -> (r: Self)
        ensures
            r.wf(),
            r.entries() == Map::<AssetKey, usize>::empty(),
            r.slot_count() == 0,
    {
        let r = AssetCache { cache: Vec::new(), slots: Vec::new() };
        assert(r.entries() =~= Map::<AssetKey, usize>::empty());
        r
    }

    fn position(&self, path: &String, type_key: TypeKey) -> (r: Option<usize>)
        requires
            self.wf(),
        ensures
            r matches Some(i) ==> i < self.cache@.len() && self.cache@[i as int].path@ == path@
                && self.cache@[i as int].type_key == type_key,
            r is None ==> !has_key(entry_seq(self.cache@), (path@, type_key)),
    {
        let mut i: usize = 0;
        while i < self.cache.len()
            invariant
                i <= self.cache@.len(),
                forall|m: int|
                    0 <= m < i ==> !(self.cache@[m].path@ == path@ && self.cache@[m].type_key
                        == type_key),
            decreases self.cache@.len() - i,
        {
            let e = &self.cache[i];
            if e.type_key == type_key && e.path == *path {
                return Some(i);
            }
            i = i + 1;
        }
        proof {
            let es = entry_seq(self.cache@);
            if has_key(es, (path@, type_key)) {
                let m = choose|m: int| 0 <= m < es.len() && es[m].0 == (path@, type_key);
                assert(es[m] == ((self.cache@[m].path@, self.cache@[m].type_key), self.cache@[m].slot));
            }
        }
        None
    }

    /// A slot that no entry refers to and no strong reference holds, if any.
    fn free_slot(&self) -> (r: Option<usize>)
        requires
            self.wf(),
        ensures
            r matches Some(s) ==> s < self.slots@.len() && self.slots@[s as int].strong == 0
                && forall|k: AssetKey| #[trigger]
                self.entries().contains_key(k) ==> self.entries()[k] != s,
    {
        let mut s: usize = 0;
        while s < self.slots.len()
            invariant
                self.wf(),
                s <= self.slots@.len(),
            decreases self.slots@.len() - s,
        {
            if self.slots[s].strong == 0 {
                let mut i: usize = 0;
                let mut used = false;
                while i < self.cache.len() && !used
                    invariant
                        self.wf(),
                        s < self.slots@.len(),
                        i <= self.cache@.len(),
                        !used ==> forall|m: int| 0 <= m < i ==> self.cache@[m].slot != s,
                    decreases self.cache@.len() - i,
                {
                    if self.cache[i].slot == s {
                        used = true;
                    }
                    i = i + 1;
                }
                if !used {
                    proof {
                        let es = entry_seq(self.cache@);
                        assert forall|k: AssetKey| #[trigger]
                            self.entries().contains_key(k) implies self.entries()[k] != s by {
                            let m = choose|m: int| 0 <= m < es.len() && es[m].0 == k;
                            assert(es[m] == ((self.cache@[m].path@, self.cache@[m].type_key), self.cache@[m].slot));
                            self.lemma_entry_at(m);
                        }
                    }
                    return Some(s);
                }
            }
            s = s + 1;
        }
        None
    }

    proof fn lemma_entry_at(&self, i: int)
        requires
            self.wf(),
            0 <= i < self.cache@.len(),
        ensures
            self.entries().contains_key((self.cache@[i].path@, self.cache@[i].type_key)),
            self.entries()[(self.cache@[i].path@, self.cache@[i].type_key)] == self.cache@[i].slot,
    {
        let es = entry_seq(self.cache@);
        assert(es[i] == ((self.cache@[i].path@, self.cache@[i].type_key), self.cache@[i].slot));
        lemma_map_of_entry(es, i);
    }

    /// Takes ownership of `asset`, stores it under `path` and `type_key`, replacing
    /// the entry for that key if there was one, and returns a strong reference.
    pub fn insert(&mut self, path: String, type_key: TypeKey, asset: A) -> (r: AssetRef)
        requires
            old(self).wf(),
        ensures
            final(self).wf(),
            Self::insert_effect(*old(self), *final(self), (path@, type_key), asset, r),
    {
        let slot = match self.free_slot() {
            Some(free) => {
                let ghost pre_slots = self.slots@;
                let mut fresh = AssetSlot { asset: Some(asset), strong: 1 };
                let ghost written = fresh;
                self.slots.set_and_swap(free, &mut fresh);
                proof {
                    assert(self.slots@ =~= pre_slots.update(free as int, written));
                }
                free
            },
            None => {
                let slot = self.slots.len();
                self.slots.push(AssetSlot { asset: Some(asset), strong: 1 });
                slot
            },
        };
        let ghost key = (path@, type_key);
        if let Some(i) = self.position(&path, type_key) {
            proof {
                let es = entry_seq(self.cache@);
                assert(es[i as int].0 == key);
                lemma_map_of_remove(es, i as int);
                assert(entry_seq(self.cache@.remove(i as int)) =~= es.remove(i as int));
            }
            self.cache.remove(i);
            proof {
                let es = entry_seq(self.cache@);
                if has_key(es, key) {
                    let m = choose|m: int| 0 <= m < es.len() && es[m].0 == key;
                    lemma_map_of_entry(es, m);
                }
            }
        }
        let ghost before = self.cache@;
        proof {
            lemma_map_of_push(entry_seq(before), key, slot);
        }
        self.cache.push(CacheEntry { path, type_key, slot });
        proof {
            assert(entry_seq(self.cache@) =~= entry_seq(before).push((key, slot)));
            assert(self.entries() =~= old(self).entries().insert(key, slot));
        }
        AssetRef { slot }
    }

    /// The asset stored under `path` and `type_key`, as a new strong reference, if
    /// its entry still resolves. Never loads anything.
    pub fn get(&mut self, path: &String, type_key: TypeKey) -> (r: Option<AssetRef>)
        requires
            old(self).wf(),
            old(self).entries().contains_key((path@, type_key)) ==> old(self).count_of(
                old(self).entries()[(path@, type_key)],
            ) < usize::MAX,
        ensures
            final(self).wf(),
            Self::get_effect(*old(self), *final(self), (path@, type_key), r),
    {
        match self.position(path, type_key) {
            None => {
                proof {
                    assert(!self.entries().contains_key((path@, type_key)));
                }
                None
            },
            Some(i) => {
                proof {
                    self.lemma_entry_at(i as int);
                }
                let slot = self.cache[i].slot;
                if self.slots[slot].strong == 0 {
                    return None;
                }
                let ghost pre_slots = self.slots@;
                let mut s = AssetSlot { asset: None, strong: 0 };
                self.slots.set_and_swap(slot, &mut s);
                s.strong = s.strong + 1;
                let ghost updated = s;
                self.slots.set_and_swap(slot, &mut s);
                proof {
                    assert(self.slots@ =~= pre_slots.update(slot as int, updated));
                }
                Some(AssetRef { slot })
            },
        }
    }

    /// The cache side of loading an asset that was not cached: a successful load
    /// is inserted and its strong reference returned; a failed one leaves the cache
    /// as it was and returns the load's error.
    pub fn store_loaded<E>(&mut self, path: String, type_key: TypeKey, loaded: Result<A, E>) -> (r:
        Result<AssetRef, E>)
        requires
            old(self).wf(),
        ensures
            final(self).wf(),
            match loaded {
                Ok(asset) => r matches Ok(h) && Self::insert_effect(
                    *old(self),
                    *final(self),
                    (path@, type_key),
                    asset,
                    h,
                ),
                Err(e) => r == Err::<AssetRef, E>(e) && *final(self) == *old(self),
            },
    {
        match loaded {
            Ok(asset) => Ok(self.insert(path, type_key, asset)),
            Err(e) => Err(e),
        }
    }

    /// First step of loading the asset under `path` and `type_key`: a cache hit is
    /// returned at once, and only a miss asks for the load procedure to run.
    pub fn start_load(&mut self, path: &String, type_key: TypeKey) -> (r: LoadStep)
        requires
            old(self).wf(),
            old(self).entries().contains_key((path@, type_key)) ==> old(self).count_of(
                old(self).entries()[(path@, type_key)],
            ) < usize::MAX,
        ensures
            final(self).wf(),
            (r is Cached) == old(self).resolves((path@, type_key)),
            r matches LoadStep::Cached(h) ==> Self::get_effect(
                *old(self),
                *final(self),
                (path@, type_key),
                Some(h),
            ),
            r is Load ==> Self::get_effect(*old(self), *final(self), (path@, type_key), None),
    {
        match self.get(path, type_key) {
            Some(h) => LoadStep::Cached(h),
            None => LoadStep::Load,
        }
    }

    /// Whether the entry for `path` and `type_key` still resolves.
    pub fn contains(&self, path: &String, type_key: TypeKey) -> (r: bool)
        requires
            self.wf(),
        ensures
            r == self.resolves((path@, type_key)),
    {
        match self.position(path, type_key) {
            None => false,
            Some(i) => {
                proof {
                    self.lemma_entry_at(i as int);
                }
                self.slots[self.cache[i].slot].strong > 0
            },
        }
    }

    /// Number of strong references to the asset that the entry for `path` and
    /// `type_key` refers to; zero without such an entry.
    pub fn count_for(&self, path: &String, type_key: TypeKey) -> (n: usize)
        requires
            self.wf(),
        ensures
            n == (if self.entries().contains_key((path@, type_key)) {
                self.count_of(self.entries()[(path@, type_key)])
            } else {
                0
            }),
    {
        match self.position(path, type_key) {
            None => 0,
            Some(i) => {
                proof {
                    self.lemma_entry_at(i as int);
                }
                self.slots[self.cache[i].slot].strong
            },
        }
    }

    /// Number of strong references to the asset that `r` refers to.
    pub fn strong_count(&self, r: &AssetRef) -> (n: usize)
        ensures
            n == self.count_of(r@),
    {
        if r.slot < self.slots.len() {
            self.slots[r.slot].strong
        } else {
            0
        }
    }

    /// The asset that the strong reference `r` keeps loaded.
    pub fn asset(&self, r: &AssetRef) -> (a: &A)
        requires
            self.wf(),
            self.count_of(r@) > 0,
        ensures
            self.asset_at(r@) == Some(*a),
    {
        proof {
            assert(self.slots@[r@ as int].strong > 0);
        }
        self.slots[r.slot].asset.as_ref().unwrap()
    }

    /// Another strong reference to the asset that `r` refers to.
    pub fn retain(&mut self, r: &AssetRef) -> (r2: AssetRef)
        requires
            old(self).wf(),
            old(self).count_of(r@) > 0,
            old(self).count_of(r@) < usize::MAX,
        ensures
            final(self).wf(),
            r2@ == r@,
            final(self).entries() == old(self).entries(),
            final(self).slot_count() == old(self).slot_count(),
            final(self).count_of(r@) == old(self).count_of(r@) + 1,
            final(self).asset_at(r@) == old(self).asset_at(r@),
            Self::other_slots_kept(*old(self), *final(self), r@),
    {
        let slot = r.slot;
        let ghost pre_slots = self.slots@;
        let mut s = AssetSlot { asset: None, strong: 0 };
        self.slots.set_and_swap(slot, &mut s);
        s.strong = s.strong + 1;
        let ghost updated = s;
        self.slots.set_and_swap(slot, &mut s);
        proof {
            assert(self.slots@ =~= pre_slots.update(slot as int, updated));
        }
        AssetRef { slot }
    }

    /// Gives back the strong reference `r`; with the last one the asset is dropped
    /// and entries that refer to it no longer resolve.
    pub fn release(&mut self, r: AssetRef)
        requires
            old(self).wf(),
            old(self).count_of(r@) > 0,
        ensures
            final(self).wf(),
            Self::release_effect(*old(self), *final(self), r),
    {
        let slot = r.slot;
        let ghost pre_slots = self.slots@;
        let mut s = AssetSlot { asset: None, strong: 0 };
        self.slots.set_and_swap(slot, &mut s);
        s.strong = s.strong - 1;
        if s.strong == 0 {
            s.asset = None;
        }
        let ghost updated = s;
        self.slots.set_and_swap(slot, &mut s);
        proof {
            assert(self.slots@ =~= pre_slots.update(slot as int, updated));
        }
    }

    /// Sweeps the entries that no longer resolve.
    pub fn clear_unused(&mut self)
        requires
            old(self).wf(),
        ensures
            final(self).wf(),
            Self::clear_effect(*old(self), *final(self)),
    {
        let mut i: usize = 0;
        while i < self.cache.len()
            invariant
                self.wf(),
                self.slots@ == old(self).slots@,
                i <= self.cache@.len(),
                forall|k: AssetKey| #[trigger]
                    self.entries().contains_key(k) ==> old(self).entries().contains_key(k)
                        && self.entries()[k] == old(self).entries()[k],
                forall|k: AssetKey| old(self).resolves(k) ==> #[trigger] self.entries().contains_key(k),
                forall|j: int|
                    0 <= j < i ==> self.slots@[#[trigger] self.cache@[j].slot as int].strong > 0,
            decreases self.cache@.len() - i,
        {
            let slot = self.cache[i].slot;
            if self.slots[slot].strong == 0 {
                let ghost pre = self.cache@;
                let ghost es = entry_seq(self.cache@);
                let ghost k = (self.cache@[i as int].path@, self.cache@[i as int].type_key);
                proof {
                    self.lemma_entry_at(i as int);
                    assert(es[i as int].0 == k);
                    lemma_map_of_remove(es, i as int);
                    assert(entry_seq(self.cache@.remove(i as int)) =~= es.remove(i as int));
                }
                self.cache.remove(i);
                proof {
                    assert forall|j: int| 0 <= j < i implies self.slots@[#[trigger] self.cache@[
                        j
                    ].slot as int].strong > 0 by {
                        assert(self.cache@[j] == pre[j]);
                    }
                }
            } else {
                i = i + 1;
            }
        }
        proof {
            assert forall|k: AssetKey| #[trigger]
                self.entries().contains_key(k) implies old(self).resolves(k) by {
                let es = entry_seq(self.cache@);
                let m = choose|m: int| 0 <= m < es.len() && es[m].0 == k;
                assert(es[m] == ((self.cache@[m].path@, self.cache@[m].type_key), self.cache@[m].slot));
                self.lemma_entry_at(m);
                assert(self.slots@[self.cache@[m].slot as int].strong > 0);
                assert(old(self).entries()[k] == self.cache@[m].slot);
                assert(old(self).count_of(self.cache@[m].slot) > 0);
            }
            assert forall|k: AssetKey| #[trigger]
                self.entries().contains_key(k) == old(self).resolves(k) by {
                if old(self).resolves(k) {
                    assert(self.entries().contains_key(k));
                }
            }
            assert forall|k: AssetKey| old(self).resolves(k) implies #[trigger] self.entries()[k]
                == old(self).entries()[k] by {
                assert(self.entries().contains_key(k));
            }
        }
    }
}

/// An entry resolves only while a strong reference is held: right after `insert`
/// it resolves; once that only strong reference is given back it no longer does,
/// and after a sweep the entry is gone, so a lookup returns nothing.
pub proof fn unreferenced_asset_is_swept<A>(
    c0: AssetCache<A>,
    c1: AssetCache<A>,
    c2: AssetCache<A>,
    c3: AssetCache<A>,
    key: AssetKey,
    asset: A,
    r: AssetRef,
)
    requires
        AssetCache::insert_effect(c0, c1, key, asset, r),
        AssetCache::release_effect(c1, c2, r),
        AssetCache::clear_effect(c2, c3),
    ensures
        c1.resolves(key),
        !c2.resolves(key),
        !c3.entries().contains_key(key),
        !c3.resolves(key),
{
}

/// A strong reference obtained from a lookup keeps the asset reachable on its own:
/// after the reference from `insert` is given back and the cache is swept, the
/// entry still resolves, to the same asset.
pub proof fn held_asset_survives_sweep<A>(
    c0: AssetCache<A>,
    c1: AssetCache<A>,
    c2: AssetCache<A>,
    c3: AssetCache<A>,
    c4: AssetCache<A>,
    key: AssetKey,
    asset: A,
    r1: AssetRef,
    r2: Option<AssetRef>,
)
    requires
        AssetCache::insert_effect(c0, c1, key, asset, r1),
        AssetCache::get_effect(c1, c2, key, r2),
        AssetCache::release_effect(c2, c3, r1),
        AssetCache::clear_effect(c3, c4),
    ensures
        r2 matches Some(h) && h@ == r1@,
        c4.resolves(key),
        c4.asset_at(c4.entries()[key]) == Some(asset),
{
    assert(c1.resolves(key));
    assert(c3.resolves(key));
}

/// Loading an asset that is cached takes the cached path: after a successful load
/// was stored under `key`, and while its strong reference is held, the first step
/// of a later load returns that same asset and asks for no loading.
pub proof fn cached_load_skips_loading<A>(
    c0: AssetCache<A>,
    c1: AssetCache<A>,
    c2: AssetCache<A>,
    key: AssetKey,
    asset: A,
    r: AssetRef,
    step: LoadStep,
)
    requires
        AssetCache::insert_effect(c0, c1, key, asset, r),
        (step is Cached) == c1.resolves(key),
        step matches LoadStep::Cached(h) ==> AssetCache::get_effect(c1, c2, key, Some(h)),
    ensures
        step matches LoadStep::Cached(h) && h@ == r@ && c2.asset_at(h@) == Some(asset),
{
}

} // verus!
