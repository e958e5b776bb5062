//! The library manager: a cache of opened shared libraries keyed by path.
//!
//! `load` is idempotent, `unload` releases an entry and is a no-op on an
//! absent key, `reload` unconditionally removes then re-opens a key, and
//! `library` hands out a borrow of the opened handle so symbol resolution can
//! never outlive the manager or survive an unload.

use vstd::prelude::*;
use vstd::string::StringExecFns;

verus! {

/// dlopen's opened-library handle, held opaquely; dropping it closes the
/// library.
#[verifier::external_type_specification]
#[verifier::external_body]
pub struct ExLibrary(dlopen::raw::Library);

/// dlopen's error value for a failed open or lookup, held opaquely.
#[verifier::external_type_specification]
#[verifier::external_body]
pub struct ExDlopenError(dlopen::Error);

/// Relies on dlopen::raw::Library::open: asks the platform loader to open the
/// shared library at `path`.  Success depends on the file system and the
/// loader, so nothing is promised of the outcome.
#[verifier::external_body]
fn open_library(path: &str) -> Result<dlopen::raw::Library, dlopen::Error> {
    dlopen::raw::Library::open(path)
}

/// Relies on dlopen::raw::Library::open_self: opens the hosting process's own
/// symbol table.  Success depends on the process image, so nothing is promised
/// of the outcome.
#[verifier::external_body]
fn open_self_library() -> Result<dlopen::raw::Library, dlopen::Error> {
    dlopen::raw::Library::open_self()
}

/// One registry entry: a key (a path, or the reserved self key) and the opened
/// library handle it maps to.
struct Entry {
    key: String,
    lib: dlopen::raw::Library,
}

/// The registry transition a successful `load` makes: a key already present
/// is left alone, an absent one is appended.
pub open spec fn insert_key(keys: Seq<Seq<char>>, p: Seq<char>) -> Seq<Seq<char>> {
    if keys.contains(p) {
        keys
    } else {
        keys.push(p)
    }
}

/// How many entries of the registry carry the key `p`.
pub open spec fn key_count(keys: Seq<Seq<char>>, p: Seq<char>) -> nat
    decreases keys.len(),
{
    if keys.len() == 0 {
        0nat
    } else {
        (if keys.last() == p {
            1nat
        } else {
            0nat
        }) + key_count(keys.drop_last(), p)
    }
}

/// The reserved registry key that stands for the hosting process's own symbol
/// table rather than a library file.
pub open spec fn self_key_spec() -> Seq<char> {
    "@self"@
}

/// The reserved self key as a string.
pub fn self_key() -> (r: &'static str)
    ensures
        r@ == self_key_spec(),
{
    "@self"
}

/// A cache of opened shared libraries keyed by path (or by the reserved self
/// key).  At most one entry per key exists at a time.
pub struct Manager {
    entries: Vec<Entry>,
}

impl Manager {
    /// The registry keys, in insertion order.
    pub closed spec fn keys(self) -> Seq<Seq<char>> {
        self.entries@.map_values(|e: Entry| e.key@)
    }

    /// Whether `k` is a loaded key.
    pub open spec fn has(self, k: Seq<char>) -> bool {
        self.keys().contains(k)
    }

    /// Keys are unique: only one entry per key exists at a time.
    pub open spec fn wf(self) -> bool {
        self.keys().no_duplicates()
    }

    /// An empty registry.
    pub fn new() -> (r: Manager)
        ensures
            r.wf(),
            r.keys() == Seq::<Seq<char>>::empty(),
    {
        let m = Manager { entries: Vec::new() };
        proof {
            assert(m.keys() =~= Seq::<Seq<char>>::empty());
        }
        m
    }

    /// The index of the entry for `key`, if one exists.
    fn index_of_key(&self, key: &String) -> (r: Option<usize>)
        ensures
            match r {
                Some(i) => i < self.entries@.len() && self.entries@[i as int].key@ == key@
                    && self.has(key@),
                None => !self.has(key@),
            },
    {
        let mut i: usize = 0;
        while i < self.entries.len()
            invariant
                i <= self.entries@.len(),
                forall|j: int| 0 <= j < i ==> self.entries@[j].key@ != key@,
            decreases self.entries@.len() - i,
        {
            if self.entries[i].key == *key {
                proof {
                    assert(self.keys()[i as int] == key@);
                }
                return Some(i);
            }
            i = i + 1;
        }
        proof {
            assert forall|j: int| 0 <= j < self.keys().len() implies self.keys()[j] != key@ by {
                assert(self.keys()[j] == self.entries@[j].key@);
            }
        }
        None
    }

    /// How many libraries are loaded.
    pub fn count(&self) -> (r: usize)
        ensures
            r == self.keys().len(),
    {
        self.entries.len()
    }

    /// Whether `key` is loaded.
    pub fn is_loaded(&self, key: &str) -> (r: bool)
        ensures
            r == self.has(key@),
    {
        let k = String::from_str(key);
        self.index_of_key(&k).is_some()
    }

    /// Loads the library at `path` unless it is already loaded.
    ///
    /// A key that is already present is left alone and the call reports
    /// success without re-opening anything.  Otherwise the library is opened;
    /// on success it is inserted, on failure the registry is unchanged.
    pub fn load(&mut self, path: &str) -> (r: bool)
        requires
            old(self).wf(),
        ensures
            final(self).wf(),
            old(self).has(path@) ==> r,
            r ==> final(self).keys() == insert_key(old(self).keys(), path@),
            r ==> final(self).has(path@),
            !r ==> final(self).keys() == old(self).keys() && !old(self).has(path@),
    {
        let key = String::from_str(path);
        if self.index_of_key(&key).is_some() {
            return true;
        }
        match open_library(path) {
            Ok(lib) => {
                self.insert_new(key, lib);
                true
            },
            Err(_) => false,
        }
    }

    /// Opens the hosting process's own symbol table under the reserved self
    /// key, with the same idempotence as `load`.
    pub fn load_self(&mut self) -> (r: bool)
        requires
            old(self).wf(),
        ensures
            final(self).wf(),
            old(self).has(self_key_spec()) ==> r,
            r ==> final(self).keys() == insert_key(old(self).keys(), self_key_spec()),
            r ==> final(self).has(self_key_spec()),
            !r ==> final(self).keys() == old(self).keys() && !old(self).has(self_key_spec()),
    {
        let key = String::from_str(self_key());
        if self.index_of_key(&key).is_some() {
            return true;
        }
        match open_self_library() {
            Ok(lib) => {
                self.insert_new(key, lib);
                true
            },
            Err(_) => false,
        }
    }

    /// Appends an entry for a key that is not present yet.
    fn insert_new(&mut self, key: String, lib: dlopen::raw::Library)
        requires
            old(self).wf(),
            !old(self).has(key@),
        ensures
            final(self).wf(),
            final(self).keys() == insert_key(old(self).keys(), key@),
            final(self).has(key@),
    {
        let ghost old_keys = old(self).keys();
        let ghost k = key@;
        self.entries.push(Entry { key, lib });
        proof {
            assert(final(self).keys() =~= old_keys.push(k)) by {
                assert forall|j: int| 0 <= j < final(self).keys().len() implies
                    final(self).keys()[j] == old_keys.push(k)[j] by {
                    if j < old_keys.len() {
                        assert(final(self).entries@[j] == old(self).entries@[j]);
                    }
                }
            }
            assert(old_keys.push(k)[old_keys.len() as int] == k);
            assert(final(self).has(k));
            assert(final(self).keys().no_duplicates()) by {
                assert forall|i: int, j: int|
                    0 <= i < final(self).keys().len() && 0 <= j < final(self).keys().len() && i != j
                    implies final(self).keys()[i] != final(self).keys()[j] by {
                    if i < old_keys.len() && j < old_keys.len() {
                        assert(old_keys[i] != old_keys[j]);
                    } else if i < old_keys.len() {
                        assert(!old_keys.contains(k));
                        assert(old_keys[i] != k);
                    } else if j < old_keys.len() {
                        assert(!old_keys.contains(k));
                        assert(old_keys[j] != k);
                    }
                }
            }
            assert(insert_key(old_keys, k) == old_keys.push(k));
        }
    }

    /// Removes and releases the entry for `key`; absent keys are a no-op and
    /// the call never fails.
    pub fn unload(&mut self, key: &str)
        requires
            old(self).wf(),
        ensures
            final(self).wf(),
            final(self).keys() == old(self).keys().remove_value(key@),
            !final(self).has(key@),
            !old(self).has(key@) ==> final(self).keys() == old(self).keys(),
            old(self).has(key@) ==> final(self).keys().len() == old(self).keys().len() - 1,
            forall|k2: Seq<char>|
                k2 != key@ ==> final(self).has(k2) == old(self).has(k2),
    {
        let k = String::from_str(key);
        match self.index_of_key(&k) {
            Some(i) => {
                let ghost old_keys = self.keys();
                let _entry = self.entries.remove(i);
                proof {
                    lemma_unload_at(old_keys, key@, i as int);
                    assert(final(self).keys() =~= old_keys.remove(i as int)) by {
                        assert forall|j: int| 0 <= j < final(self).keys().len() implies
                            final(self).keys()[j] == old_keys.remove(i as int)[j] by {
                            if j < i {
                                assert(final(self).entries@[j] == old(self).entries@[j]);
                            } else {
                                assert(final(self).entries@[j] == old(self).entries@[j + 1]);
                            }
                        }
                    }
                    lemma_remove_unique(old_keys, key@, i as int);
                    let new_keys = final(self).keys();
                    assert forall|k2: Seq<char>| k2 != key@ implies final(self).has(k2) == old(
                        self,
                    ).has(k2) by {
                        if old(self).has(k2) {
                            let j = choose|j: int|
                                0 <= j < old_keys.len() && old_keys[j] == k2;
                            if j < i {
                                assert(new_keys[j] == k2);
                            } else {
                                assert(new_keys[j - 1] == k2);
                            }
                        }
                        if final(self).has(k2) {
                            let a = choose|a: int|
                                0 <= a < new_keys.len() && new_keys[a] == k2;
                            if a < i {
                                assert(old_keys[a] == k2);
                            } else {
                                assert(old_keys[a + 1] == k2);
                            }
                        }
                    }
                }
            },
            None => {
                proof {
                    old(self).keys().index_of_first_ensures(key@);
                }
            },
        }
    }

    /// Unconditionally unloads then loads `key` and reports the load's
    /// outcome.  A failed reload leaves the key absent, never the old library.
    pub fn reload(&mut self, key: &str) -> (r: bool)
        requires
            old(self).wf(),
        ensures
            final(self).wf(),
            r ==> final(self).keys() == old(self).keys().remove_value(key@).push(key@),
            !r ==> final(self).keys() == old(self).keys().remove_value(key@),
            r == final(self).has(key@),
            forall|k2: Seq<char>|
                k2 != key@ ==> final(self).has(k2) == old(self).has(k2),
            r && old(self).has(key@) ==> final(self).keys().len() == old(self).keys().len(),
            r && !old(self).has(key@) ==> final(self).keys().len() == old(self).keys().len() + 1,
    {
        self.unload(key);
        let ghost mid = self.keys();
        let r = self.load(key);
        proof {
            if r {
                assert(insert_key(mid, key@) == mid.push(key@));
                assert forall|k2: Seq<char>| k2 != key@ implies final(self).has(k2) == mid.contains(
                    k2,
                ) by {
                    if mid.contains(k2) {
                        let j = choose|j: int| 0 <= j < mid.len() && mid[j] == k2;
                        assert(mid.push(key@)[j] == k2);
                    }
                    if final(self).has(k2) {
                        let a = choose|a: int|
                            0 <= a < mid.push(key@).len() && mid.push(key@)[a] == k2;
                        assert(a < mid.len());
                        assert(mid[a] == k2);
                    }
                }
            }
        }
        r
    }

    /// The opened handle for `key`, if it is loaded.  The borrow ties every
    /// symbol resolved from the handle to this manager: the handle cannot
    /// outlive the manager, nor survive a later `unload` or `reload`.
    pub fn library(&self, key: &str) -> (r: Option<&dlopen::raw::Library>)
        ensures
            r is Some <==> self.has(key@),
    {
        let k = String::from_str(key);
        match self.index_of_key(&k) {
            Some(i) => Some(&self.entries[i].lib),
            None => None,
        }
    }
}

/// A key occurs in a registry exactly when its count is positive.
proof fn lemma_key_count_contains(keys: Seq<Seq<char>>, p: Seq<char>)
    ensures
        keys.contains(p) <==> key_count(keys, p) > 0,
    decreases keys.len(),
{
    if keys.len() > 0 {
        lemma_key_count_contains(keys.drop_last(), p);
        if keys.contains(p) {
            let i = choose|i: int| 0 <= i < keys.len() && keys[i] == p;
            if i < keys.len() - 1 {
                assert(keys.drop_last()[i] == p);
            }
        }
        if keys.drop_last().contains(p) {
            let i = choose|i: int| 0 <= i < keys.drop_last().len() && keys.drop_last()[i] == p;
            assert(keys[i] == p);
        }
    }
}

/// In a duplicate-free registry a present key is counted exactly once.
proof fn lemma_key_count_unique(keys: Seq<Seq<char>>, p: Seq<char>)
    requires
        keys.no_duplicates(),
        keys.contains(p),
    ensures
        key_count(keys, p) == 1,
    decreases keys.len(),
{
    let last = keys.len() - 1;
    if keys.last() == p {
        assert forall|i: int| 0 <= i < keys.drop_last().len() implies keys.drop_last()[i]
            != p by {
            assert(keys.drop_last()[i] == keys[i]);
            assert(keys[i] != keys[last]);
        }
        lemma_key_count_contains(keys.drop_last(), p);
    } else {
        let i = choose|i: int| 0 <= i < keys.len() && keys[i] == p;
        assert(keys.drop_last()[i] == p);
        assert forall|a: int, b: int|
            0 <= a < keys.drop_last().len() && 0 <= b < keys.drop_last().len() && a != b implies
            keys.drop_last()[a] != keys.drop_last()[b] by {
            assert(keys.drop_last()[a] == keys[a]);
            assert(keys.drop_last()[b] == keys[b]);
        }
        lemma_key_count_unique(keys.drop_last(), p);
    }
}

/// Law: loading is idempotent.  Inserting a key into a duplicate-free registry
/// that already holds it changes nothing, so two successive loads of one path
/// make the same registry as one load, holding exactly one entry for the path;
/// and since the key is then present, the second load reports success.
pub proof fn lemma_load_idempotent(keys: Seq<Seq<char>>, p: Seq<char>)
    requires
        keys.no_duplicates(),
    ensures
        insert_key(insert_key(keys, p), p) == insert_key(keys, p),
        insert_key(keys, p).no_duplicates(),
        insert_key(keys, p).contains(p),
        key_count(insert_key(keys, p), p) == 1,
{
    let once = insert_key(keys, p);
    if keys.contains(p) {
        assert(once == keys);
    } else {
        assert(once == keys.push(p));
        assert(once[keys.len() as int] == p);
        assert(once.contains(p));
        assert forall|i: int, j: int|
            0 <= i < once.len() && 0 <= j < once.len() && i != j implies once[i] != once[j] by {
            if i < keys.len() && j < keys.len() {
                assert(once[i] == keys[i]);
                assert(once[j] == keys[j]);
            } else if i < keys.len() {
                assert(once[i] == keys[i]);
                assert(keys[i] != p);
            } else if j < keys.len() {
                assert(once[j] == keys[j]);
                assert(keys[j] != p);
            }
        }
    }
    assert(insert_key(once, p) == once);
    lemma_key_count_unique(once, p);
}

/// Law: reloading a never-loaded key is the very transition loading it makes.
/// Removing an absent key leaves the registry unchanged, and inserting the key
/// then appends it, exactly as a fresh load does.
pub proof fn lemma_reload_fresh(keys: Seq<Seq<char>>, k: Seq<char>)
    requires
        !keys.contains(k),
    ensures
        keys.remove_value(k) == keys,
        keys.remove_value(k).push(k) == insert_key(keys, k),
{
    keys.index_of_first_ensures(k);
    match keys.index_of_first(k) {
        Some(i) => {
            assert(keys[i] == k);
            assert(false);
        },
        None => {
        },
    }
}

/// After removing index `i`, whose key was `k`, no entry carries `k` any more
/// (keys are unique) and uniqueness is preserved.
proof fn lemma_unload_at(keys: Seq<Seq<char>>, k: Seq<char>, i: int)
    requires
        keys.no_duplicates(),
        0 <= i < keys.len(),
        keys[i] == k,
    ensures
        keys.remove(i).no_duplicates(),
        !keys.remove(i).contains(k),
{
    let removed = keys.remove(i);
    assert forall|a: int, b: int|
        0 <= a < removed.len() && 0 <= b < removed.len() && a != b implies removed[a]
        != removed[b] by {
        let a0 = if a < i { a } else { a + 1 };
        let b0 = if b < i { b } else { b + 1 };
        assert(removed[a] == keys[a0]);
        assert(removed[b] == keys[b0]);
    }
    assert forall|a: int| 0 <= a < removed.len() implies removed[a] != k by {
        let a0 = if a < i { a } else { a + 1 };
        assert(removed[a] == keys[a0]);
        assert(keys[a0] != keys[i]);
    }
}

/// In a duplicate-free registry the entry for a key found at index `i` is the
/// first (and only) occurrence, so removing index `i` is removing the key.
proof fn lemma_remove_unique(keys: Seq<Seq<char>>, k: Seq<char>, i: int)
    requires
        keys.no_duplicates(),
        0 <= i < keys.len(),
        keys[i] == k,
    ensures
        keys.remove_value(k) == keys.remove(i),
{
    keys.index_of_first_ensures(k);
    assert(keys.contains(k));
    match keys.index_of_first(k) {
        Some(m) => {
            assert(keys[m] == k);
            assert(m == i);
        },
        None => {
            assert(false);
        },
    }
}

} // verus!
