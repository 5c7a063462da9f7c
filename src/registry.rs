//! The registry: the one place that knows which collections exist and at
//! what dimension.

use crate::outside::{collections_of, db_create, db_index, db_names, error_text, IndexHandle};
use arrowdb::db::ArrowDB;
use vstd::prelude::*;

verus! {

/// Why a registry or dispatch operation did not go through.
#[derive(Debug, Clone, PartialEq, Eq)]
pub enum ServiceError {
    /// A collection of that name is already registered.
    AlreadyExists,
    /// The store cannot hold a collection under that name.
    InvalidName,
    /// A collection cannot be created with dimension zero.
    InvalidDimension,
    /// No collection of that name is registered.
    CollectionNotFound,
    /// The vector's length differs from the collection's dimension.
    DimensionMismatch { expected: usize, actual: usize },
    /// A malformed request parameter, such as a result count of zero.
    InvalidArgument,
    /// The store or the index failed; the text says how.
    IndexError(String),
}

/// A registered collection: its name and the length of its vectors.
#[derive(Debug, Clone, PartialEq, Eq)]
pub struct CollectionInfo {
    pub name: String,
    pub dimension: usize,
}

/// A character that may stand in a collection name: an ASCII letter or
/// digit, or one of `_ - . # $`.
pub open spec fn name_char(c: char) -> bool {
    ('a' <= c <= 'z') || ('A' <= c <= 'Z') || ('0' <= c <= '9') || c == '_' || c == '-' || c == '.'
        || c == '#' || c == '$'
}

/// A name the store can keep a collection under. The collection's index
/// lives in the fjall partition `#name`, whose name must be non-empty, at
/// most 255 bytes long and made of `name_char`s; `#collections` is refused
/// because `##collections` is the partition of the store's own settings.
pub open spec fn valid_name(s: Seq<char>) -> bool {
    &&& 0 < s.len() <= 254
    &&& forall|i: int| 0 <= i < s.len() ==> name_char(#[trigger] s[i])
    &&& s != "#collections"@
}

/// Whether `name` is a valid collection name.
pub fn is_valid_name(name: &str) -> (r: bool)
    ensures
        r == valid_name(name@),
{
    if !name.is_ascii() {
        assert(!valid_name(name@)) by {
            let i = choose|i: int| 0 <= i < name@.len() && !('\0' <= #[trigger] name@[i] <= '\u{7f}');
            if 0 < name@.len() <= 254 && name@ != "#collections"@ {
                assert(!name_char(name@[i]));
            }
        }
        return false;
    }
    let bytes = name.as_bytes();
    proof {
        vstd::string::is_ascii_spec_bytes(name);
    }
    let n = bytes.len();
    if n == 0 || n > 254 {
        return false;
    }
    let mut i: usize = 0;
    while i < n
        invariant
            n == bytes@.len() == name@.len(),
            vstd::string::is_ascii(name),
            forall|j: int| 0 <= j < name@.len() ==> bytes@[j] == name@[j] as u8,
            i <= n,
            forall|j: int| 0 <= j < i ==> name_char(#[trigger] name@[j]),
        decreases n - i,
    {
        let b = bytes[i];
        let ok = (('a' as u8) <= b && b <= ('z' as u8)) || (('A' as u8) <= b && b <= ('Z' as u8)) || (('0'
            as u8) <= b && b <= ('9' as u8)) || b == ('_' as u8) || b == ('-' as u8) || b == ('.' as u8)
            || b == ('#' as u8) || b == ('$' as u8);
        assert('\0' <= name@[i as int] <= '\u{7f}');
        assert(ok == name_char(name@[i as int]));
        if !ok {
            return false;
        }
        i = i + 1;
    }
    let reserved = "#collections".to_owned();
    let owned = name.to_owned();
    !(owned == reserved)
}

/// The dimension registered under `name`, if any.
pub open spec fn dimension_of(m: Map<Seq<char>, nat>, name: Seq<char>) -> Option<nat> {
    if m.contains_key(name) {
        Some(m[name])
    } else {
        None
    }
}

/// Whether creating `name` at `dim` registers it, given whether the store
/// managed to persist it.
pub open spec fn create_ok(m: Map<Seq<char>, nat>, name: Seq<char>, dim: nat, stored: bool) -> bool {
    valid_name(name) && dim > 0 && !m.contains_key(name) && stored
}

/// The registry's contents after an attempt to create `name` at `dim`.
pub open spec fn create_next(m: Map<Seq<char>, nat>, name: Seq<char>, dim: nat, stored: bool) -> Map<
    Seq<char>,
    nat,
> {
    if create_ok(m, name, dim, stored) {
        m.insert(name, dim)
    } else {
        m
    }
}

/// Whether some entry is named `s`.
pub open spec fn has_name(entries: Seq<CollectionInfo>, s: Seq<char>) -> bool {
    exists|i: int| 0 <= i < entries.len() && (#[trigger] entries[i]).name@ == s
}

/// Whether `entries` lists exactly the collections of `m`: each name once,
/// each under a valid name, at its registered dimension, which is positive.
pub open spec fn describes(entries: Seq<CollectionInfo>, m: Map<Seq<char>, nat>) -> bool {
    &&& forall|i: int, j: int| 0 <= i < j < entries.len() ==> entries[i].name@ != entries[j].name@
    &&& forall|i: int|
        0 <= i < entries.len() ==> {
            let e = #[trigger] entries[i];
            &&& valid_name(e.name@)
            &&& e.dimension > 0
            &&& m.contains_key(e.name@)
            &&& m[e.name@] == e.dimension as nat
        }
    &&& forall|s: Seq<char>| m.contains_key(s) ==> has_name(entries, s)
}

/// The registry over an arrowdb store. Besides the store it keeps each
/// collection's dimension, which the store records but does not hand out.
pub struct Registry {
    db: ArrowDB,
    entries: Vec<CollectionInfo>,
}

impl View for Registry {
    type V = Map<Seq<char>, nat>;

    closed spec fn view(&self) -> Map<Seq<char>, nat> {
        collections_of(self.db)
    }
}

impl Registry {
    /// The kept dimensions agree with the store, one entry per collection.
    pub closed spec fn wf(&self) -> bool {
        describes(self.entries@, collections_of(self.db))
    }

    /// Takes over a store that holds no collection yet; `None` if it holds any.
    /// The registry must be the store's only user from then on: a clone of
    /// `db` kept elsewhere shares its collections and could change them
    /// behind the registry's back.
    pub fn new(db: ArrowDB) -> (r: Option<Registry>)
        ensures
            r is Some <==> collections_of(db).dom() == Set::<Seq<char>>::empty(),
            r matches Some(reg) ==> reg.wf() && reg@ == collections_of(db),
    {
        let names = db_names(&db);
        if names.len() == 0 {
            let reg = Registry { db, entries: Vec::new() };
            assert(collections_of(db).dom() =~= Set::<Seq<char>>::empty());
            Some(reg)
        } else {
            assert(collections_of(db).dom().contains(names@[0]@));
            None
        }
    }

    /// Takes over a store whose collections `known` lists exactly, with their
    /// dimensions, as when a service restarts on the store it left; `None`
    /// if `known` repeats a name, gives a zero or wrong dimension, names an
    /// unknown collection or leaves one out. As with `new`, the registry must be
    /// the store's only user from then on.
    pub fn open(db: ArrowDB, known: Vec<CollectionInfo>) -> (r: Option<Registry>)
        ensures
            r is Some <==> describes(known@, collections_of(db)),
            r matches Some(reg) ==> reg.wf() && reg@ == collections_of(db),
    {
        let ghost m = collections_of(db);
        let mut i: usize = 0;
        while i < known.len()
            invariant
                m == collections_of(db),
                i <= known@.len(),
                forall|a: int, b: int| 0 <= a < b < i ==> known@[a].name@ != known@[b].name@,
                forall|a: int|
                    0 <= a < i ==> {
                        let e = #[trigger] known@[a];
                        &&& valid_name(e.name@)
                        &&& e.dimension > 0
                        &&& m.contains_key(e.name@)
                        &&& m[e.name@] == e.dimension as nat
                    },
            decreases known@.len() - i,
        {
            let e = &known[i];
            if !is_valid_name(e.name.as_str()) || e.dimension == 0 {
                assert(!describes(known@, m));
                return None;
            }
            if db_index(&db, e.name.as_str(), e.dimension).is_err() {
                assert(!describes(known@, m));
                return None;
            }
            let mut j: usize = 0;
            while j < i
                invariant
                    i < known@.len(),
                    j <= i,
                    *e == known@[i as int],
                    forall|b: int| 0 <= b < j ==> known@[b].name@ != e.name@,
                decreases i - j,
            {
                if known[j].name == e.name {
                    assert(!describes(known@, m));
                    return None;
                }
                j = j + 1;
            }
            i = i + 1;
        }
        let names = db_names(&db);
        let mut n: usize = 0;
        while n < names.len()
            invariant
                m == collections_of(db),
                n <= names@.len(),
                forall|a: int| 0 <= a < n ==> has_name(known@, #[trigger] names@[a]@),
                forall|a: int| 0 <= a < names@.len() ==> m.contains_key(#[trigger] names@[a]@),
            decreases names@.len() - n,
        {
            let mut j: usize = 0;
            let mut found = false;
            while j < known.len() && !found
                invariant
                    n < names@.len(),
                    j <= known@.len(),
                    found ==> has_name(known@, names@[n as int]@),
                    !found ==> forall|b: int| 0 <= b < j ==> known@[b].name@ != names@[n as int]@,
                decreases known@.len() - j,
            {
                if known[j].name == names[n] {
                    found = true;
                    assert(known@[j as int].name@ == names@[n as int]@);
                }
                j = j + 1;
            }
            if !found {
                assert(m.contains_key(names@[n as int]@));
                assert(!has_name(known@, names@[n as int]@));
                assert(!describes(known@, m));
                return None;
            }
            n = n + 1;
        }
        assert forall|s: Seq<char>| m.contains_key(s) implies has_name(known@, s) by {
            let a = choose|a: int| 0 <= a < names@.len() && #[trigger] names@[a]@ == s;
            assert(has_name(known@, names@[a]@));
        }
        Some(Registry { db, entries: known })
    }

    /// Every registered collection name, each once.
    pub fn list_collections(&self) -> (r: Vec<String>)
        requires
            self.wf(),
        ensures
            forall|i: int, j: int| 0 <= i < j < r@.len() ==> r@[i]@ != r@[j]@,
            forall|i: int| 0 <= i < r@.len() ==> self@.contains_key(#[trigger] r@[i]@),
            forall|s: Seq<char>| self@.contains_key(s) ==> exists|i: int| 0 <= i < r@.len() && #[trigger] r@[i]@ == s,
    {
        db_names(&self.db)
    }

    fn find(&self, name: &str) -> (r: Option<usize>)
        requires
            self.wf(),
        ensures
            r matches Some(i) ==> i < self.entries@.len() && self.entries@[i as int].name@ == name@,
            r is None ==> !self@.contains_key(name@),
    {
        let key = name.to_owned();
        let mut i: usize = 0;
        while i < self.entries.len()
            invariant
                self.wf(),
                key@ == name@,
                i <= self.entries@.len(),
                forall|j: int| 0 <= j < i ==> self.entries@[j].name@ != name@,
            decreases self.entries@.len() - i,
        {
            if self.entries[i].name == key {
                return Some(i);
            }
            i = i + 1;
        }
        assert(!has_name(self.entries@, name@));
        None
    }

    /// The collection registered under `name`.
    pub fn lookup(&self, name: &str) -> (r: Result<CollectionInfo, ServiceError>)
        requires
            self.wf(),
        ensures
            r is Ok <==> self@.contains_key(name@),
            r matches Ok(c) ==> c.name@ == name@ && dimension_of(self@, name@) == Some(c.dimension as nat),
            r matches Err(e) ==> e == ServiceError::CollectionNotFound,
    {
        match self.find(name) {
            Some(i) => Ok(CollectionInfo { name: name.to_owned(), dimension: self.entries[i].dimension }),
            None => Err(ServiceError::CollectionNotFound),
        }
    }

    /// Registers `name` with `dimension`, unless the name is taken, is not a
    /// valid name, or the dimension is zero; a registered collection, its
    /// index included, is left untouched. Callers
    /// that share a registry between requests serialise these calls, so of
    /// several creations of one name exactly one can win.
    pub fn create_collection(&mut self, name: &str, dimension: usize) -> (r: Result<(), ServiceError>)
        requires
            old(self).wf(),
        ensures
            final(self).wf(),
            final(self)@ == create_next(old(self)@, name@, dimension as nat, r is Ok),
            r is Ok ==> create_ok(old(self)@, name@, dimension as nat, true),
            old(self)@.contains_key(name@) ==> *final(self) == *old(self),
            (r == Err::<(), ServiceError>(ServiceError::AlreadyExists)) <==> old(self)@.contains_key(name@),
            (r == Err::<(), ServiceError>(ServiceError::InvalidName)) <==> (!old(self)@.contains_key(name@)
                && !valid_name(name@)),
            (r == Err::<(), ServiceError>(ServiceError::InvalidDimension)) <==> (!old(self)@.contains_key(
                name@) && valid_name(name@) && dimension == 0),
            create_ok(old(self)@, name@, dimension as nat, true) ==> (r is Ok || r matches Err(
                ServiceError::IndexError(_),
            )),
    {
        if self.find(name).is_some() {
            return Err(ServiceError::AlreadyExists);
        }
        if !is_valid_name(name) {
            return Err(ServiceError::InvalidName);
        }
        if dimension == 0 {
            return Err(ServiceError::InvalidDimension);
        }
        let ghost old_view = collections_of(self.db);
        match db_create(&mut self.db, name, dimension) {
            Ok(()) => {
                let ghost before = self.entries@;
                self.entries.push(CollectionInfo { name: name.to_owned(), dimension });
                assert forall|s: Seq<char>| collections_of(self.db).contains_key(s) implies has_name(
                    self.entries@,
                    s,
                ) by {
                    if s == name@ {
                        assert(self.entries@[before.len() as int].name@ == s);
                    } else {
                        assert(old_view.contains_key(s));
                        assert(has_name(before, s));
                        let i = choose|i: int| 0 <= i < before.len() && (#[trigger] before[i]).name@ == s;
                        assert(self.entries@[i] == before[i]);
                    }
                }
                Ok(())
            },
            Err(e) => Err(ServiceError::IndexError(error_text(&e))),
        }
    }

    /// The index of collection `name`, provided its dimension is `len`.
    pub fn index_for(&self, name: &str, len: usize) -> (r: Result<IndexHandle, ServiceError>)
        requires
            self.wf(),
        ensures
            r is Ok <==> dimension_of(self@, name@) == Some(len as nat),
            r matches Ok(h) ==> h.collection@ == name@,
            !self@.contains_key(name@) ==> (r matches Err(e) && e == ServiceError::CollectionNotFound),
            self@.contains_key(name@) && self@[name@] != len ==> (r matches Err(e) && e
                == (ServiceError::DimensionMismatch { expected: self@[name@] as usize, actual: len })),
    {
        let info = match self.lookup(name) {
            Ok(c) => c,
            Err(e) => return Err(e),
        };
        if info.dimension != len {
            return Err(ServiceError::DimensionMismatch { expected: info.dimension, actual: len });
        }
        proof {
            assert(collections_of(self.db).contains_key(name@));
            assert(has_name(self.entries@, name@));
            let i = choose|i: int| 0 <= i < self.entries@.len() && (#[trigger] self.entries@[i]).name@ == name@;
            assert(valid_name(self.entries@[i].name@));
        }
        match db_index(&self.db, name, len) {
            Ok(h) => Ok(h),
            Err(e) => Err(ServiceError::IndexError(error_text(&e))),
        }
    }
}

/// How many of a run of creation attempts on `name`, made one after another
/// from contents `m`, register it. Each attempt gives a dimension and whether
/// the store managed to persist it.
pub open spec fn serial_wins(m: Map<Seq<char>, nat>, name: Seq<char>, calls: Seq<(nat, bool)>) -> nat
    decreases calls.len(),
{
    if calls.len() == 0 {
        0
    } else {
        let (dim, stored) = calls[0];
        (if create_ok(m, name, dim, stored) {
            1nat
        } else {
            0nat
        }) + serial_wins(create_next(m, name, dim, stored), name, calls.drop_first())
    }
}

/// How many of the same run find `name` already registered, which is when an
/// attempt fails with `AlreadyExists`.
pub open spec fn serial_taken(m: Map<Seq<char>, nat>, name: Seq<char>, calls: Seq<(nat, bool)>) -> nat
    decreases calls.len(),
{
    if calls.len() == 0 {
        0
    } else {
        let (dim, stored) = calls[0];
        (if m.contains_key(name) {
            1nat
        } else {
            0nat
        }) + serial_taken(create_next(m, name, dim, stored), name, calls.drop_first())
    }
}

/// A collection created with a positive dimension under a fresh valid name,
/// once the store has persisted it, is then found under that name with
/// exactly that dimension.
pub proof fn lemma_lookup_after_create(m: Map<Seq<char>, nat>, name: Seq<char>, dim: nat)
    requires
        valid_name(name),
        dim > 0,
        !m.contains_key(name),
    ensures
        create_ok(m, name, dim, true),
        dimension_of(create_next(m, name, dim, true), name) == Some(dim),
{
}

/// Creating a name that is already registered registers nothing: the
/// contents, and so the existing collection's dimension, stay as they were.
pub proof fn lemma_create_existing(m: Map<Seq<char>, nat>, name: Seq<char>, dim: nat, stored: bool)
    requires
        m.contains_key(name),
    ensures
        !create_ok(m, name, dim, stored),
        create_next(m, name, dim, stored) == m,
        dimension_of(create_next(m, name, dim, stored), name) == dimension_of(m, name),
{
}

proof fn lemma_run_after_taken(m: Map<Seq<char>, nat>, name: Seq<char>, calls: Seq<(nat, bool)>)
    requires
        m.contains_key(name),
    ensures
        serial_wins(m, name, calls) == 0,
        serial_taken(m, name, calls) == calls.len(),
    decreases calls.len(),
{
    if calls.len() > 0 {
        lemma_run_after_taken(m, name, calls.drop_first());
    }
}

/// Creation attempts on one name, made one after another, register it at most
/// once. When the name is valid and starts out free, and every attempt has a
/// positive dimension that the store persists, exactly one attempt succeeds
/// and every other finds the name taken.
pub proof fn lemma_single_winner(m: Map<Seq<char>, nat>, name: Seq<char>, calls: Seq<(nat, bool)>)
    ensures
        serial_wins(m, name, calls) <= 1,
        valid_name(name) && !m.contains_key(name) && calls.len() >= 1 && (forall|i: int|
            0 <= i < calls.len() ==> (#[trigger] calls[i]).0 > 0 && calls[i].1) ==> serial_wins(m, name, calls)
            == 1 && serial_taken(m, name, calls) == calls.len() - 1,
    decreases calls.len(),
{
    if calls.len() > 0 {
        let (dim, stored) = calls[0];
        let next = create_next(m, name, dim, stored);
        if create_ok(m, name, dim, stored) {
            lemma_run_after_taken(next, name, calls.drop_first());
        } else if m.contains_key(name) {
            lemma_run_after_taken(m, name, calls);
        } else {
            lemma_single_winner(m, name, calls.drop_first());
            assert(next == m);
        }
    }
}

} // verus!
