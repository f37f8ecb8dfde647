//! An in-memory store behind the namespaced store contract: every operation
//! checks its triple first, then reads or changes a map from
//! (primary namespace, secondary namespace, key) to a byte payload.
use crate::namespace::{check_namespace_key_validity, key_view, violated_rule, InvalidNamespaceOrKey};
use vstd::prelude::*;

verus! {

/// The address of a stored payload, as characters.
pub type Location = (Seq<char>, Seq<char>, Seq<char>);

/// A failed store operation.
#[derive(Clone, Debug)]
pub enum StoreError {
    /// The triple breaks a namespace or key rule; nothing was touched.
    InvalidNamespaceOrKey(InvalidNamespaceOrKey),
    /// No payload is stored at the triple.
    NotFound,
}

struct Entry {
    primary_namespace: String,
    secondary_namespace: String,
    key: String,
    value: Vec<u8>,
}

impl Entry {
    spec fn location(&self) -> Location {
        (self.primary_namespace@, self.secondary_namespace@, self.key@)
    }
}

/// A namespaced key-value store held in memory.
pub struct KvStore {
    entries: Vec<Entry>,
    contents: Ghost<Map<Location, Seq<u8>>>,
}

/// Whether `(p, s, k)` may be read or written.
pub open spec fn valid_location(p: Seq<char>, s: Seq<char>, k: Seq<char>) -> bool {
    violated_rule(p, s, Some(k)) is None
}

/// Whether `(p, s)` may be listed.
pub open spec fn valid_namespace(p: Seq<char>, s: Seq<char>) -> bool {
    violated_rule(p, s, None) is None
}

/// The keys stored under one namespace pair.
pub open spec fn keys_in(m: Map<Location, Seq<u8>>, p: Seq<char>, s: Seq<char>) -> Set<Seq<char>> {
    Set::new(|k: Seq<char>| m.contains_key((p, s, k)))
}

/// `keys` holds each key stored under `(p, s)` exactly once, and nothing else.
pub open spec fn lists_keys_of(
    m: Map<Location, Seq<u8>>,
    p: Seq<char>,
    s: Seq<char>,
    keys: Seq<String>,
) -> bool {
    &&& forall|k: Seq<char>|
        keys_in(m, p, s).contains(k) <==> exists|i: int| 0 <= i < keys.len() && #[trigger] keys[i]@ == k
    &&& forall|i: int, j: int|
        0 <= i < keys.len() && 0 <= j < keys.len() && i != j ==> #[trigger] keys[i]@ != #[trigger] keys[j]@
}

/// Writing a payload and reading it back at the same valid triple gives the
/// payload unchanged, whatever the store held before.
pub proof fn lemma_write_then_read(before: Map<Location, Seq<u8>>, t: Location, v: Seq<u8>)
    requires
        valid_location(t.0, t.1, t.2),
    ensures
        before.insert(t, v).contains_key(t),
        before.insert(t, v)[t] == v,
{
}

/// Copies a byte buffer.
pub fn copy_bytes(v: &Vec<u8>) -> (r: Vec<u8>)
    ensures
        r@ == v@,
{
    let mut r: Vec<u8> = Vec::new();
    let mut i: usize = 0;
    while i < v.len()
        invariant
            i <= v@.len(),
            r@ == v@.subrange(0, i as int),
        decreases v@.len() - i,
    {
        r.push(v[i]);
        i = i + 1;
        assert(r@ =~= v@.subrange(0, i as int));
    }
    assert(r@ =~= v@);
    r
}

spec fn listing_of(e: Seq<Entry>, p: Seq<char>, s: Seq<char>) -> Seq<Seq<char>>
    decreases e.len(),
{
    if e.len() == 0 {
        Seq::empty()
    } else {
        let rest = listing_of(e.drop_last(), p, s);
        if e.last().primary_namespace@ == p && e.last().secondary_namespace@ == s {
            rest.push(e.last().key@)
        } else {
            rest
        }
    }
}

impl View for KvStore {
    type V = Map<Location, Seq<u8>>;

    closed spec fn view(&self) -> Map<Location, Seq<u8>> {
        self.contents@
    }
}

impl KvStore {
    /// The entries and the map agree, and no location is held twice.
    pub closed spec fn wf(&self) -> bool {
        let e = self.entries@;
        let m = self.contents@;
        &&& forall|i: int|
            0 <= i < e.len() ==> m.contains_key(#[trigger] e[i].location()) && m[e[i].location()]
                == e[i].value@
        &&& forall|t: Location| m.contains_key(t) ==> exists|i: int| 0 <= i < e.len() && #[trigger] e[i].location() == t
        &&& forall|t: Location| #[trigger] m.contains_key(t) ==> valid_location(t.0, t.1, t.2)
        &&& forall|i: int, j: int|
            0 <= i < e.len() && 0 <= j < e.len() && i != j ==> #[trigger] e[i].location()
                != #[trigger] e[j].location()
    }

    /// The order in which this store enumerates the keys under `(p, s)`.
    pub closed spec fn listing(&self, p: Seq<char>, s: Seq<char>) -> Seq<Seq<char>> {
        listing_of(self.entries@, p, s)
    }

    /// Every stored location passes the namespace and key rules.
    pub proof fn lemma_locations_valid(&self, t: Location)
        requires
            self.wf(),
            self@.contains_key(t),
        ensures
            valid_location(t.0, t.1, t.2),
    {
    }

    /// An empty store.
    pub fn new() -> (r: KvStore)
        ensures
            r.wf(),
            r@ == Map::<Location, Seq<u8>>::empty(),
    {
        KvStore { entries: Vec::new(), contents: Ghost(Map::empty()) }
    }

    fn find(&self, p: &str, s: &str, k: &str) -> (r: Option<usize>)
        requires
            self.wf(),
        ensures
            r matches Some(i) ==> i < self.entries@.len() && self.entries@[i as int].location() == (
            p@, s@, k@),
            r is None ==> !self@.contains_key((p@, s@, k@)),
    {
        let ghost old_p = p@;
        let ghost old_s = s@;
        let ghost old_k = k@;
        let po = p.to_owned();
        let so = s.to_owned();
        let ko = k.to_owned();
        let mut i: usize = 0;
        while i < self.entries.len()
            invariant
                self.wf(),
                i <= self.entries@.len(),
                po@ == old_p,
                so@ == old_s,
                ko@ == old_k,
                old_p == p@,
                old_s == s@,
                old_k == k@,
                forall|j: int| 0 <= j < i ==> #[trigger] self.entries@[j].location() != (old_p, old_s, old_k),
            decreases self.entries@.len() - i,
        {
            let e = &self.entries[i];
            if e.primary_namespace == po && e.secondary_namespace == so && e.key == ko {
                return Some(i);
            }
            i = i + 1;
        }
        None
    }

    /// Reads the payload stored at a triple.
    pub fn read(&self, primary_namespace: &str, secondary_namespace: &str, key: &str) -> (r: Result<
        Vec<u8>,
        StoreError,
    >)
        requires
            self.wf(),
        ensures
            (r matches Err(StoreError::InvalidNamespaceOrKey(_))) <==> !valid_location(
                primary_namespace@,
                secondary_namespace@,
                key@,
            ),
            (r matches Err(StoreError::NotFound)) <==> valid_location(
                primary_namespace@,
                secondary_namespace@,
                key@,
            ) && !self@.contains_key((primary_namespace@, secondary_namespace@, key@)),
            r matches Ok(v) ==> v@ == self@[(primary_namespace@, secondary_namespace@, key@)],
    {
        match check_namespace_key_validity(primary_namespace, secondary_namespace, Some(key), "read") {
            Err(e) => Err(StoreError::InvalidNamespaceOrKey(e)),
            Ok(()) => match self.find(primary_namespace, secondary_namespace, key) {
                Some(i) => Ok(copy_bytes(&self.entries[i].value)),
                None => Err(StoreError::NotFound),
            },
        }
    }

    fn remove_at(&mut self, i: usize)
        requires
            old(self).wf(),
            i < old(self).entries@.len(),
        ensures
            final(self).wf(),
            final(self)@ == old(self)@.remove(old(self).entries@[i as int].location()),
    {
        let ghost t = self.entries@[i as int].location();
        let ghost old_entries = self.entries@;
        self.entries.remove(i);
        self.contents = Ghost(self.contents@.remove(t));
        let ghost e = self.entries@;
        let ghost m = self.contents@;
        assert forall|j: int| 0 <= j < e.len() implies m.contains_key(#[trigger] e[j].location())
            && m[e[j].location()] == e[j].value@ by {
            let oj = if j < i { j } else { j + 1 };
            assert(e[j] == old_entries[oj]);
            assert(old_entries[oj].location() != old_entries[i as int].location());
        }
        assert forall|u: Location| m.contains_key(u) implies exists|j: int|
            0 <= j < e.len() && #[trigger] e[j].location() == u by {
            let oj = choose|j: int| 0 <= j < old_entries.len() && #[trigger] old_entries[j].location() == u;
            assert(oj != i);
            let j = if oj < i { oj } else { oj - 1 };
            assert(e[j] == old_entries[oj]);
        }
        assert forall|a: int, b: int|
            0 <= a < e.len() && 0 <= b < e.len() && a != b implies #[trigger] e[a].location()
            != #[trigger] e[b].location() by {
            let oa = if a < i { a } else { a + 1 };
            let ob = if b < i { b } else { b + 1 };
            assert(e[a] == old_entries[oa]);
            assert(e[b] == old_entries[ob]);
        }
    }

    /// Stores `value` at a triple, replacing what was there.
    pub fn write(
        &mut self,
        primary_namespace: &str,
        secondary_namespace: &str,
        key: &str,
        value: &Vec<u8>,
    ) -> (r: Result<(), StoreError>)
        requires
            old(self).wf(),
        ensures
            final(self).wf(),
            r is Ok <==> valid_location(primary_namespace@, secondary_namespace@, key@),
            r is Ok ==> final(self)@ == old(self)@.insert(
                (primary_namespace@, secondary_namespace@, key@),
                value@,
            ),
            r is Err ==> final(self)@ == old(self)@ && r matches Err(
                StoreError::InvalidNamespaceOrKey(_),
            ),
    {
        match check_namespace_key_validity(primary_namespace, secondary_namespace, Some(key), "write") {
            Err(e) => Err(StoreError::InvalidNamespaceOrKey(e)),
            Ok(()) => {
                let ghost t = (primary_namespace@, secondary_namespace@, key@);
                let ghost before = self@;
                match self.find(primary_namespace, secondary_namespace, key) {
                    Some(i) => self.remove_at(i),
                    None => {},
                }
                assert(!self@.contains_key(t));
                assert(self@ == before.remove(t));
                let entry = Entry {
                    primary_namespace: primary_namespace.to_owned(),
                    secondary_namespace: secondary_namespace.to_owned(),
                    key: key.to_owned(),
                    value: copy_bytes(value),
                };
                let ghost old_entries = self.entries@;
                self.entries.push(entry);
                self.contents = Ghost(self.contents@.insert(t, value@));
                let ghost e = self.entries@;
                let ghost m = self.contents@;
                assert(e[old_entries.len() as int].location() == t);
                assert forall|j: int| 0 <= j < e.len() implies m.contains_key(
                    #[trigger] e[j].location(),
                ) && m[e[j].location()] == e[j].value@ by {
                    if j < old_entries.len() {
                        assert(e[j] == old_entries[j]);
                    }
                }
                assert forall|u: Location| m.contains_key(u) implies exists|j: int|
                    0 <= j < e.len() && #[trigger] e[j].location() == u by {
                    if u == t {
                        assert(e[old_entries.len() as int].location() == u);
                    } else {
                        let oj = choose|j: int|
                            0 <= j < old_entries.len() && #[trigger] old_entries[j].location() == u;
                        assert(e[oj] == old_entries[oj]);
                    }
                }
                assert forall|a: int, b: int|
                    0 <= a < e.len() && 0 <= b < e.len() && a != b implies #[trigger] e[a].location()
                    != #[trigger] e[b].location() by {
                    if a < old_entries.len() {
                        assert(e[a] == old_entries[a]);
                    }
                    if b < old_entries.len() {
                        assert(e[b] == old_entries[b]);
                    }
                }
                assert(self@ =~= before.insert(t, value@));
                Ok(())
            },
        }
    }

    /// Removes the payload at a triple, if there is one. The removal takes
    /// effect before the call returns, whether or not `lazy` is set.
    pub fn remove(
        &mut self,
        primary_namespace: &str,
        secondary_namespace: &str,
        key: &str,
        lazy: bool,
    ) -> (r: Result<(), StoreError>)
        requires
            old(self).wf(),
        ensures
            final(self).wf(),
            r is Ok <==> valid_location(primary_namespace@, secondary_namespace@, key@),
            r is Ok ==> final(self)@ == old(self)@.remove(
                (primary_namespace@, secondary_namespace@, key@),
            ),
            r is Err ==> final(self)@ == old(self)@ && r matches Err(
                StoreError::InvalidNamespaceOrKey(_),
            ),
    {
        match check_namespace_key_validity(primary_namespace, secondary_namespace, Some(key), "remove") {
            Err(e) => Err(StoreError::InvalidNamespaceOrKey(e)),
            Ok(()) => {
                let ghost t = (primary_namespace@, secondary_namespace@, key@);
                match self.find(primary_namespace, secondary_namespace, key) {
                    Some(i) => self.remove_at(i),
                    None => {
                        assert(self@ =~= self@.remove(t));
                    },
                }
                Ok(())
            },
        }
    }

    /// The keys stored under a namespace pair, each once, in no promised order.
    pub fn list(&self, primary_namespace: &str, secondary_namespace: &str) -> (r: Result<
        Vec<String>,
        StoreError,
    >)
        requires
            self.wf(),
        ensures
            r is Ok <==> valid_namespace(primary_namespace@, secondary_namespace@),
            r is Err ==> r matches Err(StoreError::InvalidNamespaceOrKey(_)),
            r matches Ok(keys) ==> lists_keys_of(self@, primary_namespace@, secondary_namespace@, keys@),
            r matches Ok(keys) ==> keys@.len() == self.listing(primary_namespace@, secondary_namespace@).len()
                && forall|i: int|
                0 <= i < keys@.len() ==> #[trigger] keys@[i]@ == self.listing(
                    primary_namespace@,
                    secondary_namespace@,
                )[i],
    {
        match check_namespace_key_validity(primary_namespace, secondary_namespace, None, "list") {
            Err(e) => Err(StoreError::InvalidNamespaceOrKey(e)),
            Ok(()) => {
                let ghost p = primary_namespace@;
                let ghost s = secondary_namespace@;
                let p_owned = primary_namespace.to_owned();
                let s_owned = secondary_namespace.to_owned();
                let mut found: Vec<String> = Vec::new();
                let mut idx: Ghost<Seq<int>> = Ghost(Seq::empty());
                let mut pos: usize = 0;
                while pos < self.entries.len()
                    invariant
                        self.wf(),
                        p == primary_namespace@,
                        s == secondary_namespace@,
                        p_owned@ == p,
                        s_owned@ == s,
                        pos <= self.entries@.len(),
                        idx@.len() == found@.len(),
                        found@.len() == listing_of(self.entries@.subrange(0, pos as int), p, s).len(),
                        forall|a: int|
                            0 <= a < found@.len() ==> #[trigger] found@[a]@ == listing_of(
                                self.entries@.subrange(0, pos as int),
                                p,
                                s,
                            )[a],
                        forall|a: int|
                            0 <= a < found@.len() ==> 0 <= #[trigger] idx@[a] < pos && self.entries@[idx@[a]].location()
                                == (p, s, found@[a]@),
                        forall|j: int|
                            0 <= j < pos && (#[trigger] self.entries@[j]).primary_namespace@ == p
                                && self.entries@[j].secondary_namespace@ == s ==> exists|a: int|
                                0 <= a < found@.len() && idx@[a] == j,
                        forall|a: int, b: int|
                            0 <= a < found@.len() && 0 <= b < found@.len() && a != b ==> #[trigger] idx@[a]
                                != #[trigger] idx@[b],
                    decreases self.entries@.len() - pos,
                {
                    let e = &self.entries[pos];
                    if e.primary_namespace == p_owned && e.secondary_namespace == s_owned {
                        let ghost before = found@;
                        let ghost old_idx = idx@;
                        found.push(e.key.clone());
                        idx = Ghost(idx@.push(pos as int));
                        assert forall|j: int|
                            0 <= j < pos && (#[trigger] self.entries@[j]).primary_namespace@ == p
                                && self.entries@[j].secondary_namespace@ == s implies exists|a: int|
                            0 <= a < found@.len() && idx@[a] == j by {
                            let a = choose|a: int| 0 <= a < before.len() && old_idx[a] == j;
                            assert(idx@[a] == j);
                        }
                        assert(idx@[before.len() as int] == pos);
                    }
                    assert(self.entries@.subrange(0, pos + 1).drop_last() =~= self.entries@.subrange(
                        0,
                        pos as int,
                    ));
                    pos = pos + 1;
                }
                assert(self.entries@.subrange(0, self.entries@.len() as int) =~= self.entries@);
                let ghost m = self@;
                let ghost en = self.entries@;
                assert forall|k: Seq<char>|
                    keys_in(m, p, s).contains(k) <==> exists|a: int|
                        0 <= a < found@.len() && #[trigger] found@[a]@ == k by {
                    if keys_in(m, p, s).contains(k) {
                        let j = choose|j: int| 0 <= j < en.len() && #[trigger] en[j].location() == (p, s, k);
                        assert(en[j].primary_namespace@ == p);
                        let a = choose|a: int| 0 <= a < found@.len() && idx@[a] == j;
                        assert(found@[a]@ == k);
                    }
                    if exists|a: int| 0 <= a < found@.len() && #[trigger] found@[a]@ == k {
                        let a = choose|a: int| 0 <= a < found@.len() && #[trigger] found@[a]@ == k;
                        assert(en[idx@[a]].location() == (p, s, k));
                    }
                }
                assert forall|a: int, b: int|
                    0 <= a < found@.len() && 0 <= b < found@.len() && a != b implies #[trigger] found@[a]@
                    != #[trigger] found@[b]@ by {
                    assert(en[idx@[a]].location() == (p, s, found@[a]@));
                    assert(en[idx@[b]].location() == (p, s, found@[b]@));
                }
                Ok(found)
            },
        }
    }
}

} // verus!
