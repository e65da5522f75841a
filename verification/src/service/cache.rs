//! The cache-backed stores: image bytes keyed by container id, and stored
//! role bindings keyed by login.
//!
//! Both are pure key→value storage: no versioning and no content negotiation.
//! A read miss is not a failure; the caller decides what to substitute.

use crate::auth::Role;
use crate::keyed::{
    keys_of, kv_map, lemma_find_key, lemma_find_key_first, lemma_kv_map, lemma_kv_map_push,
    lemma_kv_map_remove, lemma_kv_map_update, lemma_no_dup_push, lemma_no_dup_remove,
};
use vstd::prelude::*;

verus! {

/// Whether two byte strings hold the same bytes.
fn bytes_eq(a: &[u8], b: &[u8]) -> (r: bool)
    ensures
        r == (a@ == b@),
{
    if a.len() != b.len() {
        return false;
    }
    let mut i: usize = 0;
    while i < a.len()
        invariant
            i <= a.len(),
            a@.len() == b@.len(),
            forall|j: int| 0 <= j < i ==> a@[j] == b@[j],
        decreases a.len() - i,
    {
        if a[i] != b[i] {
            return false;
        }
        i += 1;
    }
    proof {
        assert(a@ =~= b@);
    }
    true
}

/// The entries of a byte cache, at the spec level.
spec fn byte_pairs(entries: Seq<(Vec<u8>, Vec<u8>)>) -> Seq<(Seq<u8>, Seq<u8>)> {
    entries.map_values(|p: (Vec<u8>, Vec<u8>)| (p.0@, p.1@))
}

/// Pure key→bytes storage for container images, keyed by container id.
pub struct ImageStore {
    entries: Vec<(Vec<u8>, Vec<u8>)>,
}

impl View for ImageStore {
    type V = Map<Seq<u8>, Seq<u8>>;

    closed spec fn view(&self) -> Map<Seq<u8>, Seq<u8>> {
        kv_map(byte_pairs(self.entries@))
    }
}

/// Locates the first cache entry stored under `key`.
fn find_bytes(entries: &Vec<(Vec<u8>, Vec<u8>)>, key: &[u8]) -> (r: Option<usize>)
    ensures
        match r {
            Some(i) => i < entries@.len() && byte_pairs(entries@)[i as int].0 == key@ && (forall|
                j: int,
            |
                0 <= j < i ==> byte_pairs(entries@)[j].0 != key@),
            None => forall|j: int|
                0 <= j < entries@.len() ==> byte_pairs(entries@)[j].0 != key@,
        },
{
    let mut i: usize = 0;
    while i < entries.len()
        invariant
            i <= entries.len(),
            forall|j: int| 0 <= j < i ==> byte_pairs(entries@)[j].0 != key@,
        decreases entries.len() - i,
    {
        proof {
            assert(byte_pairs(entries@)[i as int].0 == entries@[i as int].0@);
        }
        if bytes_eq(entries[i].0.as_slice(), key) {
            return Some(i);
        }
        i += 1;
    }
    None
}

impl ImageStore {
    #[verifier::type_invariant]
    spec fn wf(self) -> bool {
        keys_of(byte_pairs(self.entries@)).no_duplicates()
    }

    /// An empty image cache.
    pub fn new() -> (r: ImageStore)
        ensures
            r@ == Map::<Seq<u8>, Seq<u8>>::empty(),
    {
        ImageStore { entries: Vec::new() }
    }

    /// The cached image for a container id; a miss is not a failure, the
    /// caller substitutes its own default.
    pub fn image(&self, uuid: &[u8]) -> (r: Option<Vec<u8>>)
        ensures
            self@.contains_key(uuid@) ==> (r matches Some(b) && b@ == self@[uuid@]),
            !self@.contains_key(uuid@) ==> r is None,
    {
        let ghost s = byte_pairs(self.entries@);
        match find_bytes(&self.entries, uuid) {
            Some(i) => {
                proof {
                    assert(keys_of(s)[i as int] == s[i as int].0);
                    assert(forall|j: int| 0 <= j < i ==> keys_of(s)[j] == s[j].0);
                    lemma_find_key_first(keys_of(s), uuid@, i as int);
                    lemma_kv_map(s, uuid@);
                }
                Some(vstd::slice::slice_to_vec(self.entries[i].1.as_slice()))
            },
            None => {
                proof {
                    assert(forall|j: int| 0 <= j < s.len() ==> keys_of(s)[j] == s[j].0);
                    lemma_find_key(keys_of(s), uuid@);
                    lemma_kv_map(s, uuid@);
                }
                None
            },
        }
    }

    /// Stores image bytes under a container id, replacing any prior image.
    pub fn load(&mut self, uuid: &[u8], bytes: &[u8])
        ensures
            final(self)@ == old(self)@.insert(uuid@, bytes@),
    {
        proof {
            use_type_invariant(&*self);
        }
        let ghost s = byte_pairs(self.entries@);
        let mut es: Vec<(Vec<u8>, Vec<u8>)> = Vec::new();
        core::mem::swap(&mut es, &mut self.entries);
        let key = vstd::slice::slice_to_vec(uuid);
        let value = vstd::slice::slice_to_vec(bytes);
        match find_bytes(&es, uuid) {
            Some(i) => {
                proof {
                    assert(keys_of(s)[i as int] == s[i as int].0);
                    assert(forall|j: int| 0 <= j < i ==> keys_of(s)[j] == s[j].0);
                    lemma_find_key_first(keys_of(s), uuid@, i as int);
                    lemma_kv_map_update(s, i as int, bytes@);
                }
                es[i] = (key, value);
                proof {
                    assert(byte_pairs(es@) =~= s.update(i as int, (s[i as int].0, bytes@)));
                    assert(keys_of(byte_pairs(es@)) =~= keys_of(s));
                }
            },
            None => {
                proof {
                    assert(forall|j: int| 0 <= j < s.len() ==> keys_of(s)[j] == s[j].0);
                    lemma_find_key(keys_of(s), uuid@);
                    lemma_kv_map_push(s, uuid@, bytes@);
                    lemma_no_dup_push(keys_of(s), uuid@);
                }
                es.push((key, value));
                proof {
                    assert(byte_pairs(es@) =~= s.push((uuid@, bytes@)));
                    assert(keys_of(byte_pairs(es@)) =~= keys_of(s).push(uuid@));
                }
            },
        }
        self.entries = es;
    }

    /// Drops the image under a container id; dropping a missing id is a
    /// no-op, as for any idempotent cache delete.
    pub fn remove(&mut self, uuid: &[u8])
        ensures
            final(self)@ == old(self)@.remove(uuid@),
    {
        proof {
            use_type_invariant(&*self);
        }
        let ghost s = byte_pairs(self.entries@);
        let mut es: Vec<(Vec<u8>, Vec<u8>)> = Vec::new();
        core::mem::swap(&mut es, &mut self.entries);
        match find_bytes(&es, uuid) {
            Some(i) => {
                proof {
                    assert(keys_of(s)[i as int] == s[i as int].0);
                    assert(forall|j: int| 0 <= j < i ==> keys_of(s)[j] == s[j].0);
                    lemma_find_key_first(keys_of(s), uuid@, i as int);
                    lemma_kv_map_remove(s, i as int);
                    lemma_no_dup_remove(keys_of(s), i as int);
                }
                let _ = es.remove(i);
                proof {
                    assert(byte_pairs(es@) =~= s.remove(i as int));
                    assert(keys_of(byte_pairs(es@)) =~= keys_of(s).remove(i as int));
                }
            },
            None => {
                proof {
                    assert(forall|j: int| 0 <= j < s.len() ==> keys_of(s)[j] == s[j].0);
                    lemma_find_key(keys_of(s), uuid@);
                    lemma_kv_map(s, uuid@);
                    assert(old(self)@.remove(uuid@) =~= old(self)@);
                }
            },
        }
        self.entries = es;
    }
}

/// The entries of a role store, at the spec level.
spec fn role_pairs(entries: Seq<(String, Role)>) -> Seq<(Seq<char>, Role)> {
    entries.map_values(|p: (String, Role)| (p.0@, p.1))
}

/// Stored role bindings: login → role.
pub struct RoleStore {
    entries: Vec<(String, Role)>,
}

impl View for RoleStore {
    type V = Map<Seq<char>, Role>;

    closed spec fn view(&self) -> Map<Seq<char>, Role> {
        kv_map(role_pairs(self.entries@))
    }
}

/// Locates the first role binding stored under `login`.
fn find_role(entries: &Vec<(String, Role)>, login: &str) -> (r: Option<usize>)
    ensures
        match r {
            Some(i) => i < entries@.len() && role_pairs(entries@)[i as int].0 == login@ && (
            forall|j: int| 0 <= j < i ==> role_pairs(entries@)[j].0 != login@),
            None => forall|j: int|
                0 <= j < entries@.len() ==> role_pairs(entries@)[j].0 != login@,
        },
{
    let key: String = login.to_owned();
    let mut i: usize = 0;
    while i < entries.len()
        invariant
            i <= entries.len(),
            key@ == login@,
            forall|j: int| 0 <= j < i ==> role_pairs(entries@)[j].0 != login@,
        decreases entries.len() - i,
    {
        proof {
            assert(role_pairs(entries@)[i as int].0 == entries@[i as int].0@);
        }
        if entries[i].0 == key {
            return Some(i);
        }
        i += 1;
    }
    None
}

impl RoleStore {
    #[verifier::type_invariant]
    spec fn wf(self) -> bool {
        keys_of(role_pairs(self.entries@)).no_duplicates()
    }

    /// An empty role store.
    pub fn new() -> (r: RoleStore)
        ensures
            r@ == Map::<Seq<char>, Role>::empty(),
    {
        RoleStore { entries: Vec::new() }
    }

    /// The role stored for a login, if any.
    pub fn role(&self, login: &str) -> (r: Option<Role>)
        ensures
            r == (if self@.contains_key(login@) {
                Some(self@[login@])
            } else {
                None::<Role>
            }),
    {
        let ghost s = role_pairs(self.entries@);
        match find_role(&self.entries, login) {
            Some(i) => {
                proof {
                    assert(keys_of(s)[i as int] == s[i as int].0);
                    assert(forall|j: int| 0 <= j < i ==> keys_of(s)[j] == s[j].0);
                    lemma_find_key_first(keys_of(s), login@, i as int);
                    lemma_kv_map(s, login@);
                }
                Some(self.entries[i].1)
            },
            None => {
                proof {
                    assert(forall|j: int| 0 <= j < s.len() ==> keys_of(s)[j] == s[j].0);
                    lemma_find_key(keys_of(s), login@);
                    lemma_kv_map(s, login@);
                }
                None
            },
        }
    }

    /// Stores a role for a login, returning the binding it replaced.
    pub fn set_role(&mut self, login: &str, role: Role) -> (prev: Option<Role>)
        ensures
            final(self)@ == old(self)@.insert(login@, role),
            prev == (if old(self)@.contains_key(login@) {
                Some(old(self)@[login@])
            } else {
                None::<Role>
            }),
    {
        proof {
            use_type_invariant(&*self);
        }
        let prev = self.role(login);
        let ghost s = role_pairs(self.entries@);
        let mut es: Vec<(String, Role)> = Vec::new();
        core::mem::swap(&mut es, &mut self.entries);
        let key: String = login.to_owned();
        match find_role(&es, login) {
            Some(i) => {
                proof {
                    assert(keys_of(s)[i as int] == s[i as int].0);
                    assert(forall|j: int| 0 <= j < i ==> keys_of(s)[j] == s[j].0);
                    lemma_find_key_first(keys_of(s), login@, i as int);
                    lemma_kv_map_update(s, i as int, role);
                }
                es[i] = (key, role);
                proof {
                    assert(role_pairs(es@) =~= s.update(i as int, (s[i as int].0, role)));
                    assert(keys_of(role_pairs(es@)) =~= keys_of(s));
                }
            },
            None => {
                proof {
                    assert(forall|j: int| 0 <= j < s.len() ==> keys_of(s)[j] == s[j].0);
                    lemma_find_key(keys_of(s), login@);
                    lemma_kv_map_push(s, login@, role);
                    lemma_no_dup_push(keys_of(s), login@);
                }
                es.push((key, role));
                proof {
                    assert(role_pairs(es@) =~= s.push((login@, role)));
                    assert(keys_of(role_pairs(es@)) =~= keys_of(s).push(login@));
                }
            },
        }
        self.entries = es;
        prev
    }
}

} // verus!
