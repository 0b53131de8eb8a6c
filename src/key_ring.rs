//! The key ring: key entries stored under their content-derived key ids.
use crate::codec::{b64_decode, b64_encode, decode, encode};
use crate::error::Error;
use vstd::prelude::*;
use vstd::utf8::*;

verus! {

/// Size in bytes of the raw key material of the 256-bit cipher.
pub const KEY_LENGTH: usize = 32;

/// The lower-case hex text of the SHA-256 digest of `b`.
pub uninterp spec fn sha256_hex(b: Seq<u8>) -> Seq<char>;

/// Relies on sha256's `digest` on a byte slice: the hex text of the SHA-256
/// digest, which depends on the bytes alone.
#[verifier::external_body]
fn digest_hex(b: &[u8]) -> (r: String)
    ensures
        r@ == sha256_hex(b@),
{
    sha256::digest(b)
}

/// Relies on rand's `thread_rng`, a cryptographically secure generator:
/// fills a buffer of `n` bytes.
#[verifier::external_body]
pub(crate) fn random_bytes(n: usize) -> (r: Vec<u8>)
    ensures
        r@.len() == n,
{
    let mut v = vec![0u8; n];
    rand::Rng::fill(&mut rand::thread_rng(), &mut v[..]);
    v
}

/// The identifier of a key: the hex text of the SHA-256 digest of its bytes.
#[derive(Debug, Clone, Hash, PartialEq, Eq, PartialOrd, Ord)]
pub struct KeyID(String);

/// Key material, stored armored.
#[derive(Debug, Clone, PartialEq, Eq)]
pub struct Key(String);

/// One entry of the ring.
#[derive(Debug, Clone)]
pub struct KeyEntry {
    description: String,
    key: Key,
    key_id: KeyID,
}

/// What a key entry holds, as text.
pub struct KeyEntryView {
    pub description: Seq<char>,
    pub key: Seq<char>,
    pub key_id: Seq<char>,
}

impl View for KeyID {
    type V = Seq<char>;

    closed spec fn view(&self) -> Seq<char> {
        self.0@
    }
}

impl View for Key {
    type V = Seq<char>;

    closed spec fn view(&self) -> Seq<char> {
        self.0@
    }
}

impl View for KeyEntry {
    type V = KeyEntryView;

    closed spec fn view(&self) -> KeyEntryView {
        KeyEntryView { description: self.description@, key: self.key@, key_id: self.key_id@ }
    }
}

/// The content-derived identifier of raw key material.
pub open spec fn key_id_of(key: Seq<u8>) -> Seq<char> {
    sha256_hex(key)
}

/// The entry that `add_key` stores for raw key material `key`.
pub open spec fn entry_of(description: Seq<char>, key: Seq<u8>, key_id: Seq<char>) -> KeyEntryView {
    KeyEntryView { description, key: b64_encode(key), key_id }
}

impl KeyID {
    /// A key id with the given text.
    pub fn new(key_id: String) -> (r: Self)
        ensures
            r@ == key_id@,
    {
        KeyID(key_id)
    }

    /// The key id of raw key material.
    pub fn of_key(key: &[u8]) -> (r: Self)
        ensures
            r@ == key_id_of(key@),
    {
        KeyID(digest_hex(key))
    }

    /// The id as text.
    pub fn as_string(&self) -> (r: String)
        ensures
            r@ == self@,
    {
        self.0.clone()
    }
}

impl Key {
    /// Armors raw key material.
    pub fn new(key: &[u8]) -> (r: Self)
        ensures
            r@ == b64_encode(key@),
            b64_decode(r@) == Some(key@),
    {
        Key(encode(key))
    }

    /// The armored text.
    pub fn as_string(&self) -> (r: String)
        ensures
            r@ == self@,
    {
        self.0.clone()
    }
}

impl KeyEntry {
    /// An entry for raw key material under `key_id`.
    pub fn new(description: String, key: &[u8], key_id: String) -> (r: Self)
        ensures
            r@ == entry_of(description@, key@, key_id@),
            b64_decode(r@.key) == Some(key@),
    {
        KeyEntry { description, key: Key::new(key), key_id: KeyID::new(key_id) }
    }

    /// An entry from its stored text: the key is already armored.
    pub fn from_stored(description: String, key: String, key_id: String) -> (r: Self)
        ensures
            r@ == (KeyEntryView { description: description@, key: key@, key_id: key_id@ }),
    {
        KeyEntry { description, key: Key(key), key_id: KeyID(key_id) }
    }

    /// A copy of the entry.
    pub fn clone_entry(&self) -> (r: Self)
        ensures
            r@ == self@,
    {
        KeyEntry {
            description: self.description.clone(),
            key: Key(self.key.0.clone()),
            key_id: KeyID(self.key_id.0.clone()),
        }
    }

    pub fn description(&self) -> (r: String)
        ensures
            r@ == self@.description,
    {
        self.description.clone()
    }

    pub fn key(&self) -> (r: String)
        ensures
            r@ == self@.key,
    {
        self.key.0.clone()
    }

    pub fn key_id(&self) -> (r: String)
        ensures
            r@ == self@.key_id,
    {
        self.key_id.0.clone()
    }
}

/// The mapping from key id to entry that a sequence of entries gives when
/// each is stored in turn under its own key id: a later entry replaces an
/// earlier one with the same id.
pub open spec fn entry_map(s: Seq<KeyEntryView>) -> Map<Seq<char>, KeyEntryView>
    decreases s.len(),
{
    if s.len() == 0 {
        Map::empty()
    } else {
        entry_map(s.drop_last()).insert(s.last().key_id, s.last())
    }
}

/// No two entries of `s` share a key id.
pub open spec fn ids_unique(s: Seq<KeyEntryView>) -> bool {
    forall|i: int, j: int| 0 <= i < j < s.len() ==> s[i].key_id != s[j].key_id
}

proof fn lemma_entry_map_lookup(s: Seq<KeyEntryView>, k: Seq<char>)
    requires
        ids_unique(s),
    ensures
        entry_map(s).contains_key(k) <==> exists|i: int| 0 <= i < s.len() && s[i].key_id == k,
        forall|i: int| 0 <= i < s.len() && s[i].key_id == k ==> entry_map(s)[k] == s[i],
    decreases s.len(),
{
    if s.len() > 0 {
        let t = s.drop_last();
        let n = s.len() - 1;
        assert(ids_unique(t)) by {
            assert forall|i: int, j: int| 0 <= i < j < t.len() implies t[i].key_id != t[j].key_id by {
                assert(t[i] == s[i] && t[j] == s[j]);
            }
        }
        lemma_entry_map_lookup(t, k);
        if s[n].key_id == k {
            assert forall|i: int| 0 <= i < s.len() && s[i].key_id == k implies entry_map(s)[k] == s[i] by {
                if i != n {
                    assert(s[i].key_id != s[n].key_id);
                }
            }
        } else {
            if exists|i: int| 0 <= i < s.len() && s[i].key_id == k {
                let i = choose|i: int| 0 <= i < s.len() && s[i].key_id == k;
                assert(t[i].key_id == k);
            }
            if exists|i: int| 0 <= i < t.len() && t[i].key_id == k {
                let i = choose|i: int| 0 <= i < t.len() && t[i].key_id == k;
                assert(s[i].key_id == k);
            }
            assert forall|i: int| 0 <= i < s.len() && s[i].key_id == k implies entry_map(s)[k] == s[i] by {
                assert(t[i] == s[i]);
            }
        }
    }
}

proof fn lemma_entry_map_update(s: Seq<KeyEntryView>, i: int, e: KeyEntryView)
    requires
        ids_unique(s),
        0 <= i < s.len(),
        s[i].key_id == e.key_id,
    ensures
        entry_map(s.update(i, e)) == entry_map(s).insert(e.key_id, e),
    decreases s.len(),
{
    let t = s.drop_last();
    if i == s.len() - 1 {
        assert(s.update(i, e).drop_last() =~= t);
    } else {
        lemma_entry_map_update(t, i, e);
        assert(s.update(i, e).drop_last() =~= t.update(i, e));
        assert(s.last().key_id != e.key_id);
        assert(entry_map(s.update(i, e)) =~= entry_map(s).insert(e.key_id, e));
    }
}

/// A key ring: entries stored under their key ids, bound to a file path.
#[derive(Debug, Clone)]
pub struct KeyRing {
    key_entries: Vec<KeyEntry>,
    file_path: String,
}

/// What a key ring holds: its mapping and its file path.
pub struct KeyRingView {
    pub entries: Map<Seq<char>, KeyEntryView>,
    pub file_path: Seq<char>,
}

/// The document in which a key ring is stored: a sequence of entries and
/// the file path.
#[derive(Debug, Clone)]
pub struct KeyRingFile {
    key_entries: Vec<KeyEntry>,
    file_path: String,
}

impl KeyRingFile {
    /// A document with the given entries and path.
    pub fn new(key_entries: Vec<KeyEntry>, file_path: String) -> (r: Self)
        ensures
            r.entries() == key_entries@.map_values(|e: KeyEntry| e@),
            r.path() == file_path@,
    {
        KeyRingFile { key_entries, file_path }
    }

    /// The entries of the document, in order.
    pub closed spec fn entries(&self) -> Seq<KeyEntryView> {
        self.key_entries@.map_values(|e: KeyEntry| e@)
    }

    /// The file path that the document names.
    pub closed spec fn path(&self) -> Seq<char> {
        self.file_path@
    }

    pub fn key_entries(&self) -> (r: Vec<KeyEntry>)
        ensures
            r@.map_values(|e: KeyEntry| e@) == self.entries(),
    {
        let mut r: Vec<KeyEntry> = Vec::new();
        let mut i: usize = 0;
        while i < self.key_entries.len()
            invariant
                i <= self.key_entries.len(),
                r@.len() == i,
                forall|j: int| 0 <= j < i ==> r@[j]@ == self.key_entries@[j]@,
            decreases self.key_entries.len() - i,
        {
            let e = self.key_entries[i].clone_entry();
            r.push(e);
            i = i + 1;
        }
        assert(r@.map_values(|e: KeyEntry| e@) =~= self.entries());
        r
    }

    pub fn file_path(&self) -> (r: String)
        ensures
            r@ == self.path(),
    {
        self.file_path.clone()
    }
}

impl View for KeyRing {
    type V = KeyRingView;

    closed spec fn view(&self) -> KeyRingView {
        KeyRingView {
            entries: entry_map(self.key_entries@.map_values(|e: KeyEntry| e@)),
            file_path: self.file_path@,
        }
    }
}

impl KeyRing {
    /// Each stored entry sits under its own key id, once.
    pub closed spec fn wf(&self) -> bool {
        ids_unique(self.key_entries@.map_values(|e: KeyEntry| e@))
    }

    /// A ring bound to `file_path` holding the given entries, each stored
    /// under its own key id; a later entry replaces an earlier one with the
    /// same id.
    pub fn new(key_entries: Vec<KeyEntry>, file_path: String) -> (r: Self)
        ensures
            r.wf(),
            r@.entries == entry_map(key_entries@.map_values(|e: KeyEntry| e@)),
            r@.file_path == file_path@,
            ids_unique(key_entries@.map_values(|e: KeyEntry| e@)) ==> r.stored()
                == key_entries@.map_values(|e: KeyEntry| e@),
    {
        let mut ring = KeyRing { key_entries: Vec::new(), file_path };
        let ghost src = key_entries@.map_values(|e: KeyEntry| e@);
        assert(ring.key_entries@.map_values(|e: KeyEntry| e@) =~= Seq::<KeyEntryView>::empty());
        let mut i: usize = 0;
        while i < key_entries.len()
            invariant
                i <= key_entries.len(),
                src == key_entries@.map_values(|e: KeyEntry| e@),
                ring.wf(),
                ring@.entries == entry_map(src.take(i as int)),
                ring@.file_path == file_path@,
                ids_unique(src) ==> ring.stored() == src.take(i as int),
            decreases key_entries.len() - i,
        {
            let e = key_entries[i].clone_entry();
            proof {
                if ids_unique(src) {
                    let t = src.take(i as int);
                    assert(ids_unique(t)) by {
                        assert forall|a: int, b: int| 0 <= a < b < t.len() implies t[a].key_id
                            != t[b].key_id by {
                            assert(t[a] == src[a] && t[b] == src[b]);
                        }
                    }
                    lemma_entry_map_lookup(t, src[i as int].key_id);
                    if entry_map(t).contains_key(src[i as int].key_id) {
                        let a = choose|a: int| 0 <= a < t.len() && t[a].key_id == src[i as int].key_id;
                        assert(src[a].key_id != src[i as int].key_id);
                    }
                }
            }
            ring.put(e);
            assert(ids_unique(src) ==> src.take(i + 1) =~= src.take(i as int).push(src[i as int]));
            assert(src.take(i + 1).drop_last() =~= src.take(i as int));
            i = i + 1;
        }
        assert(src.take(i as int) =~= src);
        ring
    }

    /// The index of the entry stored under `key_id`, if there is one.
    fn find_index(&self, key_id: &String) -> (r: Option<usize>)
        ensures
            match r {
                Some(i) => i < self.key_entries@.len() && self.key_entries@[i as int]@.key_id
                    == key_id@,
                None => forall|i: int|
                    0 <= i < self.key_entries@.len() ==> self.key_entries@[i]@.key_id != key_id@,
            },
    {
        let mut i: usize = 0;
        while i < self.key_entries.len()
            invariant
                i <= self.key_entries@.len(),
                forall|j: int| 0 <= j < i ==> self.key_entries@[j]@.key_id != key_id@,
            decreases self.key_entries.len() - i,
        {
            if self.key_entries[i].key_id.0 == *key_id {
                return Some(i);
            }
            i = i + 1;
        }
        None
    }

    proof fn lemma_lookup(&self, k: Seq<char>)
        requires
            self.wf(),
        ensures
            self@.entries.contains_key(k) <==> exists|i: int|
                0 <= i < self.key_entries@.len() && self.key_entries@[i]@.key_id == k,
            forall|i: int|
                0 <= i < self.key_entries@.len() && self.key_entries@[i]@.key_id == k
                    ==> self@.entries[k] == self.key_entries@[i]@,
    {
        let s = self.key_entries@.map_values(|e: KeyEntry| e@);
        lemma_entry_map_lookup(s, k);
        if exists|i: int| 0 <= i < s.len() && s[i].key_id == k {
            let i = choose|i: int| 0 <= i < s.len() && s[i].key_id == k;
            assert(self.key_entries@[i]@.key_id == k);
        }
        if exists|i: int| 0 <= i < self.key_entries@.len() && self.key_entries@[i]@.key_id == k {
            let i = choose|i: int|
                0 <= i < self.key_entries@.len() && self.key_entries@[i]@.key_id == k;
            assert(s[i].key_id == k);
        }
        assert forall|i: int|
            0 <= i < self.key_entries@.len() && self.key_entries@[i]@.key_id == k
                implies self@.entries[k] == self.key_entries@[i]@ by {
            assert(s[i] == self.key_entries@[i]@);
        }
    }

    /// Stores `e` under its own key id, replacing any entry stored there.
    fn put(&mut self, e: KeyEntry)
        requires
            old(self).wf(),
        ensures
            final(self).wf(),
            final(self)@.entries == old(self)@.entries.insert(e@.key_id, e@),
            final(self)@.file_path == old(self)@.file_path,
            !old(self)@.entries.contains_key(e@.key_id) ==> final(self).stored() == old(
                self,
            ).stored().push(e@),
    {
        let ghost s = self.key_entries@.map_values(|x: KeyEntry| x@);
        let ghost ev = e@;
        proof {
            self.lemma_lookup(ev.key_id);
        }
        match self.find_index(&e.key_id.0) {
            Some(i) => {
                self.key_entries.set(i, e);
                assert(self.key_entries@.map_values(|x: KeyEntry| x@) =~= s.update(i as int, ev));
                assert(ids_unique(s.update(i as int, ev))) by {
                    assert(s[i as int].key_id == ev.key_id);
                }
                proof { lemma_entry_map_update(s, i as int, ev); }
            },
            None => {
                self.key_entries.push(e);
                let ghost t = self.key_entries@.map_values(|x: KeyEntry| x@);
                assert(t =~= s.push(ev));
                assert(t.drop_last() =~= s);
                assert forall|i: int| 0 <= i < s.len() implies s[i].key_id != ev.key_id by {
                    assert(s[i] == old(self).key_entries@[i]@);
                }
            },
        }
    }

    /// Stores an entry for raw key material `key` under `key_id`, replacing
    /// any entry stored there.
    pub fn add_key(&mut self, description: String, key_id: String, key: &[u8])
        requires
            old(self).wf(),
        ensures
            final(self).wf(),
            final(self)@.entries == old(self)@.entries.insert(
                key_id@,
                entry_of(description@, key@, key_id@),
            ),
            b64_decode(final(self)@.entries[key_id@].key) == Some(key@),
            final(self)@.file_path == old(self)@.file_path,
    {
        let e = KeyEntry::new(description, key, key_id);
        self.put(e);
    }
}

/// What `key` returns for `key_id`: the decoded key material of the entry
/// stored under it, when that is exactly `KEY_LENGTH` bytes.
pub open spec fn key_result(ring: KeyRingView, key_id: Seq<char>) -> Result<Seq<u8>, Error> {
    if !ring.entries.contains_key(key_id) {
        Err(Error::NotFound)
    } else {
        match b64_decode(ring.entries[key_id].key) {
            None => Err(Error::Decode),
            Some(b) => if b.len() == KEY_LENGTH {
                Ok(b)
            } else {
                Err(Error::InvalidKey)
            },
        }
    }
}

/// What `key_by_id_bytes` returns: the key named by the UTF-8 text `id`.
pub open spec fn key_result_bytes(ring: KeyRingView, id: Seq<u8>) -> Result<Seq<u8>, Error> {
    if valid_utf8(id) {
        key_result(ring, decode_utf8(id))
    } else {
        Err(Error::NotFound)
    }
}

/// The outcome of `add_generated_key` on `ring` for raw key material `key`.
pub open spec fn add_generated_result(
    ring: KeyRingView,
    description: Seq<char>,
    key: Seq<u8>,
) -> (Result<(), Error>, KeyRingView) {
    let id = key_id_of(key);
    if key.len() != KEY_LENGTH {
        (Err(Error::InvalidKey), ring)
    } else if ring.entries.contains_key(id) && ring.entries[id].key != b64_encode(key) {
        (Err(Error::KeyCollision), ring)
    } else {
        (
            Ok(()),
            KeyRingView {
                entries: ring.entries.insert(id, entry_of(description, key, id)),
                file_path: ring.file_path,
            },
        )
    }
}

/// The view of a result that carries bytes.
pub open spec fn bytes_result(r: Result<Vec<u8>, Error>) -> Result<Seq<u8>, Error> {
    match r {
        Ok(v) => Ok(v@),
        Err(e) => Err(e),
    }
}

/// Compares two byte slices.
pub fn bytes_eq(a: &[u8], b: &[u8]) -> (r: bool)
    ensures
        r == (a@ == b@),
{
    if a.len() != b.len() {
        return false;
    }
    let mut i: usize = 0;
    while i < a.len()
        invariant
            a@.len() == b@.len(),
            i <= a@.len(),
            forall|j: int| 0 <= j < i ==> a@[j] == b@[j],
        decreases a.len() - i,
    {
        if a[i] != b[i] {
            return false;
        }
        i = i + 1;
    }
    assert(a@ =~= b@);
    true
}

impl KeyRing {
    /// The entries in the order in which the ring stores them.
    pub closed spec fn stored(&self) -> Seq<KeyEntryView> {
        self.key_entries@.map_values(|e: KeyEntry| e@)
    }

    /// The file path the ring is bound to.
    pub fn file_path(&self) -> (r: String)
        ensures
            r@ == self@.file_path,
    {
        self.file_path.clone()
    }

    /// The key id of the entry stored first, which sealing uses when no
    /// other key is chosen; `None` for an empty ring.
    pub fn first_key_id(&self) -> (r: Option<String>)
        requires
            self.wf(),
        ensures
            r is None <==> self@.entries.len() == 0,
            r matches Some(id) ==> id@ == self.stored()[0].key_id && self@.entries.contains_key(
                id@,
            ),
    {
        proof {
            self.lemma_len();
        }
        if self.key_entries.len() == 0 {
            return None;
        }
        proof {
            self.lemma_lookup(self.key_entries@[0]@.key_id);
        }
        Some(self.key_entries[0].key_id.0.clone())
    }

    /// The number of entries.
    pub fn len(&self) -> (r: usize)
        requires
            self.wf(),
        ensures
            r == self@.entries.len(),
            self@.entries.dom().finite(),
    {
        proof {
            self.lemma_len();
        }
        self.key_entries.len()
    }

    proof fn lemma_len(&self)
        requires
            self.wf(),
        ensures
            self@.entries.len() == self.key_entries@.len(),
            self@.entries.dom().finite(),
    {
        let s = self.stored();
        lemma_entry_map_len(s);
    }

    /// Decodes the key material of the entry at index `i`.
    fn key_at(&self, i: usize) -> (r: Result<Vec<u8>, Error>)
        requires
            self.wf(),
            i < self.key_entries@.len(),
        ensures
            bytes_result(r) == key_result(self@, self.key_entries@[i as int]@.key_id),
    {
        proof {
            self.lemma_lookup(self.key_entries@[i as int]@.key_id);
        }
        match decode(self.key_entries[i].key.0.as_str()) {
            None => Err(Error::Decode),
            Some(b) => if b.len() == KEY_LENGTH {
                Ok(b)
            } else {
                Err(Error::InvalidKey)
            },
        }
    }

    /// The raw key material stored under `key_id`.
    pub fn key(&self, key_id: &String) -> (r: Result<Vec<u8>, Error>)
        requires
            self.wf(),
        ensures
            bytes_result(r) == key_result(self@, key_id@),
    {
        proof {
            self.lemma_lookup(key_id@);
        }
        match self.find_index(key_id) {
            Some(i) => self.key_at(i),
            None => Err(Error::NotFound),
        }
    }

    /// The raw key material stored under the key id whose UTF-8 text is `id`.
    pub fn key_by_id_bytes(&self, id: &[u8]) -> (r: Result<Vec<u8>, Error>)
        requires
            self.wf(),
        ensures
            bytes_result(r) == key_result_bytes(self@, id@),
    {
        let mut i: usize = 0;
        while i < self.key_entries.len()
            invariant
                self.wf(),
                i <= self.key_entries@.len(),
                forall|j: int|
                    0 <= j < i ==> encode_utf8(#[trigger] self.key_entries@[j]@.key_id) != id@,
            decreases self.key_entries.len() - i,
        {
            let stored_id: &str = self.key_entries[i].key_id.0.as_str();
            if bytes_eq(stored_id.as_bytes(), id) {
                proof {
                    let k = self.key_entries@[i as int]@.key_id;
                    assert(stored_id@ == k);
                    assert(encode_utf8(k) == id@);
                    encode_utf8_valid_utf8(k);
                    encode_utf8_decode_utf8(k);
                }
                return self.key_at(i);
            }
            i = i + 1;
        }
        proof {
            if valid_utf8(id@) {
                let k = decode_utf8(id@);
                decode_utf8_encode_utf8(id@);
                self.lemma_lookup(k);
                if self@.entries.contains_key(k) {
                    let j = choose|j: int|
                        0 <= j < self.key_entries@.len() && self.key_entries@[j]@.key_id == k;
                    assert(encode_utf8(self.key_entries@[j]@.key_id) == id@);
                }
            }
        }
        Err(Error::NotFound)
    }

    /// Stores raw key material under its content-derived key id, unless that
    /// id already names different key material.
    pub fn add_generated_key(&mut self, description: String, key: &[u8]) -> (r: Result<(), Error>)
        requires
            old(self).wf(),
        ensures
            final(self).wf(),
            (r, final(self)@) == add_generated_result(old(self)@, description@, key@),
            r is Ok ==> key_result(final(self)@, key_id_of(key@)) == Ok::<Seq<u8>, Error>(key@),
    {
        if key.len() != KEY_LENGTH {
            return Err(Error::InvalidKey);
        }
        let id = KeyID::of_key(key);
        let armored = Key::new(key);
        proof {
            self.lemma_lookup(id@);
        }
        match self.find_index(&id.0) {
            Some(i) => {
                if self.key_entries[i].key.0 != armored.0 {
                    return Err(Error::KeyCollision);
                }
            },
            None => {},
        }
        let e = KeyEntry { description, key: armored, key_id: id };
        self.put(e);
        Ok(())
    }

    /// Generates fresh random key material and stores it under its
    /// content-derived key id.
    pub fn gen_key(&mut self, description: String) -> (r: Result<(), Error>)
        requires
            old(self).wf(),
        ensures
            final(self).wf(),
            exists|key: Seq<u8>|
                key.len() == KEY_LENGTH && (r, final(self)@) == add_generated_result(
                    old(self)@,
                    description@,
                    key,
                ) && (r is Ok ==> key_result(final(self)@, key_id_of(key)) == Ok::<
                    Seq<u8>,
                    Error,
                >(key)),
    {
        let key = random_bytes(KEY_LENGTH);
        self.add_generated_key(description, key.as_slice())
    }

    /// Rebuilds a ring from its stored document.
    pub fn from_file(file: KeyRingFile) -> (r: Self)
        ensures
            r.wf(),
            r@.entries == entry_map(file.entries()),
            r@.file_path == file.path(),
            ids_unique(file.entries()) ==> r.stored() == file.entries(),
    {
        KeyRing::new(file.key_entries, file.file_path)
    }

    /// The document that stores this ring.
    pub fn to_file(self) -> (r: KeyRingFile)
        requires
            self.wf(),
        ensures
            r.entries() == self.stored(),
            ids_unique(r.entries()),
            entry_map(r.entries()) == self@.entries,
            r.entries().len() == self@.entries.len(),
            r.path() == self@.file_path,
    {
        proof {
            self.lemma_len();
        }
        KeyRingFile { key_entries: self.key_entries, file_path: self.file_path }
    }
}

proof fn lemma_entry_map_len(s: Seq<KeyEntryView>)
    requires
        ids_unique(s),
    ensures
        entry_map(s).len() == s.len(),
        entry_map(s).dom().finite(),
    decreases s.len(),
{
    if s.len() > 0 {
        let t = s.drop_last();
        assert(ids_unique(t)) by {
            assert forall|i: int, j: int| 0 <= i < j < t.len() implies t[i].key_id != t[j].key_id by {
                assert(t[i] == s[i] && t[j] == s[j]);
            }
        }
        lemma_entry_map_len(t);
        lemma_entry_map_lookup(t, s.last().key_id);
        if entry_map(t).contains_key(s.last().key_id) {
            let i = choose|i: int| 0 <= i < t.len() && t[i].key_id == s.last().key_id;
            assert(s[i].key_id == s[s.len() - 1].key_id);
        }
    }
}

/// Key ids are content-derived: the same key material always gives the
/// same key id.
pub proof fn lemma_key_id_deterministic(a: Seq<u8>, b: Seq<u8>)
    requires
        a == b,
    ensures
        key_id_of(a) == key_id_of(b),
{
}

/// Saving a ring and loading it back gives the same mapping from key id to
/// entry, in whatever order the document lists the entries: `s` is any
/// reordering of the entries that `to_file` writes.
pub proof fn lemma_save_load(ring: &KeyRing, s: Seq<KeyEntryView>)
    requires
        ring.wf(),
        s.to_multiset() == ring.stored().to_multiset(),
    ensures
        entry_map(s) == ring@.entries,
{
    let t = ring.stored();
    assert(t.no_duplicates()) by {
        assert forall|i: int, j: int| 0 <= i < t.len() && 0 <= j < t.len() && i != j implies t[i]
            != t[j] by {
            if i < j {
                assert(t[i].key_id != t[j].key_id);
            } else {
                assert(t[j].key_id != t[i].key_id);
            }
        }
    }
    t.lemma_multiset_has_no_duplicates();
    s.lemma_multiset_has_no_duplicates_conv();
    s.to_multiset_ensures();
    t.to_multiset_ensures();
    assert forall|x: KeyEntryView| s.contains(x) <==> t.contains(x) by {
        assert(s.to_multiset().count(x) == t.to_multiset().count(x));
    }
    assert(ids_unique(s)) by {
        assert forall|i: int, j: int| 0 <= i < j < s.len() implies s[i].key_id != s[j].key_id by {
            if s[i].key_id == s[j].key_id {
                assert(t.contains(s[i]) && t.contains(s[j]));
                let a = choose|a: int| 0 <= a < t.len() && t[a] == s[i];
                let b = choose|b: int| 0 <= b < t.len() && t[b] == s[j];
                if a < b {
                    assert(t[a].key_id != t[b].key_id);
                } else if b < a {
                    assert(t[b].key_id != t[a].key_id);
                }
                assert(s[i] == s[j]);
            }
        }
    }
    assert forall|k: Seq<char>| #![trigger entry_map(s).contains_key(k)]
        entry_map(s).contains_key(k) == entry_map(t).contains_key(k) && (entry_map(s).contains_key(k)
            ==> entry_map(s)[k] == entry_map(t)[k]) by {
        lemma_entry_map_lookup(s, k);
        lemma_entry_map_lookup(t, k);
        if exists|i: int| 0 <= i < s.len() && s[i].key_id == k {
            let i = choose|i: int| 0 <= i < s.len() && s[i].key_id == k;
            assert(t.contains(s[i]));
            let a = choose|a: int| 0 <= a < t.len() && t[a] == s[i];
            assert(t[a].key_id == k);
        }
        if exists|a: int| 0 <= a < t.len() && t[a].key_id == k {
            let a = choose|a: int| 0 <= a < t.len() && t[a].key_id == k;
            assert(s.contains(t[a]));
            let i = choose|i: int| 0 <= i < s.len() && s[i] == t[a];
            assert(s[i].key_id == k);
        }
    }
    assert(entry_map(s) =~= entry_map(t));
}

} // verus!
