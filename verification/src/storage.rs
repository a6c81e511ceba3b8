//! The node's development key-value store: raw byte keys mapped to raw byte
//! values, with no two entries under the same key.
use vstd::prelude::*;

verus! {

/// The map that a list of `(key, value)` entries denotes; a later entry wins.
pub open spec fn entries_map(entries: Seq<(Seq<u8>, Seq<u8>)>) -> Map<Seq<u8>, Seq<u8>>
    decreases entries.len(),
{
    if entries.len() == 0 {
        Map::empty()
    } else {
        entries_map(entries.drop_last()).insert(entries.last().0, entries.last().1)
    }
}

/// No key occurs in two entries.
pub open spec fn keys_distinct(entries: Seq<(Seq<u8>, Seq<u8>)>) -> bool {
    forall|i: int, j: int| 0 <= i < j < entries.len() ==> entries[i].0 != entries[j].0
}

/// The map of distinct entries holds exactly their keys, each with its own
/// value, and has as many keys as there are entries.
pub proof fn lemma_entries_map(entries: Seq<(Seq<u8>, Seq<u8>)>)
    requires
        keys_distinct(entries),
    ensures
        entries_map(entries).dom().finite(),
        entries_map(entries).len() == entries.len(),
        forall|k: Seq<u8>|
            #[trigger] entries_map(entries).contains_key(k) <==> exists|i: int|
                0 <= i < entries.len() && entries[i].0 == k,
        forall|i: int|
            0 <= i < entries.len() ==> #[trigger] entries_map(entries)[entries[i].0]
                == entries[i].1,
    decreases entries.len(),
{
    if entries.len() > 0 {
        let rest = entries.drop_last();
        lemma_entries_map(rest);
        let last = entries.last();
        assert(!entries_map(rest).contains_key(last.0)) by {
            if entries_map(rest).contains_key(last.0) {
                let i = choose|i: int| 0 <= i < rest.len() && rest[i].0 == last.0;
                assert(entries[i].0 == entries[entries.len() - 1].0);
            }
        }
        assert(entries_map(entries).dom() =~= entries_map(rest).dom().insert(last.0));
        assert forall|k: Seq<u8>|
            #[trigger] entries_map(entries).contains_key(k) <==> exists|i: int|
                0 <= i < entries.len() && entries[i].0 == k by {
            if entries_map(entries).contains_key(k) && k != last.0 {
                let i = choose|i: int| 0 <= i < rest.len() && rest[i].0 == k;
                assert(entries[i].0 == k);
            }
            if exists|i: int| 0 <= i < entries.len() && entries[i].0 == k {
                let i = choose|i: int| 0 <= i < entries.len() && entries[i].0 == k;
                if i < entries.len() - 1 {
                    assert(rest[i].0 == k);
                }
            }
        }
        assert forall|i: int| 0 <= i < entries.len() implies #[trigger] entries_map(
            entries,
        )[entries[i].0] == entries[i].1 by {
            if i < entries.len() - 1 {
                assert(rest[i] == entries[i]);
                assert(entries[i].0 != last.0);
            }
        }
    }
}

/// Replacing the value of an existing entry is an insert into the map.
pub proof fn lemma_entries_map_update(
    entries: Seq<(Seq<u8>, Seq<u8>)>,
    i: int,
    value: Seq<u8>,
)
    requires
        keys_distinct(entries),
        0 <= i < entries.len(),
    ensures
        keys_distinct(entries.update(i, (entries[i].0, value))),
        entries_map(entries.update(i, (entries[i].0, value))) == entries_map(entries).insert(
            entries[i].0,
            value,
        ),
{
    let updated = entries.update(i, (entries[i].0, value));
    assert(keys_distinct(updated));
    lemma_entries_map(entries);
    lemma_entries_map(updated);
    assert forall|k: Seq<u8>| #[trigger]
        entries_map(updated).contains_key(k) <==> entries_map(entries).insert(
            entries[i].0,
            value,
        ).contains_key(k) by {
        if entries_map(updated).contains_key(k) {
            let j = choose|j: int| 0 <= j < updated.len() && updated[j].0 == k;
            assert(entries[j].0 == k);
        }
        if entries_map(entries).contains_key(k) {
            let j = choose|j: int| 0 <= j < entries.len() && entries[j].0 == k;
            assert(updated[j].0 == k);
        }
        if k == entries[i].0 {
            assert(updated[i].0 == k);
        }
    }
    assert forall|k: Seq<u8>| #[trigger] entries_map(updated).contains_key(k) implies entries_map(
        updated,
    )[k] == entries_map(entries).insert(entries[i].0, value)[k] by {
        let j = choose|j: int| 0 <= j < updated.len() && updated[j].0 == k;
        assert(entries_map(updated)[updated[j].0] == updated[j].1);
        if j != i {
            assert(entries_map(entries)[entries[j].0] == entries[j].1);
        }
    }
    assert(entries_map(updated) =~= entries_map(entries).insert(entries[i].0, value));
}

/// Byte strings compared element by element.
pub fn bytes_equal(a: &[u8], b: &[u8]) -> (eq: bool)
    ensures
        eq == (a@ == b@),
{
    if a.len() != b.len() {
        return false;
    }
    let mut i: usize = 0;
    while i < a.len()
        invariant
            a@.len() == b@.len(),
            i <= a@.len(),
            forall|j: int| 0 <= j < i ==> a@[j] == b@[j],
        decreases a@.len() - i,
    {
        if a[i] != b[i] {
            return false;
        }
        i = i + 1;
    }
    assert(a@ =~= b@);
    true
}

/// The development storage of the node: byte keys to byte values.
pub struct DevStorage {
    entries: Vec<(Vec<u8>, Vec<u8>)>,
}

impl DevStorage {
    /// The entries, each taken by its view.
    pub closed spec fn entry_views(self) -> Seq<(Seq<u8>, Seq<u8>)> {
        self.entries@.map_values(|e: (Vec<u8>, Vec<u8>)| (e.0@, e.1@))
    }

    #[verifier::type_invariant]
    closed spec fn distinct_keys(self) -> bool {
        keys_distinct(self.entry_views())
    }
}

impl View for DevStorage {
    type V = Map<Seq<u8>, Seq<u8>>;

    closed spec fn view(&self) -> Map<Seq<u8>, Seq<u8>> {
        entries_map(self.entry_views())
    }
}

/// The key under which the number of the latest block is stored.
pub open spec fn system_number_key() -> Seq<u8> {
    seq![83u8, 121, 115, 116, 101, 109, 78, 117, 109, 98, 101, 114]
}

/// The genesis state: block number 0, as four little-endian bytes.
pub open spec fn genesis_storage() -> Map<Seq<u8>, Seq<u8>> {
    map![system_number_key() => seq![0u8, 0, 0, 0]]
}

/// The bytes of `system_number_key`.
pub fn system_number_key_bytes() -> (key: Vec<u8>)
    ensures
        key@ == system_number_key(),
{
    let key = vec![83u8, 121, 115, 116, 101, 109, 78, 117, 109, 98, 101, 114];
    assert(key@ =~= system_number_key());
    key
}

impl DevStorage {
    /// The genesis storage: the block number, 0.
    pub fn new() -> (storage: Self)
        ensures
            storage@ == genesis_storage(),
    {
        let mut entries: Vec<(Vec<u8>, Vec<u8>)> = Vec::new();
        entries.push((system_number_key_bytes(), vec![0u8, 0u8, 0u8, 0u8]));
        let storage = DevStorage { entries };
        proof {
            let v = storage.entry_views();
            assert(v.len() == 1);
            assert(v.drop_last() =~= Seq::<(Seq<u8>, Seq<u8>)>::empty());
            assert(v.last().0 == system_number_key());
            assert(v.last().1 =~= seq![0u8, 0, 0, 0]);
            assert(entries_map(v.drop_last()) == Map::<Seq<u8>, Seq<u8>>::empty());
            assert(storage@ =~= genesis_storage());
        }
        storage
    }

    /// The number of keys in the storage.
    pub fn top_count(&self) -> (count: usize)
        ensures
            count == self@.len(),
    {
        proof {
            use_type_invariant(self);
            lemma_entries_map(self.entry_views());
        }
        self.entries.len()
    }

    /// The index of the entry under `key`, if there is one.
    fn find(&self, key: &[u8]) -> (found: Option<usize>)
        ensures
            match found {
                Some(i) => i < self.entry_views().len() && self.entry_views()[i as int].0 == key@,
                None => forall|i: int|
                    0 <= i < self.entry_views().len() ==> self.entry_views()[i].0 != key@,
            },
    {
        let mut i: usize = 0;
        while i < self.entries.len()
            invariant
                i <= self.entries@.len(),
                self.entry_views().len() == self.entries@.len(),
                forall|j: int| 0 <= j < i ==> self.entry_views()[j].0 != key@,
            decreases self.entries@.len() - i,
        {
            if bytes_equal(self.entries[i].0.as_slice(), key) {
                return Some(i);
            }
            i = i + 1;
        }
        None
    }

    /// The value stored under `key`.
    pub fn get(&self, key: &[u8]) -> (value: Option<&Vec<u8>>)
        ensures
            match value {
                Some(v) => self@.contains_key(key@) && v@ == self@[key@],
                None => !self@.contains_key(key@),
            },
    {
        proof {
            use_type_invariant(self);
            lemma_entries_map(self.entry_views());
        }
        match self.find(key) {
            Some(i) => {
                assert(self.entry_views()[i as int].1 == self.entries@[i as int].1@);
                Some(&self.entries[i].1)
            },
            None => None,
        }
    }

    /// Stores `value` under `key`, replacing what was there.
    pub fn insert(&mut self, key: Vec<u8>, value: Vec<u8>)
        ensures
            final(self)@ == old(self)@.insert(key@, value@),
    {
        proof {
            use_type_invariant(&*self);
        }
        let ghost old_views = self.entry_views();
        match self.find(key.as_slice()) {
            Some(i) => {
                proof {
                    lemma_entries_map_update(old_views, i as int, value@);
                }
                let ghost kv = key@;
                let ghost vv = value@;
                let mut entries: Vec<(Vec<u8>, Vec<u8>)> = Vec::new();
                std::mem::swap(&mut entries, &mut self.entries);
                entries.set(i, (key, value));
                proof {
                    assert(entries@.map_values(|e: (Vec<u8>, Vec<u8>)| (e.0@, e.1@)) =~= old_views.update(
                        i as int,
                        (old_views[i as int].0, vv),
                    ));
                }
                self.entries = entries;
            },
            None => {
                let ghost kv = key@;
                let ghost vv = value@;
                let mut entries: Vec<(Vec<u8>, Vec<u8>)> = Vec::new();
                std::mem::swap(&mut entries, &mut self.entries);
                entries.push((key, value));
                proof {
                    assert(entries@.map_values(|e: (Vec<u8>, Vec<u8>)| (e.0@, e.1@)) =~= old_views.push(
                        (kv, vv),
                    ));
                    assert(old_views.push((kv, vv)).drop_last() =~= old_views);
                }
                self.entries = entries;
            },
        }
    }
}

} // verus!
