//! The storage actor: the map from digest to blob, and what the actor does
//! with each request that reaches it.
//!
//! The map has one owner. A `Mapper` owns it until its loop is made with
//! `receive`; from then on the `MapperLoop` owns it, takes the requests one
//! at a time in the order in which they arrive, and answers each with
//! exactly one reply. Whoever runs the loop carries requests to it and
//! replies back.
//!
//! The map is a hash table. Its keys are byte strings, of which the table
//! knows a number only, the slot; the entries of one slot are kept together
//! and told apart by their keys.

use crate::error::KitapError;
use crate::wire::same_bytes;
use std::collections::HashMap;
use std::sync::Arc;
use vstd::prelude::*;

verus! {

broadcast use vstd::std_specs::hash::group_hash_axioms;

/// A blob that was found, shared with the map that holds it.
#[derive(Debug)]
pub struct DataContents<T> {
    pub data: Arc<T>,
}

/// What the actor answers to a request.
#[derive(Debug)]
pub enum MapperReply<T> {
    /// The blob stored under the key that was asked for.
    Data(DataContents<T>),
    /// The blob was stored.
    Stored,
    /// Nothing is stored under the key that was asked for.
    NotFound,
}

/// A request for the blob under `key`.
#[derive(Debug)]
pub struct FetchContents {
    pub key: Vec<u8>,
}

/// A request to store `data` under `key`.
#[derive(Debug)]
pub struct PlaceContents<T> {
    pub key: Vec<u8>,
    pub data: T,
}

/// A request to the actor.
#[derive(Debug)]
pub enum Contents<T> {
    Fetch(FetchContents),
    Place(PlaceContents<T>),
}

/// Another handle on the same shared value.
///
/// Calls `Arc::clone`, which makes a new pointer to the same allocation. The
/// contract claims that the new handle points to the value that `data`
/// points to.
#[verifier::external_body]
fn share<T>(data: &Arc<T>) -> (shared: Arc<T>)
    ensures
        shared == *data,
{
    Arc::clone(data)
}

/// A key and the blob stored under it.
struct Entry<T> {
    key: Vec<u8>,
    data: Arc<T>,
}

/// Whether the entry at index `i` is the entry of `key`.
spec fn holds_at<T>(entries: Seq<Entry<T>>, key: Seq<u8>, i: int) -> bool {
    0 <= i < entries.len() && entries[i].key@ == key
}

/// An index at which the entry of `key` stands, if it has one.
spec fn index_of<T>(entries: Seq<Entry<T>>, key: Seq<u8>) -> int {
    choose|i: int| holds_at(entries, key, i)
}

/// No key occurs twice among the entries.
spec fn keys_distinct<T>(entries: Seq<Entry<T>>) -> bool {
    forall|i: int, j: int| 0 <= i < j < entries.len() ==> entries[i].key@ != entries[j].key@
}

/// The entries as a map: the blob of each key that has an entry.
spec fn map_of<T>(entries: Seq<Entry<T>>) -> Map<Seq<u8>, T> {
    Map::new(
        |key: Seq<u8>| exists|i: int| holds_at(entries, key, i),
        |key: Seq<u8>| *entries[index_of(entries, key)].data,
    )
}

/// Where no key occurs twice, the entry of a key is the one entry that holds
/// it.
proof fn lemma_entry<T>(entries: Seq<Entry<T>>, key: Seq<u8>, i: int)
    requires
        keys_distinct(entries),
        holds_at(entries, key, i),
    ensures
        map_of(entries).contains_key(key),
        map_of(entries)[key] == *entries[i].data,
{
    let j = index_of(entries, key);
    assert(holds_at(entries, key, j));
    if i < j {
        assert(entries[i].key@ != entries[j].key@);
    } else if j < i {
        assert(entries[j].key@ != entries[i].key@);
    }
}

/// A change to the entry of `key` leaves what the other keys map to as it
/// was.
proof fn lemma_other_keys<T>(before: Seq<Entry<T>>, after: Seq<Entry<T>>, key: Seq<u8>)
    requires
        keys_distinct(before),
        keys_distinct(after),
        forall|other: Seq<u8>, i: int|
            other != key ==> (holds_at(before, other, i) <==> holds_at(after, other, i)),
        forall|i: int|
            0 <= i < before.len() && i < after.len() && before[i].key@ != key ==> before[i].data
                == after[i].data,
    ensures
        forall|other: Seq<u8>|
            other != key ==> (map_of(before).contains_key(other) <==> map_of(after).contains_key(
                other,
            )),
        forall|other: Seq<u8>|
            other != key && map_of(before).contains_key(other) ==> map_of(before)[other] == map_of(
                after,
            )[other],
{
    assert forall|other: Seq<u8>| other != key implies (map_of(before).contains_key(other)
        <==> map_of(after).contains_key(other)) && (map_of(before).contains_key(other) ==> map_of(
        before,
    )[other] == map_of(after)[other]) by {
        if map_of(before).contains_key(other) {
            let j = index_of(before, other);
            assert(holds_at(before, other, j));
            assert(holds_at(after, other, j));
            lemma_entry(before, other, j);
            lemma_entry(after, other, j);
        }
        if map_of(after).contains_key(other) {
            let j = index_of(after, other);
            assert(holds_at(after, other, j));
            assert(holds_at(before, other, j));
        }
    }
}

/// The index of the entry of `key`, if it has one.
fn position<T>(entries: &Vec<Entry<T>>, key: &[u8]) -> (found: Option<usize>)
    ensures
        match found {
            Some(i) => holds_at(entries@, key@, i as int),
            None => forall|i: int| !holds_at(entries@, key@, i),
        },
{
    let n: usize = entries.len();
    let mut i: usize = 0;
    while i < n
        invariant
            n == entries@.len(),
            i <= n,
            forall|j: int| 0 <= j < i ==> !holds_at(entries@, key@, j),
        decreases n - i,
    {
        if same_bytes(entries[i].key.as_slice(), key) {
            return Some(i);
        }
        i += 1;
    }
    None
}

/// The slot of the table in which a key is kept: a number made of all the
/// bytes of the key.
spec fn slot_of(key: Seq<u8>) -> u64
    decreases key.len(),
{
    if key.len() == 0 {
        0
    } else {
        slot_of(key.drop_last()).wrapping_mul(31).wrapping_add(key.last() as u64)
    }
}

/// Computes the slot of a key.
fn slot(key: &[u8]) -> (s: u64)
    ensures
        s == slot_of(key@),
{
    let n: usize = key.len();
    let mut s: u64 = 0;
    let mut i: usize = 0;
    while i < n
        invariant
            n == key@.len(),
            i <= n,
            s == slot_of(key@.take(i as int)),
        decreases n - i,
    {
        assert(key@.take(i + 1).drop_last() =~= key@.take(i as int));
        s = s.wrapping_mul(31).wrapping_add(key[i] as u64);
        i += 1;
    }
    assert(key@.take(n as int) =~= key@);
    s
}

/// Whether `entries` can be the content of slot `s`: no key occurs twice,
/// and every key belongs in that slot.
spec fn bucket_ok<T>(s: u64, entries: Seq<Entry<T>>) -> bool {
    &&& keys_distinct(entries)
    &&& forall|i: int| 0 <= i < entries.len() ==> slot_of(#[trigger] entries[i].key@) == s
}

/// Every slot of the table holds what it may hold.
spec fn table_ok<T>(table: Map<u64, Vec<Entry<T>>>) -> bool {
    forall|s: u64| table.contains_key(s) ==> bucket_ok(s, #[trigger] table[s]@)
}

/// The entries among which `key` is to be found if it is in the table.
spec fn bucket_of<T>(table: Map<u64, Vec<Entry<T>>>, key: Seq<u8>) -> Seq<Entry<T>> {
    if table.contains_key(slot_of(key)) {
        table[slot_of(key)]@
    } else {
        Seq::empty()
    }
}

/// The table as a map: the blob of each key that has an entry in its slot.
spec fn blob_map<T>(table: Map<u64, Vec<Entry<T>>>) -> Map<Seq<u8>, T> {
    Map::new(
        |key: Seq<u8>| map_of(bucket_of(table, key)).contains_key(key),
        |key: Seq<u8>| map_of(bucket_of(table, key))[key],
    )
}

/// Putting the entry of `key` into the content of its slot puts the blob
/// under `key` in the map, and changes nothing else in it.
proof fn lemma_table_insert<T>(
    table: Map<u64, Vec<Entry<T>>>,
    key: Seq<u8>,
    data: Arc<T>,
    bucket: Vec<Entry<T>>,
)
    requires
        table_ok(table),
        bucket_ok(slot_of(key), bucket@),
        map_of(bucket@) == map_of(bucket_of(table, key)).insert(key, *data),
    ensures
        table_ok(table.insert(slot_of(key), bucket)),
        blob_map(table.insert(slot_of(key), bucket)) == blob_map(table).insert(key, *data),
{
    let s = slot_of(key);
    let after = table.insert(s, bucket);
    assert forall|other: Seq<u8>|
        blob_map(after).contains_key(other) == blob_map(table).insert(key, *data).contains_key(
            other,
        ) && (blob_map(after).contains_key(other) ==> blob_map(after)[other] == blob_map(
            table,
        ).insert(key, *data)[other]) by {
        if slot_of(other) == s {
            assert(bucket_of(after, other) == bucket@);
            assert(bucket_of(table, other) == bucket_of(table, key));
        } else {
            assert(bucket_of(after, other) == bucket_of(table, other));
        }
    }
    assert(blob_map(after) =~= blob_map(table).insert(key, *data));
}

/// The map from key to blob.
pub struct Store<T> {
    table: HashMap<u64, Vec<Entry<T>>>,
}

impl<T> View for Store<T> {
    type V = Map<Seq<u8>, T>;

    /// The blob stored under each key.
    closed spec fn view(&self) -> Map<Seq<u8>, T> {
        blob_map(self.table@)
    }
}

impl<T> Store<T> {
    /// Every entry is kept in the slot of its key, and no key occurs twice.
    #[verifier::type_invariant]
    spec fn well_formed(&self) -> bool {
        table_ok(self.table@)
    }

    /// A store that holds nothing.
    pub fn new() -> (store: Store<T>)
        ensures
            store@ == Map::<Seq<u8>, T>::empty(),
    {
        let store = Store { table: HashMap::new() };
        assert(store@ =~= Map::<Seq<u8>, T>::empty());
        store
    }

    /// The blob stored under `key`, if there is one.
    pub fn get(&self, key: &[u8]) -> (found: Option<&Arc<T>>)
        ensures
            match found {
                Some(data) => self@.contains_key(key@) && **data == self@[key@],
                None => !self@.contains_key(key@),
            },
    {
        proof {
            use_type_invariant(self);
        }
        let s = slot(key);
        match self.table.get(&s) {
            Some(bucket) => {
                assert(bucket_of(self.table@, key@) == bucket@);
                match position(bucket, key) {
                    Some(i) => {
                        proof {
                            lemma_entry(bucket@, key@, i as int);
                        }
                        Some(&bucket[i].data)
                    },
                    None => None,
                }
            },
            None => None,
        }
    }

    /// Stores `data` under `key`, in place of what was stored there before.
    pub fn insert(&mut self, key: Vec<u8>, data: Arc<T>)
        ensures
            final(self)@ == old(self)@.insert(key@, *data),
    {
        proof {
            use_type_invariant(&*self);
        }
        let ghost k = key@;
        let ghost d = data;
        let mut table: HashMap<u64, Vec<Entry<T>>> = HashMap::new();
        core::mem::swap(&mut self.table, &mut table);
        let ghost table_before = table@;
        let s = slot(key.as_slice());
        let mut bucket: Vec<Entry<T>> = match table.remove(&s) {
            Some(bucket) => bucket,
            None => Vec::new(),
        };
        let ghost before = bucket@;
        assert(before == bucket_of(table_before, k));
        let ghost at: int;
        match position(&bucket, key.as_slice()) {
            Some(i) => {
                bucket.set(i, Entry { key, data });
                proof {
                    at = i as int;
                }
            },
            None => {
                bucket.push(Entry { key, data });
                proof {
                    at = before.len() as int;
                }
            },
        }
        let ghost filled = bucket;
        proof {
            let after = bucket@;
            assert forall|i: int, j: int| 0 <= i < j < after.len() implies after[i].key@
                != after[j].key@ by {
                if i < before.len() && j < before.len() {
                    assert(before[i].key@ != before[j].key@);
                    assert(holds_at(before, k, at) ==> before[at].key@ == k);
                } else {
                    assert(!holds_at(before, k, i));
                }
            }
            assert forall|i: int| 0 <= i < after.len() implies slot_of(
                #[trigger] after[i].key@,
            ) == s by {
                if i != at {
                    assert(after[i] == before[i]);
                }
            }
            assert(holds_at(after, k, at));
            lemma_entry(after, k, at);
            lemma_other_keys(before, after, k);
            assert(map_of(after) =~= map_of(before).insert(k, *d));
            lemma_table_insert(table_before, k, d, filled);
            assert(table_before.remove(s).insert(s, filled) =~= table_before.insert(s, filled));
        }
        table.insert(s, bucket);
        self.table = table;
    }
}

/// The store after the actor has dealt with `contents`: a place puts the
/// blob under its key, in place of what was there; a fetch changes nothing.
pub open spec fn store_after<T>(store: Map<Seq<u8>, T>, contents: Contents<T>) -> Map<Seq<u8>, T> {
    match contents {
        Contents::Fetch(_) => store,
        Contents::Place(place) => store.insert(place.key@, place.data),
    }
}

/// Whether `reply` is the answer that `contents` gets from an actor whose
/// store is `store`: a fetch gets the blob under its key, or `NotFound` when
/// nothing is there; a place gets `Stored`.
pub open spec fn answers<T>(
    store: Map<Seq<u8>, T>,
    contents: Contents<T>,
    reply: MapperReply<T>,
) -> bool {
    match contents {
        Contents::Fetch(fetch) => if store.contains_key(fetch.key@) {
            reply matches MapperReply::Data(found) && *found.data == store[fetch.key@]
        } else {
            reply is NotFound
        },
        Contents::Place(_) => reply is Stored,
    }
}

/// The store after the actor has dealt with `requests`, first to last.
pub open spec fn store_after_all<T>(store: Map<Seq<u8>, T>, requests: Seq<Contents<T>>) -> Map<
    Seq<u8>,
    T,
>
    decreases requests.len(),
{
    if requests.len() == 0 {
        store
    } else {
        store_after(store_after_all(store, requests.drop_last()), requests.last())
    }
}

/// The owner of the map before its loop is made: the handle through which
/// the map is filled and read directly, and from which the loop is made
/// once.
pub struct Mapper<T> {
    map: Option<Store<T>>,
}

impl<T> View for Mapper<T> {
    type V = Map<Seq<u8>, T>;

    /// What the mapper's own map holds; nothing once the map has gone to the
    /// loop.
    closed spec fn view(&self) -> Map<Seq<u8>, T> {
        match self.map {
            Some(store) => store@,
            None => Map::empty(),
        }
    }
}

impl<T> Mapper<T> {
    /// Whether the map is still the mapper's own, that is, whether `receive`
    /// has not been called yet.
    pub closed spec fn owns_map(&self) -> bool {
        self.map is Some
    }

    pub fn new() -> (mapper: Mapper<T>)
        ensures
            mapper.owns_map(),
            mapper@ == Map::<Seq<u8>, T>::empty(),
    {
        Mapper { map: Some(Store::new()) }
    }

    /// Stores `t` under `k` directly, while the map is the mapper's own.
    pub fn owned_insert(&mut self, k: Vec<u8>, t: T) -> (r: Result<(), String>)
        ensures
            final(self).owns_map() == old(self).owns_map(),
            old(self).owns_map() ==> r is Ok && final(self)@ == old(self)@.insert(k@, t),
            !old(self).owns_map() ==> final(self)@ == old(self)@ && (r matches Err(msg) && msg@
                == "The mapper no longer owns its map"@),
    {
        match self.map.take() {
            Some(mut store) => {
                store.insert(k, Arc::new(t));
                self.map = Some(store);
                Ok(())
            },
            None => Err("The mapper no longer owns its map".to_owned()),
        }
    }

    /// Looks `k` up directly, while the map is the mapper's own.
    pub fn owned_get(&self, k: &Vec<u8>) -> (r: Result<Option<&Arc<T>>, String>)
        ensures
            self.owns_map() ==> (r matches Ok(found) && match found {
                Some(data) => self@.contains_key(k@) && **data == self@[k@],
                None => !self@.contains_key(k@),
            }),
            !self.owns_map() ==> (r matches Err(msg) && msg@
                == "The mapper no longer owns its map"@),
    {
        match &self.map {
            Some(store) => Ok(store.get(k.as_slice())),
            None => Err("The mapper no longer owns its map".to_owned()),
        }
    }

    /// The request that asks the loop for the blob under `key`.
    pub fn get(&self, key: Vec<u8>) -> (request: Contents<T>)
        ensures
            request matches Contents::Fetch(fetch) && fetch.key == key,
    {
        Contents::Fetch(FetchContents { key })
    }

    /// The request that asks the loop to store `data` under `key`.
    pub fn set(&self, key: Vec<u8>, data: T) -> (request: Contents<T>)
        ensures
            request matches Contents::Place(place) && place.key == key && place.data == data,
    {
        Contents::Place(PlaceContents { key, data })
    }

    /// The reply to a request, out of all that came back on the channel that
    /// the request carried: the first of them.
    ///
    /// Fails with `StoreUnavailable` when nothing came back, which is what
    /// happens when the loop is gone.
    pub fn received_reply(replies: Vec<MapperReply<T>>) -> (r: Result<MapperReply<T>, KitapError>)
        ensures
            match r {
                Ok(reply) => replies@.len() > 0 && reply == replies@[0],
                Err(error) => replies@.len() == 0 && error == KitapError::StoreUnavailable,
            },
    {
        let mut replies = replies;
        if replies.len() == 0 {
            return Err(KitapError::StoreUnavailable);
        }
        Ok(replies.remove(0))
    }

    /// Makes the loop, which takes the map with it. This can be done once.
    pub fn receive(&mut self) -> (r: Result<MapperLoop<T>, String>)
        ensures
            !final(self).owns_map(),
            old(self).owns_map() ==> (r matches Ok(actor) && actor@ == old(self)@),
            !old(self).owns_map() ==> (r matches Err(msg) && msg@
                == "Receive Future already created"@),
    {
        match self.map.take() {
            Some(map) => Ok(MapperLoop { map }),
            None => Err("Receive Future already created".to_owned()),
        }
    }
}

/// The actor's loop: the one owner of the map once it is made.
pub struct MapperLoop<T> {
    map: Store<T>,
}

impl<T> View for MapperLoop<T> {
    type V = Map<Seq<u8>, T>;

    /// The blob stored under each key.
    closed spec fn view(&self) -> Map<Seq<u8>, T> {
        self.map@
    }
}

impl<T> MapperLoop<T> {
    /// Deals with one request and gives the one reply that it gets.
    pub fn handle(&mut self, contents: Contents<T>) -> (reply: MapperReply<T>)
        ensures
            final(self)@ == store_after(old(self)@, contents),
            answers(old(self)@, contents, reply),
    {
        match contents {
            Contents::Fetch(fetch) => {
                match self.map.get(fetch.key.as_slice()) {
                    Some(found_data) => {
                        let data = share(found_data);
                        MapperReply::Data(DataContents { data })
                    },
                    None => MapperReply::NotFound,
                }
            },
            Contents::Place(place) => {
                self.map.insert(place.key, Arc::new(place.data));
                MapperReply::Stored
            },
        }
    }
}

/// Requests leave alone every key that none of them places under: after the
/// actor has dealt with `requests`, such a key holds what it held before, or
/// nothing if it held nothing.
pub proof fn lemma_other_keys_untouched<T>(
    store: Map<Seq<u8>, T>,
    requests: Seq<Contents<T>>,
    key: Seq<u8>,
)
    requires
        forall|i: int|
            0 <= i < requests.len() && requests[i] is Place ==> requests[i]->Place_0.key@ != key,
    ensures
        store_after_all(store, requests).contains_key(key) == store.contains_key(key),
        store_after_all(store, requests)[key] == store[key],
    decreases requests.len(),
{
    if requests.len() > 0 {
        let earlier = requests.drop_last();
        assert forall|i: int|
            0 <= i < earlier.len() && earlier[i] is Place implies earlier[i]->Place_0.key@
            != key by {
            assert(earlier[i] == requests[i]);
        }
        lemma_other_keys_untouched(store, earlier, key);
        let last = requests.last();
        assert(last == requests[requests.len() - 1]);
    }
}

/// Places under different keys do not disturb one another. After the actor
/// has dealt with any number of places, no two under the same key, in
/// whatever order they reached it, each key holds the blob that was placed
/// under it.
pub proof fn lemma_places_under_distinct_keys<T>(
    store: Map<Seq<u8>, T>,
    requests: Seq<Contents<T>>,
)
    requires
        forall|i: int| 0 <= i < requests.len() ==> requests[i] is Place,
        forall|i: int, j: int|
            0 <= i < j < requests.len() ==> requests[i]->Place_0.key@ != requests[j]->Place_0.key@,
    ensures
        forall|i: int|
            0 <= i < requests.len() ==> {
                &&& store_after_all(store, requests).contains_key(
                    #[trigger] requests[i]->Place_0.key@,
                )
                &&& store_after_all(store, requests)[requests[i]->Place_0.key@]
                    == requests[i]->Place_0.data
            },
    decreases requests.len(),
{
    if requests.len() > 0 {
        let earlier = requests.drop_last();
        let last = requests.last();
        assert forall|i: int| 0 <= i < earlier.len() implies earlier[i] is Place by {
            assert(earlier[i] == requests[i]);
        }
        assert forall|i: int, j: int| 0 <= i < j < earlier.len() implies earlier[i]->Place_0.key@
            != earlier[j]->Place_0.key@ by {
            assert(earlier[i] == requests[i]);
            assert(earlier[j] == requests[j]);
        }
        lemma_places_under_distinct_keys(store, earlier);
        let after = store_after_all(store, requests);
        assert forall|i: int| 0 <= i < requests.len() implies after.contains_key(
            #[trigger] requests[i]->Place_0.key@,
        ) && after[requests[i]->Place_0.key@] == requests[i]->Place_0.data by {
            if i < requests.len() - 1 {
                assert(earlier[i] == requests[i]);
                assert(requests[i]->Place_0.key@ != last->Place_0.key@);
            }
        }
    }
}

} // verus!
