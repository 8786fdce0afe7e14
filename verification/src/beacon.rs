use vstd::prelude::*;

use crate::hash::{hashes_equal, Hashed};

verus! {

/// Temperatures read at the locations that a block's predecessor chose.
#[derive(Debug, PartialEq, Eq)]
pub struct Beacon {
    pub values: Vec<i32>,
}

impl View for Beacon {
    type V = Seq<i32>;

    open spec fn view(&self) -> Seq<i32> {
        self.values@
    }
}

/// Copies a list of temperatures.
pub fn clone_values(v: &Vec<i32>) -> (r: Vec<i32>)
    ensures
        r@ == v@,
{
    let mut r: Vec<i32> = Vec::new();
    let mut i: usize = 0;
    while i < v.len()
        invariant
            0 <= i <= v@.len(),
            r@ == v@.take(i as int),
        decreases v@.len() - i,
    {
        r.push(v[i]);
        proof {
            assert(v@.take(i + 1) =~= v@.take(i as int).push(v@[i as int]));
        }
        i = i + 1;
    }
    proof {
        assert(v@.take(v@.len() as int) =~= v@);
    }
    r
}

impl Clone for Beacon {
    fn clone(&self) -> (r: Self)
        ensures
            r@ == self@,
    {
        Beacon { values: clone_values(&self.values) }
    }
}

/// Where a beacon belongs: after the block with this hash, at this time.
#[derive(Debug, Clone, Copy, PartialEq, Eq, Hash)]
pub struct BeaconKey {
    pub latest_block_hash: Hashed,
    pub timestamp: i64,
}

impl BeaconKey {
    pub fn new(latest_block_hash: &Hashed, timestamp: i64) -> (r: Self)
        ensures
            r == (BeaconKey { latest_block_hash: *latest_block_hash, timestamp }),
    {
        BeaconKey { latest_block_hash: *latest_block_hash, timestamp }
    }
}

/// Whether two keys are the same.
pub fn beacon_keys_equal(a: &BeaconKey, b: &BeaconKey) -> (r: bool)
    ensures
        r == (*a == *b),
{
    a.timestamp == b.timestamp && hashes_equal(&a.latest_block_hash, &b.latest_block_hash)
}

/// A store of the beacons that this node has read itself.
pub trait BeaconCache {
    /// What the store holds.
    spec fn beacons(&self) -> Map<BeaconKey, Seq<i32>>;

    /// The beacon stored under a key.
    fn get(&self, key: &BeaconKey) -> (r: Option<Beacon>)
        ensures
            match r {
                Some(b) => self.beacons().contains_key(*key) && self.beacons()[*key] == b@,
                None => !self.beacons().contains_key(*key),
            },
    ;

    /// Stores a beacon under a key, in place of what was there.
    fn insert(&mut self, key: BeaconKey, beacon: Beacon)
        ensures
            final(self).beacons() == old(self).beacons().insert(key, beacon@),
    ;
}

/// A beacon store held in memory.
pub struct InMemoryBeaconCache {
    entries: Vec<(BeaconKey, Beacon)>,
}

/// The map that a list of entries with distinct keys stands for.
pub open spec fn entries_map(s: Seq<(BeaconKey, Beacon)>) -> Map<BeaconKey, Seq<i32>>
    decreases s.len(),
{
    if s.len() == 0 {
        Map::empty()
    } else {
        entries_map(s.drop_last()).insert(s.last().0, s.last().1@)
    }
}

/// No key occurs twice.
pub open spec fn keys_distinct(s: Seq<(BeaconKey, Beacon)>) -> bool {
    forall|i: int, j: int| 0 <= i < j < s.len() ==> s[i].0 != s[j].0
}

proof fn lemma_entries_map_lookup(s: Seq<(BeaconKey, Beacon)>, i: int)
    requires
        keys_distinct(s),
        0 <= i < s.len(),
    ensures
        entries_map(s).contains_key(s[i].0),
        entries_map(s)[s[i].0] == s[i].1@,
    decreases s.len(),
{
    if i < s.len() - 1 {
        lemma_entries_map_lookup(s.drop_last(), i);
    }
}

proof fn lemma_entries_map_absent(s: Seq<(BeaconKey, Beacon)>, k: BeaconKey)
    requires
        forall|i: int| 0 <= i < s.len() ==> s[i].0 != k,
    ensures
        !entries_map(s).contains_key(k),
    decreases s.len(),
{
    if s.len() > 0 {
        lemma_entries_map_absent(s.drop_last(), k);
    }
}

proof fn lemma_entries_map_update(s: Seq<(BeaconKey, Beacon)>, i: int, e: (BeaconKey, Beacon))
    requires
        keys_distinct(s),
        0 <= i < s.len(),
        s[i].0 == e.0,
    ensures
        entries_map(s.update(i, e)) == entries_map(s).insert(e.0, e.1@),
        keys_distinct(s.update(i, e)),
    decreases s.len(),
{
    let t = s.update(i, e);
    if i == s.len() - 1 {
        assert(t.drop_last() =~= s.drop_last());
        assert(entries_map(t) =~= entries_map(s).insert(e.0, e.1@));
    } else {
        lemma_entries_map_update(s.drop_last(), i, e);
        assert(t.drop_last() =~= s.drop_last().update(i, e));
        assert(entries_map(t) =~= entries_map(s).insert(e.0, e.1@));
    }
}

impl InMemoryBeaconCache {
    #[verifier::type_invariant]
    spec fn well_formed(self) -> bool {
        keys_distinct(self.entries@)
    }

    /// An empty store.
    pub fn new() -> (r: Self)
        ensures
            r.beacons() == Map::<BeaconKey, Seq<i32>>::empty(),
    {
        InMemoryBeaconCache { entries: Vec::new() }
    }
}

impl BeaconCache for InMemoryBeaconCache {
    closed spec fn beacons(&self) -> Map<BeaconKey, Seq<i32>> {
        entries_map(self.entries@)
    }

    fn get(&self, key: &BeaconKey) -> (r: Option<Beacon>) {
        proof {
            use_type_invariant(self);
        }
        let mut i: usize = 0;
        while i < self.entries.len()
            invariant
                0 <= i <= self.entries@.len(),
                keys_distinct(self.entries@),
                forall|j: int| 0 <= j < i ==> self.entries@[j].0 != *key,
            decreases self.entries@.len() - i,
        {
            if beacon_keys_equal(&self.entries[i].0, key) {
                proof {
                    lemma_entries_map_lookup(self.entries@, i as int);
                }
                return Some(self.entries[i].1.clone());
            }
            i = i + 1;
        }
        proof {
            lemma_entries_map_absent(self.entries@, *key);
        }
        None
    }

    fn insert(&mut self, key: BeaconKey, beacon: Beacon) {
        proof {
            use_type_invariant(&*self);
        }
        let mut i: usize = 0;
        while i < self.entries.len()
            invariant
                0 <= i <= self.entries@.len(),
                self.entries@ == old(self).entries@,
                keys_distinct(self.entries@),
                forall|j: int| 0 <= j < i ==> self.entries@[j].0 != key,
            decreases self.entries@.len() - i,
        {
            if beacon_keys_equal(&self.entries[i].0, &key) {
                proof {
                    lemma_entries_map_update(self.entries@, i as int, (key, beacon));
                }
                let mut entries = Vec::new();
                std::mem::swap(&mut entries, &mut self.entries);
                entries.set(i, (key, beacon));
                self.entries = entries;
                return;
            }
            i = i + 1;
        }
        let mut entries = Vec::new();
        std::mem::swap(&mut entries, &mut self.entries);
        let ghost before = entries@;
        entries.push((key, beacon));
        proof {
            assert(entries@.drop_last() =~= before);
            assert(keys_distinct(entries@));
        }
        self.entries = entries;
    }
}

/// Whether two beacons agree: each temperature that both hold lies within
/// five tenths of a degree of the other.
pub open spec fn spec_is_valid_beacon(own: Seq<i32>, target: Seq<i32>) -> bool {
    forall|i: int|
        0 <= i < own.len() && i < target.len() ==> -5 <= #[trigger] own[i] - target[i] <= 5
}

/// Agreement between two beacons does not depend on which is ours.
pub proof fn lemma_beacon_agreement_symmetric(a: Seq<i32>, b: Seq<i32>)
    ensures
        spec_is_valid_beacon(a, b) == spec_is_valid_beacon(b, a),
{
    if spec_is_valid_beacon(a, b) {
        assert forall|i: int| 0 <= i < b.len() && i < a.len() implies -5 <= #[trigger] b[i] - a[i] <= 5 by {
            assert(-5 <= a[i] - b[i] <= 5);
        }
    }
    if spec_is_valid_beacon(b, a) {
        assert forall|i: int| 0 <= i < a.len() && i < b.len() implies -5 <= #[trigger] a[i] - b[i] <= 5 by {
            assert(-5 <= b[i] - a[i] <= 5);
        }
    }
}

pub fn is_valid_beacon(own_beacon: &Beacon, target_beacon: &Beacon) -> (r: bool)
    ensures
        r == spec_is_valid_beacon(own_beacon@, target_beacon@),
{
    let mut i: usize = 0;
    while i < own_beacon.values.len() && i < target_beacon.values.len()
        invariant
            0 <= i <= own_beacon@.len(),
            forall|j: int|
                0 <= j < i && j < target_beacon@.len() ==> -5 <= #[trigger] own_beacon@[j]
                    - target_beacon@[j] <= 5,
        decreases own_beacon@.len() - i,
    {
        let d = own_beacon.values[i] as i64 - target_beacon.values[i] as i64;
        if d < -5 || d > 5 {
            return false;
        }
        i = i + 1;
    }
    true
}

/// The location that each byte of the latest block hash picks, as an index
/// into a list of `num_locations` locations; none where the list is empty.
pub fn choose_locations(latest_block_hash: &Hashed, num_locations: usize) -> (r: Vec<usize>)
    ensures
        num_locations == 0 ==> r@.len() == 0,
        num_locations > 0 ==> r@ == Seq::new(
            32,
            |i: int| (latest_block_hash@[i] as usize % num_locations) as usize,
        ),
{
    let mut r: Vec<usize> = Vec::new();
    if num_locations == 0 {
        return r;
    }
    let mut i: usize = 0;
    while i < 32
        invariant
            0 <= i <= 32,
            num_locations > 0,
            r@ == Seq::new(i as nat, |j: int| (latest_block_hash@[j] as usize % num_locations) as usize),
        decreases 32 - i,
    {
        r.push(latest_block_hash[i] as usize % num_locations);
        proof {
            assert(r@ =~= Seq::new(
                (i + 1) as nat,
                |j: int| (latest_block_hash@[j] as usize % num_locations) as usize,
            ));
        }
        i = i + 1;
    }
    r
}

/// The beacon made of the temperatures read, where one was read at every
/// one of the `expected` locations.
pub fn assemble_beacon(temperatures: Vec<i32>, expected: usize) -> (r: Option<Beacon>)
    ensures
        temperatures@.len() == expected ==> r == Some(Beacon { values: temperatures }),
        temperatures@.len() != expected ==> r is None,
{
    if temperatures.len() != expected {
        None
    } else {
        Some(Beacon { values: temperatures })
    }
}

/// Stores a beacon that was just read for a key, where one was read;
/// returns whether the store now holds one for the key.
pub fn record_fetched_beacon<C: BeaconCache>(
    cache: &mut C,
    key: BeaconKey,
    fetched: Option<Beacon>,
) -> (r: bool)
    ensures
        r == fetched is Some,
        match fetched {
            Some(b) => final(cache).beacons() == old(cache).beacons().insert(key, b@),
            None => final(cache).beacons() == old(cache).beacons(),
        },
{
    match fetched {
        Some(beacon) => {
            cache.insert(key, beacon);
            true
        },
        None => false,
    }
}

} // verus!
