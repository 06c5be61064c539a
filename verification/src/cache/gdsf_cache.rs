//! A Greedy-Dual-Size-Frequency cache: every entry has a priority that grows
//! with its cost and the number of times it was read and shrinks with its
//! size; when room is needed the entries of lowest priority are evicted.

use vstd::prelude::*;
use vstd::laws_eq::obeys_concrete_eq;
use vstd::std_specs::cmp::PartialEqSpec;

verus! {

/// The size of a cached value.
pub trait HasSize {
    spec fn spec_size(&self) -> nat;

    fn size(&self) -> (r: usize)
        ensures
            r == self.spec_size(),
    ;
}

/// The cost of computing a cached value again.
pub trait HasCost {
    spec fn spec_cost(&self) -> nat;

    fn cost(&self) -> (r: usize)
        ensures
            r == self.spec_cost(),
    ;
}

/// The priority of an entry: `clock + frequency * cost / size`, with
/// integer (floor) division.
pub open spec fn priority_of(clock: int, frequency: int, cost: int, size: int) -> int {
    clock + (frequency * cost) / size
}

/// Whether the priority of an entry can be computed in `usize`: no
/// overflow, and no division by a zero size.
pub open spec fn priority_fits(clock: int, frequency: int, cost: int, size: int) -> bool {
    &&& 0 <= frequency * cost <= usize::MAX
    &&& size > 0
    &&& priority_of(clock, frequency, cost, size) <= usize::MAX
}

/// A cached value with its access frequency and the clock of its last access.
pub struct StorageEntry<K, V> {
    pub key: K,
    pub value: V,
    pub frequency: usize,
    pub clock: usize,
}

impl<K, V: HasSize + HasCost> StorageEntry<K, V> {
    /// The priority of the entry.
    pub open spec fn spec_priority(&self) -> int {
        priority_of(
            self.clock as int,
            self.frequency as int,
            self.value.spec_cost() as int,
            self.value.spec_size() as int,
        )
    }

    /// Whether the priority of the entry fits a `usize`.
    pub open spec fn fits(&self) -> bool {
        priority_fits(
            self.clock as int,
            self.frequency as int,
            self.value.spec_cost() as int,
            self.value.spec_size() as int,
        )
    }

    /// A new entry, read once, at time `clock`.
    pub fn new(key: K, value: V, clock: usize) -> (r: Self)
        ensures
            r.key == key,
            r.value == value,
            r.frequency == 1,
            r.clock == clock,
    {
        StorageEntry { key, value, frequency: 1, clock }
    }

    /// The priority `clock + frequency * cost / size` of the entry.
    pub fn priority(&self) -> (r: usize)
        requires
            self.fits(),
        ensures
            r == self.spec_priority(),
    {
        let cost = self.value.cost();
        let size = self.value.size();
        let product = self.frequency * cost;
        self.clock + product / size
    }

    /// Records a new access at time `clock`: the clock is updated, the
    /// frequency grows by one, and the new priority is returned.
    pub fn update(&mut self, clock: usize) -> (r: usize)
        requires
            old(self).frequency < usize::MAX,
            priority_fits(
                clock as int,
                old(self).frequency + 1,
                old(self).value.spec_cost() as int,
                old(self).value.spec_size() as int,
            ),
        ensures
            final(self).key == old(self).key,
            final(self).value == old(self).value,
            final(self).clock == clock,
            final(self).frequency == old(self).frequency + 1,
            r == final(self).spec_priority(),
    {
        self.clock = clock;
        self.frequency = self.frequency + 1;
        self.priority()
    }
}

/// An entry of the cache together with its current priority.
pub struct Slot<K, V> {
    pub priority: usize,
    pub entry: StorageEntry<K, V>,
}

/// The size of the value held by a slot.
pub open spec fn slot_size<K, V: HasSize>(s: Slot<K, V>) -> nat {
    s.entry.value.spec_size()
}

/// The total size of the values held by a sequence of slots.
pub open spec fn total_size<K, V: HasSize>(s: Seq<Slot<K, V>>) -> nat
    decreases s.len(),
{
    if s.len() == 0 {
        0
    } else {
        total_size(s.drop_last()) + slot_size(s.last())
    }
}

/// Slots in nondecreasing order of priority.
pub open spec fn sorted_by_priority<K, V>(s: Seq<Slot<K, V>>) -> bool {
    forall|i: int, j: int| 0 <= i <= j < s.len() ==> #[trigger] s[i].priority <= #[trigger] s[j].priority
}

/// No two slots hold the same key.
pub open spec fn unique_keys<K, V>(s: Seq<Slot<K, V>>) -> bool {
    forall|i: int, j: int| 0 <= i < j < s.len() ==> #[trigger] s[i].entry.key != #[trigger] s[j].entry.key
}

/// Each slot records the priority of its entry.
pub open spec fn priorities_current<K, V: HasSize + HasCost>(s: Seq<Slot<K, V>>) -> bool {
    forall|i: int| 0 <= i < s.len() ==> #[trigger] s[i].entry.fits() && s[i].priority == s[i].entry.spec_priority()
}

/// The index of the slot holding `key`, if any.
pub open spec fn key_index<K, V>(s: Seq<Slot<K, V>>, key: K) -> Option<int> {
    if exists|i: int| 0 <= i < s.len() && #[trigger] s[i].entry.key == key {
        Some(choose|i: int| 0 <= i < s.len() && #[trigger] s[i].entry.key == key)
    } else {
        None
    }
}

/// The slots without the one holding `key`.
pub open spec fn without_key<K, V>(s: Seq<Slot<K, V>>, key: K) -> Seq<Slot<K, V>> {
    match key_index(s, key) {
        Some(i) => s.remove(i),
        None => s,
    }
}

/// The position where a slot of priority `p` goes: after every slot whose
/// priority is at most `p` (the queue order among equal priorities is the
/// order of arrival).
pub open spec fn insert_position<K, V>(s: Seq<Slot<K, V>>, p: int) -> int
    decreases s.len(),
{
    if s.len() == 0 {
        0
    } else if s.last().priority <= p {
        s.len() as int
    } else {
        insert_position(s.drop_last(), p)
    }
}

/// Scanning the queue from its lowest priority while priorities are at most
/// `p`, the index of the first slot at which the sizes seen so far (from
/// `acc` on) reach `excess`.
pub open spec fn evict_scan<K, V: HasSize>(s: Seq<Slot<K, V>>, p: int, excess: int, i: int, acc: int) -> Option<int>
    decreases s.len() - i,
{
    if i < 0 || i >= s.len() || s[i].priority > p {
        None
    } else if acc + slot_size(s[i]) >= excess {
        Some(i)
    } else {
        evict_scan(s, p, excess, i + 1, acc + slot_size(s[i]))
    }
}

/// Greedy Dual Size Frequency cache
pub struct GDSFCache<K, V> {
    capacity: usize,
    used: usize,
    storage: Vec<Slot<K, V>>,
    clock: usize,
}

/// What an insertion does to the cache, as a function of the state before it:
/// the new clock, the new queue, and whether the value was stored.
pub open spec fn insert_outcome<K, V: HasSize + HasCost>(
    capacity: int,
    used: int,
    clock: int,
    s: Seq<Slot<K, V>>,
    key: K,
    value: V,
) -> (int, Seq<Slot<K, V>>, bool) {
    let s1 = without_key(s, key);
    let used1 = total_size(s1) as int;
    let size = value.spec_size() as int;
    let p = priority_of(clock, 1, value.spec_cost() as int, size);
    let free = capacity - used1;
    let (clock2, s2) = if size > free {
        match evict_scan(s1, p, size - free, 0, 0) {
            Some(num) => (s1[num].priority as int, s1.subrange(num + 1, s1.len() as int)),
            None => (p, s1),
        }
    } else {
        (clock, s1)
    };
    if total_size(s2) + size <= capacity {
        let slot = Slot { priority: p as usize, entry: StorageEntry { key, value, frequency: 1, clock: clock as usize } };
        (clock2, s2.insert(insert_position(s2, p), slot), true)
    } else {
        (clock2, s2, false)
    }
}

impl<K, V: HasSize + HasCost> GDSFCache<K, V> {
    /// The invariant of the cache: the queue is sorted by priority, holds
    /// each key once, records current priorities, and its sizes add up to
    /// the used space, which never exceeds the capacity.
    pub closed spec fn wf(&self) -> bool {
        &&& sorted_by_priority(self.storage@)
        &&& unique_keys(self.storage@)
        &&& priorities_current(self.storage@)
        &&& self.used == total_size(self.storage@)
        &&& self.used <= self.capacity
    }

    /// The entries in queue order, lowest priority first.
    pub closed spec fn slots(&self) -> Seq<Slot<K, V>> {
        self.storage@
    }

    pub closed spec fn spec_capacity(&self) -> nat {
        self.capacity as nat
    }

    pub closed spec fn spec_used(&self) -> nat {
        self.used as nat
    }

    pub closed spec fn spec_clock(&self) -> nat {
        self.clock as nat
    }

    /// A consistent cache stores values whose sizes add up to the space it
    /// counts as used, which never exceeds its capacity.
    pub proof fn law_within_capacity(&self)
        requires
            self.wf(),
        ensures
            total_size(self.slots()) == self.spec_used(),
            self.spec_used() <= self.spec_capacity(),
    {
    }

    /// A consistent cache holds each key once.
    pub proof fn lemma_wf_unique_keys(&self)
        requires
            self.wf(),
        ensures
            unique_keys(self.slots()),
    {
    }

    /// Whether `key` is cached.
    pub open spec fn has_key(&self, key: K) -> bool {
        key_index(self.slots(), key) is Some
    }

    /// Whether a new entry for `v` gets a priority computable in `usize`.
    pub fn fits(&self, v: &V) -> (r: bool)
        ensures
            r == priority_fits(self.spec_clock() as int, 1, v.spec_cost() as int, v.spec_size() as int),
    {
        let size = v.size();
        if size == 0 {
            return false;
        }
        let share = v.cost() / size;
        self.clock.checked_add(share).is_some()
    }

    /// An empty cache that holds at most `capacity` units of size.
    pub fn new(capacity: usize) -> (r: Self)
        ensures
            r.wf(),
            r.slots() == Seq::<Slot<K, V>>::empty(),
            r.spec_capacity() == capacity,
            r.spec_used() == 0,
            r.spec_clock() == 0,
    {
        GDSFCache { capacity, used: 0, storage: Vec::new(), clock: 0 }
    }
}

/// The sizes of two sequences of slots add up.
pub proof fn lemma_total_size_concat<K, V: HasSize>(a: Seq<Slot<K, V>>, b: Seq<Slot<K, V>>)
    ensures
        total_size(a + b) == total_size(a) + total_size(b),
    decreases b.len(),
{
    if b.len() == 0 {
        assert(a + b =~= a);
    } else {
        lemma_total_size_concat(a, b.drop_last());
        assert((a + b).drop_last() =~= a + b.drop_last());
    }
}

/// Removing a slot takes its size off the total.
pub proof fn lemma_total_size_remove<K, V: HasSize>(s: Seq<Slot<K, V>>, i: int)
    requires
        0 <= i < s.len(),
    ensures
        total_size(s.remove(i)) + slot_size(s[i]) == total_size(s),
{
    let a = s.subrange(0, i);
    let b = s.subrange(i + 1, s.len() as int);
    assert(s.remove(i) =~= a + b);
    assert(s =~= a + (seq![s[i]] + b));
    lemma_total_size_concat(a, b);
    lemma_total_size_concat(a, seq![s[i]] + b);
    lemma_total_size_concat(seq![s[i]], b);
    let one = seq![s[i]];
    assert(one.drop_last() =~= Seq::<Slot<K, V>>::empty());
    assert(one.last() == s[i]);
    assert(total_size(one.drop_last()) == 0);
    assert(total_size(one) == slot_size(s[i]));
}

/// Inserting a slot adds its size to the total.
pub proof fn lemma_total_size_insert<K, V: HasSize>(s: Seq<Slot<K, V>>, i: int, x: Slot<K, V>)
    requires
        0 <= i <= s.len(),
    ensures
        total_size(s.insert(i, x)) == total_size(s) + slot_size(x),
{
    let t = s.insert(i, x);
    assert(t.remove(i) =~= s);
    lemma_total_size_remove(t, i);
}

/// The sizes of a prefix add up to at most the total.
pub proof fn lemma_total_size_prefix<K, V: HasSize>(s: Seq<Slot<K, V>>, k: int)
    requires
        0 <= k <= s.len(),
    ensures
        total_size(s.subrange(0, k)) + total_size(s.subrange(k, s.len() as int)) == total_size(s),
{
    assert(s =~= s.subrange(0, k) + s.subrange(k, s.len() as int));
    lemma_total_size_concat(s.subrange(0, k), s.subrange(k, s.len() as int));
}

/// The insert position splits the queue into the slots of priority at most
/// `p` and those of higher priority.
pub proof fn lemma_insert_position<K, V>(s: Seq<Slot<K, V>>, p: int)
    requires
        sorted_by_priority(s),
    ensures
        0 <= insert_position(s, p) <= s.len(),
        forall|j: int| 0 <= j < insert_position(s, p) ==> s[j].priority <= p,
        forall|j: int| insert_position(s, p) <= j < s.len() ==> s[j].priority > p,
    decreases s.len(),
{
    if s.len() > 0 {
        if s.last().priority <= p {
            assert forall|j: int| 0 <= j < insert_position(s, p) implies s[j].priority <= p by {
                assert(s[j].priority <= s[s.len() - 1].priority);
            }
        } else {
            let t = s.drop_last();
            assert(sorted_by_priority(t)) by {
                assert forall|i: int, j: int| 0 <= i <= j < t.len() implies #[trigger] t[i].priority
                    <= #[trigger] t[j].priority by {
                    assert(t[i] == s[i] && t[j] == s[j]);
                    assert(s[i].priority <= s[j].priority);
                }
            }
            lemma_insert_position(t, p);
            assert(insert_position(s, p) == insert_position(t, p));
            assert forall|j: int| 0 <= j < insert_position(s, p) implies s[j].priority <= p by {
                assert(t[j] == s[j]);
            }
            assert forall|j: int| insert_position(s, p) <= j < s.len() implies s[j].priority > p by {
                if j < t.len() {
                    assert(t[j] == s[j]);
                }
            }
        }
    }
}

/// Inserting at the insert position keeps the queue sorted.
pub proof fn lemma_insert_sorted<K, V>(s: Seq<Slot<K, V>>, x: Slot<K, V>)
    requires
        sorted_by_priority(s),
    ensures
        sorted_by_priority(s.insert(insert_position(s, x.priority as int), x)),
{
    lemma_insert_position(s, x.priority as int);
    let k = insert_position(s, x.priority as int);
    let t = s.insert(k, x);
    assert forall|i: int, j: int| 0 <= i <= j < t.len() implies #[trigger] t[i].priority
        <= #[trigger] t[j].priority by {
        if i < k && j > k {
            assert(t[i] == s[i]);
            assert(t[j] == s[j - 1]);
        } else if i < k && j < k {
            assert(t[i] == s[i]);
            assert(t[j] == s[j]);
        } else if i > k {
            assert(t[i] == s[i - 1]);
            assert(t[j] == s[j - 1]);
        } else if i == k && j > k {
            assert(t[j] == s[j - 1]);
        } else if j == k && i < k {
            assert(t[i] == s[i]);
        }
    }
}

/// With distinct keys, the index of a key is the slot that holds it.
pub proof fn lemma_key_index<K, V>(s: Seq<Slot<K, V>>, i: int, key: K)
    requires
        unique_keys(s),
        0 <= i < s.len(),
        s[i].entry.key == key,
    ensures
        key_index(s, key) == Some(i),
{
    let j = choose|j: int| 0 <= j < s.len() && #[trigger] s[j].entry.key == key;
    if j < i {
        assert(s[j].entry.key != s[i].entry.key);
    } else if j > i {
        assert(s[i].entry.key != s[j].entry.key);
    }
}

/// The scan for eviction candidates, seen from a later starting point.
pub proof fn lemma_evict_scan_bound<K, V: HasSize>(s: Seq<Slot<K, V>>, p: int, excess: int, i: int, acc: int)
    requires
        0 <= i,
    ensures
        evict_scan(s, p, excess, i, acc) matches Some(n) ==> i <= n < s.len() && s[n].priority <= p
            && (forall|j: int| i <= j <= n ==> #[trigger] s[j].priority <= p),
    decreases s.len() - i,
{
    if i < s.len() && s[i].priority <= p && acc + slot_size(s[i]) < excess {
        lemma_evict_scan_bound(s, p, excess, i + 1, acc + slot_size(s[i]));
    }
}

impl<K: Eq, V: HasSize + HasCost> GDSFCache<K, V> {
    /// The index of the slot holding `key`.
    fn find(&self, key: &K) -> (r: Option<usize>)
        requires
            obeys_concrete_eq::<K>(),
            self.wf(),
        ensures
            match r {
                Some(i) => i < self.storage@.len() && self.storage@[i as int].entry.key == *key
                    && key_index(self.storage@, *key) == Some(i as int),
                None => key_index(self.storage@, *key) is None,
            },
    {
        proof {
            reveal(obeys_concrete_eq);
        }
        let mut i: usize = 0;
        while i < self.storage.len()
            invariant
                obeys_concrete_eq::<K>(),
                self.wf(),
                K::obeys_eq_spec(),
                forall|x: K, y: K| (x == y) <==> x.eq_spec(&y),
                i <= self.storage@.len(),
                forall|j: int| 0 <= j < i ==> #[trigger] self.storage@[j].entry.key != *key,
            decreases self.storage@.len() - i,
        {
            if self.storage[i].entry.key == *key {
                proof {
                    lemma_key_index(self.storage@, i as int, *key);
                }
                return Some(i);
            }
            i = i + 1;
        }
        None
    }

    /// Whether `key` is cached.
    pub fn contains_key(&self, key: &K) -> (r: bool)
        requires
            obeys_concrete_eq::<K>(),
            self.wf(),
        ensures
            r == self.has_key(*key),
    {
        self.find(key).is_some()
    }

    /// The position where a slot of priority `p` goes.
    fn position_for(&self, p: usize) -> (r: usize)
        ensures
            r == insert_position(self.storage@, p as int),
    {
        let mut k = self.storage.len();
        proof {
            assert(self.storage@.subrange(0, k as int) =~= self.storage@);
        }
        while k > 0 && self.storage[k - 1].priority > p
            invariant
                k <= self.storage@.len(),
                insert_position(self.storage@, p as int) == insert_position(
                    self.storage@.subrange(0, k as int),
                    p as int,
                ),
            decreases k,
        {
            proof {
                let t = self.storage@.subrange(0, k as int);
                assert(t.drop_last() =~= self.storage@.subrange(0, k - 1));
            }
            k = k - 1;
        }
        proof {
            assert(self.storage@.subrange(0, 0) =~= Seq::<Slot<K, V>>::empty());
        }
        k
    }

    /// Removes `key` and gives back its value.
    pub fn remove(&mut self, key: &K) -> (r: Option<V>)
        requires
            obeys_concrete_eq::<K>(),
            old(self).wf(),
        ensures
            final(self).wf(),
            final(self).slots() == without_key(old(self).slots(), *key),
            final(self).spec_capacity() == old(self).spec_capacity(),
            final(self).spec_clock() == old(self).spec_clock(),
            final(self).spec_used() == total_size(final(self).slots()),
            match key_index(old(self).slots(), *key) {
                Some(i) => r == Some(old(self).slots()[i].entry.value),
                None => r is None,
            },
    {
        match self.find(key) {
            Some(i) => {
                let ghost s = self.storage@;
                let slot = self.storage.remove(i);
                proof {
                    lemma_total_size_remove(s, i as int);
                    assert forall|a: int, b: int| 0 <= a < b < self.storage@.len() implies
                        #[trigger] self.storage@[a].entry.key != #[trigger] self.storage@[b].entry.key by {
                        let a0 = if a < i { a } else { a + 1 };
                        let b0 = if b < i { b } else { b + 1 };
                        assert(self.storage@[a] == s[a0]);
                        assert(self.storage@[b] == s[b0]);
                    }
                    assert forall|a: int, b: int| 0 <= a <= b < self.storage@.len() implies
                        #[trigger] self.storage@[a].priority <= #[trigger] self.storage@[b].priority by {
                        let a0 = if a < i { a } else { a + 1 };
                        let b0 = if b < i { b } else { b + 1 };
                        assert(self.storage@[a] == s[a0]);
                        assert(self.storage@[b] == s[b0]);
                    }
                    assert forall|a: int| 0 <= a < self.storage@.len() implies #[trigger] self.storage@[a].entry.fits()
                        && self.storage@[a].priority == self.storage@[a].entry.spec_priority() by {
                        let a0 = if a < i { a } else { a + 1 };
                        assert(self.storage@[a] == s[a0]);
                        assert(s[a0].entry.fits());
                    }
                }
                let size = slot.entry.value.size();
                self.used = self.used - size;
                Some(slot.entry.value)
            },
            None => None,
        }
    }
}


/// The state of the cache after a read of `key`: the entry's frequency grows
/// by one, its clock becomes the cache's clock, and it moves to the place its
/// new priority gives it in the queue.
pub open spec fn touched<K, V: HasSize + HasCost>(s: Seq<Slot<K, V>>, i: int, clock: int) -> Seq<Slot<K, V>> {
    let e = s[i].entry;
    let e2 = StorageEntry { key: e.key, value: e.value, frequency: (e.frequency + 1) as usize, clock: clock as usize };
    let s0 = s.remove(i);
    let slot = Slot { priority: e2.spec_priority() as usize, entry: e2 };
    s0.insert(insert_position(s0, slot.priority as int), slot)
}

/// Whether a read of the entry at `i` can update its priority without
/// overflow.
pub open spec fn touch_fits<K, V: HasSize + HasCost>(s: Seq<Slot<K, V>>, i: int, clock: int) -> bool {
    let e = s[i].entry;
    &&& e.frequency < usize::MAX
    &&& priority_fits(clock, e.frequency + 1, e.value.spec_cost() as int, e.value.spec_size() as int)
}

impl<K: Eq, V: HasSize + HasCost> GDSFCache<K, V> {
    /// Puts a slot at the place its priority gives it in the queue.
    fn place(&mut self, slot: Slot<K, V>) -> (r: usize)
        requires
            sorted_by_priority(old(self).storage@),
        ensures
            r == insert_position(old(self).storage@, slot.priority as int),
            final(self).storage@ == old(self).storage@.insert(r as int, slot),
            sorted_by_priority(final(self).storage@),
            final(self).capacity == old(self).capacity,
            final(self).used == old(self).used,
            final(self).clock == old(self).clock,
    {
        let pos = self.position_for(slot.priority);
        proof {
            lemma_insert_position(self.storage@, slot.priority as int);
            lemma_insert_sorted(self.storage@, slot);
        }
        self.storage.insert(pos, slot);
        pos
    }

    /// Reads the value cached under `key`: the read raises the entry's
    /// frequency and moves it in the queue.
    pub fn get(&mut self, key: &K) -> (r: Option<&V>)
        requires
            obeys_concrete_eq::<K>(),
            old(self).wf(),
            key_index(old(self).slots(), *key) matches Some(i) ==> touch_fits(
                old(self).slots(),
                i,
                old(self).spec_clock() as int,
            ),
        ensures
            final(self).wf(),
            final(self).spec_capacity() == old(self).spec_capacity(),
            final(self).spec_clock() == old(self).spec_clock(),
            final(self).spec_used() == old(self).spec_used(),
            match key_index(old(self).slots(), *key) {
                Some(i) => {
                    &&& final(self).slots() == touched(old(self).slots(), i, old(self).spec_clock() as int)
                    &&& r matches Some(v) && *v == old(self).slots()[i].entry.value
                },
                None => r is None && final(self).slots() == old(self).slots(),
            },
    {
        match self.find(key) {
            Some(i) => {
                let ghost s = self.storage@;
                let mut slot = self.storage.remove(i);
                let ghost s0 = self.storage@;
                proof {
                    assert(s0 == s.remove(i as int));
                    lemma_total_size_remove(s, i as int);
                }
                let p = slot.entry.update(self.clock);
                slot.priority = p;
                let ghost new_slot = slot;
                let pos = self.place(slot);
                proof {
                    lemma_insert_position(s0, p as int);
                    lemma_total_size_insert(s0, pos as int, new_slot);
                    let t = self.storage@;
                    assert(t[pos as int] == new_slot);
                    assert forall|a: int, b: int| 0 <= a < b < t.len() implies
                        #[trigger] t[a].entry.key != #[trigger] t[b].entry.key by {
                        let a0 = if a < pos { a } else if a == pos { -1 } else { a - 1 };
                        let b0 = if b < pos { b } else if b == pos { -1 } else { b - 1 };
                        let a1 = if a0 < 0 { i as int } else if a0 < i { a0 } else { a0 + 1 };
                        let b1 = if b0 < 0 { i as int } else if b0 < i { b0 } else { b0 + 1 };
                        assert(t[a].entry.key == s[a1].entry.key);
                        assert(t[b].entry.key == s[b1].entry.key);
                        assert(a1 != b1);
                        if a1 < b1 {
                            assert(s[a1].entry.key != s[b1].entry.key);
                        } else {
                            assert(s[b1].entry.key != s[a1].entry.key);
                        }
                    }
                    assert forall|a: int| 0 <= a < t.len() implies #[trigger] t[a].entry.fits()
                        && t[a].priority == t[a].entry.spec_priority() by {
                        if a != pos {
                            let a0 = if a < pos { a } else { a - 1 };
                            let a1 = if a0 < i { a0 } else { a0 + 1 };
                            assert(t[a] == s[a1]);
                            assert(s[a1].entry.fits());
                        }
                    }
                    assert(self.storage@ =~= touched(s, i as int, self.clock as int));
                }
                Some(&self.storage[pos].entry.value)
            },
            None => None,
        }
    }
}


/// A contiguous part of a queue keeps its order, its distinct keys and its
/// recorded priorities.
pub proof fn lemma_subrange_preserves<K, V: HasSize + HasCost>(s: Seq<Slot<K, V>>, a: int, b: int)
    requires
        0 <= a <= b <= s.len(),
        sorted_by_priority(s),
        unique_keys(s),
        priorities_current(s),
    ensures
        sorted_by_priority(s.subrange(a, b)),
        unique_keys(s.subrange(a, b)),
        priorities_current(s.subrange(a, b)),
{
    let t = s.subrange(a, b);
    assert forall|i: int, j: int| 0 <= i <= j < t.len() implies #[trigger] t[i].priority
        <= #[trigger] t[j].priority by {
        assert(t[i] == s[i + a] && t[j] == s[j + a]);
    }
    assert forall|i: int, j: int| 0 <= i < j < t.len() implies #[trigger] t[i].entry.key
        != #[trigger] t[j].entry.key by {
        assert(t[i] == s[i + a] && t[j] == s[j + a]);
    }
    assert forall|i: int| 0 <= i < t.len() implies #[trigger] t[i].entry.fits() && t[i].priority
        == t[i].entry.spec_priority() by {
        assert(t[i] == s[i + a]);
        assert(s[i + a].entry.fits());
    }
}

/// Once its slot is gone, a key is held by no slot.
pub proof fn lemma_without_key<K, V>(s: Seq<Slot<K, V>>, key: K)
    requires
        unique_keys(s),
    ensures
        forall|j: int| 0 <= j < without_key(s, key).len() ==> #[trigger] without_key(s, key)[j].entry.key != key,
        unique_keys(without_key(s, key)),
{
    match key_index(s, key) {
        Some(i) => {
            let t = s.remove(i);
            assert(s[i].entry.key == key);
            assert forall|j: int| 0 <= j < t.len() implies #[trigger] t[j].entry.key != key by {
                if j < i {
                    assert(t[j] == s[j]);
                    assert(s[j].entry.key != s[i].entry.key);
                } else {
                    assert(t[j] == s[j + 1]);
                    assert(s[i].entry.key != s[j + 1].entry.key);
                }
            }
            assert forall|a: int, b: int| 0 <= a < b < t.len() implies #[trigger] t[a].entry.key
                != #[trigger] t[b].entry.key by {
                let a0 = if a < i { a } else { a + 1 };
                let b0 = if b < i { b } else { b + 1 };
                assert(t[a] == s[a0] && t[b] == s[b0]);
            }
        },
        None => {
            assert forall|j: int| 0 <= j < s.len() implies #[trigger] s[j].entry.key != key by {
                if s[j].entry.key == key {
                    assert(exists|i: int| 0 <= i < s.len() && #[trigger] s[i].entry.key == key);
                }
            }
        },
    }
}

/// Placing a fresh slot, whose key no slot holds, at its insert position
/// keeps the queue's order, its distinct keys and its recorded priorities.
pub proof fn lemma_place_preserves<K, V: HasSize + HasCost>(s: Seq<Slot<K, V>>, x: Slot<K, V>)
    requires
        sorted_by_priority(s),
        unique_keys(s),
        priorities_current(s),
        forall|j: int| 0 <= j < s.len() ==> #[trigger] s[j].entry.key != x.entry.key,
        x.entry.fits(),
        x.priority == x.entry.spec_priority(),
    ensures
        sorted_by_priority(s.insert(insert_position(s, x.priority as int), x)),
        unique_keys(s.insert(insert_position(s, x.priority as int), x)),
        priorities_current(s.insert(insert_position(s, x.priority as int), x)),
{
    lemma_insert_sorted(s, x);
    lemma_insert_position(s, x.priority as int);
    let k = insert_position(s, x.priority as int);
    let t = s.insert(k, x);
    assert forall|a: int, b: int| 0 <= a < b < t.len() implies #[trigger] t[a].entry.key
        != #[trigger] t[b].entry.key by {
        if a == k {
            assert(t[b] == s[b - 1]);
        } else if b == k {
            assert(t[a] == s[a]);
        } else {
            let a0 = if a < k { a } else { a - 1 };
            let b0 = if b < k { b } else { b - 1 };
            assert(t[a] == s[a0] && t[b] == s[b0]);
        }
    }
    assert forall|a: int| 0 <= a < t.len() implies #[trigger] t[a].entry.fits() && t[a].priority
        == t[a].entry.spec_priority() by {
        if a != k {
            let a0 = if a < k { a } else { a - 1 };
            assert(t[a] == s[a0]);
            assert(s[a0].entry.fits());
        }
    }
}

impl<K: Eq, V: HasSize + HasCost> GDSFCache<K, V> {
    /// Scans the queue from its lowest priority, while priorities are at most
    /// `p`, for the first slot at which the sizes seen reach `excess`.
    fn scan_for_eviction(&self, p: usize, excess: usize) -> (r: Option<usize>)
        requires
            self.wf(),
            excess > 0,
        ensures
            r matches Some(n) ==> evict_scan(self.storage@, p as int, excess as int, 0, 0) == Some(n as int),
            r is None ==> evict_scan(self.storage@, p as int, excess as int, 0, 0) is None,
    {
        let ghost s = self.storage@;
        let mut idx: usize = 0;
        let mut acc: usize = 0;
        let mut found: Option<usize> = None;
        proof {
            assert(s.subrange(0, 0) =~= Seq::<Slot<K, V>>::empty());
        }
        while found.is_none() && idx < self.storage.len() && self.storage[idx].priority <= p
            invariant
                self.wf(),
                s == self.storage@,
                idx <= s.len(),
                found is None ==> acc == total_size(s.subrange(0, idx as int)),
                found is None ==> acc < excess,
                found is None ==> evict_scan(s, p as int, excess as int, 0, 0) == evict_scan(
                    s,
                    p as int,
                    excess as int,
                    idx as int,
                    acc as int,
                ),
                found matches Some(n) ==> evict_scan(s, p as int, excess as int, 0, 0) == Some(n as int),
            decreases s.len() - idx, (if found is None { 1int } else { 0int }),
        {
            let sz = self.storage[idx].entry.value.size();
            proof {
                let pre = s.subrange(0, idx + 1);
                assert(pre.drop_last() =~= s.subrange(0, idx as int));
                assert(pre.last() == s[idx as int]);
                lemma_total_size_prefix(s, idx + 1);
            }
            if sz >= excess - acc {
                found = Some(idx);
            } else {
                acc = acc + sz;
                idx = idx + 1;
            }
        }
        found
    }

    /// Evicts the `count` slots of lowest priority; the clock takes the
    /// priority of the last one evicted.
    fn evict_front(&mut self, count: usize)
        requires
            old(self).wf(),
            0 < count <= old(self).storage@.len(),
        ensures
            final(self).wf(),
            final(self).storage@ == old(self).storage@.subrange(count as int, old(self).storage@.len() as int),
            final(self).clock == old(self).storage@[count - 1].priority,
            final(self).capacity == old(self).capacity,
    {
        let ghost s = self.storage@;
        let mut k: usize = 0;
        proof {
            assert(s.subrange(0, s.len() as int) =~= s);
        }
        while k < count
            invariant
                0 <= k <= count <= s.len(),
                self.wf(),
                self.capacity == old(self).capacity,
                self.storage@ == s.subrange(k as int, s.len() as int),
                k > 0 ==> self.clock == s[k - 1].priority,
            decreases count - k,
        {
            let ghost t = self.storage@;
            let pri = self.storage[0].priority;
            self.clock = pri;
            let slot = self.storage.remove(0);
            proof {
                lemma_total_size_remove(t, 0);
                assert(self.storage@ =~= t.subrange(1, t.len() as int));
                lemma_subrange_preserves(t, 1, t.len() as int);
                assert(self.storage@ =~= s.subrange(k + 1, s.len() as int));
            }
            let size = slot.entry.value.size();
            self.used = self.used - size;
            k = k + 1;
        }
    }

    /// Stores `value` under `key`, evicting entries of lower priority when
    /// room is needed. Gives back a reference to the stored value, or the
    /// value itself when it could not be stored.
    pub fn insert(&mut self, key: K, value: V) -> (r: Result<&V, V>)
        requires
            obeys_concrete_eq::<K>(),
            old(self).wf(),
            priority_fits(old(self).spec_clock() as int, 1, value.spec_cost() as int, value.spec_size() as int),
        ensures
            final(self).wf(),
            final(self).spec_capacity() == old(self).spec_capacity(),
            final(self).spec_used() == total_size(final(self).slots()),
            (final(self).spec_clock() as int, final(self).slots(), r is Ok) == insert_outcome(
                old(self).spec_capacity() as int,
                old(self).spec_used() as int,
                old(self).spec_clock() as int,
                old(self).slots(),
                key,
                value,
            ),
            r matches Ok(v) ==> *v == value,
            r matches Err(v) ==> v == value,
    {
        let ghost s = self.storage@;
        let ghost k0 = key;
        self.remove(&key);
        let ghost s1 = self.storage@;
        proof {
            lemma_without_key(s, k0);
        }
        let size = value.size();
        let entry = StorageEntry::new(key, value, self.clock);
        let priority = entry.priority();
        let free = self.capacity - self.used;
        if size > free {
            let excess = size - free;
            match self.scan_for_eviction(priority, excess) {
                Some(num) => {
                    proof {
                        lemma_evict_scan_bound(s1, priority as int, excess as int, 0, 0);
                        assert(num < s1.len());
                    }
                    let len = self.storage.len();
                    assert(num < len);
                    self.evict_front(num + 1);
                },
                None => {
                    self.clock = priority;
                },
            }
        }
        let ghost s2 = self.storage@;
        proof {
            assert(forall|j: int| 0 <= j < s2.len() ==> #[trigger] s2[j].entry.key != k0) by {
                assert forall|j: int| 0 <= j < s2.len() implies #[trigger] s2[j].entry.key != k0 by {
                    if s2 != s1 {
                        let n = (s1.len() - s2.len()) as int;
                        assert(s2[j] == s1[j + n]);
                    }
                }
            }
        }
        if size <= self.capacity - self.used {
            let slot = Slot { priority, entry };
            let ghost gslot = slot;
            proof {
                lemma_place_preserves(s2, gslot);
                lemma_insert_position(s2, priority as int);
            }
            let pos = self.place(slot);
            proof {
                lemma_total_size_insert(s2, pos as int, gslot);
            }
            self.used = self.used + size;
            Ok(&self.storage[pos].entry.value)
        } else {
            Err(entry.value)
        }
    }
}


/// The eviction step of an insertion keeps a suffix of the queue.
proof fn lemma_evicted_suffix<K, V: HasSize>(s1: Seq<Slot<K, V>>, p: int, excess: int)
    ensures
        evict_scan(s1, p, excess, 0, 0) matches Some(num) ==> 0 <= num < s1.len(),
{
    lemma_evict_scan_bound(s1, p, excess, 0, 0);
}

/// Read after write: once an insertion has stored a value, the cache holds
/// that value under its key, read once.
pub proof fn law_insert_then_lookup<K, V: HasSize + HasCost>(
    capacity: int,
    used: int,
    clock: int,
    s: Seq<Slot<K, V>>,
    key: K,
    value: V,
)
    requires
        unique_keys(s),
    ensures
        ({
            let (c, t, stored) = insert_outcome(capacity, used, clock, s, key, value);
            stored ==> (key_index(t, key) matches Some(i) && t[i].entry.value == value
                && t[i].entry.frequency == 1)
        }),
{
    let (c, t, stored) = insert_outcome(capacity, used, clock, s, key, value);
    if stored {
        lemma_without_key(s, key);
        let s1 = without_key(s, key);
        let size = value.spec_size() as int;
        let pr = priority_of(clock, 1, value.spec_cost() as int, size);
        let free = capacity - total_size(s1) as int;
        lemma_evicted_suffix(s1, pr, size - free);
        let s2 = if size > free {
            match evict_scan(s1, pr, size - free, 0, 0) {
                Some(num) => s1.subrange(num + 1, s1.len() as int),
                None => s1,
            }
        } else {
            s1
        };
        assert forall|j: int| 0 <= j < s2.len() implies #[trigger] s2[j].entry.key != key by {
            if s2 != s1 {
                let n = (s1.len() - s2.len()) as int;
                assert(s2[j] == s1[j + n]);
            }
        }
        assert(unique_keys(s2)) by {
            assert forall|a: int, b: int| 0 <= a < b < s2.len() implies #[trigger] s2[a].entry.key
                != #[trigger] s2[b].entry.key by {
                if s2 != s1 {
                    let n = (s1.len() - s2.len()) as int;
                    assert(s2[a] == s1[a + n] && s2[b] == s1[b + n]);
                }
            }
        }
        let k = insert_position(s2, pr);
        assert(0 <= k <= s2.len()) by {
            lemma_insert_position_bounds(s2, pr);
        }
        let slot = Slot { priority: pr as usize, entry: StorageEntry { key, value, frequency: 1, clock: clock as usize } };
        assert(t == s2.insert(k, slot));
        assert(t[k].entry.key == key);
        assert(unique_keys(t)) by {
            assert forall|a: int, b: int| 0 <= a < b < t.len() implies #[trigger] t[a].entry.key
                != #[trigger] t[b].entry.key by {
                if a == k {
                    assert(t[b] == s2[b - 1]);
                } else if b == k {
                    assert(t[a] == s2[a]);
                } else {
                    let a0 = if a < k { a } else { a - 1 };
                    let b0 = if b < k { b } else { b - 1 };
                    assert(t[a] == s2[a0] && t[b] == s2[b0]);
                }
            }
        }
        lemma_key_index(t, k, key);
    }
}

/// A refused insertion leaves the key uncached.
pub proof fn law_rejected_forgets<K, V: HasSize + HasCost>(
    capacity: int,
    used: int,
    clock: int,
    s: Seq<Slot<K, V>>,
    key: K,
    value: V,
)
    requires
        unique_keys(s),
    ensures
        ({
            let (c, t, stored) = insert_outcome(capacity, used, clock, s, key, value);
            !stored ==> key_index(t, key) is None
        }),
{
    let (c, t, stored) = insert_outcome(capacity, used, clock, s, key, value);
    if !stored {
        lemma_without_key(s, key);
        let s1 = without_key(s, key);
        let size = value.spec_size() as int;
        let pr = priority_of(clock, 1, value.spec_cost() as int, size);
        let free = capacity - total_size(s1) as int;
        lemma_evicted_suffix(s1, pr, size - free);
        if exists|i: int| 0 <= i < t.len() && #[trigger] t[i].entry.key == key {
            let i = choose|i: int| 0 <= i < t.len() && #[trigger] t[i].entry.key == key;
            if t != s1 {
                let n = (s1.len() - t.len()) as int;
                assert(t[i] == s1[i + n]);
            }
        }
    }
}

/// The insert position lies within the queue.
pub proof fn lemma_insert_position_bounds<K, V>(s: Seq<Slot<K, V>>, p: int)
    ensures
        0 <= insert_position(s, p) <= s.len(),
    decreases s.len(),
{
    if s.len() > 0 && s.last().priority > p {
        lemma_insert_position_bounds(s.drop_last(), p);
    }
}

/// A value larger than the whole capacity is never stored.
pub proof fn law_oversized_rejected<K, V: HasSize + HasCost>(
    capacity: int,
    used: int,
    clock: int,
    s: Seq<Slot<K, V>>,
    key: K,
    value: V,
)
    requires
        value.spec_size() > capacity,
    ensures
        !insert_outcome(capacity, used, clock, s, key, value).2,
{
}

/// The slots a successful scan passes over hold at least the excess.
proof fn lemma_evict_scan_sum<K, V: HasSize>(s: Seq<Slot<K, V>>, p: int, excess: int, i: int, acc: int)
    requires
        0 <= i,
    ensures
        evict_scan(s, p, excess, i, acc) matches Some(n) ==> n < s.len() && acc + total_size(s.subrange(i, n + 1)) >= excess,
    decreases s.len() - i,
{
    if i < s.len() && s[i].priority <= p {
        let one = seq![s[i]];
        assert(one.drop_last() =~= Seq::<Slot<K, V>>::empty());
        assert(one.last() == s[i]);
        assert(total_size(one.drop_last()) == 0);
        assert(total_size(one) == slot_size(s[i]));
        if acc + slot_size(s[i]) >= excess {
            assert(s.subrange(i, i + 1) =~= one);
        } else {
            lemma_evict_scan_sum(s, p, excess, i + 1, acc + slot_size(s[i]));
            lemma_evict_scan_bound(s, p, excess, i + 1, acc + slot_size(s[i]));
            if let Some(n) = evict_scan(s, p, excess, i + 1, acc + slot_size(s[i])) {
                assert(s.subrange(i, n + 1) =~= one + s.subrange(i + 1, n + 1));
                lemma_total_size_concat(one, s.subrange(i + 1, n + 1));
            }
        }
    }
}

/// An insertion is refused exactly when the value does not fit in the space
/// left once the key's old entry is dropped, and the entries of priority at
/// most the new one's cannot free enough; a refused insertion evicts nothing
/// (it only drops the key's old entry) and keeps the clock it had unless a
/// scan raised it to the new priority.
pub proof fn law_refusal<K, V: HasSize + HasCost>(
    capacity: int,
    used: int,
    clock: int,
    s: Seq<Slot<K, V>>,
    key: K,
    value: V,
)
    ensures
        ({
            let s1 = without_key(s, key);
            let size = value.spec_size() as int;
            let free = capacity - total_size(s1);
            let p = priority_of(clock, 1, value.spec_cost() as int, size);
            let (c, t, stored) = insert_outcome(capacity, used, clock, s, key, value);
            &&& !stored <==> (size > free && evict_scan(s1, p, size - free, 0, 0) is None)
            &&& !stored ==> t == s1
        }),
{
    let s1 = without_key(s, key);
    let size = value.spec_size() as int;
    let free = capacity - total_size(s1);
    let p = priority_of(clock, 1, value.spec_cost() as int, size);
    if size > free {
        lemma_evict_scan_sum(s1, p, size - free, 0, 0);
        lemma_evict_scan_bound(s1, p, size - free, 0, 0);
        if let Some(num) = evict_scan(s1, p, size - free, 0, 0) {
            assert(0 <= num < s1.len());
            lemma_total_size_prefix(s1, num + 1);
        }
    }
}

/// The value held under a key, if any.
pub open spec fn value_of<K, V>(s: Seq<Slot<K, V>>, key: K) -> Option<V> {
    match key_index(s, key) {
        Some(i) => Some(s[i].entry.value),
        None => None,
    }
}

/// A read keeps each key held once.
proof fn lemma_touched_unique<K, V: HasSize + HasCost>(s: Seq<Slot<K, V>>, i: int, clock: int)
    requires
        unique_keys(s),
        0 <= i < s.len(),
    ensures
        unique_keys(touched(s, i, clock)),
{
    let t = touched(s, i, clock);
    let s0 = s.remove(i);
    let e = s[i].entry;
    let e2 = StorageEntry { key: e.key, value: e.value, frequency: (e.frequency + 1) as usize, clock: clock as usize };
    let slot = Slot { priority: e2.spec_priority() as usize, entry: e2 };
    let pos = insert_position(s0, slot.priority as int);
    lemma_insert_position_bounds(s0, slot.priority as int);
    assert(t == s0.insert(pos, slot));
    assert forall|a: int, b: int| 0 <= a < b < t.len() implies #[trigger] t[a].entry.key != #[trigger] t[b].entry.key by {
        let a0 = if a < pos { a } else { a - 1 };
        let b0 = if b < pos { b } else { b - 1 };
        let a1 = if a0 < i { a0 } else { a0 + 1 };
        let b1 = if b0 < i { b0 } else { b0 + 1 };
        if a == pos {
            assert(t[b] == s0[b0]);
            assert(s0[b0] == s[b1]);
            assert(b1 != i);
            if b1 < i {
                assert(s[b1].entry.key != s[i].entry.key);
            } else {
                assert(s[i].entry.key != s[b1].entry.key);
            }
        } else if b == pos {
            assert(t[a] == s0[a0]);
            assert(s0[a0] == s[a1]);
            assert(a1 != i);
            if a1 < i {
                assert(s[a1].entry.key != s[i].entry.key);
            } else {
                assert(s[i].entry.key != s[a1].entry.key);
            }
        } else {
            assert(t[a] == s0[a0]);
            assert(t[b] == s0[b0]);
            assert(s0[a0] == s[a1]);
            assert(s0[b0] == s[b1]);
            assert(a1 < b1);
            assert(s[a1].entry.key != s[b1].entry.key);
        }
    }
}

/// A read moves the entry it reads without changing what any key holds.
pub proof fn law_read_keeps_values<K, V: HasSize + HasCost>(s: Seq<Slot<K, V>>, i: int, clock: int, key: K)
    requires
        unique_keys(s),
        0 <= i < s.len(),
    ensures
        value_of(touched(s, i, clock), key) == value_of(s, key),
{
    lemma_touched_unique(s, i, clock);
    let t = touched(s, i, clock);
    let s0 = s.remove(i);
    let e = s[i].entry;
    let e2 = StorageEntry { key: e.key, value: e.value, frequency: (e.frequency + 1) as usize, clock: clock as usize };
    let slot = Slot { priority: e2.spec_priority() as usize, entry: e2 };
    let pos = insert_position(s0, slot.priority as int);
    lemma_insert_position_bounds(s0, slot.priority as int);
    assert(t == s0.insert(pos, slot));
    assert(t[pos] == slot);
    if key == e.key {
        lemma_key_index(s, i, key);
        lemma_key_index(t, pos, key);
    } else {
        if exists|j: int| 0 <= j < s.len() && #[trigger] s[j].entry.key == key {
            let j = choose|j: int| 0 <= j < s.len() && #[trigger] s[j].entry.key == key;
            lemma_key_index(s, j, key);
            assert(j != i);
            let j0 = if j < i { j } else { j - 1 };
            assert(s0[j0] == s[j]);
            let j1 = if j0 < pos { j0 } else { j0 + 1 };
            assert(t[j1] == s0[j0]);
            lemma_key_index(t, j1, key);
        } else {
            if exists|j: int| 0 <= j < t.len() && #[trigger] t[j].entry.key == key {
                let j = choose|j: int| 0 <= j < t.len() && #[trigger] t[j].entry.key == key;
                assert(j != pos);
                let j0 = if j < pos { j } else { j - 1 };
                assert(t[j] == s0[j0]);
                let j1 = if j0 < i { j0 } else { j0 + 1 };
                assert(s0[j0] == s[j1]);
                assert(s[j1].entry.key == key);
            }
        }
    }
}

/// After a removal the key is no longer cached.
pub proof fn law_remove_forgets<K, V>(s: Seq<Slot<K, V>>, key: K)
    requires
        unique_keys(s),
    ensures
        key_index(without_key(s, key), key) is None,
{
    lemma_without_key(s, key);
    let t = without_key(s, key);
    if exists|i: int| 0 <= i < t.len() && #[trigger] t[i].entry.key == key {
        let i = choose|i: int| 0 <= i < t.len() && #[trigger] t[i].entry.key == key;
        assert(t[i].entry.key != key);
    }
}

impl<K, V: HasSize + HasCost> GDSFCache<K, V> {
    /// The priorities of the cached entries in queue order, lowest first.
    pub fn priorities(&self) -> (r: Vec<usize>)
        ensures
            r@.len() == self.slots().len(),
            forall|i: int| 0 <= i < r@.len() ==> r@[i] == #[trigger] self.slots()[i].priority,
    {
        let mut r: Vec<usize> = Vec::new();
        let mut i: usize = 0;
        while i < self.storage.len()
            invariant
                i <= self.storage@.len(),
                r@.len() == i,
                forall|j: int| 0 <= j < i ==> r@[j] == #[trigger] self.storage@[j].priority,
            decreases self.storage@.len() - i,
        {
            r.push(self.storage[i].priority);
            i = i + 1;
        }
        r
    }
}

} // verus!
