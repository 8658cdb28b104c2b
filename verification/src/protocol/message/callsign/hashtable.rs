//! A fixed-capacity, open-addressed table from 22-bit callsign hashes to
//! values.
//!
//! A table with parameters `N` and `M` has `N * 1024` slots. A key is looked
//! for in the `M` consecutive slots (wrapping round) that start at the slot
//! named by its top ten bits. Insertion evicts the entry of lowest generation
//! among those slots when none of them is free.
use vstd::prelude::*;

verus! {

/// The number of leading bits of a hash that name the slot where probing
/// starts.
pub const HASH_BITS: usize = 10;

/// Number of slots of a table with parameter `n`.
pub fn table_size(n: usize) -> (r: usize)
    requires
        n * 1024 <= usize::MAX,
    ensures
        r == n * 1024,
{
    n * 1024
}

/// One stored association, stamped with the generation at which it was
/// written.
pub struct HashTableEntry<T> {
    pub key: u32,
    pub value: T,
    pub gen: u32,
}

/// The generation that follows `g`: the counter wraps round and skips 0.
pub open spec fn next_gen(g: u32) -> u32 {
    if g == u32::MAX {
        1
    } else {
        (g + 1) as u32
    }
}

/// The `i`-th slot probed for `key` in a table of `size` slots.
pub open spec fn spec_probe(size: int, key: u32, i: int) -> int {
    (key as int / 4096 + i) % size
}

/// Whether slot `d` holds an entry for `key`.
pub open spec fn slot_holds<T>(slots: Seq<Option<HashTableEntry<T>>>, d: int, key: u32) -> bool {
    &&& 0 <= d < slots.len()
    &&& slots[d] matches Some(e)
    &&& e.key == key
}

/// The `m` slots probed for `key`, in probing order.
pub open spec fn spec_window<T>(slots: Seq<Option<HashTableEntry<T>>>, m: int, key: u32) -> Seq<
    Option<HashTableEntry<T>>,
> {
    Seq::new(m as nat, |i: int| slots[spec_probe(slots.len() as int, key, i)])
}

/// Index of the first of the first `n` probed slots that holds `key`.
pub open spec fn scan_key<T>(w: Seq<Option<HashTableEntry<T>>>, key: u32, n: int) -> Option<int>
    decreases n,
{
    if n <= 0 {
        None
    } else {
        match scan_key(w, key, n - 1) {
            Some(i) => Some(i),
            None => if slot_holds(w, n - 1, key) {
                Some(n - 1)
            } else {
                None
            },
        }
    }
}

/// Index of the first free slot among the first `n` probed slots.
pub open spec fn scan_empty<T>(w: Seq<Option<HashTableEntry<T>>>, n: int) -> Option<int>
    decreases n,
{
    if n <= 0 {
        None
    } else {
        match scan_empty(w, n - 1) {
            Some(i) => Some(i),
            None => if w[n - 1] is None {
                Some(n - 1)
            } else {
                None
            },
        }
    }
}

/// The generation of a slot; 0 for a free slot.
pub open spec fn slot_gen<T>(s: Option<HashTableEntry<T>>) -> u32 {
    match s {
        Some(e) => e.gen,
        None => 0,
    }
}

/// Index of the first slot of lowest generation among the first `n` probed
/// slots.
pub open spec fn scan_oldest<T>(w: Seq<Option<HashTableEntry<T>>>, n: int) -> int
    decreases n,
{
    if n <= 1 {
        0
    } else {
        let i = scan_oldest(w, n - 1);
        if slot_gen(w[n - 1]) < slot_gen(w[i]) {
            n - 1
        } else {
            i
        }
    }
}

/// The probed slot that an insertion of `key` writes: the first that holds
/// `key`; failing that the first free one; failing that the first of lowest
/// generation.
pub open spec fn spec_target<T>(w: Seq<Option<HashTableEntry<T>>>, key: u32) -> int {
    match scan_key(w, key, w.len() as int) {
        Some(i) => i,
        None => match scan_empty(w, w.len() as int) {
            Some(i) => i,
            None => scan_oldest(w, w.len() as int),
        },
    }
}

/// The association that the slots hold: each stored key with its value.
pub open spec fn slots_map<T>(slots: Seq<Option<HashTableEntry<T>>>) -> Map<u32, T> {
    Map::new(
        |k: u32| exists|d: int| slot_holds(slots, d, k),
        |k: u32| slots[choose|d: int| slot_holds(slots, d, k)]->0.value,
    )
}

/// Number of occupied slots.
pub open spec fn occupied<T>(slots: Seq<Option<HashTableEntry<T>>>) -> nat
    decreases slots.len(),
{
    if slots.len() == 0 {
        0
    } else {
        occupied(slots.drop_last()) + (if slots.last() is Some {
            1nat
        } else {
            0nat
        })
    }
}

/// The occupied slots of a window, as key and value, in probing order.
pub open spec fn window_entries<T>(w: Seq<Option<HashTableEntry<T>>>) -> Seq<(u32, T)>
    decreases w.len(),
{
    if w.len() == 0 {
        Seq::empty()
    } else {
        match w.last() {
            Some(e) => window_entries(w.drop_last()).push((e.key, e.value)),
            None => window_entries(w.drop_last()),
        }
    }
}

proof fn lemma_occupied_update<T>(
    slots: Seq<Option<HashTableEntry<T>>>,
    t: int,
    e: HashTableEntry<T>,
)
    requires
        0 <= t < slots.len(),
    ensures
        occupied(slots.update(t, Some(e))) == occupied(slots) + (if slots[t] is None {
            1nat
        } else {
            0nat
        }),
        occupied(slots) <= slots.len(),
    decreases slots.len(),
{
    let u = slots.update(t, Some(e));
    if t == slots.len() - 1 {
        assert(u.drop_last() =~= slots.drop_last());
        lemma_occupied_bound(slots.drop_last());
    } else {
        lemma_occupied_update(slots.drop_last(), t, e);
        assert(u.drop_last() =~= slots.drop_last().update(t, Some(e)));
    }
}

proof fn lemma_occupied_bound<T>(slots: Seq<Option<HashTableEntry<T>>>)
    ensures
        occupied(slots) <= slots.len(),
    decreases slots.len(),
{
    if slots.len() > 0 {
        lemma_occupied_bound(slots.drop_last());
    }
}

proof fn lemma_scan_key<T>(w: Seq<Option<HashTableEntry<T>>>, key: u32, n: int)
    requires
        0 <= n <= w.len(),
    ensures
        match scan_key(w, key, n) {
            Some(i) => 0 <= i < n && slot_holds(w, i, key),
            None => forall|j: int| 0 <= j < n ==> !slot_holds(w, j, key),
        },
    decreases n,
{
    if n > 0 {
        lemma_scan_key(w, key, n - 1);
    }
}

proof fn lemma_scan_empty<T>(w: Seq<Option<HashTableEntry<T>>>, n: int)
    requires
        0 <= n <= w.len(),
    ensures
        match scan_empty(w, n) {
            Some(i) => 0 <= i < n && w[i] is None,
            None => forall|j: int| 0 <= j < n ==> w[j] is Some,
        },
    decreases n,
{
    if n > 0 {
        lemma_scan_empty(w, n - 1);
    }
}

proof fn lemma_scan_oldest<T>(w: Seq<Option<HashTableEntry<T>>>, n: int)
    requires
        1 <= n <= w.len(),
    ensures
        0 <= scan_oldest(w, n) < n,
        forall|j: int| 0 <= j < n ==> slot_gen(w[scan_oldest(w, n)]) <= slot_gen(#[trigger] w[j]),
    decreases n,
{
    if n > 1 {
        lemma_scan_oldest(w, n - 1);
    }
}

proof fn lemma_base_slot(key: u32)
    by (bit_vector)
    requires
        key < 0x40_0000,
    ensures
        key >> 12 == key / 4096,
        key >> 12 < 1024,
{
}

proof fn lemma_probe_step(size: int, x: int)
    requires
        size > 0,
        x >= 0,
    ensures
        (x + 1) % size == (if x % size + 1 == size {
            0
        } else {
            x % size + 1
        }),
        0 <= x % size < size,
{
    let q = x / size;
    let r = x % size;
    vstd::arithmetic::div_mod::lemma_fundamental_div_mod(x, size);
    vstd::arithmetic::div_mod::lemma_mod_bound(x, size);
    assert(size * q == q * size) by (nonlinear_arith);
    if r + 1 == size {
        assert(x + 1 == (q + 1) * size + 0) by (nonlinear_arith)
            requires
                x == q * size + r,
                r + 1 == size,
        ;
        vstd::arithmetic::div_mod::lemma_fundamental_div_mod_converse(x + 1, size, q + 1, 0);
    } else {
        vstd::arithmetic::div_mod::lemma_fundamental_div_mod_converse(x + 1, size, q, r + 1);
    }
}

/// A table of `N * 1024` slots probed over `M` consecutive slots.
pub struct HashTable<T, const N: usize, const M: usize> {
    table: Vec<Option<HashTableEntry<T>>>,
    count: usize,
    gen: u32,
}

impl<T, const N: usize, const M: usize> View for HashTable<T, N, M> {
    type V = Map<u32, T>;

    open spec fn view(&self) -> Map<u32, T> {
        slots_map(self.slots())
    }
}

impl<T, const N: usize, const M: usize> HashTable<T, N, M> {
    /// The slots, in table order.
    pub closed spec fn slots(&self) -> Seq<Option<HashTableEntry<T>>> {
        self.table@
    }

    /// The generation that the next insertion stamps on its entry.
    pub closed spec fn generation(&self) -> u32 {
        self.gen
    }

    /// Number of occupied slots.
    pub closed spec fn spec_count(&self) -> nat {
        self.count as nat
    }

    /// The slots probed for `key`, in probing order.
    pub open spec fn window(&self, key: u32) -> Seq<Option<HashTableEntry<T>>> {
        spec_window(self.slots(), M as int, key)
    }

    /// The table slot that an insertion of `key` writes.
    pub open spec fn target_slot(&self, key: u32) -> int {
        spec_probe(self.slots().len() as int, key, spec_target(self.window(key), key))
    }

    /// The invariant of the table: every entry stands among the slots probed
    /// for its key, no key is stored twice, no stored generation is 0, and
    /// the count is the number of occupied slots.
    pub closed spec fn wf(&self) -> bool {
        &&& 0 < N < M
        &&& self.table@.len() == N * 1024
        &&& self.gen >= 1
        &&& self.count == occupied(self.table@)
        &&& forall|d: int, k: u32| #[trigger]
            slot_holds(self.table@, d, k) ==> k < 0x40_0000 && self.table@[d]->0.gen >= 1
                && exists|i: int| 0 <= i < M && d == #[trigger] spec_probe(N * 1024, k, i)
        &&& forall|d1: int, d2: int, k: u32|
            #![trigger slot_holds(self.table@, d1, k), slot_holds(self.table@, d2, k)]
            slot_holds(self.table@, d1, k) && slot_holds(self.table@, d2, k) ==> d1 == d2
    }

    /// What a well-formed table guarantees about its shape.
    pub proof fn lemma_wf(&self)
        requires
            self.wf(),
        ensures
            0 < N < M,
            self.slots().len() == N * 1024,
            self.generation() >= 1,
            self.spec_count() == occupied(self.slots()),
            self.spec_count() <= N * 1024,
            forall|k: u32| #[trigger] self@.contains_key(k) ==> k < 0x40_0000,
            forall|k: u32| #[trigger]
                self@.contains_key(k) <==> scan_key(self.window(k), k, M as int) is Some,
    {
        lemma_occupied_bound(self.table@);
        assert forall|k: u32| #[trigger]
            self@.contains_key(k) <==> scan_key(self.window(k), k, M as int) is Some by {
            self.lemma_lookup(k);
        }
    }

    /// A key is stored exactly if one of the slots probed for it holds it,
    /// and then the stored value is the value in that slot.
    pub proof fn lemma_lookup(&self, key: u32)
        requires
            self.wf(),
        ensures
            match scan_key(self.window(key), key, M as int) {
                Some(i) => {
                    &&& 0 <= i < M
                    &&& self@.contains_key(key)
                    &&& self.window(key)[i] matches Some(e)
                    &&& e.key == key
                    &&& self@[key] == e.value
                },
                None => !self@.contains_key(key),
            },
    {
        let w = self.window(key);
        let size = (N * 1024) as int;
        lemma_scan_key(w, key, M as int);
        match scan_key(w, key, M as int) {
            Some(i) => {
                let d = spec_probe(size, key, i);
                lemma_probe_step(size, key as int / 4096 + i);
                assert(slot_holds(self.table@, d, key));
                let c = choose|d: int| slot_holds(self.table@, d, key);
                assert(slot_holds(self.table@, c, key));
            },
            None => {
                if self@.contains_key(key) {
                    let d = choose|d: int| slot_holds(self.table@, d, key);
                    assert(slot_holds(self.table@, d, key));
                    let i = choose|i: int| 0 <= i < M && d == #[trigger] spec_probe(N * 1024, key, i);
                    assert(slot_holds(w, i, key));
                }
            },
        }
    }

    /// An empty table.
    pub fn new() -> (r: Self)
        requires
            0 < N < M,
            N * 1024 <= usize::MAX,
        ensures
            r.wf(),
            r@ == Map::<u32, T>::empty(),
            r.spec_count() == 0,
            r.generation() == 1,
            forall|d: int| 0 <= d < N * 1024 ==> r.slots()[d] is None,
    {
        let size = table_size(N);
        let mut table: Vec<Option<HashTableEntry<T>>> = Vec::new();
        let mut i: usize = 0;
        while i < size
            invariant
                i <= size,
                table@.len() == i,
                forall|d: int| 0 <= d < i ==> table@[d] is None,
                occupied(table@) == 0,
            decreases size - i,
        {
            let ghost prev = table@;
            table.push(None);
            proof {
                assert(table@.drop_last() =~= prev);
            }
            i += 1;
        }
        let r = Self { table, count: 0, gen: 1 };
        proof {
            assert(r@ =~= Map::<u32, T>::empty());
        }
        r
    }

    /// Number of stored entries.
    pub fn count(&self) -> (n: usize)
        ensures
            n == self.spec_count(),
    {
        self.count
    }

    /// Looks `key` up among the slots probed for it.
    pub fn get(&self, key: u32) -> (r: Option<&T>)
        requires
            self.wf(),
            key < 0x40_0000,
        ensures
            r == (if self@.contains_key(key) {
                Some(&self@[key])
            } else {
                None
            }),
    {
        let size = self.table.len();
        let mut d: usize = (key as usize) >> 12;
        proof {
            lemma_base_slot(key);
            self.lemma_lookup(key);
            vstd::arithmetic::div_mod::lemma_small_mod((key / 4096) as nat, size as nat);
        }
        let ghost w = self.window(key);
        let mut i: usize = 0;
        while i < M
            invariant
                self.wf(),
                size == N * 1024 == self.table@.len(),
                w == self.window(key),
                i <= M,
                d == spec_probe(size as int, key, i as int),
                0 <= d < size,
                scan_key(w, key, i as int) is None,
            decreases M - i,
        {
            proof {
                lemma_probe_step(size as int, key as int / 4096 + i);
                assert(w[i as int] == self.table@[d as int]);
            }
            match &self.table[d] {
                Some(entry) => {
                    if entry.key == key {
                        proof {
                            assert(slot_holds(w, i as int, key));
                            assert(scan_key(w, key, i + 1) == Some(i as int));
                            lemma_scan_key_stable(w, key, i + 1, M as int);
                            self.lemma_lookup(key);
                        }
                        return Some(&entry.value);
                    }
                },
                None => {},
            }
            d = if d + 1 == size {
                0
            } else {
                d + 1
            };
            i += 1;
        }
        None
    }

    /// The entries in the slots probed for `key`, in probing order.
    pub fn get_partial(&self, key: u32) -> (r: Vec<(u32, &T)>)
        requires
            self.wf(),
            key < 0x40_0000,
        ensures
            r@.len() == window_entries(self.window(key)).len(),
            forall|j: int|
                0 <= j < r@.len() ==> r@[j].0 == window_entries(self.window(key))[j].0 && *r@[j].1
                    == window_entries(self.window(key))[j].1,
    {
        let size = self.table.len();
        let mut d: usize = (key as usize) >> 12;
        proof {
            lemma_base_slot(key);
            vstd::arithmetic::div_mod::lemma_small_mod((key / 4096) as nat, size as nat);
        }
        let ghost w = self.window(key);
        let mut r: Vec<(u32, &T)> = Vec::new();
        let mut i: usize = 0;
        while i < M
            invariant
                self.wf(),
                size == N * 1024 == self.table@.len(),
                w == self.window(key),
                i <= M,
                d == spec_probe(size as int, key, i as int),
                0 <= d < size,
                r@.len() == window_entries(w.take(i as int)).len(),
                forall|j: int|
                    0 <= j < r@.len() ==> r@[j].0 == window_entries(w.take(i as int))[j].0 && *r@[j].1
                        == window_entries(w.take(i as int))[j].1,
            decreases M - i,
        {
            proof {
                lemma_probe_step(size as int, key as int / 4096 + i);
                assert(w[i as int] == self.table@[d as int]);
                assert(w.take(i + 1).drop_last() =~= w.take(i as int));
                assert(w.take(i + 1).last() == w[i as int]);
            }
            match &self.table[d] {
                Some(entry) => {
                    r.push((entry.key, &entry.value));
                },
                None => {},
            }
            d = if d + 1 == size {
                0
            } else {
                d + 1
            };
            i += 1;
        }
        proof {
            assert(w.take(M as int) =~= w);
        }
        r
    }

    /// Stores `value` under `key`.
    ///
    /// The entry is written over the entry that already holds `key`, else
    /// into the first free slot probed, else over the probed entry of lowest
    /// generation, whose key is thereby forgotten.
    pub fn set(&mut self, key: u32, value: T)
        requires
            old(self).wf(),
            key < 0x40_0000,
        ensures
            final(self).wf(),
            final(self).slots() == old(self).slots().update(
                old(self).target_slot(key),
                Some(HashTableEntry { key, value, gen: old(self).generation() }),
            ),
            final(self).generation() == next_gen(old(self).generation()),
            final(self).spec_count() == old(self).spec_count() + (if old(self).slots()[old(
                self,
            ).target_slot(key)] is None {
                1nat
            } else {
                0nat
            }),
            final(self)@ == (match old(self).slots()[old(self).target_slot(key)] {
                Some(e) => old(self)@.remove(e.key),
                None => old(self)@,
            }).insert(key, value),
            old(self)@.contains_key(key) || scan_empty(old(self).window(key), M as int) is Some
                ==> final(self)@ == old(self)@.insert(key, value),
    {
        let size = self.table.len();
        let base: usize = (key as usize) >> 12;
        proof {
            lemma_base_slot(key);
            vstd::arithmetic::div_mod::lemma_small_mod((key / 4096) as nat, size as nat);
        }
        let ghost w = self.window(key);
        let ghost before = self.table@;
        let mut d: usize = base;
        let mut found: Option<usize> = None;
        let mut empty: Option<usize> = None;
        let mut oldest: usize = base;
        let mut oldest_gen: u32 = 0;
        let ghost mut found_i: int = 0;
        let ghost mut empty_i: int = 0;
        let ghost mut oldest_i: int = 0;
        let mut i: usize = 0;
        while i < M && found.is_none()
            invariant
                self.wf(),
                self.table@ == before,
                size == N * 1024 == before.len(),
                w == spec_window(before, M as int, key),
                i <= M,
                d == spec_probe(size as int, key, i as int),
                0 <= d < size,
                0 <= base < size,
                base == spec_probe(size as int, key, 0),
                found is None ==> scan_key(w, key, i as int) is None,
                found matches Some(f) ==> scan_key(w, key, i as int) == Some(found_i) && f
                    == spec_probe(size as int, key, found_i) && 0 <= found_i < i,
                empty is None ==> scan_empty(w, i as int) is None,
                empty matches Some(f) ==> scan_empty(w, i as int) == Some(empty_i) && f
                    == spec_probe(size as int, key, empty_i) && 0 <= empty_i < i,
                oldest_i == scan_oldest(w, i as int),
                oldest == spec_probe(size as int, key, oldest_i),
                0 <= oldest_i < M,
                i > 0 ==> oldest_gen == slot_gen(w[oldest_i]),
            decreases M - i + (if found is None { 1int } else { 0int }),
        {
            proof {
                lemma_probe_step(size as int, key as int / 4096 + i);
                assert(w[i as int] == before[d as int]);
            }
            match &self.table[d] {
                Some(entry) => {
                    if entry.key == key {
                        found = Some(d);
                        proof {
                            found_i = i as int;
                            assert(slot_holds(w, i as int, key));
                        }
                    }
                    if i == 0 || entry.gen < oldest_gen {
                        oldest = d;
                        oldest_gen = entry.gen;
                        proof {
                            oldest_i = i as int;
                        }
                    }
                },
                None => {
                    if empty.is_none() {
                        empty = Some(d);
                        proof {
                            empty_i = i as int;
                        }
                    }
                    if i == 0 || 0 < oldest_gen {
                        oldest = d;
                        oldest_gen = 0;
                        proof {
                            oldest_i = i as int;
                        }
                    }
                },
            }
            d = if d + 1 == size {
                0
            } else {
                d + 1
            };
            i += 1;
        }
        let ghost t_i: int = spec_target(w, key);
        let target: usize = match found {
            Some(f) => f,
            None => match empty {
                Some(e) => e,
                None => oldest,
            },
        };
        proof {
            if found is Some {
                lemma_scan_key_stable(w, key, i as int, M as int);
            }
            lemma_scan_key(w, key, M as int);
            lemma_scan_empty(w, M as int);
            lemma_scan_oldest(w, M as int);
            assert(target == spec_probe(size as int, key, t_i));
            assert(0 <= t_i < M);
            lemma_probe_step(size as int, key as int / 4096 + t_i);
            assert(w[t_i] == before[target as int]);
            lemma_occupied_update(before, target as int, HashTableEntry { key, value, gen: self.gen });
        }
        let stamp = self.gen;
        if self.table[target].is_none() {
            self.count += 1;
        }
        self.table[target] = Some(HashTableEntry { key, value, gen: stamp });
        self.gen = if stamp == u32::MAX {
            1
        } else {
            stamp + 1
        };
        proof {
            let after = self.table@;
            let t = target as int;
            assert(after == before.update(t, Some(HashTableEntry { key, value, gen: stamp })));
            // every slot other than the target that holds `key` would have been found
            assert forall|d: int| slot_holds(before, d, key) implies d == t by {
                let j = choose|j: int| 0 <= j < M && d == #[trigger] spec_probe(N * 1024, key, j);
                assert(slot_holds(w, j, key));
                assert(slot_holds(w, t_i, key));
                assert(slot_holds(before, t, key));
            }
            assert forall|d: int, k: u32| #[trigger] slot_holds(after, d, k) implies k < 0x40_0000
                && after[d]->0.gen >= 1 && exists|i: int|
                0 <= i < M && d == #[trigger] spec_probe(N * 1024, k, i) by {
                if d == t {
                    assert(t == spec_probe(N * 1024, key, t_i));
                } else {
                    assert(slot_holds(before, d, k));
                }
            }
            assert forall|d1: int, d2: int, k: u32|
                #![trigger slot_holds(after, d1, k), slot_holds(after, d2, k)]
                slot_holds(after, d1, k) && slot_holds(after, d2, k) implies d1 == d2 by {
                if d1 != t {
                    assert(slot_holds(before, d1, k));
                }
                if d2 != t {
                    assert(slot_holds(before, d2, k));
                }
            }
            let base_map = match before[t] {
                Some(e) => slots_map(before).remove(e.key),
                None => slots_map(before),
            };
            let expect = base_map.insert(key, value);
            assert forall|k: u32| slots_map(after).contains_key(k) <==> expect.contains_key(
                k,
            ) by {
                if slots_map(after).contains_key(k) {
                    let d = choose|d: int| slot_holds(after, d, k);
                    if d != t {
                        assert(slot_holds(before, d, k));
                        match before[t] {
                            Some(e) => {
                                if e.key == k {
                                    assert(slot_holds(before, t, k));
                                }
                            },
                            None => {},
                        }
                    }
                }
                if expect.contains_key(k) {
                    if k == key {
                        assert(slot_holds(after, t, k));
                    } else {
                        let d = choose|d: int| slot_holds(before, d, k);
                        assert(slot_holds(before, d, k));
                        assert(d != t);
                        assert(slot_holds(after, d, k));
                    }
                }
            }
            assert forall|k: u32| slots_map(after).contains_key(k) implies slots_map(after)[k]
                == expect[k] by {
                let d = choose|d: int| slot_holds(after, d, k);
                assert(slot_holds(after, d, k));
                if k == key {
                    assert(slot_holds(after, t, k));
                } else {
                    assert(d != t);
                    assert(slot_holds(before, d, k));
                    let c = choose|c: int| slot_holds(before, c, k);
                    assert(slot_holds(before, c, k));
                    assert(c == d);
                    match before[t] {
                        Some(e) => {
                            if e.key == k {
                                assert(slot_holds(before, t, k));
                            }
                        },
                        None => {},
                    }
                }
            }
            assert(slots_map(after) =~= expect);
            if old(self)@.contains_key(key) || scan_empty(w, M as int) is Some {
                if old(self)@.contains_key(key) {
                    let c = choose|c: int| slot_holds(before, c, key);
                    assert(slot_holds(before, c, key));
                    assert(c == t);
                    assert(base_map.insert(key, value) =~= slots_map(before).insert(key, value));
                } else {
                    old(self).lemma_lookup(key);
                }
            }
        }
    }
}

proof fn lemma_scan_key_stable<T>(w: Seq<Option<HashTableEntry<T>>>, key: u32, n: int, m: int)
    requires
        0 <= n <= m,
        scan_key(w, key, n) is Some,
    ensures
        scan_key(w, key, m) == scan_key(w, key, n),
    decreases m - n,
{
    if n < m {
        lemma_scan_key_stable(w, key, n, m - 1);
    }
}

} // verus!
