//! Minimal open-addressing hash map keyed by `u64`.
//!
//! One multiply (Fibonacci hashing) picks the home slot; collisions probe
//! linearly. `u64::MAX` is reserved as the empty-slot sentinel, so it can
//! never be a key. The table doubles whenever an insertion would push the
//! load factor above 3/4, so a free slot always ends every probe.

use vstd::prelude::*;
use vstd::arithmetic::power2::{pow2, lemma_pow2_unfold, lemma_pow2_strictly_increases, lemma2_to64};

verus! {

/// The reserved key marking an empty slot.
pub const EMPTY: u64 = 0xFFFF_FFFF_FFFF_FFFF;

const FIB: u64 = 0x9E37_79B9_7F4A_7C15;

/// Bound on the number of entries: the slot arrays (a power of two in
/// length) must stay addressable on every target.
pub const MAX_ENTRIES: usize = 0x0800_0000;

/// Number of slots of `keys` that hold a key.
spec fn count_full(keys: Seq<u64>) -> nat
    decreases keys.len(),
{
    if keys.len() == 0 {
        0
    } else {
        count_full(keys.drop_last()) + (if keys.last() != EMPTY { 1nat } else { 0nat })
    }
}

/// Home slot of `key` in a table of `2^bits` slots.
spec fn home_slot(key: u64, bits: u32, mask: usize) -> usize {
    ((key.wrapping_mul(FIB) >> ((64 - bits) as u32)) as usize) & mask
}

/// Number of probe steps from slot `from` to slot `to` in a table of `cap` slots.
spec fn probe_dist(from: int, to: int, cap: int) -> int {
    if to >= from {
        to - from
    } else {
        to + cap - from
    }
}

/// The slot reached after `d` probe steps from `from`.
spec fn probe_at(from: int, d: int, cap: int) -> int {
    if from + d < cap {
        from + d
    } else {
        from + d - cap
    }
}

proof fn lemma_count_full_bound(keys: Seq<u64>)
    ensures
        count_full(keys) <= keys.len(),
        count_full(keys) == keys.len() <==> (forall|i: int| 0 <= i < keys.len() ==> keys[i] != EMPTY),
    decreases keys.len(),
{
    if keys.len() > 0 {
        lemma_count_full_bound(keys.drop_last());
        if count_full(keys) == keys.len() {
            assert forall|i: int| 0 <= i < keys.len() implies keys[i] != EMPTY by {
                if i < keys.len() - 1 {
                    assert(keys.drop_last()[i] == keys[i]);
                }
            }
        }
        if forall|i: int| 0 <= i < keys.len() ==> keys[i] != EMPTY {
            assert forall|i: int| 0 <= i < keys.drop_last().len() implies keys.drop_last()[i] != EMPTY by {
                assert(keys.drop_last()[i] == keys[i]);
            }
        }
    }
}

proof fn lemma_count_full_update(keys: Seq<u64>, i: int, k: u64)
    requires
        0 <= i < keys.len(),
    ensures
        count_full(keys.update(i, k)) + (if keys[i] != EMPTY { 1int } else { 0int })
            == count_full(keys) + (if k != EMPTY { 1int } else { 0int }),
    decreases keys.len(),
{
    let u = keys.update(i, k);
    if i == keys.len() - 1 {
        assert(u.drop_last() =~= keys.drop_last());
    } else {
        lemma_count_full_update(keys.drop_last(), i, k);
        assert(u.drop_last() =~= keys.drop_last().update(i, k));
    }
}

proof fn lemma_count_full_all_empty(n: nat)
    ensures
        count_full(Seq::new(n, |i: int| EMPTY)) == 0,
    decreases n,
{
    if n > 0 {
        lemma_count_full_all_empty((n - 1) as nat);
        assert(Seq::new(n, |i: int| EMPTY).drop_last() =~= Seq::new((n - 1) as nat, |i: int| EMPTY));
    }
}

/// Open-addressing map from `u64` keys (all but [`EMPTY`]) to values.
pub struct FastMap<V> {
    keys: Vec<u64>,
    values: Vec<Option<V>>,
    mask: usize,
    bits: u32,
    len: usize,
    contents: Ghost<Map<u64, V>>,
}

impl<V> View for FastMap<V> {
    type V = Map<u64, V>;

    closed spec fn view(&self) -> Map<u64, V> {
        self.contents@
    }
}

impl<V> FastMap<V> {
    /// Number of slots.
    pub closed spec fn capacity(&self) -> nat {
        self.keys@.len()
    }

    /// The table's internal invariant.
    pub closed spec fn wf(&self) -> bool {
        let cap = self.keys@.len();
        let keys = self.keys@;
        let vals = self.values@;
        let m = self.contents@;
        &&& self.values@.len() == cap
        &&& cap == self.mask + 1
        &&& 4 <= self.bits <= 30
        &&& cap == pow2(self.bits as nat)
        &&& self.len as nat == count_full(keys)
        &&& self.len as nat == m.dom().len()
        &&& m.dom().finite()
        &&& self.len * 4 <= cap * 3
        &&& forall|i: int| 0 <= i < cap ==> (#[trigger] keys[i] == EMPTY <==> vals[i] is None)
        &&& forall|i: int|
            0 <= i < cap && #[trigger] keys[i] != EMPTY ==> m.contains_key(keys[i]) && vals[i]
                == Some(m[keys[i]])
        &&& forall|k: u64| #[trigger]
            m.contains_key(k) ==> k != EMPTY && exists|i: int| 0 <= i < cap && keys[i] == k
        &&& forall|i: int, j: int|
            0 <= i < cap && 0 <= j < cap && #[trigger] keys[i] == #[trigger] keys[j] && keys[i]
                != EMPTY ==> i == j
        &&& forall|i: int, d: int|
            0 <= i < cap && #[trigger] keys[i] != EMPTY && 0 <= d < probe_dist(
                home_slot(keys[i], self.bits, self.mask) as int,
                i,
                cap as int,
            ) ==> #[trigger] keys[probe_at(
                home_slot(keys[i], self.bits, self.mask) as int,
                d,
                cap as int,
            )] != EMPTY
    }

    /// A well-formed map holds finitely many entries.
    pub proof fn lemma_finite(&self)
        requires
            self.wf(),
        ensures
            self@.dom().finite(),
    {
    }

    /// The shape that every well-formed map keeps: a power-of-two number of
    /// slots, at least 16, filled to at most three quarters, so that a free
    /// slot ends every probe; the reserved key is never stored.
    pub proof fn lemma_shape(&self)
        requires
            self.wf(),
        ensures
            self.capacity() >= 16,
            exists|b: nat| self.capacity() == pow2(b),
            self@.dom().len() * 4 <= self.capacity() * 3,
            self@.dom().len() < self.capacity(),
            !self@.contains_key(EMPTY),
    {
        lemma2_to64();
        if self.bits > 4 {
            lemma_pow2_strictly_increases(4, self.bits as nat);
        }
        assert(self.capacity() == pow2(self.bits as nat));
    }

    /// An empty map with 16 slots.
    pub fn new() -> (r: Self)
        ensures
            r.wf(),
            r@ == Map::<u64, V>::empty(),
            r.capacity() == 16,
    {
        proof {
            lemma2_to64();
        }
        Self::with_pow2_capacity(16, 4)
    }

    /// An empty map with `cap == 2^bits` slots.
    fn with_pow2_capacity(cap: usize, bits: u32) -> (r: Self)
        requires
            4 <= bits <= 30,
            cap == pow2(bits as nat),
        ensures
            r.wf(),
            r@ == Map::<u64, V>::empty(),
            r.capacity() == cap,
            r.bits == bits,
    {
        proof {
            if bits < 30 {
                lemma_pow2_strictly_increases(bits as nat, 30);
            }
            lemma2_to64();
            lemma_pow2_strictly_increases(2, bits as nat);
        }
        let mut keys: Vec<u64> = Vec::new();
        let mut values: Vec<Option<V>> = Vec::new();
        let mut i: usize = 0;
        while i < cap
            invariant
                i <= cap,
                keys@ =~= Seq::new(i as nat, |j: int| EMPTY),
                values@.len() == i,
                forall|j: int| 0 <= j < i ==> values@[j] is None,
            decreases cap - i,
        {
            keys.push(EMPTY);
            values.push(None);
            i = i + 1;
        }
        proof {
            lemma_count_full_all_empty(cap as nat);
        }
        let r = FastMap {
            keys,
            values,
            mask: cap - 1,
            bits,
            len: 0,
            contents: Ghost(Map::empty()),
        };
        r
    }

    /// The home slot of `key`.
    fn slot(&self, key: u64) -> (r: usize)
        requires
            self.wf(),
        ensures
            r == home_slot(key, self.bits, self.mask),
            r < self.capacity(),
    {
        let h = key.wrapping_mul(FIB);
        let sh: u32 = 64 - self.bits;
        let x = (h >> sh) as usize;
        let m = self.mask;
        assert(x & m <= m) by (bit_vector);
        x & m
    }

    /// Number of entries.
    pub fn len(&self) -> (r: usize)
        requires
            self.wf(),
        ensures
            r == self@.dom().len(),
    {
        self.len
    }

    /// Removes every entry; the capacity is kept.
    pub fn clear(&mut self)
        requires
            old(self).wf(),
        ensures
            final(self).wf(),
            final(self)@ == Map::<u64, V>::empty(),
            final(self).capacity() == old(self).capacity(),
    {
        let cap = self.keys.len();
        let mut i: usize = 0;
        while i < cap
            invariant
                cap == self.keys@.len(),
                cap == self.values@.len(),
                cap == self.mask + 1,
                self.mask == old(self).mask,
                self.bits == old(self).bits,
                4 <= self.bits <= 30,
                cap == pow2(self.bits as nat),
                i <= cap,
                forall|j: int| 0 <= j < i ==> self.keys@[j] == EMPTY,
                forall|j: int| 0 <= j < i ==> self.values@[j] is None,
            decreases cap - i,
        {
            self.keys.set(i, EMPTY);
            self.values.set(i, None);
            i = i + 1;
        }
        proof {
            assert(self.keys@ =~= Seq::new(cap as nat, |j: int| EMPTY));
            lemma_count_full_all_empty(cap as nat);
        }
        self.len = 0;
        self.contents = Ghost(Map::empty());
    }

    proof fn lemma_probe_covers(&self, s: int, j: int)
        requires
            self.wf(),
            0 <= s < self.capacity(),
            0 <= j < self.capacity(),
        ensures
            0 <= probe_dist(s, j, self.capacity() as int) < self.capacity(),
            probe_at(s, probe_dist(s, j, self.capacity() as int), self.capacity() as int) == j,
    {
    }

    /// Looks up `key`.
    pub fn get(&self, key: u64) -> (r: Option<&V>)
        requires
            self.wf(),
        ensures
            match r {
                Some(v) => self@.contains_key(key) && *v == self@[key],
                None => !self@.contains_key(key),
            },
    {
        let cap = self.keys.len();
        let s = self.slot(key);
        let mut i = s;
        let ghost mut d: int = 0;
        loop
            invariant
                self.wf(),
                cap == self.capacity(),
                s == home_slot(key, self.bits, self.mask),
                s < cap,
                0 <= d < cap,
                i == probe_at(s as int, d, cap as int),
                forall|e: int|
                    0 <= e < d ==> #[trigger] self.keys@[probe_at(s as int, e, cap as int)] != key
                        && self.keys@[probe_at(s as int, e, cap as int)] != EMPTY,
            decreases cap - d,
        {
            let k = self.keys[i];
            if k == key {
                proof {
                    if k == EMPTY {
                        assert(self.values@[i as int] is None);
                        if self@.contains_key(key) {
                            assert(false);
                        }
                    }
                }
                return self.values[i].as_ref();
            }
            if k == EMPTY {
                proof {
                    if self@.contains_key(key) {
                        let j = choose|j: int| 0 <= j < cap && self.keys@[j] == key;
                        self.lemma_probe_covers(s as int, j);
                        let dj = probe_dist(s as int, j, cap as int);
                        if dj < d {
                            assert(self.keys@[probe_at(s as int, dj, cap as int)] != key);
                        } else if dj > d {
                            assert(self.keys@[probe_at(s as int, d, cap as int)] != EMPTY);
                        }
                    }
                }
                return None;
            }
            proof {
                if d + 1 == cap {
                    assert forall|j: int| 0 <= j < cap implies self.keys@[j] != EMPTY by {
                        self.lemma_probe_covers(s as int, j);
                        let dj = probe_dist(s as int, j, cap as int);
                        if dj < d {
                            assert(self.keys@[probe_at(s as int, dj, cap as int)] != EMPTY);
                        }
                    }
                    lemma_count_full_bound(self.keys@);
                }
                d = d + 1;
            }
            i = if i + 1 == cap { 0 } else { i + 1 };
        }
    }

    /// Inserts into a table with room for one more entry.
    fn insert_no_grow(&mut self, key: u64, value: V)
        requires
            old(self).wf(),
            key != EMPTY,
            (old(self).len + 1) * 4 <= old(self).capacity() * 3,
        ensures
            final(self).wf(),
            final(self)@ == old(self)@.insert(key, value),
            final(self).capacity() == old(self).capacity(),
            final(self).bits == old(self).bits,
    {
        let cap = self.keys.len();
        let s = self.slot(key);
        let mut i = s;
        let ghost mut d: int = 0;
        proof {
            lemma_count_full_bound(self.keys@);
        }
        loop
            invariant
                self.wf(),
                *self == *old(self),
                key != EMPTY,
                (self.len + 1) * 4 <= cap * 3,
                cap == self.capacity(),
                s == home_slot(key, self.bits, self.mask),
                s < cap,
                0 <= d < cap,
                i == probe_at(s as int, d, cap as int),
                forall|e: int|
                    0 <= e < d ==> #[trigger] self.keys@[probe_at(s as int, e, cap as int)] != key
                        && self.keys@[probe_at(s as int, e, cap as int)] != EMPTY,
            decreases cap - d,
        {
            let k = self.keys[i];
            if k == key {
                let ghost old_m = self.contents@;
                self.values.set(i, Some(value));
                proof {
                    self.contents@ = old_m.insert(key, value);
                    assert(self.contents@.dom() =~= old_m.dom());
                    assert forall|j: int|
                        0 <= j < cap && #[trigger] self.keys@[j] != EMPTY implies self.contents@.contains_key(
                        self.keys@[j],
                    ) && self.values@[j] == Some(self.contents@[self.keys@[j]]) by {
                        if j != i {
                            assert(self.keys@[j] != key);
                        }
                    }
                }
                return;
            }
            if k == EMPTY {
                let ghost old_m = self.contents@;
                let ghost old_keys = self.keys@;
                proof {
                    if old_m.contains_key(key) {
                        let j = choose|j: int| 0 <= j < cap && old_keys[j] == key;
                        self.lemma_probe_covers(s as int, j);
                        let dj = probe_dist(s as int, j, cap as int);
                        if dj < d {
                            assert(old_keys[probe_at(s as int, dj, cap as int)] != key);
                        } else if dj > d {
                            assert(old_keys[probe_at(s as int, d, cap as int)] != EMPTY);
                        }
                    }
                    lemma_count_full_update(old_keys, i as int, key);
                }
                self.keys.set(i, key);
                self.values.set(i, Some(value));
                self.len = self.len + 1;
                proof {
                    self.contents@ = old_m.insert(key, value);
                    assert(self.contents@.dom() =~= old_m.dom().insert(key));
                    let nk = self.keys@;
                    assert forall|j: int|
                        0 <= j < cap && #[trigger] nk[j] != EMPTY implies self.contents@.contains_key(
                        nk[j],
                    ) && self.values@[j] == Some(self.contents@[nk[j]]) by {
                        if j != i {
                            assert(old_keys[j] != EMPTY);
                            assert(old_keys[j] != key) by {
                                if old_keys[j] == key {
                                    assert(old_m.contains_key(key));
                                }
                            }
                        }
                    }
                    assert forall|kk: u64| #[trigger]
                        self.contents@.contains_key(kk) implies kk != EMPTY && exists|j: int|
                        0 <= j < cap && nk[j] == kk by {
                        if kk == key {
                            assert(nk[i as int] == kk);
                        } else {
                            assert(old_m.contains_key(kk));
                            let j = choose|j: int| 0 <= j < cap && old_keys[j] == kk;
                            assert(nk[j] == kk);
                        }
                    }
                    assert forall|a: int, b: int|
                        0 <= a < cap && 0 <= b < cap && #[trigger] nk[a] == #[trigger] nk[b]
                            && nk[a] != EMPTY implies a == b by {
                        if a == i && b != i {
                            assert(old_keys[b] == key);
                            assert(old_m.contains_key(key));
                        } else if b == i && a != i {
                            assert(old_keys[a] == key);
                            assert(old_m.contains_key(key));
                        }
                    }
                    assert forall|a: int, e: int|
                        0 <= a < cap && #[trigger] nk[a] != EMPTY && 0 <= e < probe_dist(
                            home_slot(nk[a], self.bits, self.mask) as int,
                            a,
                            cap as int,
                        ) implies #[trigger] nk[probe_at(
                        home_slot(nk[a], self.bits, self.mask) as int,
                        e,
                        cap as int,
                    )] != EMPTY by {
                        let h = home_slot(nk[a], self.bits, self.mask) as int;
                        let p = probe_at(h, e, cap as int);
                        if a == i {
                            assert(old_keys[probe_at(s as int, e, cap as int)] != EMPTY);
                        } else {
                            assert(old_keys[a] != EMPTY);
                            assert(old_keys[p] != EMPTY);
                        }
                    }
                }
                return;
            }
            proof {
                if d + 1 == cap {
                    assert forall|j: int| 0 <= j < cap implies self.keys@[j] != EMPTY by {
                        self.lemma_probe_covers(s as int, j);
                        let dj = probe_dist(s as int, j, cap as int);
                        if dj < d {
                            assert(self.keys@[probe_at(s as int, dj, cap as int)] != EMPTY);
                        }
                    }
                    lemma_count_full_bound(self.keys@);
                }
                d = d + 1;
            }
            i = if i + 1 == cap { 0 } else { i + 1 };
        }
    }
}


impl<V> FastMap<V> {
    /// Moves every entry into a table of twice the capacity.
    fn grow(&mut self)
        requires
            old(self).wf(),
            old(self).capacity() < 0x1000_0000,
        ensures
            final(self).wf(),
            final(self)@ == old(self)@,
            final(self).capacity() == 2 * old(self).capacity(),
    {
        proof {
            lemma2_to64();
            if self.bits > 28 {
                lemma_pow2_strictly_increases(28, self.bits as nat);
            }
            lemma_pow2_unfold((self.bits + 1) as nat);
        }
        let cap = self.mask + 1;
        let new_cap = cap * 2;
        let mut next = Self::with_pow2_capacity(new_cap, self.bits + 1);
        let ghost old_map = self@;
        let ghost k0 = self.keys@;
        let ghost v0 = self.values@;
        let mut old_keys: Vec<u64> = Vec::new();
        let mut old_values: Vec<Option<V>> = Vec::new();
        std::mem::swap(&mut old_keys, &mut self.keys);
        std::mem::swap(&mut old_values, &mut self.values);
        while old_keys.len() > 0
            invariant
                next.wf(),
                next.capacity() == new_cap,
                new_cap == 2 * cap,
                cap == k0.len(),
                cap == v0.len(),
                16 <= cap,
                old_keys@.len() <= cap,
                old_keys@ == k0.take(old_keys@.len() as int),
                old_values@ == v0.take(old_keys@.len() as int),
                old_map.dom().finite(),
                old_map.dom().len() * 4 <= cap * 3,
                forall|i: int| 0 <= i < cap ==> (#[trigger] k0[i] == EMPTY <==> v0[i] is None),
                forall|i: int|
                    0 <= i < cap && #[trigger] k0[i] != EMPTY ==> old_map.contains_key(k0[i])
                        && v0[i] == Some(old_map[k0[i]]),
                forall|k: u64| #[trigger]
                    old_map.contains_key(k) ==> exists|i: int| 0 <= i < cap && k0[i] == k,
                forall|i: int, j: int|
                    0 <= i < cap && 0 <= j < cap && #[trigger] k0[i] == #[trigger] k0[j] && k0[i]
                        != EMPTY ==> i == j,
                forall|k: u64| #[trigger]
                    next@.contains_key(k) ==> old_map.contains_key(k) && next@[k] == old_map[k]
                        && exists|j: int| old_keys@.len() <= j < cap && k0[j] == k,
                forall|j: int|
                    old_keys@.len() <= j < cap && #[trigger] k0[j] != EMPTY ==> next@.contains_key(
                        k0[j],
                    ),
            decreases old_keys@.len(),
        {
            let k = old_keys.pop().unwrap();
            let v = old_values.pop().unwrap();
            let ghost j = old_keys@.len() as int;
            proof {
                assert(k0.take(j + 1)[j] == k0[j]);
                assert(v0.take(j + 1)[j] == v0[j]);
                assert(old_keys@ =~= k0.take(j));
                assert(old_values@ =~= v0.take(j));
            }
            if k != EMPTY {
                match v {
                    Some(v) => {
                        proof {
                            assert(!next@.contains_key(k)) by {
                                if next@.contains_key(k) {
                                    let jj = choose|jj: int| j + 1 <= jj < cap && k0[jj] == k;
                                    assert(k0[jj] == k0[j]);
                                }
                            }
                            assert(next@.dom().subset_of(old_map.dom().remove(k)));
                            vstd::set_lib::lemma_len_subset(next@.dom(), old_map.dom().remove(k));
                        }
                        let ghost before = next@;
                        next.insert_no_grow(k, v);
                        proof {
                            assert forall|kk: u64| #[trigger]
                                next@.contains_key(kk) implies old_map.contains_key(kk) && next@[kk]
                                == old_map[kk] && exists|jj: int|
                                old_keys@.len() <= jj < cap && k0[jj] == kk by {
                                if kk == k {
                                    assert(k0[j] == kk);
                                } else {
                                    assert(before.contains_key(kk));
                                    let jj = choose|jj: int| j + 1 <= jj < cap && k0[jj] == kk;
                                    assert(k0[jj] == kk);
                                }
                            }
                        }
                    },
                    None => {},
                }
            }
        }
        proof {
            assert(next@ =~= old_map) by {
                assert forall|kk: u64| #[trigger] old_map.contains_key(kk) implies next@.contains_key(kk) by {
                    let i = choose|i: int| 0 <= i < cap && k0[i] == kk;
                    assert(k0[i] != EMPTY);
                }
            }
        }
        *self = next;
    }

    /// Inserts `key -> value`, replacing any previous value of `key`.
    pub fn insert(&mut self, key: u64, value: V)
        requires
            old(self).wf(),
            key != EMPTY,
            old(self)@.dom().len() < MAX_ENTRIES,
        ensures
            final(self).wf(),
            final(self)@ == old(self)@.insert(key, value),
    {
        proof {
            lemma2_to64();
        }
        if (self.len + 1) * 4 > (self.mask + 1) * 3 {
            self.grow();
        }
        self.insert_no_grow(key, value);
    }
}

} // verus!
