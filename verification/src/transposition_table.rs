//! A transposition table for caching game state evaluations: a direct-mapped
//! cache with one slot per bucket, verified by the low 32 bits of the key and
//! invalidated in constant time by a generation counter.

use vstd::arithmetic::div_mod::{
    lemma_fundamental_div_mod, lemma_mod_equivalence, lemma_mod_multiples_basic,
    lemma_mul_mod_noop_right, lemma_small_mod, lemma_sub_mod_noop,
};
use vstd::prelude::*;

use crate::game_value::spec_game_value;
use crate::position::{spec_plies_of_key, Position};

verus! {

/// The lowest score the table accepts; matches the score domain of the
/// 42-cell board, where a loss can cost at most 21 of the mover's pieces.
pub const TT_MIN_VALUE: i8 = -21;

/// The highest score the table accepts.
pub const TT_MAX_VALUE: i8 = 21;

/// A flag indicating what kind of information a table entry represents.
#[derive(Debug, Copy, Clone, PartialEq, Eq)]
pub enum TTFlag {
    /// The value is the exact score of a position.
    Exact,
    /// The value is a lower bound for the position's score.
    LowerBound,
    /// The value is an upper bound for the position's score.
    UpperBound,
}

/// Represents a single entry in the transposition table.
#[derive(Debug, Copy, Clone)]
pub struct TTEntry {
    /// The low 32 bits of the position key, used to verify the entry.
    pub key: u32,
    /// The evaluated score of the position.
    pub value: i8,
    /// The type of score held in the entry.
    pub flag: TTFlag,
    /// The search depth at which this entry was recorded.
    pub depth: u8,
    /// The age of the transposition table when the entry was created.
    pub age: u8,
}

/// A transposition table that stores results from previous searches to avoid
/// re-computing evaluations for the same game state.
pub struct TranspositionTable {
    /// The table entries, one slot per bucket.
    entries: Vec<TTEntry>,
    /// The current age of the table, used to invalidate old entries.
    age: u8,
    /// For each slot that holds a real entry, the full key it was stored
    /// for; the physical entry keeps only the low 32 bits of it.
    stored_keys: Ghost<Map<int, u64>>,
    /// For each slot that holds a real entry, a position carrying the key
    /// it was stored for; the entry's flag and value describe that
    /// position's game value.
    stored_positions: Ghost<Map<int, Position>>,
}

impl TranspositionTable {
    /// The number of entries in the table: `(1 << 23) + 9`. A prime-ish
    /// count decorrelates bucket indices from the move-ordering structure.
    pub const MAX_SIZE: usize = 8388617;

    /// The stored entries.
    pub closed spec fn spec_entries(self) -> Seq<TTEntry> {
        self.entries@
    }

    /// The current generation counter.
    pub closed spec fn spec_age(self) -> u8 {
        self.age
    }

    /// The full position key recorded for a slot.
    pub closed spec fn spec_stored_key(self, i: int) -> u64 {
        self.stored_keys@[i]
    }

    /// The position recorded for a slot.
    pub closed spec fn spec_stored_pos(self, i: int) -> Position {
        self.stored_positions@[i]
    }

    /// A slot's entry was genuinely stored for a position key: the key fits
    /// the board, hashes to this slot, matches the entry's low 32 bits, and
    /// the entry's depth and value fit the remaining plies that the key
    /// encodes.
    pub open spec fn spec_slot_sound(self, i: int) -> bool {
        let k = self.spec_stored_key(i);
        let entry = self.spec_entries()[i];
        let q = self.spec_stored_pos(i);
        &&& k < 0x2000000000000
        &&& Self::spec_index(k) == i
        &&& entry.key == k as u32
        &&& entry.depth == 42 - spec_plies_of_key(k)
        &&& -(((42 - spec_plies_of_key(k)) / 2) as int) <= entry.value as int
        &&& entry.value as int <= (43 - spec_plies_of_key(k)) / 2
        &&& q.wf()
        &&& q.spec_key() == k
        &&& (entry.flag == TTFlag::Exact ==> entry.value as int == spec_game_value(q))
        &&& (entry.flag == TTFlag::LowerBound ==> spec_game_value(q) >= entry.value as int)
        &&& (entry.flag == TTFlag::UpperBound ==> spec_game_value(q) <= entry.value as int)
    }

    /// The table has its full size, every stored score lies within the
    /// score domain of the board, and every slot holding a real entry (one
    /// of positive depth) is sound for the key it was stored under.
    pub open spec fn wf(self) -> bool {
        &&& self.spec_entries().len() == 8388617
        &&& forall|i: int|
            0 <= i < self.spec_entries().len() ==> TT_MIN_VALUE <= (
            #[trigger] self.spec_entries()[i]).value <= TT_MAX_VALUE
        &&& forall|i: int|
            0 <= i < self.spec_entries().len() && (#[trigger] self.spec_entries()[i]).depth >= 1
                ==> self.spec_slot_sound(i)
    }

    /// The bucket of a key: the key reduced modulo the table size.
    pub open spec fn spec_index(key: u64) -> int {
        (key as int) % 8388617
    }

    /// Creates a new empty transposition table, allocating every slot. All
    /// slots start blank: key 0, value 0, an exact flag, depth 0 and age 0,
    /// so a lookup of any key with a non-zero low half misses.
    pub fn new() -> (r: TranspositionTable)
        ensures
            r.wf(),
            r.spec_age() == 0,
            forall|i: int|
                0 <= i < 8388617 ==> (#[trigger] r.spec_entries()[i]) == (TTEntry {
                    key: 0,
                    value: 0,
                    flag: TTFlag::Exact,
                    depth: 0,
                    age: 0,
                }),
    {
        let mut entries: Vec<TTEntry> = Vec::new();
        let mut i: usize = 0;
        while i < 8388617
            invariant
                i <= 8388617,
                entries@.len() == i,
                forall|j: int|
                    0 <= j < i ==> (#[trigger] entries@[j]) == (TTEntry {
                        key: 0,
                        value: 0,
                        flag: TTFlag::Exact,
                        depth: 0,
                        age: 0,
                    }),
            decreases 8388617 - i,
        {
            entries.push(TTEntry { key: 0, value: 0, flag: TTFlag::Exact, depth: 0, age: 0 });
            i = i + 1;
        }
        TranspositionTable {
            entries,
            age: 0,
            stored_keys: Ghost(Map::empty()),
            stored_positions: Ghost(Map::empty()),
        }
    }

    /// Calculates the table index for a given position's key.
    pub fn index(&self, key: u64) -> (r: usize)
        ensures
            r == Self::spec_index(key),
            r < 8388617,
    {
        (key % 8388617) as usize
    }

    /// Clears the table in constant time by incrementing the current age;
    /// stale entries are filtered out by the age check on lookup.
    pub fn reset(&mut self)
        requires
            old(self).wf(),
        ensures
            final(self).wf(),
            final(self).spec_entries() == old(self).spec_entries(),
            final(self).spec_age() == ((old(self).spec_age() + 1) % 256) as u8,
    {
        self.age = self.age.wrapping_add(1);
    }

    /// Stores a new entry, overwriting whatever the bucket held. The entry
    /// must be a genuine search result: its depth spells the remaining
    /// plies of the position the key identifies, and its value lies within
    /// that position's score range.
    pub fn put(&mut self, key: u64, value: i8, flag: TTFlag, depth: u8)
        requires
            old(self).wf(),
            TT_MIN_VALUE <= value <= TT_MAX_VALUE,
            key < 0x2000000000000,
            depth >= 1,
            depth == 42 - spec_plies_of_key(key),
            -(((42 - spec_plies_of_key(key)) / 2) as int) <= value as int,
            value as int <= (43 - spec_plies_of_key(key)) / 2,
            exists|q: Position|
                {
                    &&& (#[trigger] q.spec_key()) == key
                    &&& q.wf()
                    &&& (flag == TTFlag::Exact ==> value as int == spec_game_value(q))
                    &&& (flag == TTFlag::LowerBound ==> spec_game_value(q) >= value as int)
                    &&& (flag == TTFlag::UpperBound ==> spec_game_value(q) <= value as int)
                },
        ensures
            final(self).wf(),
            final(self).spec_age() == old(self).spec_age(),
            final(self).spec_entries() == old(self).spec_entries().update(
                Self::spec_index(key),
                TTEntry {
                    key: key as u32,
                    value,
                    flag,
                    depth,
                    age: old(self).spec_age(),
                },
            ),
    {
        let pos = self.index(key);
        self.entries[pos] = TTEntry { key: key as u32, value, flag, depth, age: self.age };
        proof {
            let q = choose|q: Position|
                {
                    &&& (#[trigger] q.spec_key()) == key
                    &&& q.wf()
                    &&& (flag == TTFlag::Exact ==> value as int == spec_game_value(q))
                    &&& (flag == TTFlag::LowerBound ==> spec_game_value(q) >= value as int)
                    &&& (flag == TTFlag::UpperBound ==> spec_game_value(q) <= value as int)
                };
            self.stored_keys@ = self.stored_keys@.insert(pos as int, key);
            self.stored_positions@ = self.stored_positions@.insert(pos as int, q);
            assert forall|i: int|
                0 <= i < self.spec_entries().len() && (#[trigger] self.spec_entries()[i]).depth
                    >= 1 implies self.spec_slot_sound(i) by {
                if i != pos as int {
                    assert(old(self).spec_entries()[i].depth >= 1);
                    assert(old(self).spec_slot_sound(i));
                }
            }
        }
    }

    /// Retrieves the entry stored for a key, if the bucket holds an entry
    /// recorded for the same low 32 key bits in the current generation.
    pub fn get(&self, key: u64) -> (r: Option<&TTEntry>)
        requires
            self.wf(),
        ensures
            ({
                let entry = self.spec_entries()[Self::spec_index(key)];
                if entry.key == key as u32 && entry.age == self.spec_age() {
                    r == Some(&entry)
                } else {
                    r is None
                }
            }),
            r matches Some(e) ==> TT_MIN_VALUE <= e.value <= TT_MAX_VALUE,
            ({
                let entry = self.spec_entries()[Self::spec_index(key)];
                let k = self.spec_stored_key(Self::spec_index(key));
                let q = self.spec_stored_pos(Self::spec_index(key));
                (entry.key == key as u32 && entry.age == self.spec_age() && entry.depth >= 1)
                    ==> {
                    &&& k < 0x2000000000000
                    &&& Self::spec_index(k) == Self::spec_index(key)
                    &&& k as u32 == key as u32
                    &&& entry.depth == 42 - spec_plies_of_key(k)
                    &&& -(((42 - spec_plies_of_key(k)) / 2) as int) <= entry.value as int
                    &&& entry.value as int <= (43 - spec_plies_of_key(k)) / 2
                    &&& q.wf()
                    &&& q.spec_key() == k
                    &&& (entry.flag == TTFlag::Exact ==> entry.value as int == spec_game_value(q))
                    &&& (entry.flag == TTFlag::LowerBound ==> spec_game_value(q) >= entry.value as int)
                    &&& (entry.flag == TTFlag::UpperBound ==> spec_game_value(q) <= entry.value as int)
                }
            }),
    {
        let pos = self.index(key);
        let entry = &self.entries[pos];

        // Checks that both the key and age match to ensure correctness
        if entry.key == key as u32 && entry.age == self.age {
            Some(entry)
        } else {
            None
        }
    }
}

/// Two keys below `2^49` that share a bucket of the table and agree on
/// their low 32 bits are equal: the bucket count is coprime to `2^32`, so
/// bucket index and low bits together pin down more than 55 bits.
pub proof fn lemma_key_determined(k1: u64, k2: u64)
    requires
        k1 < 0x2000000000000,
        k2 < 0x2000000000000,
        TranspositionTable::spec_index(k1) == TranspositionTable::spec_index(k2),
        k1 as u32 == k2 as u32,
    ensures
        k1 == k2,
{
    let m: int = 0x100000000;
    let n: int = 8388617;
    let a: int = if k1 >= k2 {
        k1 as int
    } else {
        k2 as int
    };
    let b: int = if k1 >= k2 {
        k2 as int
    } else {
        k1 as int
    };

    // Equal low halves mean the difference is a multiple of 2^32
    assert(k1 % 0x100000000u64 == ((k1 as u32) as u64) && k2 % 0x100000000u64 == ((
    k2 as u32) as u64)) by (bit_vector);
    lemma_mod_equivalence(a, b, m);

    // Equal buckets mean the difference is a multiple of the table size
    lemma_mod_equivalence(a, b, n);

    // The difference splits as 2^32 times a small quotient
    let d = a - b;
    lemma_fundamental_div_mod(d, m);
    let e = d / m;
    assert(d == m * e);
    assert(0 <= e < 0x20000) by (nonlinear_arith)
        requires
            d == m * e,
            m == 0x100000000,
            0 <= d < 0x2000000000000,
    ;

    // 1035834 * 2^32 is one more than a multiple of the table size, so the
    // quotient is itself a multiple of the table size
    assert(1035834 * m == 530346439 * n + 1);
    assert(e == 1035834 * (m * e) - (530346439 * e) * n) by (nonlinear_arith)
        requires
            1035834 * m == 530346439 * n + 1,
    ;
    lemma_mul_mod_noop_right(1035834, m * e, n);
    lemma_mod_multiples_basic(530346439 * e, n);
    lemma_sub_mod_noop(1035834 * (m * e), (530346439 * e) * n, n);
    assert(e % n == 0);

    // A multiple of the table size below the table size is zero
    lemma_small_mod(e as nat, n as nat);
    assert(e == 0);
    assert(a == b);
}

impl Default for TranspositionTable {
    /// A freshly allocated table with every slot blank.
    fn default() -> (r: TranspositionTable)
        ensures
            r.wf(),
            r.spec_age() == 0,
            forall|i: int|
                0 <= i < 8388617 ==> (#[trigger] r.spec_entries()[i]) == (TTEntry {
                    key: 0,
                    value: 0,
                    flag: TTFlag::Exact,
                    depth: 0,
                    age: 0,
                }),
    {
        TranspositionTable::new()
    }
}

} // verus!
