//! An opening book for Connect Four: pre-computed scores for early-game
//! positions, keyed by the canonical (mirror-symmetric) position key, with a
//! compact binary serialisation that round-trips exactly.

use std::collections::HashMap;
use vstd::prelude::*;

use crate::position::{key_plies, spec_plies_of_key, Position};
use crate::transposition_table::{TT_MAX_VALUE, TT_MIN_VALUE};

verus! {

broadcast use vstd::std_specs::hash::group_hash_axioms;

/// An error reported when a byte buffer does not decode to an opening book.
#[derive(Debug, Clone, PartialEq, Eq)]
pub enum BookDecodeError {
    /// The buffer is shorter than its length header, or holds spare bytes.
    LengthMismatch,
    /// A record carries a score outside the score domain of the board.
    ScoreOutOfRange,
    /// Two records carry the same key.
    DuplicateKey,
}

/// A cache that stores pre-computed scores for opening game positions.
///
/// The book is stored as a map from a position's canonical key to its exact
/// score. Stored keys are canonical, so a single lookup also answers for the
/// mirror image of a position. Next to the map the book keeps the list of
/// its entries, which gives the serialised form a definite record order.
#[derive(Debug)]
pub struct OpeningBook {
    /// The mapping from canonical keys to scores.
    pub map: HashMap<u64, i8>,
    /// The entries of the map, in insertion order. Kept in step with the
    /// map; read it, but write through `insert` only.
    pub pairs: Vec<(u64, i8)>,
}

impl OpeningBook {
    /// The entries of the book, in insertion order.
    pub open spec fn pairs_view(self) -> Seq<(u64, i8)> {
        self.pairs@
    }

    /// The keys of an entry list, in order.
    pub open spec fn spec_pair_keys(pairs: Seq<(u64, i8)>) -> Seq<u64> {
        pairs.map(|i: int, p: (u64, i8)| p.0)
    }

    /// The entry list carries each key of the map exactly once, with the
    /// score the map holds for it, and no other key.
    pub open spec fn spec_book_pairs(m: Map<u64, i8>, pairs: Seq<(u64, i8)>) -> bool {
        &&& Self::spec_pair_keys(pairs).no_duplicates()
        &&& forall|i: int|
            0 <= i < pairs.len() ==> m.contains_key((#[trigger] pairs[i]).0) && m[pairs[i].0]
                == pairs[i].1
        &&& forall|k: u64| m.contains_key(k) ==> Self::spec_pair_keys(pairs).contains(k)
    }

    /// Every entry's score lies within the score range of the position its
    /// key identifies: the same bound the solver guarantees for its own
    /// results. The generator establishes this and the byte decoder checks
    /// it record by record.
    pub open spec fn spec_plies_sound(self) -> bool {
        forall|k: u64|
            self.map@.contains_key(k) ==> {
                &&& -(((42 - spec_plies_of_key(k)) / 2) as int) <= (#[trigger] self.map@[k]) as int
                &&& self.map@[k] as int <= (43 - spec_plies_of_key(k)) / 2
            }
    }

    /// Every stored score lies within the score domain of the board and
    /// within the score range of its key's position, and the entry list
    /// matches the map.
    pub open spec fn wf(self) -> bool {
        &&& forall|k: u64|
            self.map@.contains_key(k) ==> TT_MIN_VALUE <= #[trigger] self.map@[k] <= TT_MAX_VALUE
        &&& self.spec_plies_sound()
        &&& Self::spec_book_pairs(self.map@, self.pairs_view())
    }

    /// Creates a new, empty opening book.
    pub fn new() -> (r: OpeningBook)
        ensures
            r.wf(),
            r.map@ == Map::<u64, i8>::empty(),
            r.pairs_view() == Seq::<(u64, i8)>::empty(),
    {
        let r = OpeningBook { map: HashMap::new(), pairs: Vec::new() };
        proof {
            assert(Self::spec_pair_keys(r.pairs_view()) =~= Seq::<u64>::empty());
        }
        r
    }

    /// Whether the book holds an entry for a canonical key.
    pub fn contains(&self, key: u64) -> (r: bool)
        ensures
            r == self.map@.contains_key(key),
    {
        self.map.contains_key(&key)
    }

    /// Looks up a position's score in the opening book by its canonical key.
    pub fn get(&self, position: &Position) -> (r: Option<i8>)
        requires
            position.in_board(),
        ensures
            r == (if self.map@.contains_key(position.spec_key()) {
                Some(self.map@[position.spec_key()])
            } else {
                Option::<i8>::None
            }),
    {
        let key = position.get_key();
        match self.map.get(&key) {
            Some(score) => Some(*score),
            None => None,
        }
    }

    /// A book lookup does not distinguish a position from its mirror image:
    /// the canonical key is shared, so whatever `get` answers for one it
    /// answers for the other.
    pub proof fn lemma_lookup_mirror_invariant(self, p: Position)
        requires
            p.in_board(),
        ensures
            self.map@.contains_key(p.spec_mirrored().spec_key()) == self.map@.contains_key(
                p.spec_key(),
            ),
            self.map@.contains_key(p.spec_key()) ==> self.map@[p.spec_mirrored().spec_key()]
                == self.map@[p.spec_key()],
    {
        crate::position::lemma_key_canonicity(p);
    }

    /// The little-endian bytes of a 64-bit word, lowest byte first.
    pub open spec fn spec_le8(x: u64) -> Seq<u8> {
        seq![
            (x & 0xff) as u8,
            ((x >> 8) & 0xff) as u8,
            ((x >> 16) & 0xff) as u8,
            ((x >> 24) & 0xff) as u8,
            ((x >> 32) & 0xff) as u8,
            ((x >> 40) & 0xff) as u8,
            ((x >> 48) & 0xff) as u8,
            ((x >> 56) & 0xff) as u8,
        ]
    }

    /// The 64-bit word read from eight little-endian bytes.
    pub open spec fn spec_u64_of_le(b: Seq<u8>) -> u64
        recommends
            b.len() == 8,
    {
        (b[0] as u64) | ((b[1] as u64) << 8) | ((b[2] as u64) << 16) | ((b[3] as u64) << 24) | ((
        b[4] as u64) << 32) | ((b[5] as u64) << 40) | ((b[6] as u64) << 48) | ((b[7] as u64) << 56)
    }

    /// The nine bytes of one book record: the key, then the score.
    pub open spec fn spec_record(p: (u64, i8)) -> Seq<u8> {
        Self::spec_le8(p.0) + seq![p.1 as u8]
    }

    /// The serialised records of an entry list, in order.
    pub open spec fn spec_encode_records(pairs: Seq<(u64, i8)>) -> Seq<u8>
        decreases pairs.len(),
    {
        if pairs.len() == 0 {
            Seq::empty()
        } else {
            Self::spec_record(pairs[0]) + Self::spec_encode_records(pairs.drop_first())
        }
    }

    /// The serialised book: the record count, then the records.
    pub open spec fn spec_encode_book(pairs: Seq<(u64, i8)>) -> Seq<u8> {
        Self::spec_le8(pairs.len() as u64) + Self::spec_encode_records(pairs)
    }

    /// The entry list read back from `bytes` at offset `off`: `n` records,
    /// each of a key not seen before and a score within the score range of
    /// the position the key identifies, consuming the buffer exactly.
    pub open spec fn spec_decode_records(bytes: Seq<u8>, off: int, n: nat, seen: Set<u64>) -> Option<
        Seq<(u64, i8)>,
    >
        decreases n,
    {
        if n == 0 {
            if off == bytes.len() {
                Some(Seq::empty())
            } else {
                None
            }
        } else if off + 9 > bytes.len() || off < 0 {
            None
        } else {
            let key = Self::spec_u64_of_le(bytes.subrange(off, off + 8));
            let score = bytes[off + 8] as i8;
            if (score as int) < -(((42 - spec_plies_of_key(key)) / 2) as int) || score as int > (43
                - spec_plies_of_key(key)) / 2 {
                None
            } else if seen.contains(key) {
                None
            } else {
                match Self::spec_decode_records(bytes, off + 9, (n - 1) as nat, seen.insert(key)) {
                    Some(rest) => Some(seq![(key, score)] + rest),
                    None => None,
                }
            }
        }
    }

    /// The entry list read back from a serialised book.
    pub open spec fn spec_decode_book(bytes: Seq<u8>) -> Option<Seq<(u64, i8)>> {
        if bytes.len() < 8 {
            None
        } else {
            Self::spec_decode_records(
                bytes,
                8,
                Self::spec_u64_of_le(bytes.subrange(0, 8)) as nat,
                Set::empty(),
            )
        }
    }

    /// Appends the little-endian bytes of a word to a buffer.
    fn push_le8(out: &mut Vec<u8>, x: u64)
        ensures
            final(out)@ == old(out)@ + Self::spec_le8(x),
    {
        out.push((x & 0xff) as u8);
        out.push(((x >> 8) & 0xff) as u8);
        out.push(((x >> 16) & 0xff) as u8);
        out.push(((x >> 24) & 0xff) as u8);
        out.push(((x >> 32) & 0xff) as u8);
        out.push(((x >> 40) & 0xff) as u8);
        out.push(((x >> 48) & 0xff) as u8);
        out.push(((x >> 56) & 0xff) as u8);
        proof {
            assert(final(out)@ =~= old(out)@ + Self::spec_le8(x));
        }
    }

    /// Reads a little-endian word from a buffer at the given offset.
    fn read_le8(bytes: &[u8], off: usize) -> (r: u64)
        requires
            off + 8 <= bytes@.len(),
        ensures
            r == Self::spec_u64_of_le(bytes@.subrange(off as int, off as int + 8)),
    {
        let r = (bytes[off] as u64) | ((bytes[off + 1] as u64) << 8) | ((bytes[off + 2] as u64)
            << 16) | ((bytes[off + 3] as u64) << 24) | ((bytes[off + 4] as u64) << 32) | ((bytes[off
            + 5] as u64) << 40) | ((bytes[off + 6] as u64) << 48) | ((bytes[off + 7] as u64) << 56);
        r
    }

    /// Serialises the book into its compact binary form: the record count,
    /// then one nine-byte record per entry, in insertion order.
    pub fn to_bytes(&self) -> (r: Vec<u8>)
        requires
            self.wf(),
        ensures
            r@ == Self::spec_encode_book(self.pairs_view()),
    {
        let mut out: Vec<u8> = Vec::new();
        Self::push_le8(&mut out, self.pairs.len() as u64);
        let mut i: usize = 0;
        while i < self.pairs.len()
            invariant
                i <= self.pairs@.len(),
                out@ == Self::spec_le8(self.pairs@.len() as u64) + Self::spec_encode_records(
                    self.pairs@.subrange(0, i as int),
                ),
            decreases self.pairs@.len() - i,
        {
            let (key, score) = self.pairs[i];
            Self::push_le8(&mut out, key);
            out.push(score as u8);
            proof {
                Self::lemma_encode_records_push(self.pairs@.subrange(0, i as int), self.pairs@[i as int]);
                assert(self.pairs@.subrange(0, i as int).push(self.pairs@[i as int])
                    =~= self.pairs@.subrange(0, i + 1));
                assert(out@ =~= Self::spec_le8(self.pairs@.len() as u64)
                    + Self::spec_encode_records(self.pairs@.subrange(0, i + 1)));
            }
            i = i + 1;
        }
        proof {
            assert(self.pairs@.subrange(0, self.pairs@.len() as int) =~= self.pairs@);
        }
        out
    }

    /// Deserialises an opening book from its compact binary form.
    ///
    /// Succeeds exactly on buffers that a book serialises to: a record
    /// count followed by that many records, each of a fresh key and a score
    /// within its key's score range, with no bytes to spare.
    pub fn from_static_bytes(bytes: &[u8]) -> (r: Result<OpeningBook, BookDecodeError>)
        ensures
            r is Ok <==> Self::spec_decode_book(bytes@) is Some,
            r matches Ok(book) ==> {
                &&& book.wf()
                &&& Self::spec_decode_book(bytes@) == Some(book.pairs_view())
            },
    {
        if bytes.len() < 8 {
            return Err(BookDecodeError::LengthMismatch);
        }
        let n_stated = Self::read_le8(bytes, 0);
        proof {
            Self::lemma_decode_records_space(bytes@, 8, n_stated as nat, Set::empty());
        }
        if n_stated > ((bytes.len() - 8) / 9) as u64 {
            return Err(BookDecodeError::LengthMismatch);
        }
        let n = n_stated as usize;
        if 8 + n * 9 != bytes.len() {
            return Err(BookDecodeError::LengthMismatch);
        }
        let mut book = OpeningBook::new();
        proof {
            assert(book.map@.dom() =~= Set::<u64>::empty());
            let d0 = Self::spec_decode_records(bytes@, 8, n as nat, Set::empty());
            match d0 {
                Some(rest) => {
                    assert(book.pairs_view() + rest =~= rest);
                },
                None => {},
            }
        }
        let mut i: usize = 0;
        while i < n
            invariant
                i <= n,
                book.wf(),
                bytes@.len() == 8 + n * 9,
                bytes@.len() <= usize::MAX,
                Self::spec_decode_book(bytes@) == (match Self::spec_decode_records(
                    bytes@,
                    8 + 9 * i,
                    (n - i) as nat,
                    book.map@.dom(),
                ) {
                    Some(rest) => Some(book.pairs_view() + rest),
                    None => None::<Seq<(u64, i8)>>,
                }),
            decreases n - i,
        {
            let off = 8 + 9 * i;
            let key = Self::read_le8(bytes, off);
            let score_byte = bytes[off + 8];
            let score = score_byte as i8;
            proof {
                assert((score_byte as i8) == (bytes@[off as int + 8] as i8));
            }
            let plies = key_plies(key);
            let score_floor = -(((42 - plies) / 2) as i8);
            let score_ceiling = ((43 - plies) / 2) as i8;
            if score < score_floor || score > score_ceiling {
                return Err(BookDecodeError::ScoreOutOfRange);
            }
            if book.contains(key) {
                return Err(BookDecodeError::DuplicateKey);
            }
            let ghost pre_pairs = book.pairs_view();
            let ghost pre_dom = book.map@.dom();
            book.insert(key, score);
            proof {
                assert(book.map@.dom() =~= pre_dom.insert(key));
                let step = Self::spec_decode_records(
                    bytes@,
                    8 + 9 * (i + 1),
                    (n - i - 1) as nat,
                    pre_dom.insert(key),
                );
                match step {
                    Some(rest) => {
                        assert(pre_pairs + (seq![(key, score)] + rest) =~= book.pairs_view()
                            + rest);
                    },
                    None => {},
                }
            }
            i = i + 1;
        }
        proof {
            assert(book.pairs_view() + Seq::<(u64, i8)>::empty() =~= book.pairs_view());
        }
        Ok(book)
    }

    /// Serialising one more entry appends one more record.
    proof fn lemma_encode_records_push(pairs: Seq<(u64, i8)>, p: (u64, i8))
        ensures
            Self::spec_encode_records(pairs.push(p)) == Self::spec_encode_records(pairs)
                + Self::spec_record(p),
        decreases pairs.len(),
    {
        if pairs.len() == 0 {
            assert(pairs.push(p)[0] == p);
            assert(pairs.push(p).drop_first() =~= Seq::<(u64, i8)>::empty());
            assert(Self::spec_encode_records(pairs.push(p)) == Self::spec_record(p)
                + Self::spec_encode_records(Seq::<(u64, i8)>::empty()));
            assert(Self::spec_encode_records(Seq::<(u64, i8)>::empty())
                == Seq::<u8>::empty());
            assert(pairs =~= Seq::<(u64, i8)>::empty());
            assert(Self::spec_record(p) + Seq::<u8>::empty() =~= Seq::<u8>::empty()
                + Self::spec_record(p));
        } else {
            assert(pairs.push(p)[0] == pairs[0]);
            assert(pairs.push(p).drop_first() =~= pairs.drop_first().push(p));
            Self::lemma_encode_records_push(pairs.drop_first(), p);
            assert(Self::spec_encode_records(pairs.push(p)) == Self::spec_record(pairs[0])
                + Self::spec_encode_records(pairs.drop_first().push(p)));
            assert(Self::spec_encode_records(pairs) == Self::spec_record(pairs[0])
                + Self::spec_encode_records(pairs.drop_first()));
            assert(Self::spec_record(pairs[0]) + (Self::spec_encode_records(pairs.drop_first())
                + Self::spec_record(p)) =~= (Self::spec_record(pairs[0])
                + Self::spec_encode_records(pairs.drop_first())) + Self::spec_record(p));
        }
    }

    /// A successful decode consumes the buffer exactly: nine bytes for each
    /// of its records.
    proof fn lemma_decode_records_space(bytes: Seq<u8>, off: int, n: nat, seen: Set<u64>)
        ensures
            Self::spec_decode_records(bytes, off, n, seen) is Some ==> off + 9 * n == bytes.len(),
        decreases n,
    {
        if n > 0 && Self::spec_decode_records(bytes, off, n, seen) is Some {
            let key = Self::spec_u64_of_le(bytes.subrange(off, off + 8));
            Self::lemma_decode_records_space(bytes, off + 9, (n - 1) as nat, seen.insert(key));
        }
    }

    /// Reading back the little-endian bytes of a word recovers the word.
    proof fn lemma_le8_round_trip(x: u64)
        ensures
            Self::spec_u64_of_le(Self::spec_le8(x)) == x,
    {
        let b0 = (x & 0xff) as u8;
        let b1 = ((x >> 8) & 0xff) as u8;
        let b2 = ((x >> 16) & 0xff) as u8;
        let b3 = ((x >> 24) & 0xff) as u8;
        let b4 = ((x >> 32) & 0xff) as u8;
        let b5 = ((x >> 40) & 0xff) as u8;
        let b6 = ((x >> 48) & 0xff) as u8;
        let b7 = ((x >> 56) & 0xff) as u8;
        assert((b0 as u64) | ((b1 as u64) << 8) | ((b2 as u64) << 16) | ((b3 as u64) << 24) | ((
        b4 as u64) << 32) | ((b5 as u64) << 40) | ((b6 as u64) << 48) | ((b7 as u64) << 56) == x)
            by (bit_vector)
            requires
                b0 == (x & 0xff) as u8,
                b1 == ((x >> 8) & 0xff) as u8,
                b2 == ((x >> 16) & 0xff) as u8,
                b3 == ((x >> 24) & 0xff) as u8,
                b4 == ((x >> 32) & 0xff) as u8,
                b5 == ((x >> 40) & 0xff) as u8,
                b6 == ((x >> 48) & 0xff) as u8,
                b7 == ((x >> 56) & 0xff) as u8,
        ;
    }

    /// Casting a score to a byte and back recovers the score.
    proof fn lemma_score_byte_round_trip(y: i8)
        by (bit_vector)
        ensures
            ((y as u8) as i8) == y,
    {
    }

    /// The serialised records of an entry list take nine bytes per entry.
    proof fn lemma_encode_records_len(pairs: Seq<(u64, i8)>)
        ensures
            Self::spec_encode_records(pairs).len() == 9 * pairs.len(),
        decreases pairs.len(),
    {
        if pairs.len() > 0 {
            Self::lemma_encode_records_len(pairs.drop_first());
        }
    }

    /// Decoding undoes encoding, record by record: reading `pairs.len()`
    /// records out of a buffer whose tail holds the serialised entries
    /// yields exactly those entries, as long as their keys are distinct,
    /// unseen so far, and their scores lie within the score domain.
    proof fn lemma_decode_encode_records(
        bytes: Seq<u8>,
        off: int,
        pairs: Seq<(u64, i8)>,
        seen: Set<u64>,
    )
        requires
            Self::spec_pair_keys(pairs).no_duplicates(),
            forall|i: int|
                0 <= i < pairs.len() ==> -(((42 - spec_plies_of_key(
                    (#[trigger] pairs[i]).0,
                )) / 2) as int) <= pairs[i].1 as int && pairs[i].1 as int <= (43
                    - spec_plies_of_key(pairs[i].0)) / 2,
            forall|i: int| 0 <= i < pairs.len() ==> !seen.contains((#[trigger] pairs[i]).0),
            0 <= off <= bytes.len(),
            bytes.subrange(off, bytes.len() as int) == Self::spec_encode_records(pairs),
        ensures
            Self::spec_decode_records(bytes, off, pairs.len(), seen) == Some(pairs),
        decreases pairs.len(),
    {
        Self::lemma_encode_records_len(pairs);
        if pairs.len() == 0 {
            assert(bytes.len() == off);
            assert(Self::spec_decode_records(bytes, off, 0, seen) == Some(Seq::<(u64, i8)>::empty()));
            assert(pairs =~= Seq::<(u64, i8)>::empty());
        } else {
            let p = pairs[0];
            let suffix = bytes.subrange(off, bytes.len() as int);
            assert(off + 9 <= bytes.len());

            // The key bytes at the front of the suffix spell the first key
            assert(bytes.subrange(off, off + 8) =~= Self::spec_le8(p.0));
            Self::lemma_le8_round_trip(p.0);
            assert(Self::spec_u64_of_le(bytes.subrange(off, off + 8)) == p.0);

            // The ninth byte spells the first score
            assert(bytes[off + 8] == suffix[8]);
            assert(suffix[8] == (p.1 as u8));
            Self::lemma_score_byte_round_trip(p.1);

            // The rest of the buffer spells the remaining records
            let rest = pairs.drop_first();
            Self::lemma_encode_records_len(rest);
            assert(suffix == Self::spec_record(p) + Self::spec_encode_records(rest));
            assert forall|i: int|
                0 <= i < 9 * rest.len() implies bytes.subrange(off + 9, bytes.len() as int)[i]
                == Self::spec_encode_records(rest)[i] by {
                assert(bytes.subrange(off + 9, bytes.len() as int)[i] == bytes[off + 9 + i]);
                assert(bytes[off + 9 + i] == suffix[9 + i]);
                assert(suffix[9 + i] == Self::spec_encode_records(rest)[i]);
            }
            assert(bytes.subrange(off + 9, bytes.len() as int) =~= Self::spec_encode_records(
                rest,
            ));
            let rest_keys = Self::spec_pair_keys(rest);
            let all_keys = Self::spec_pair_keys(pairs);
            assert(rest_keys =~= all_keys.drop_first());
            assert forall|a: int, b: int|
                0 <= a < rest_keys.len() && 0 <= b < rest_keys.len() && a != b implies rest_keys[a]
                != rest_keys[b] by {
                assert(all_keys[a + 1] != all_keys[b + 1]);
            }
            assert forall|i: int|
                0 <= i < rest.len() implies !seen.insert(p.0).contains(
                (#[trigger] rest[i]).0,
            ) by {
                assert(rest[i] == pairs[i + 1]);
                assert(all_keys[i + 1] != all_keys[0]);
            }
            Self::lemma_decode_encode_records(bytes, off + 9, rest, seen.insert(p.0));
            assert(seq![p] + rest =~= pairs);
        }
    }

    /// Serialisation round-trips: decoding an encoded entry list yields
    /// exactly the entries that were encoded, provided their keys are
    /// distinct and each score lies within the score range of its key's
    /// position, as every entry of a well-formed book does.
    pub proof fn lemma_encode_decode_book(pairs: Seq<(u64, i8)>)
        requires
            Self::spec_pair_keys(pairs).no_duplicates(),
            forall|i: int|
                0 <= i < pairs.len() ==> -(((42 - spec_plies_of_key(
                    (#[trigger] pairs[i]).0,
                )) / 2) as int) <= pairs[i].1 as int && pairs[i].1 as int <= (43
                    - spec_plies_of_key(pairs[i].0)) / 2,
            pairs.len() <= 0xffffffffffffffff,
        ensures
            Self::spec_decode_book(Self::spec_encode_book(pairs)) == Some(pairs),
    {
        let bytes = Self::spec_encode_book(pairs);
        Self::lemma_encode_records_len(pairs);
        assert(bytes.len() == 8 + 9 * pairs.len());
        assert(bytes.subrange(0, 8) =~= Self::spec_le8(pairs.len() as u64));
        Self::lemma_le8_round_trip(pairs.len() as u64);
        assert(bytes.subrange(8, bytes.len() as int) =~= Self::spec_encode_records(pairs));
        Self::lemma_decode_encode_records(bytes, 8, pairs, Set::empty());
    }

    /// Records a score for a canonical key not yet in the book. The score
    /// must lie within the score range of the position the key identifies.
    pub fn insert(&mut self, key: u64, score: i8)
        requires
            old(self).wf(),
            !old(self).map@.contains_key(key),
            TT_MIN_VALUE <= score <= TT_MAX_VALUE,
            -(((42 - spec_plies_of_key(key)) / 2) as int) <= score as int,
            score as int <= (43 - spec_plies_of_key(key)) / 2,
        ensures
            final(self).wf(),
            final(self).map@ == old(self).map@.insert(key, score),
            final(self).pairs_view() == old(self).pairs_view().push((key, score)),
    {
        let ghost old_pairs = self.pairs@;
        self.map.insert(key, score);
        self.pairs.push((key, score));
        proof {
            let new_keys = Self::spec_pair_keys(self.pairs@);
            assert(new_keys =~= Self::spec_pair_keys(old_pairs).push(key));
            assert forall|k: u64| self.map@.contains_key(k) implies new_keys.contains(k) by {
                if k == key {
                    assert(new_keys[new_keys.len() - 1] == key);
                } else {
                    let j = choose|j: int|
                        0 <= j < Self::spec_pair_keys(old_pairs).len() && Self::spec_pair_keys(
                            old_pairs,
                        )[j] == k;
                    assert(new_keys[j] == k);
                }
            }
            assert forall|i: int, j: int|
                0 <= i < new_keys.len() && 0 <= j < new_keys.len() && i != j implies new_keys[i]
                != new_keys[j] by {
                let last = new_keys.len() - 1;
                if i == last && j < last {
                    assert(old(self).map@.contains_key(old_pairs[j].0));
                    assert(new_keys[j] == old_pairs[j].0);
                } else if j == last && i < last {
                    assert(old(self).map@.contains_key(old_pairs[i].0));
                    assert(new_keys[i] == old_pairs[i].0);
                }
            }
        }
    }
}

} // verus!
