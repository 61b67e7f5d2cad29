//! A fixed-capacity container for candidate Connect Four moves, kept in
//! ascending order of a score heuristic so that the best move pops first.

use vstd::prelude::*;

verus! {

/// Represents a single candidate move entry.
#[derive(Debug, Copy, Clone)]
pub struct MoveEntry {
    pub column: usize,
    pub score: u8,
}

/// A fixed-size container that stores a list of moves sorted by score.
///
/// Insertion keeps the entries in ascending score order; `next` pops from
/// the tail, so moves come out with the highest score first. The capacity is
/// one slot per board column and nothing is allocated after construction.
pub struct MoveSorter {
    size: usize,
    entries: Vec<MoveEntry>,
}

impl MoveSorter {
    /// The entries currently held, in their internal (ascending) order.
    pub closed spec fn view(self) -> Seq<MoveEntry> {
        self.entries@.subrange(0, self.size as int)
    }

    /// The entries of `s` are in ascending order of score.
    pub open spec fn spec_sorted(s: Seq<MoveEntry>) -> bool {
        forall|i: int, j: int|
            0 <= i <= j < s.len() ==> (#[trigger] s[i]).score <= (#[trigger] s[j]).score
    }

    /// The new entry list arises from the old one by inserting the given
    /// move at index `k`: everything below `k` keeps its place, everything
    /// from `k` up shifts one slot towards the tail, the entries that
    /// shifted all score strictly higher than the new move, and the entry
    /// just below it (if any) scores no higher.
    pub open spec fn spec_inserted(
        old_v: Seq<MoveEntry>,
        new_v: Seq<MoveEntry>,
        column: usize,
        score: u8,
        k: int,
    ) -> bool {
        &&& 0 <= k <= old_v.len()
        &&& new_v == old_v.subrange(0, k) + seq![MoveEntry { column, score }] + old_v.subrange(
            k,
            old_v.len() as int,
        )
        &&& (k == 0 || old_v[k - 1].score <= score)
        &&& forall|t: int| k <= t < old_v.len() ==> (#[trigger] old_v[t]).score > score
    }

    /// The container holds at most seven entries, in ascending score order.
    pub closed spec fn wf(self) -> bool {
        &&& self.entries@.len() == 7
        &&& self.size <= 7
        &&& Self::spec_sorted(self.view())
    }

    /// Creates a new, empty `MoveSorter`.
    pub fn new() -> (r: MoveSorter)
        ensures
            r.wf(),
            r.view().len() == 0,
    {
        let mut entries: Vec<MoveEntry> = Vec::new();
        let mut i: usize = 0;
        while i < 7
            invariant
                i <= 7,
                entries@.len() == i,
            decreases 7 - i,
        {
            entries.push(MoveEntry { column: 0, score: 0 });
            i = i + 1;
        }
        MoveSorter { size: 0, entries }
    }

    /// Adds a move, inserting it before the run of strictly higher scores at
    /// the tail so the entries stay in ascending score order. Among entries
    /// of equal score the new one goes last, so it pops first.
    pub fn add(&mut self, column: usize, score: u8)
        requires
            old(self).wf(),
            old(self).view().len() < 7,
        ensures
            final(self).wf(),
            final(self).view().len() == old(self).view().len() + 1,
            exists|k: int|
                #[trigger] Self::spec_inserted(old(self).view(), final(self).view(), column, score, k),
    {
        let ghost old_view = self.view();
        let ghost old_size = self.size as int;
        let mut pos = self.size;
        while pos > 0 && self.entries[pos - 1].score > score
            invariant
                0 <= pos <= old_size < 7,
                self.size == old_size,
                self.entries@.len() == 7,
                old_view.len() == old_size,
                forall|t: int| 0 <= t < pos ==> self.entries@[t] == old_view[t],
                forall|t: int|
                    pos < t <= old_size ==> #[trigger] self.entries@[t] == old_view[t - 1],
                forall|u: int| pos <= u < old_size ==> (#[trigger] old_view[u]).score > score,
            decreases pos,
        {
            let shifted = self.entries[pos - 1];
            self.entries[pos] = shifted;
            pos = pos - 1;
        }
        proof {
            assert(pos == 0 || old_view[pos as int - 1].score <= score);
        }
        self.entries[pos] = MoveEntry { column, score };
        self.size = self.size + 1;
        proof {
            let k = pos as int;
            let v_new = self.view();
            assert(v_new.len() == old_size + 1);
            assert(forall|t: int| 0 <= t < k ==> v_new[t] == old_view[t]);
            assert(forall|t: int| k < t <= old_size ==> v_new[t] == old_view[t - 1]);
            assert(v_new[k] == (MoveEntry { column, score }));
            assert(v_new =~= old_view.subrange(0, k) + seq![
                MoveEntry { column, score },
            ] + old_view.subrange(k, old_size));
            assert(Self::spec_inserted(old_view, v_new, column, score, k));
            assert forall|i: int, j: int| 0 <= i <= j < v_new.len() implies (
            #[trigger] v_new[i]).score <= (#[trigger] v_new[j]).score by {
                if j == k {
                    if i < k {
                        assert(old_view[i].score <= old_view[k - 1].score);
                    }
                } else if i == k {
                    if j > k {
                        assert(old_view[j - 1].score > score);
                    }
                } else if i < k && j > k {
                    assert(old_view[i].score <= old_view[j - 1].score);
                }
            }
        }
    }

    /// Removes and returns the column of the highest-scoring entry, or
    /// `None` once the container is empty.
    pub fn next(&mut self) -> (r: Option<usize>)
        requires
            old(self).wf(),
        ensures
            final(self).wf(),
            old(self).view().len() == 0 ==> r is None && final(self).view() == old(self).view(),
            old(self).view().len() > 0 ==> r == Some(old(self).view().last().column) && final(self).view() =~= old(self).view().drop_last(),
    {
        if self.size == 0 {
            proof {
                assert(final(self).view() =~= old(self).view());
            }
            None
        } else {
            self.size = self.size - 1;
            Some(self.entries[self.size].column)
        }
    }
}

impl Default for MoveSorter {
    /// An empty container.
    fn default() -> (r: MoveSorter)
        ensures
            r.wf(),
            r.view().len() == 0,
    {
        MoveSorter::new()
    }
}

} // verus!
