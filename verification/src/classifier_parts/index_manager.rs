//! The index sampler: a path of row indices that is shuffled in place and
//! then consumed from its start.

use vstd::prelude::*;
use vstd::seq_lib::to_multiset_update;
use crate::classifier_parts::random_source::random_below;

verus! {

/// A path of indices with a cursor and the last position that counts.
///
/// The path never shrinks: a shorter logical length only lowers `max_index`,
/// and what lies beyond it stays in place.
pub struct IndexManager {
    path: Vec<usize>,
    current_idx: usize,
    max_index: usize,
}

/// The mathematical value of an `IndexManager`.
pub struct IndexManagerView {
    pub path: Seq<usize>,
    pub current_idx: usize,
    pub max_index: usize,
}

impl View for IndexManager {
    type V = IndexManagerView;

    closed spec fn view(&self) -> IndexManagerView {
        IndexManagerView { path: self.path@, current_idx: self.current_idx, max_index: self.max_index }
    }
}

/// The sequence `s` with the values at `a` and `b` exchanged.
pub open spec fn exchanged(s: Seq<usize>, a: int, b: int) -> Seq<usize> {
    s.update(a, s[b]).update(b, s[a])
}

/// The path after the first `steps` steps of a shuffle: the step `i`
/// exchanges the values at `i` and at `draws[i]`.
pub open spec fn shuffled(path: Seq<usize>, draws: Seq<usize>, steps: nat) -> Seq<usize>
    decreases steps,
{
    if steps == 0 {
        path
    } else {
        let before = shuffled(path, draws, (steps - 1) as nat);
        exchanged(before, steps - 1, draws[steps - 1] as int)
    }
}

/// Every number below the length of `s` occurs in `s` exactly once.
pub open spec fn each_index_once(s: Seq<usize>) -> bool {
    forall|v: usize| 0 <= v < s.len() ==> #[trigger] s.to_multiset().count(v) == 1
}

impl IndexManagerView {
    /// An empty path has `max_index` 0; in any other, `max_index` is a
    /// position of the path. The positions that count hold every index below
    /// the logical length once.
    pub open spec fn wf(self) -> bool {
        &&& if self.path.len() == 0 {
            self.max_index == 0
        } else {
            self.max_index < self.path.len()
        }
        &&& each_index_once(self.order())
    }

    /// How many positions count: none in an empty path, else those up to and
    /// including `max_index`.
    pub open spec fn logical_len(self) -> nat {
        if self.path.len() == 0 {
            0
        } else {
            (self.max_index + 1) as nat
        }
    }

    /// The positions that count, in the order in which they are consumed.
    pub open spec fn order(self) -> Seq<usize> {
        self.path.take(self.logical_len() as int)
    }

    /// What `count` calls of `next` return, one after the other.
    pub open spec fn visited(self, count: nat) -> Seq<usize> {
        self.path.subrange(self.current_idx as int, self.current_idx + count)
    }

    /// The value after the logical length was set to `path_len`: the path is
    /// extended by fresh indices in sequence where it was shorter, every
    /// position that counts holds its own index again, and what lies beyond
    /// them stays as it was.
    pub open spec fn resized(self, path_len: usize) -> IndexManagerView {
        let longest = if path_len > self.path.len() {
            path_len as nat
        } else {
            self.path.len()
        };
        IndexManagerView {
            path: Seq::new(
                longest,
                |i: int|
                    if i < path_len || i >= self.path.len() {
                        i as usize
                    } else {
                        self.path[i]
                    },
            ),
            current_idx: self.current_idx,
            max_index: (path_len - 1) as usize,
        }
    }

    /// Whether `draws` can drive a shuffle: one draw for each position before
    /// `max_index`, each draw such a position itself.
    pub open spec fn accepts(self, draws: Seq<usize>) -> bool {
        &&& draws.len() >= self.max_index
        &&& forall|i: int| 0 <= i < self.max_index ==> #[trigger] draws[i] < self.max_index
    }

    /// The value after a shuffle with `draws`: the positions before
    /// `max_index` are exchanged step by step, and the cursor is at the start.
    pub open spec fn reshuffled(self, draws: Seq<usize>) -> IndexManagerView {
        IndexManagerView {
            path: shuffled(self.path, draws, self.max_index as nat),
            current_idx: 0,
            max_index: self.max_index,
        }
    }
}

/// An exchange of two positions keeps the length and what the sequence holds.
pub proof fn lemma_exchanged_rearranges(s: Seq<usize>, a: int, b: int)
    requires
        0 <= a < s.len(),
        0 <= b < s.len(),
    ensures
        exchanged(s, a, b).len() == s.len(),
        exchanged(s, a, b).to_multiset() == s.to_multiset(),
{
    broadcast use {vstd::multiset::group_multiset_axioms, vstd::seq_lib::group_to_multiset_ensures};

    let first = s.update(a, s[b]);
    to_multiset_update(s, a, s[b]);
    to_multiset_update(first, b, s[a]);
    assert(s.contains(s[a]));
    assert(s.contains(s[b]));
    assert(first[b] == s[b]);
    assert(exchanged(s, a, b).to_multiset() =~= s.to_multiset());
}

/// A shuffle of the positions before `bound` keeps the length of the path,
/// leaves the positions from `bound` on in place, and only rearranges the
/// others.
pub proof fn lemma_shuffled_rearranges(path: Seq<usize>, draws: Seq<usize>, steps: nat, bound: int)
    requires
        steps <= bound <= path.len(),
        draws.len() >= steps,
        forall|i: int| 0 <= i < steps ==> #[trigger] draws[i] < bound,
    ensures
        shuffled(path, draws, steps).len() == path.len(),
        shuffled(path, draws, steps).to_multiset() == path.to_multiset(),
        shuffled(path, draws, steps).take(bound).to_multiset() == path.take(bound).to_multiset(),
        forall|i: int| bound <= i < path.len() ==> shuffled(path, draws, steps)[i] == path[i],
    decreases steps,
{
    if steps > 0 {
        let before = shuffled(path, draws, (steps - 1) as nat);
        lemma_shuffled_rearranges(path, draws, (steps - 1) as nat, bound);
        let a = steps - 1;
        let b = draws[steps - 1] as int;
        lemma_exchanged_rearranges(before, a, b);
        lemma_exchanged_rearranges(before.take(bound), a, b);
        assert(exchanged(before, a, b).take(bound) =~= exchanged(before.take(bound), a, b));
    }
}

/// The numbers `0, 1, ..., len - 1` in sequence hold each of them once.
pub proof fn lemma_sequence_holds_each_once(s: Seq<usize>)
    requires
        forall|i: int| 0 <= i < s.len() ==> s[i] == i,
    ensures
        each_index_once(s),
{
    broadcast use vstd::seq_lib::group_to_multiset_ensures;

    assert(s.no_duplicates());
    s.lemma_multiset_has_no_duplicates();
    assert forall|v: usize| 0 <= v < s.len() implies #[trigger] s.to_multiset().count(v) == 1 by {
        assert(s[v as int] == v);
        assert(s.contains(v));
    }
}

/// A sequence that holds every number below its length once holds no other
/// number.
pub proof fn lemma_each_index_once_bounds(s: Seq<usize>)
    requires
        each_index_once(s),
    ensures
        forall|i: int| 0 <= i < s.len() ==> #[trigger] s[i] < s.len(),
{
    broadcast use {vstd::multiset::group_multiset_axioms, vstd::seq_lib::group_to_multiset_ensures};

    if s.len() <= usize::MAX {
        let range = Seq::new(s.len(), |i: int| i as usize);
        lemma_sequence_holds_each_once(range);
        let held = s.to_multiset();
        let wanted = range.to_multiset();
        assert forall|v: usize| wanted.count(v) <= #[trigger] held.count(v) by {
            if v < s.len() {
                assert(held.count(v) == 1);
                assert(wanted.count(v) == 1);
            } else {
                assert(!range.contains(v));
            }
        }
        assert(wanted.subset_of(held));
        vstd::multiset::axiom_len_sub(held, wanted);
        vstd::multiset::lemma_multiset_empty_len(held.sub(wanted));
        assert forall|i: int| 0 <= i < s.len() implies #[trigger] s[i] < s.len() by {
            if s[i] >= s.len() {
                assert(s.contains(s[i]));
                assert(held.count(s[i]) > 0);
                assert(!range.contains(s[i]));
                assert(wanted.count(s[i]) == 0);
                assert(held.sub(wanted).count(s[i]) == held.count(s[i]));
                assert(held.sub(wanted) =~= vstd::multiset::Multiset::<usize>::empty());
            }
        }
    }
}

/// A reset followed by a full consumption visits every index below the
/// logical length exactly once, whatever the length and whatever the draws.
pub proof fn lemma_reset_visits_each_index_once(before: IndexManagerView, draws: Seq<usize>)
    requires
        before.wf(),
        before.accepts(draws),
    ensures
        before.reshuffled(draws).wf(),
        before.reshuffled(draws).logical_len() == before.logical_len(),
        before.reshuffled(draws).visited(before.logical_len()) == before.reshuffled(draws).order(),
        each_index_once(before.reshuffled(draws).visited(before.logical_len())),
{
    let after = before.reshuffled(draws);
    lemma_shuffled_rearranges(before.path, draws, before.max_index as nat, before.max_index as int);
    if before.path.len() > 0 {
        let n = before.logical_len() as int;
        assert(after.path.take(n).drop_last() =~= after.path.take(n - 1));
        assert(before.path.take(n).drop_last() =~= before.path.take(n - 1));
        assert(after.path.take(n) =~= after.path.take(n - 1).push(after.path[n - 1]));
        assert(before.path.take(n) =~= before.path.take(n - 1).push(before.path[n - 1]));
        broadcast use vstd::seq_lib::group_to_multiset_ensures;

        assert(after.order().to_multiset() =~= before.order().to_multiset());
    }
    assert(after.visited(before.logical_len()) =~= after.order());
}

impl IndexManager {
    /// A sampler with an empty path.
    pub fn new() -> (manager: IndexManager)
        ensures
            manager@ == (IndexManagerView { path: Seq::empty(), current_idx: 0, max_index: 0 }),
            manager@.wf(),
    {
        IndexManager { path: Vec::new(), current_idx: 0, max_index: 0 }
    }

    /// Sets the logical length of the path to `path_len`.
    pub fn update_random_path_len(&mut self, path_len: usize)
        requires
            old(self)@.wf(),
            path_len >= 1,
        ensures
            final(self)@ == old(self)@.resized(path_len),
            final(self)@.wf(),
            final(self)@.logical_len() == path_len,
    {
        let mut i: usize = self.path.len();
        while i < path_len
            invariant
                self.path.len() == if old(self).path.len() > i { old(self).path.len() } else { i },
                old(self).path.len() <= i,
                i <= path_len || old(self).path.len() == i,
                self.current_idx == old(self).current_idx,
                forall|p: int| 0 <= p < old(self).path.len() ==> self.path@[p] == old(self).path@[p],
                forall|p: int| old(self).path.len() <= p < i ==> self.path@[p] == p,
            decreases path_len - i,
        {
            self.path.push(i);
            i += 1;
        }
        self.max_index = path_len - 1;
        let mut k: usize = 0;
        while k < path_len
            invariant
                k <= path_len,
                self.max_index == path_len - 1,
                self.max_index < self.path.len(),
                self.current_idx == old(self).current_idx,
                self.path.len() == if old(self).path.len() > path_len { old(self).path.len() } else { path_len },
                forall|p: int| 0 <= p < k ==> self.path@[p] == p,
                forall|p: int| k <= p < old(self).path.len() ==> self.path@[p] == old(self).path@[p],
                forall|p: int| old(self).path.len() <= p < self.path.len() ==> self.path@[p] == p,
            decreases path_len - k,
        {
            self.path[k] = k;
            k += 1;
        }
        assert(self@.path =~= old(self)@.resized(path_len).path);
        proof {
            lemma_sequence_holds_each_once(self@.order());
        }
    }

    /// Whether the cursor has not passed the last position that counts.
    pub fn has_next(&self) -> (more: bool)
        ensures
            more == (self@.current_idx <= self@.max_index),
    {
        self.current_idx <= self.max_index
    }

    /// Whether the path holds anything.
    pub fn has_path(&self) -> (filled: bool)
        ensures
            filled == (self@.path.len() > 0),
    {
        self.path.len() > 0
    }

    /// The index under the cursor, which then moves on by one. The index of
    /// a position that counts is below the logical length.
    pub fn next(&mut self) -> (index: usize)
        requires
            old(self)@.current_idx < old(self)@.path.len(),
        ensures
            index == old(self)@.path[old(self)@.current_idx as int],
            old(self)@.wf() && old(self)@.current_idx < old(self)@.logical_len() ==> index < old(
                self,
            )@.logical_len(),
            old(self)@.wf() ==> final(self)@.wf(),
            final(self)@.current_idx == old(self)@.current_idx + 1,
            final(self)@.path == old(self)@.path,
            final(self)@.max_index == old(self)@.max_index,
    {
        proof {
            vstd::std_specs::vec::axiom_spec_len(&self.path);
            if self@.wf() && self@.current_idx < self@.logical_len() {
                lemma_each_index_once_bounds(self@.order());
                assert(self@.order()[self@.current_idx as int] == self@.path[self@.current_idx as int]);
            }
        }
        let index: usize = self.path[self.current_idx];
        self.current_idx += 1;
        index
    }

    /// Shuffles the positions before `max_index` with the given draws, and
    /// puts the cursor at the start.
    pub fn reset_with(&mut self, draws: &Vec<usize>)
        requires
            old(self)@.wf(),
            old(self)@.accepts(draws@),
        ensures
            final(self)@ == old(self)@.reshuffled(draws@),
            final(self)@.wf(),
    {
        let mut i: usize = 0;
        while i < self.max_index
            invariant
                i <= self.max_index,
                self.max_index == old(self).max_index,
                self.max_index < self.path.len() || self.max_index == 0,
                self.path.len() == old(self).path.len(),
                old(self)@.accepts(draws@),
                self.path@ == shuffled(old(self).path@, draws@, i as nat),
            decreases self.max_index - i,
        {
            let drawn: usize = draws[i];
            let kept: usize = self.path[drawn];
            let moved: usize = self.path[i];
            self.path[drawn] = moved;
            self.path[i] = kept;
            assert(self.path@ =~= exchanged(shuffled(old(self).path@, draws@, i as nat), i as int, drawn as int));
            i += 1;
        }
        self.current_idx = 0;
        proof {
            lemma_reset_visits_each_index_once(old(self)@, draws@);
        }
    }

    /// Shuffles the positions before `max_index`, each step exchanging a
    /// position with one drawn at random among them, and puts the cursor at
    /// the start. The positions that count hold afterwards what they held
    /// before, in another order.
    pub fn reset(&mut self)
        requires
            old(self)@.wf(),
        ensures
            final(self)@.wf(),
            exists|draws: Seq<usize>| #[trigger]
                old(self)@.accepts(draws) && final(self)@ == old(self)@.reshuffled(draws),
            final(self)@.current_idx == 0,
            final(self)@.max_index == old(self)@.max_index,
            final(self)@.path.len() == old(self)@.path.len(),
            final(self)@.logical_len() == old(self)@.logical_len(),
            final(self)@.visited(final(self)@.logical_len()) == final(self)@.order(),
    {
        let mut draws: Vec<usize> = Vec::new();
        let mut i: usize = 0;
        while i < self.max_index
            invariant
                i <= self.max_index,
                draws.len() == i,
                forall|p: int| 0 <= p < i ==> #[trigger] draws@[p] < self.max_index,
            decreases self.max_index - i,
        {
            let drawn = random_below(self.max_index as u64);
            draws.push(drawn as usize);
            i += 1;
        }
        self.reset_with(&draws);
        assert(old(self)@.accepts(draws@) && self@ == old(self)@.reshuffled(draws@));
        proof {
            lemma_reset_visits_each_index_once(old(self)@, draws@);
            lemma_shuffled_rearranges(
                old(self)@.path,
                draws@,
                old(self)@.max_index as nat,
                old(self)@.max_index as int,
            );
        }
    }
}

} // verus!
