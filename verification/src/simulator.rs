//! The bookkeeping of a search for comfortable layouts: the accepted layout of a
//! simulated annealing run, and the best layouts met so far, best first.
use vstd::prelude::*;
use crate::layout::{Layout, apply_swaps, are_shuffle_swaps, is_shuffle_permutation, permute, random_usize};
use crate::penalty::KeyPenaltyResult;

verus! {

/// A layout met during a search, with its penalty (in eighths of a point) and,
/// where they were asked for, the results of each kind of penalty.
pub struct BestLayoutsEntry<'a> {
    pub layout: Layout,
    pub total_penalty: i128,
    pub penalties: Vec<KeyPenaltyResult<'a>>,
}

impl<'a> BestLayoutsEntry<'a> {
    /// This entry ranks strictly before `other`: its penalty is lower.
    pub fn ranks_before(&self, other: &BestLayoutsEntry) -> (b: bool)
        ensures
            b == (self.total_penalty < other.total_penalty),
    {
        self.total_penalty < other.total_penalty
    }
}

/// The penalties of a list of entries, in order.
pub open spec fn penalties_of(list: Seq<BestLayoutsEntry>) -> Seq<i128> {
    list.map_values(|e: BestLayoutsEntry| e.total_penalty)
}

/// The penalties never decrease along the list.
pub open spec fn is_ranked(list: Seq<BestLayoutsEntry>) -> bool {
    forall|i: int, j: int| 0 <= i <= j < list.len() ==> #[trigger] list[i].total_penalty <= #[trigger] list[j].total_penalty
}

/// Where an entry with penalty `p` goes: before the first entry whose penalty is higher.
pub open spec fn insertion_point(list: Seq<BestLayoutsEntry>, p: i128, k: int) -> bool {
    &&& 0 <= k <= list.len()
    &&& forall|j: int| 0 <= j < k ==> !(p < #[trigger] list[j].total_penalty)
    &&& k < list.len() ==> p < list[k].total_penalty
}

/// Puts `entry` into `list` before the first entry with a higher penalty (after
/// those with an equal one).
pub fn list_insert_ordered<'a>(list: Vec<BestLayoutsEntry<'a>>, entry: BestLayoutsEntry<'a>) -> (r: Vec<BestLayoutsEntry<'a>>)
    ensures
        exists|k: int| insertion_point(list@, entry.total_penalty, k) && r@ == list@.insert(k, entry),
{
    let mut list = list;
    let mut k: usize = 0;
    while k < list.len() && !entry.ranks_before(&list[k])
        invariant
            k <= list@.len(),
            forall|j: int| 0 <= j < k ==> !(entry.total_penalty < #[trigger] list@[j].total_penalty),
        decreases list@.len() - k,
    {
        k += 1;
    }
    let ghost before = list@;
    list.insert(k, entry);
    assert(insertion_point(before, entry.total_penalty, k as int));
    list
}

/// Inserting keeps a list ranked.
pub proof fn lemma_insert_keeps_ranked(list: Seq<BestLayoutsEntry>, entry: BestLayoutsEntry, k: int)
    requires
        is_ranked(list),
        insertion_point(list, entry.total_penalty, k),
    ensures
        is_ranked(list.insert(k, entry)),
{
    let r = list.insert(k, entry);
    assert forall|i: int, j: int| 0 <= i <= j < r.len() implies #[trigger] r[i].total_penalty
        <= #[trigger] r[j].total_penalty by {
        if i < k && j == k {
            assert(!(entry.total_penalty < list[i].total_penalty));
        } else if i == k && j > k {
            assert(list[k].total_penalty <= list[j - 1].total_penalty);
        } else if i < k && j > k {
            assert(list[i].total_penalty <= list[j - 1].total_penalty);
        } else if i > k {
            assert(list[i - 1].total_penalty <= list[j - 1].total_penalty);
        }
    }
}

/// Drops the entries beyond the first `top`.
pub fn truncate_best_layouts(list: &mut Vec<BestLayoutsEntry>, top: usize)
    ensures
        final(list)@ == old(list)@.take(if old(list)@.len() <= top { old(list)@.len() as int } else { top as int }),
{
    let ghost start = list@;
    assert(start.take(start.len() as int) =~= start);
    while list.len() > top
        invariant
            list@.len() >= if start.len() <= top { start.len() as int } else { top as int },
            list@.len() <= start.len(),
            list@ == start.take(list@.len() as int),
        decreases list@.len(),
    {
        let ghost n = list@.len() as int;
        list.pop();
        assert(start.take(n).drop_last() =~= start.take(n - 1));
    }
}


/// The decision at the end of a round of refining: where the best layout of the
/// round has a lower penalty than the current one, it and its penalty carry on;
/// else the refining stops (`None`).
pub fn refine_step(curr: i128, best: &Vec<BestLayoutsEntry>) -> (r: Option<(Layout, i128)>)
    requires
        best@.len() > 0,
    ensures
        r is None <==> curr <= best@[0].total_penalty,
        r matches Some(x) ==> x.0 == best@[0].layout && x.1 == best@[0].total_penalty,
{
    if curr <= best[0].total_penalty {
        None
    } else {
        Some((best[0].layout, best[0].total_penalty))
    }
}

/// The state of a simulated annealing run: the layout it last accepted, and the
/// best layouts it has accepted, at most `top_layouts` of them, best first.
pub struct Simulation<'a> {
    pub accepted_layout: Layout,
    pub accepted_penalty: i128,
    pub best_layouts: Vec<BestLayoutsEntry<'a>>,
    pub top_layouts: usize,
}

impl<'a> Simulation<'a> {
    /// A run that starts from `init_layout`, whose penalty is `init_penalty`.
    pub fn new(init_layout: Layout, init_penalty: i128, top_layouts: usize) -> (s: Simulation<'a>)
        ensures
            s.accepted_layout == init_layout,
            s.accepted_penalty == init_penalty,
            s.best_layouts@.len() == 0,
            s.top_layouts == top_layouts,
    {
        Simulation { accepted_layout: init_layout, accepted_penalty: init_penalty, best_layouts: Vec::new(), top_layouts }
    }

    /// The next layout to try: the accepted one with between one and `num_swaps`
    /// random pairs of movable keys swapped.
    pub fn candidate(&self, num_swaps: usize) -> (l: Layout)
        requires
            num_swaps > 0,
        ensures
            exists|swaps: Seq<(int, int)>|
                1 <= swaps.len() <= num_swaps && are_shuffle_swaps(swaps) && l.lower() == apply_swaps(
                    self.accepted_layout.lower(),
                    swaps,
                ) && l.upper() == apply_swaps(self.accepted_layout.upper(), swaps),
            exists|perm: Seq<int>|
                is_shuffle_permutation(perm) && l.lower() == permute(self.accepted_layout.lower(), perm)
                    && l.upper() == permute(self.accepted_layout.upper(), perm),
    {
        let mut layout = self.accepted_layout;
        let times = random_usize() % num_swaps + 1;
        layout.shuffle(times);
        layout
    }

    /// Accepts a candidate: it becomes the accepted layout and joins the best
    /// layouts, of which only the first `top_layouts` stay.
    pub fn accept(&mut self, entry: BestLayoutsEntry<'a>)
        ensures
            final(self).accepted_layout == entry.layout,
            final(self).accepted_penalty == entry.total_penalty,
            final(self).top_layouts == old(self).top_layouts,
            final(self).best_layouts@.len() <= old(self).top_layouts,
            is_ranked(old(self).best_layouts@) ==> is_ranked(final(self).best_layouts@),
            exists|k: int|
                insertion_point(old(self).best_layouts@, entry.total_penalty, k) && final(self).best_layouts@ == ({
                    let grown = old(self).best_layouts@.insert(k, entry);
                    grown.take(if grown.len() <= old(self).top_layouts { grown.len() as int } else { old(self).top_layouts as int })
                }),
    {
        self.accepted_layout = entry.layout;
        self.accepted_penalty = entry.total_penalty;
        let mut best = Vec::new();
        std::mem::swap(&mut best, &mut self.best_layouts);
        let ghost before = best@;
        let mut best = list_insert_ordered(best, entry);
        proof {
            if is_ranked(before) {
                let k = choose|k: int| insertion_point(before, entry.total_penalty, k) && best@ == before.insert(k, entry);
                lemma_insert_keeps_ranked(before, entry, k);
            }
        }
        let ghost grown = best@;
        truncate_best_layouts(&mut best, self.top_layouts);
        proof {
            if is_ranked(grown) {
                assert forall|i: int, j: int| 0 <= i <= j < best@.len() implies #[trigger] best@[i].total_penalty
                    <= #[trigger] best@[j].total_penalty by {
                    assert(best@[i] == grown[i]);
                    assert(best@[j] == grown[j]);
                }
            }
        }
        self.best_layouts = best;
    }
}

} // verus!
