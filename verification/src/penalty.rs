//! Methods for calculating the penalty of a keyboard layout given an input
//! corpus string.
//!
//! Penalties are counted in eighths of a point, which keeps every sum exact.
use vstd::prelude::*;
use std::collections::HashMap;
use crate::gram::{gram_code, gram_code_of, is_gram, lemma_gram_code_injective};
use crate::layout::{
    Finger, KeyPress, Layout, LayoutPosMap, Row, ascii_code, empty_position_map, fill_spec,
    lemma_fill_positions_valid, lookup, position_map_spec, positions_valid,
};

verus! {

/// The number of kinds of penalty.
pub open spec fn num_kinds() -> int {
    13
}

/// The number of kinds of penalty.
pub fn num_penalty_kinds() -> (n: usize)
    ensures
        n == num_kinds(),
{
    13
}

/// A kind of penalty.
pub struct KeyPenalty<'a> {
    pub name: &'a str,
}

/// The name of each kind of penalty, by its index.
pub open spec fn penalty_name(kind: int) -> Seq<char> {
    if kind == 0 {
        "base"@
    } else if kind == 1 {
        "same finger"@
    } else if kind == 2 {
        "long jump hand"@
    } else if kind == 3 {
        "long jump"@
    } else if kind == 4 {
        "long jump consecutive"@
    } else if kind == 5 {
        "pinky/ring twist"@
    } else if kind == 6 {
        "roll reversal"@
    } else if kind == 7 {
        "same hand"@
    } else if kind == 8 {
        "alternating hand"@
    } else if kind == 9 {
        "roll out"@
    } else if kind == 10 {
        "roll in"@
    } else if kind == 11 {
        "long jump sandwich"@
    } else {
        "twist"@
    }
}

/// The kinds of penalty, in the order in which their results are reported.
pub fn init<'a>() -> (penalties: Vec<KeyPenalty<'a>>)
    ensures
        penalties@.len() == num_kinds(),
        forall|k: int| 0 <= k < num_kinds() ==> (#[trigger] penalties@[k]).name@ == penalty_name(k),
{
    let mut penalties = Vec::new();

    // Base penalty.
    penalties.push(KeyPenalty { name: "base" });

    // Penalise 5 points for using the same finger twice on different keys.
    // An extra 5 points for each key in a centre column.
    penalties.push(KeyPenalty { name: "same finger" });

    // Penalise 1 point for jumping from top to bottom row or from bottom to
    // top row on the same hand.
    penalties.push(KeyPenalty { name: "long jump hand" });

    // Penalise 10 points for jumping from top to bottom row or from bottom to
    // top row on the same finger.
    penalties.push(KeyPenalty { name: "long jump" });

    // Penalise 5 points for jumping from top to bottom row or from bottom to
    // top row on consecutive fingers, except for middle finger-top row ->
    // index finger-bottom row.
    penalties.push(KeyPenalty { name: "long jump consecutive" });

    // Penalise 10 points for awkward pinky/ring combination where the pinky
    // reaches above the ring finger, e.g. QA/AQ, PL/LP, ZX/XZ, ;./.; on Qwerty.
    penalties.push(KeyPenalty { name: "pinky/ring twist" });

    // Penalise 20 points for reversing a roll at the end of the hand, i.e.
    // using the ring, pinky, then middle finger of the same hand, or the
    // middle, pinky, then ring of the same hand.
    penalties.push(KeyPenalty { name: "roll reversal" });

    // Penalise 0.5 points for using the same hand four times in a row.
    penalties.push(KeyPenalty { name: "same hand" });

    // Penalise 0.5 points for alternating hands three times in a row.
    penalties.push(KeyPenalty { name: "alternating hand" });

    // Penalise 0.125 points for rolling outwards.
    penalties.push(KeyPenalty { name: "roll out" });

    // Award 0.125 points for rolling inwards.
    penalties.push(KeyPenalty { name: "roll in" });

    // Penalise 3 points for jumping from top to bottom row or from bottom to
    // top row on the same finger with a keystroke in between.
    penalties.push(KeyPenalty { name: "long jump sandwich" });

    // Penalise 10 points for three consecutive keystrokes going up or down the
    // three rows of the keyboard in a roll.
    penalties.push(KeyPenalty { name: "twist" });

    penalties
}

/* ---------------------------------------------------------------- *
 * Rolls.                                                            *
 * ---------------------------------------------------------------- */

/// Fingers from the inside of the hand out.
pub open spec fn finger_rank(f: Finger) -> int {
    match f {
        Finger::Thumb => 0,
        Finger::Index => 1,
        Finger::Middle => 2,
        Finger::Ring => 3,
        Finger::Pinky => 4,
    }
}

/// Going from finger `prev` to finger `curr` moves outwards.
pub open spec fn rolls_out(curr: Finger, prev: Finger) -> bool {
    finger_rank(prev) < finger_rank(curr)
}

/// Going from finger `prev` to finger `curr` moves inwards.
pub open spec fn rolls_in(curr: Finger, prev: Finger) -> bool {
    finger_rank(curr) < finger_rank(prev)
}

pub fn is_roll_out(curr: Finger, prev: Finger) -> (b: bool)
    ensures
        b == rolls_out(curr, prev),
{
    match curr {
        Finger::Thumb => false,
        Finger::Index => prev == Finger::Thumb,
        Finger::Middle => prev == Finger::Thumb || prev == Finger::Index,
        Finger::Ring => prev != Finger::Pinky && prev != Finger::Ring,
        Finger::Pinky => prev != Finger::Pinky,
    }
}

pub fn is_roll_in(curr: Finger, prev: Finger) -> (b: bool)
    ensures
        b == rolls_in(curr, prev),
{
    match curr {
        Finger::Thumb => prev != Finger::Thumb,
        Finger::Index => prev != Finger::Thumb && prev != Finger::Index,
        Finger::Middle => prev == Finger::Pinky || prev == Finger::Ring,
        Finger::Ring => prev == Finger::Pinky,
        Finger::Pinky => false,
    }
}

/// A roll inwards read backwards is a roll outwards, and no pair of fingers rolls both ways.
pub proof fn lemma_rolls_mirror(a: Finger, b: Finger)
    ensures
        rolls_in(a, b) == rolls_out(b, a),
        !(rolls_in(a, b) && rolls_out(a, b)),
        !rolls_in(a, a) && !rolls_out(a, a),
{
}


/* ---------------------------------------------------------------- *
 * Quartads: the runs of up to four typed characters.               *
 * ---------------------------------------------------------------- */

/// A position map types character `c`.
pub open spec fn is_mapped(pm: Seq<Option<KeyPress>>, c: char) -> bool {
    lookup(pm, c) is Some
}

/// Where the run of typed characters that reaches position `i` of `s` begins.
pub open spec fn run_start(s: Seq<char>, pm: Seq<Option<KeyPress>>, i: int) -> int
    decreases i,
{
    if i <= 0 {
        0
    } else if !is_mapped(pm, s[i - 1]) {
        i
    } else {
        run_start(s, pm, i - 1)
    }
}

/// The quartad that ends at position `i` of `s`: the last (at most four) typed
/// characters up to and including `s[i]`, none of them cut off by an untyped one.
pub open spec fn quartad_at(s: Seq<char>, pm: Seq<Option<KeyPress>>, i: int) -> Seq<char> {
    let r = run_start(s, pm, i);
    s.subrange(if r < i - 3 { i - 3 } else { r }, i + 1)
}

/// How many of the first `n` positions of `s` hold a typed character whose quartad is `q`.
pub open spec fn occurrences(s: Seq<char>, pm: Seq<Option<KeyPress>>, n: int, q: Seq<char>) -> nat
    decreases n,
{
    if n <= 0 {
        0
    } else {
        occurrences(s, pm, n - 1, q) + (if is_mapped(pm, s[n - 1]) && quartad_at(s, pm, n - 1) == q {
            1nat
        } else {
            0nat
        })
    }
}

/// How many of the first `n` positions of `s` hold a typed character.
pub open spec fn mapped_count(s: Seq<char>, pm: Seq<Option<KeyPress>>, n: int) -> nat
    decreases n,
{
    if n <= 0 {
        0
    } else {
        mapped_count(s, pm, n - 1) + (if is_mapped(pm, s[n - 1]) { 1nat } else { 0nat })
    }
}

/// The sum of a sequence of counts.
pub open spec fn sum_counts(counts: Seq<usize>) -> int
    decreases counts.len(),
{
    if counts.len() == 0 {
        0
    } else {
        sum_counts(counts.drop_last()) + counts.last()
    }
}

proof fn lemma_sum_counts_push(counts: Seq<usize>, x: usize)
    ensures
        sum_counts(counts.push(x)) == sum_counts(counts) + x,
{
    assert(counts.push(x).drop_last() =~= counts);
}

proof fn lemma_sum_counts_update(counts: Seq<usize>, k: int, x: usize)
    requires
        0 <= k < counts.len(),
    ensures
        sum_counts(counts.update(k, x)) == sum_counts(counts) - counts[k] + x,
    decreases counts.len(),
{
    if k < counts.len() - 1 {
        lemma_sum_counts_update(counts.drop_last(), k, x);
        assert(counts.update(k, x).drop_last() =~= counts.drop_last().update(k, x));
    } else {
        assert(counts.update(k, x).drop_last() =~= counts.drop_last());
    }
}

/// The distinct quartads of a corpus, each with how often it occurs.
pub struct QuartadList {
    grams: Vec<Vec<char>>,
    counts: Vec<usize>,
    index: HashMap<u64, usize>,
}

impl QuartadList {
    /// The distinct quartads.
    pub closed spec fn quartads(&self) -> Seq<Seq<char>> {
        self.grams@.map_values(|g: Vec<char>| g@)
    }

    /// How often each quartad occurs, in the order of `quartads()`.
    pub closed spec fn counts(&self) -> Seq<usize> {
        self.counts@
    }

    #[verifier::type_invariant]
    closed spec fn well_formed(&self) -> bool {
        &&& self.grams@.len() == self.counts@.len()
        &&& forall|k: int|
            0 <= k < self.grams@.len() ==> {
                &&& is_gram(#[trigger] self.grams@[k]@)
                &&& self.grams@[k]@.len() >= 1
                &&& self.counts@[k] >= 1
                &&& self.index@.contains_key(gram_code(self.grams@[k]@) as u64)
                &&& self.index@[gram_code(self.grams@[k]@) as u64] == k
            }
        &&& forall|j: int, k: int|
            0 <= j < k < self.grams@.len() ==> #[trigger] self.grams@[j]@ != #[trigger] self.grams@[k]@
        &&& forall|key: u64|
            #[trigger] self.index@.contains_key(key) ==> {
                &&& self.index@[key] < self.grams@.len()
                &&& gram_code(self.grams@[self.index@[key] as int]@) == key
            }
        &&& sum_counts(self.counts@) <= usize::MAX
    }
}


proof fn lemma_sum_counts_bounds(counts: Seq<usize>, k: int)
    requires
        0 <= k < counts.len(),
    ensures
        counts[k] <= sum_counts(counts),
        0 <= sum_counts(counts),
    decreases counts.len(),
{
    assert(counts.last() == counts[counts.len() - 1]);
    if k < counts.len() - 1 {
        lemma_sum_counts_bounds(counts.drop_last(), k);
        assert(counts.drop_last()[k] == counts[k]);
    } else if counts.len() > 1 {
        lemma_sum_counts_bounds(counts.drop_last(), 0);
    } else {
        assert(counts.drop_last().len() == 0);
        assert(sum_counts(counts.drop_last()) == 0);
    }
}

proof fn lemma_run_is_mapped(s: Seq<char>, pm: Seq<Option<KeyPress>>, i: int)
    requires
        0 <= i <= s.len(),
    ensures
        0 <= run_start(s, pm, i) <= i,
        forall|j: int| run_start(s, pm, i) <= j < i ==> is_mapped(pm, #[trigger] s[j]),
    decreases i,
{
    if i > 0 {
        lemma_run_is_mapped(s, pm, i - 1);
    }
}

proof fn lemma_mapped_count_bound(s: Seq<char>, pm: Seq<Option<KeyPress>>, n: int)
    requires
        0 <= n,
    ensures
        mapped_count(s, pm, n) <= n,
    decreases n,
{
    if n > 0 {
        lemma_mapped_count_bound(s, pm, n - 1);
    }
}

/// The characters that a position map types are ASCII.
proof fn lemma_mapped_is_ascii(pm: Seq<Option<KeyPress>>, c: char)
    requires
        is_mapped(pm, c),
    ensures
        0 <= (c as int) < 128,
{
}

impl QuartadList {
    /// The number of distinct quartads.
    pub fn len(&self) -> (n: usize)
        ensures
            n == self.quartads().len(),
    {
        self.grams.len()
    }

    /// How often quartad `q` occurs (zero where it does not).
    pub fn count_of(&self, q: &[char]) -> (n: usize)
        ensures
            forall|k: int| 0 <= k < self.quartads().len() && #[trigger] self.quartads()[k] == q@ ==> n == self.counts()[k],
            !self.quartads().contains(q@) ==> n == 0,
    {
        broadcast use vstd::std_specs::hash::group_hash_axioms;
        proof {
            use_type_invariant(self);
            assert(self.quartads().len() == self.grams@.len());
            assert(forall|k: int| 0 <= k < self.grams@.len() ==> #[trigger] self.quartads()[k] == self.grams@[k]@);
        }
        if q.len() > 4 {
            proof {
                assert forall|k: int| 0 <= k < self.quartads().len() implies #[trigger] self.quartads()[k] != q@ by {
                    assert(is_gram(self.grams@[k]@));
                }
            }
            return 0;
        }
        let mut i: usize = 0;
        while i < q.len()
            invariant
                i <= q@.len(),
                forall|j: int| 0 <= j < i ==> 0 <= (#[trigger] q@[j] as int) < 128,
            decreases q@.len() - i,
        {
            if ascii_code(q[i]).is_none() {
                proof {
                    use_type_invariant(self);
                    assert(forall|k: int| 0 <= k < self.grams@.len() ==> #[trigger] self.quartads()[k] == self.grams@[k]@);
                    assert forall|k: int| 0 <= k < self.quartads().len() implies #[trigger] self.quartads()[k] != q@ by {
                        assert(is_gram(self.grams@[k]@));
                        if self.grams@[k]@ == q@ {
                            assert(0 <= (self.grams@[k]@[i as int] as int) < 128);
                        }
                    }
                }
                return 0;
            }
            i += 1;
        }
        let code = gram_code_of(q);
        match self.index.get(&code) {
            Some(k) => {
                proof {
                    lemma_gram_code_injective(self.grams@[*k as int]@, q@);
                    assert(self.quartads()[*k as int] == q@);
                    assert forall|j: int| 0 <= j < self.quartads().len() && #[trigger] self.quartads()[j] == q@ implies j == *k by {
                        if j != *k {
                            assert(self.grams@[j]@ == self.grams@[*k as int]@);
                        }
                    }
                }
                self.counts[*k]
            },
            None => {
                proof {
                    assert forall|k: int| 0 <= k < self.quartads().len() implies #[trigger] self.quartads()[k] != q@ by {
                        assert(self.index@.contains_key(gram_code(self.grams@[k]@) as u64));
                    }
                }
                0
            },
        }
    }
}

/// Counts the quartads of `string`: for each character that `position_map` types, the
/// run of up to four typed characters that ends there.
pub fn prepare_quartad_list(string: &str, position_map: &LayoutPosMap) -> (quartads: QuartadList)
    requires
        string@.len() <= usize::MAX,
    ensures
        forall|k: int|
            0 <= k < quartads.quartads().len() ==> quartads.counts()[k] == occurrences(
                string@,
                position_map@,
                string@.len() as int,
                #[trigger] quartads.quartads()[k],
            ),
        forall|q: Seq<char>|
            #[trigger] quartads.quartads().contains(q) <==> occurrences(
                string@,
                position_map@,
                string@.len() as int,
                q,
            ) > 0,
        forall|k: int| 0 <= k < quartads.counts().len() ==> #[trigger] quartads.counts()[k] >= 1,
        forall|k: int|
            0 <= k < quartads.quartads().len() ==> 1 <= (#[trigger] quartads.quartads()[k]).len()
                && is_gram(quartads.quartads()[k]),
        forall|j: int, k: int|
            0 <= j < k < quartads.quartads().len() ==> #[trigger] quartads.quartads()[j]
                != #[trigger] quartads.quartads()[k],
        quartads.counts().len() == quartads.quartads().len(),
        sum_counts(quartads.counts()) == mapped_count(string@, position_map@, string@.len() as int),
{
    broadcast use vstd::std_specs::hash::group_hash_axioms;
    let ghost s = string@;
    let ghost pm = position_map@;
    let mut grams: Vec<Vec<char>> = Vec::new();
    let mut counts: Vec<usize> = Vec::new();
    let mut index: HashMap<u64, usize> = HashMap::new();
    let mut window: Vec<char> = Vec::new();
    let mut i: usize = 0;
    for c in it: string.chars()
        invariant
            it.seq() == s,
            s == string@,
            pm == position_map@,
            i as int == it.index(),
            s.len() <= usize::MAX,
            grams@.len() == counts@.len(),
            forall|k: int|
                0 <= k < grams@.len() ==> {
                    &&& is_gram(#[trigger] grams@[k]@)
                    &&& grams@[k]@.len() >= 1
                    &&& counts@[k] >= 1
                    &&& counts@[k] == occurrences(s, pm, i as int, grams@[k]@)
                    &&& index@.contains_key(gram_code(grams@[k]@) as u64)
                    &&& index@[gram_code(grams@[k]@) as u64] == k
                },
            forall|j: int, k: int| 0 <= j < k < grams@.len() ==> #[trigger] grams@[j]@ != #[trigger] grams@[k]@,
            forall|key: u64|
                #[trigger] index@.contains_key(key) ==> {
                    &&& index@[key] < grams@.len()
                    &&& gram_code(grams@[index@[key] as int]@) == key
                },
            forall|q: Seq<char>|
                #[trigger] occurrences(s, pm, i as int, q) > 0 ==> exists|k: int|
                    0 <= k < grams@.len() && #[trigger] grams@[k]@ == q,
            sum_counts(counts@) == mapped_count(s, pm, i as int),
            window@ == s.subrange(
                if run_start(s, pm, i as int) < i - 4 { i - 4 } else { run_start(s, pm, i as int) },
                i as int,
            ),
    {
        let ghost i0 = i as int;
        proof {
            lemma_run_is_mapped(s, pm, i0);
            lemma_mapped_count_bound(s, pm, i0);
            assert(c == s[i0]);
        }
        let kp = position_map.get_key_position(c);
        assert(kp == lookup(pm, c));
        match kp {
            Some(_) => {
                assert(is_mapped(pm, c));
                assert(is_mapped(pm, s[i0]));
                window.push(c);
                if window.len() > 4 {
                    window.remove(0);
                }
                let ghost q = quartad_at(s, pm, i0);
                proof {
                    assert(window@ =~= q);
                    assert(is_gram(q)) by {
                        assert forall|j: int| 0 <= j < q.len() implies 0 <= (#[trigger] q[j] as int) < 128 by {
                            let r = run_start(s, pm, i0);
                            let st = if r < i0 - 3 { i0 - 3 } else { r };
                            assert(q[j] == s[st + j]);
                            if st + j < i0 {
                                assert(is_mapped(pm, s[st + j]));
                            } else {
                                assert(st + j == i0);
                            }
                            lemma_mapped_is_ascii(pm, s[st + j]);
                        }
                    }
                }
                let code = gram_code_of(window.as_slice());
                let ghost old_grams = grams@;
                match index.get(&code) {
                    Some(k_ref) => {
                        let k = *k_ref;
                        proof {
                            lemma_gram_code_injective(grams@[k as int]@, q);
                            lemma_sum_counts_bounds(counts@, k as int);
                            lemma_sum_counts_update(counts@, k as int, (counts@[k as int] + 1) as usize);
                        }
                        let old_count = counts[k];
                        counts.set(k, old_count + 1);
                    },
                    None => {
                        proof {
                            if occurrences(s, pm, i0, q) > 0 {
                                let k = choose|k: int| 0 <= k < grams@.len() && #[trigger] grams@[k]@ == q;
                                assert(index@.contains_key(gram_code(grams@[k]@) as u64));
                            }
                            lemma_sum_counts_push(counts@, 1);
                        }
                        let g = window.clone();
                        assert(g@ =~= window@);
                        index.insert(code, grams.len());
                        grams.push(g);
                        counts.push(1);
                    },
                }
                proof {
                    assert forall|q2: Seq<char>| #[trigger] occurrences(s, pm, i0 + 1, q2) > 0 implies exists|k: int|
                        0 <= k < grams@.len() && #[trigger] grams@[k]@ == q2 by {
                        if q2 == q {
                            let k = index@[code] as int;
                            lemma_gram_code_injective(grams@[k]@, q);
                            assert(grams@[k]@ == q2);
                        } else {
                            assert(occurrences(s, pm, i0, q2) > 0);
                            let k = choose|k: int| 0 <= k < old_grams.len() && #[trigger] old_grams[k]@ == q2;
                            assert(grams@[k] == old_grams[k]);
                            assert(grams@[k]@ == q2);
                        }
                    }
                }
            },
            None => {
                window.clear();
                proof {
                    assert forall|q2: Seq<char>| #[trigger] occurrences(s, pm, i0 + 1, q2) > 0 implies exists|k: int|
                        0 <= k < grams@.len() && #[trigger] grams@[k]@ == q2 by {
                        assert(occurrences(s, pm, i0, q2) > 0);
                    }
                }
            },
        }
        assert(window@ =~= s.subrange(
            if run_start(s, pm, i0 + 1) < i0 + 1 - 4 { i0 + 1 - 4 } else { run_start(s, pm, i0 + 1) },
            i0 + 1,
        ));
        i += 1;
    }
    proof {
        lemma_mapped_count_bound(s, pm, s.len() as int);
    }
    let r = QuartadList { grams, counts, index };
    proof {
        assert forall|q: Seq<char>| #[trigger] occurrences(s, pm, s.len() as int, q) > 0 implies r.quartads().contains(
            q,
        ) by {
            let k = choose|k: int| 0 <= k < r.grams@.len() && #[trigger] r.grams@[k]@ == q;
            assert(r.quartads()[k] == q);
        }
        assert forall|k: int| 0 <= k < r.quartads().len() implies 1 <= (#[trigger] r.quartads()[k]).len()
            && is_gram(r.quartads()[k]) by {
            assert(r.quartads()[k] == r.grams@[k]@);
        }
        assert forall|k: int| 0 <= k < r.counts().len() implies #[trigger] r.counts()[k] >= 1 by {
            assert(is_gram(r.grams@[k]@));
        }
    }
    r
}


/* ---------------------------------------------------------------- *
 * The penalties of one keystroke after up to three others.          *
 * ---------------------------------------------------------------- */

/// The base penalty of each position, in eighths of a point.
pub open spec fn base_penalty_table() -> Seq<int> {
    seq![
        24, 8, 8, 12, 24, 24, 12, 8, 8, 24, 32,
        4, 4, 0, 0, 12, 12, 0, 0, 4, 4, 16,
        16, 16, 12, 12, 20, 20, 12, 12, 16, 16,
        0,
    ]
}

/// The base penalty of position `pos`, in eighths of a point.
fn base_penalty(pos: usize) -> (p: i64)
    requires
        pos < 33,
    ensures
        p == base_penalty_table()[pos as int],
{
    let table: [i64; 33] = [
        24, 8, 8, 12, 24, 24, 12, 8, 8, 24, 32,
        4, 4, 0, 0, 12, 12, 0, 0, 4, 4, 16,
        16, 16, 12, 12, 20, 20, 12, 12, 16, 16,
        0,
    ];
    assert(table@.map_values(|x: i64| x as int) =~= base_penalty_table());
    assert(table@[pos as int] as int == table@.map_values(|x: i64| x as int)[pos as int]);
    table[pos]
}

/// A jump between the top and the bottom row, either way.
pub open spec fn is_jump(a: Row, b: Row) -> bool {
    (a == Row::Top && b == Row::Bottom) || (a == Row::Bottom && b == Row::Top)
}

/// The penalties that look at the last two keystrokes, `prev` then `curr`, on one hand.
pub open spec fn two_key_penalty(kind: int, curr: KeyPress, prev: KeyPress) -> Option<int> {
    if kind == 1 {
        // Same finger on different keys; more for each key in a centre column.
        if curr.finger == prev.finger && curr.pos != prev.pos {
            Some(40 + (if curr.center { 40int } else { 0 }) + (if prev.center { 40int } else { 0 }))
        } else {
            None
        }
    } else if kind == 2 {
        // Long jump on one hand.
        if is_jump(curr.row, prev.row) { Some(8) } else { None }
    } else if kind == 3 {
        // Long jump on one finger.
        if curr.finger == prev.finger && is_jump(curr.row, prev.row) { Some(80) } else { None }
    } else if kind == 4 {
        // Long jump on consecutive fingers (pinky and ring, ring and middle, either
        // way); from middle finger to index finger only from the bottom row to the top.
        if is_jump(curr.row, prev.row) && ((curr.finger == Finger::Ring && prev.finger == Finger::Pinky)
            || (curr.finger == Finger::Pinky && prev.finger == Finger::Ring) || (curr.finger
            == Finger::Middle && prev.finger == Finger::Ring) || (curr.finger == Finger::Ring
            && prev.finger == Finger::Middle) || (curr.finger == Finger::Index && prev.finger
            == Finger::Middle && curr.row == Row::Top && prev.row == Row::Bottom)) {
            Some(40)
        } else {
            None
        }
    } else if kind == 5 {
        // Pinky reaching above the ring finger.
        if (curr.finger == Finger::Ring && prev.finger == Finger::Pinky && ((curr.row == Row::Home
            && prev.row == Row::Top) || (curr.row == Row::Bottom && prev.row == Row::Top))) || (
        curr.finger == Finger::Pinky && prev.finger == Finger::Ring && ((curr.row == Row::Top
            && prev.row == Row::Home) || (curr.row == Row::Top && prev.row == Row::Bottom))) {
            Some(80)
        } else {
            None
        }
    } else if kind == 9 {
        // Rolling outwards.
        if prev.finger != Finger::Thumb && rolls_out(curr.finger, prev.finger) { Some(1) } else { None }
    } else if kind == 10 {
        // Rolling inwards earns a little.
        if rolls_in(curr.finger, prev.finger) { Some(-1) } else { None }
    } else {
        None
    }
}

/// The penalty of kind `kind`, in eighths of a point, for typing `curr` after
/// `old1`, which came after `old2`, which came after `old3`; `None` where it does
/// not apply. Each `old` is `None` where there was no such keystroke, or none that
/// the layout types; nothing before such a gap counts.
pub open spec fn kind_penalty(
    kind: int,
    curr: KeyPress,
    old1: Option<KeyPress>,
    old2: Option<KeyPress>,
    old3: Option<KeyPress>,
) -> Option<int> {
    if kind == 0 {
        Some(base_penalty_table()[curr.pos as int])
    } else {
        match old1 {
            None => None,
            Some(o1) => if kind == 1 || kind == 2 || kind == 3 || kind == 4 || kind == 5 || kind == 9
                || kind == 10 {
                if curr.hand == o1.hand {
                    two_key_penalty(kind, curr, o1)
                } else {
                    None
                }
            } else {
                match old2 {
                    None => None,
                    Some(o2) => if kind == 6 {
                        // Roll reversal at the end of the hand.
                        if curr.hand == o1.hand && o1.hand == o2.hand && ((curr.finger == Finger::Middle
                            && o1.finger == Finger::Pinky && o2.finger == Finger::Ring) || (curr.finger
                            == Finger::Ring && o1.finger == Finger::Pinky && o2.finger
                            == Finger::Middle)) {
                            Some(160)
                        } else {
                            None
                        }
                    } else if kind == 12 {
                        // Twist: three rows in a roll.
                        if curr.hand == o1.hand && o1.hand == o2.hand && ((curr.row == Row::Top
                            && o1.row == Row::Home && o2.row == Row::Bottom) || (curr.row
                            == Row::Bottom && o1.row == Row::Home && o2.row == Row::Top)) && ((
                        rolls_out(curr.finger, o1.finger) && rolls_out(o1.finger, o2.finger)) || (
                        rolls_in(curr.finger, o1.finger) && rolls_in(o1.finger, o2.finger))) {
                            Some(80)
                        } else {
                            None
                        }
                    } else if kind == 11 {
                        // Long jump on one finger with a keystroke in between.
                        if curr.hand == o2.hand && curr.finger == o2.finger && is_jump(curr.row, o2.row) {
                            Some(24)
                        } else {
                            None
                        }
                    } else {
                        match old3 {
                            None => None,
                            Some(o3) => if kind == 7 {
                                // Same hand four times.
                                if curr.hand == o1.hand && o1.hand == o2.hand && o2.hand == o3.hand {
                                    Some(4)
                                } else {
                                    None
                                }
                            } else if kind == 8 {
                                // Alternating hands three times.
                                if curr.hand != o1.hand && o1.hand != o2.hand && o2.hand != o3.hand {
                                    Some(4)
                                } else {
                                    None
                                }
                            } else {
                                None
                            },
                        }
                    },
                }
            },
        }
    }
}

/// An optional penalty, counted as zero where it does not apply.
pub open spec fn applied(p: Option<int>) -> int {
    match p {
        Some(v) => v,
        None => 0,
    }
}

/// The sum of the penalties of the kinds below `n`.
pub open spec fn penalty_upto(
    curr: KeyPress,
    old1: Option<KeyPress>,
    old2: Option<KeyPress>,
    old3: Option<KeyPress>,
    n: int,
) -> int
    decreases n,
{
    if n <= 0 {
        0
    } else {
        penalty_upto(curr, old1, old2, old3, n - 1) + applied(kind_penalty(n - 1, curr, old1, old2, old3))
    }
}

/// An optional exact penalty, as a mathematical integer.
pub open spec fn as_int_option(p: Option<i64>) -> Option<int> {
    match p {
        Some(v) => Some(v as int),
        None => None,
    }
}

/// The penalty of each kind for typing `curr` after `old1`, `old2` and `old3`.
fn kind_penalties(
    curr: &KeyPress,
    old1: &Option<KeyPress>,
    old2: &Option<KeyPress>,
    old3: &Option<KeyPress>,
) -> (v: [Option<i64>; 13])
    requires
        curr.pos < 33,
    ensures
        forall|k: int| 0 <= k < 13 ==> as_int_option(#[trigger] v@[k]) == kind_penalty(k, *curr, *old1, *old2, *old3),
{
    let mut v: [Option<i64>; 13] = [None; 13];

    // One key penalties.
    v[0] = Some(base_penalty(curr.pos));

    // Two key penalties.
    let o1 = match old1 {
        Some(o) => o,
        None => { return v },
    };

    if curr.hand == o1.hand {
        // Same finger.
        if curr.finger == o1.finger && curr.pos != o1.pos {
            let extra_curr: i64 = if curr.center { 40 } else { 0 };
            let extra_old: i64 = if o1.center { 40 } else { 0 };
            v[1] = Some(40 + extra_curr + extra_old);
        }

        // Long jump hand.
        if curr.row == Row::Top && o1.row == Row::Bottom || curr.row == Row::Bottom && o1.row == Row::Top {
            v[2] = Some(8);
        }

        // Long jump.
        if curr.finger == o1.finger {
            if curr.row == Row::Top && o1.row == Row::Bottom || curr.row == Row::Bottom && o1.row == Row::Top {
                v[3] = Some(80);
            }
        }

        // Long jump consecutive.
        if curr.row == Row::Top && o1.row == Row::Bottom || curr.row == Row::Bottom && o1.row == Row::Top {
            if curr.finger == Finger::Ring && o1.finger == Finger::Pinky || curr.finger == Finger::Pinky
                && o1.finger == Finger::Ring || curr.finger == Finger::Middle && o1.finger == Finger::Ring
                || curr.finger == Finger::Ring && o1.finger == Finger::Middle || (curr.finger == Finger::Index
                && o1.finger == Finger::Middle && curr.row == Row::Top && o1.row == Row::Bottom) {
                v[4] = Some(40);
            }
        }

        // Pinky/ring twist.
        if (curr.finger == Finger::Ring && o1.finger == Finger::Pinky && (curr.row == Row::Home && o1.row
            == Row::Top || curr.row == Row::Bottom && o1.row == Row::Top)) || (curr.finger == Finger::Pinky
            && o1.finger == Finger::Ring && (curr.row == Row::Top && o1.row == Row::Home || curr.row
            == Row::Top && o1.row == Row::Bottom)) {
            v[5] = Some(80);
        }

        // Roll out.
        if o1.finger != Finger::Thumb && is_roll_out(curr.finger, o1.finger) {
            v[9] = Some(1);
        }

        // Roll in.
        if is_roll_in(curr.finger, o1.finger) {
            v[10] = Some(-1);
        }
    }

    // Three key penalties.
    let o2 = match old2 {
        Some(o) => o,
        None => { return v },
    };

    if curr.hand == o1.hand && o1.hand == o2.hand {
        // Roll reversal.
        if (curr.finger == Finger::Middle && o1.finger == Finger::Pinky && o2.finger == Finger::Ring)
            || curr.finger == Finger::Ring && o1.finger == Finger::Pinky && o2.finger == Finger::Middle {
            v[6] = Some(160);
        }

        // Twist.
        if ((curr.row == Row::Top && o1.row == Row::Home && o2.row == Row::Bottom) || (curr.row
            == Row::Bottom && o1.row == Row::Home && o2.row == Row::Top)) && ((is_roll_out(
            curr.finger,
            o1.finger,
        ) && is_roll_out(o1.finger, o2.finger)) || (is_roll_in(curr.finger, o1.finger) && is_roll_in(
            o1.finger,
            o2.finger,
        ))) {
            v[12] = Some(80);
        }
    }

    // Long jump sandwich.
    if curr.hand == o2.hand && curr.finger == o2.finger {
        if curr.row == Row::Top && o2.row == Row::Bottom || curr.row == Row::Bottom && o2.row == Row::Top {
            v[11] = Some(24);
        }
    }

    // Four key penalties.
    let o3 = match old3 {
        Some(o) => o,
        None => { return v },
    };

    if curr.hand == o1.hand && o1.hand == o2.hand && o2.hand == o3.hand {
        // Same hand.
        v[7] = Some(4);
    } else if curr.hand != o1.hand && o1.hand != o2.hand && o2.hand != o3.hand {
        // Alternating hand.
        v[8] = Some(4);
    }

    v
}


/* ---------------------------------------------------------------- *
 * Recording the penalties of one quartad.                           *
 * ---------------------------------------------------------------- */

#[derive(Clone)]
/// How one kind of penalty added up over a corpus: its total, and the share of
/// each run of keys (packed, see `crate::gram`) that incurred it.
pub struct KeyPenaltyResult<'a> {
    pub name: &'a str,
    pub total: i128,
    pub high_keys: HashMap<u64, i128>,
}

/// How many of the last keys a kind of penalty is about.
pub open spec fn slice_len(kind: int) -> int {
    if kind == 0 {
        1
    } else if kind == 6 || kind == 11 || kind == 12 {
        3
    } else if kind == 7 || kind == 8 {
        4
    } else {
        2
    }
}

fn slice_len_exec(kind: usize) -> (n: usize)
    ensures
        n == slice_len(kind as int),
{
    if kind == 0 {
        1
    } else if kind == 6 || kind == 11 || kind == 12 {
        3
    } else if kind == 7 || kind == 8 {
        4
    } else {
        2
    }
}

/// The packed run of keys of `q` that a penalty of kind `kind` is charged to.
pub open spec fn slice_key(q: Seq<char>, kind: int) -> u64 {
    gram_code(q.subrange(q.len() - slice_len(kind), q.len() as int)) as u64
}

/// `m` with `amount` added to the share of `key` (a missing share counting as zero).
pub open spec fn bump(m: Map<u64, i128>, key: u64, amount: int) -> Map<u64, i128> {
    m.insert(key, ((if m.contains_key(key) { m[key] as int } else { 0 }) + amount) as i128)
}

/// Every total and every share in `results` is at most `b` in size.
pub open spec fn results_bounded(results: Seq<KeyPenaltyResult>, b: int) -> bool {
    forall|k: int|
        0 <= k < results.len() ==> {
            &&& -b <= (#[trigger] results[k]).total <= b
            &&& forall|key: u64| #[trigger]
                results[k].high_keys@.contains_key(key) ==> -b <= results[k].high_keys@[key] <= b
        }
}

/// Adds `amount` to the total of penalty kind `kind` and to the share of the keys of `q` it is charged to.
fn record(result: &mut Vec<KeyPenaltyResult>, kind: usize, q: &[char], amount: i128)
    requires
        kind < old(result)@.len(),
        slice_len(kind as int) <= q@.len(),
        is_gram(q@.subrange(q@.len() - slice_len(kind as int), q@.len() as int)),
        i128::MIN <= old(result)@[kind as int].total + amount <= i128::MAX,
        forall|key: u64| #[trigger]
            old(result)@[kind as int].high_keys@.contains_key(key) ==> i128::MIN <= old(
                result,
            )@[kind as int].high_keys@[key] + amount <= i128::MAX,
        i128::MIN <= amount <= i128::MAX,
    ensures
        final(result)@.len() == old(result)@.len(),
        forall|j: int| 0 <= j < old(result)@.len() && j != kind ==> #[trigger] final(result)@[j] == old(result)@[j],
        final(result)@[kind as int].name == old(result)@[kind as int].name,
        final(result)@[kind as int].total == old(result)@[kind as int].total + amount,
        final(result)@[kind as int].high_keys@ == bump(
            old(result)@[kind as int].high_keys@,
            slice_key(q@, kind as int),
            amount as int,
        ),
{
    broadcast use vstd::std_specs::hash::group_hash_axioms;
    let n = slice_len_exec(kind);
    let (_, tail) = q.split_at(q.len() - n);
    let key = gram_code_of(tail);
    let entry = &mut result[kind];
    let previous: i128 = match entry.high_keys.get(&key) {
        Some(v) => *v,
        None => 0,
    };
    entry.high_keys.insert(key, previous + amount);
    entry.total = entry.total + amount;
}


/// Every kind of penalty is at most 160 eighths in size.
proof fn lemma_kind_penalty_bound(
    kind: int,
    curr: KeyPress,
    old1: Option<KeyPress>,
    old2: Option<KeyPress>,
    old3: Option<KeyPress>,
)
    requires
        curr.pos < 33,
    ensures
        -160 <= applied(kind_penalty(kind, curr, old1, old2, old3)) <= 160,
{
    if kind == 0 {
        let t = base_penalty_table();
        assert(0 <= t[curr.pos as int] <= 32);
    }
}

proof fn lemma_penalty_upto_bound(
    curr: KeyPress,
    old1: Option<KeyPress>,
    old2: Option<KeyPress>,
    old3: Option<KeyPress>,
    n: int,
)
    requires
        curr.pos < 33,
        0 <= n,
    ensures
        -160 * n <= penalty_upto(curr, old1, old2, old3, n) <= 160 * n,
    decreases n,
{
    if n > 0 {
        lemma_penalty_upto_bound(curr, old1, old2, old3, n - 1);
        lemma_kind_penalty_bound(n - 1, curr, old1, old2, old3);
    }
}

/// The shares after a quartad that occurred `count` times was charged `p` of one kind.
pub open spec fn charged_keys(m: Map<u64, i128>, q: Seq<char>, kind: int, count: int, p: Option<int>) -> Map<
    u64,
    i128,
> {
    match p {
        Some(v) => bump(m, slice_key(q, kind), count * v),
        None => m,
    }
}

/// The character `back` places before the last one of `q` is ASCII.
pub open spec fn ascii_before(q: Seq<char>, back: int) -> bool {
    0 <= back < q.len() && 0 <= (q[q.len() - 1 - back] as int) < 128
}

/// The penalty, in eighths of a point, of typing the last key of `string` (`curr`)
/// after its earlier keys (`old1` the latest), `count` times over. With `detailed`,
/// each kind of penalty is also added to its entry of `result`.
fn penalize<'a>(
    string: &[char],
    count: usize,
    curr: &KeyPress,
    old1: &Option<KeyPress>,
    old2: &Option<KeyPress>,
    old3: &Option<KeyPress>,
    result: &mut Vec<KeyPenaltyResult<'a>>,
    detailed: bool,
) -> (total: i128)
    requires
        ascii_before(string@, 0),
        curr.pos < 33,
        old1 is Some ==> ascii_before(string@, 1),
        old2 is Some ==> ascii_before(string@, 2),
        old3 is Some ==> ascii_before(string@, 3),
        detailed ==> old(result)@.len() >= num_kinds(),
        detailed ==> results_bounded(old(result)@, i128::MAX - 160 * count),
    ensures
        total == count * penalty_upto(*curr, *old1, *old2, *old3, num_kinds()),
        !detailed ==> final(result)@ == old(result)@,
        detailed ==> final(result)@.len() == old(result)@.len(),
        detailed ==> forall|k: int|
            0 <= k < old(result)@.len() ==> {
                &&& (#[trigger] final(result)@[k]).name == old(result)@[k].name
                &&& final(result)@[k].total == old(result)@[k].total + (if k < num_kinds() {
                    count * applied(kind_penalty(k, *curr, *old1, *old2, *old3))
                } else {
                    0
                })
                &&& final(result)@[k].high_keys@ == (if k < num_kinds() {
                    charged_keys(
                        old(result)@[k].high_keys@,
                        string@,
                        k,
                        count as int,
                        kind_penalty(k, *curr, *old1, *old2, *old3),
                    )
                } else {
                    old(result)@[k].high_keys@
                })
            },
{
    let v = kind_penalties(curr, old1, old2, old3);
    let times = count as i128;
    let ghost r0 = result@;
    let mut unit: i128 = 0;
    let mut k: usize = 0;
    while k < 13
        invariant
            k <= 13,
            curr.pos < 33,
            times == count,
            ascii_before(string@, 0),
            old1 is Some ==> ascii_before(string@, 1),
            old2 is Some ==> ascii_before(string@, 2),
            old3 is Some ==> ascii_before(string@, 3),
            forall|j: int| 0 <= j < 13 ==> as_int_option(#[trigger] v@[j]) == kind_penalty(j, *curr, *old1, *old2, *old3),
            unit == penalty_upto(*curr, *old1, *old2, *old3, k as int),
            -160 * k <= unit <= 160 * k,
            !detailed ==> result@ == r0,
            detailed ==> r0.len() >= 13,
            detailed ==> results_bounded(r0, i128::MAX - 160 * count),
            detailed ==> result@.len() == r0.len(),
            detailed ==> forall|j: int|
                0 <= j < r0.len() ==> {
                    &&& (#[trigger] result@[j]).name == r0[j].name
                    &&& result@[j].total == r0[j].total + (if j < k {
                        count * applied(kind_penalty(j, *curr, *old1, *old2, *old3))
                    } else {
                        0
                    })
                    &&& result@[j].high_keys@ == (if j < k {
                        charged_keys(r0[j].high_keys@, string@, j, count as int, kind_penalty(j, *curr, *old1, *old2, *old3))
                    } else {
                        r0[j].high_keys@
                    })
                },
        decreases 13 - k,
    {
        proof {
            lemma_kind_penalty_bound(k as int, *curr, *old1, *old2, *old3);
            assert(as_int_option(v@[k as int]) == kind_penalty(k as int, *curr, *old1, *old2, *old3));
        }
        let ghost prev = result@;
        if let Some(x) = v[k] {
            proof {
                assert(-160 <= x <= 160);
                assert(-160 * count <= count * x <= 160 * count) by (nonlinear_arith)
                    requires
                        -160 <= x <= 160,
                        0 <= count,
                ;
            }
            let amount: i128 = times * (x as i128);
            if detailed {
                proof {
                    let n = slice_len(k as int);
                    assert(forall|b: int| 0 <= b < n ==> ascii_before(string@, b)) by {
                        if k != 0 && k != 1 && k != 2 && k != 3 && k != 4 && k != 5 && k != 9 && k != 10 {
                            assert(old1 is Some);
                            assert(old2 is Some);
                            if k == 7 || k == 8 {
                                assert(old3 is Some);
                            }
                        } else if k != 0 {
                            assert(old1 is Some);
                        }
                    }
                    assert(ascii_before(string@, n - 1));
                    let tail = string@.subrange(string@.len() - n, string@.len() as int);
                    assert(is_gram(tail)) by {
                        assert forall|j: int| 0 <= j < tail.len() implies 0 <= (#[trigger] tail[j] as int) < 128 by {
                            assert(tail[j] == string@[string@.len() - 1 - (n - 1 - j)]);
                            assert(ascii_before(string@, n - 1 - j));
                        }
                    }
                }
                record(result, k, string, amount);
            }
            unit = unit + (x as i128);
        }
        proof {
            if detailed {
                assert forall|j: int| 0 <= j < r0.len() implies {
                    &&& (#[trigger] result@[j]).name == r0[j].name
                    &&& result@[j].total == r0[j].total + (if j < k + 1 {
                        count * applied(kind_penalty(j, *curr, *old1, *old2, *old3))
                    } else {
                        0
                    })
                    &&& result@[j].high_keys@ == (if j < k + 1 {
                        charged_keys(r0[j].high_keys@, string@, j, count as int, kind_penalty(j, *curr, *old1, *old2, *old3))
                    } else {
                        r0[j].high_keys@
                    })
                } by {
                    if j != k {
                        assert(result@[j] == prev[j]);
                    } else {
                        assert(count * applied(None::<int>) == 0);
                    }
                }
            }
        }
        k += 1;
    }
    proof {
        assert(-2080 <= unit <= 2080);
        assert(-2080 * count <= times * unit <= 2080 * count) by (nonlinear_arith)
            requires
                -2080 <= unit <= 2080,
                times == count,
                0 <= count,
        ;
    }
    times * unit
}


/* ---------------------------------------------------------------- *
 * The penalties of a quartad, and of a whole corpus.                *
 * ---------------------------------------------------------------- */

/// How the key `back` places before the last one of `q` is typed (`None` past its start).
pub open spec fn key_before(pm: Seq<Option<KeyPress>>, q: Seq<char>, back: int) -> Option<KeyPress> {
    if back < q.len() {
        lookup(pm, q[q.len() - 1 - back])
    } else {
        None
    }
}

/// The penalty of kind `kind` that typing quartad `q` incurs (for its last key).
pub open spec fn quartad_kind_penalty(pm: Seq<Option<KeyPress>>, q: Seq<char>, kind: int) -> Option<int> {
    match key_before(pm, q, 0) {
        None => None,
        Some(curr) => kind_penalty(kind, curr, key_before(pm, q, 1), key_before(pm, q, 2), key_before(pm, q, 3)),
    }
}

/// The penalty of all kinds that typing quartad `q` incurs.
pub open spec fn quartad_penalty(pm: Seq<Option<KeyPress>>, q: Seq<char>) -> int {
    match key_before(pm, q, 0) {
        None => 0,
        Some(curr) => penalty_upto(curr, key_before(pm, q, 1), key_before(pm, q, 2), key_before(pm, q, 3), num_kinds()),
    }
}

/// The penalty of a quartad that occurred `count` times: each kind of penalty
/// that its last key incurs, `count` times over; zero where the layout does not
/// type its last key. With `detailed`, each kind is also added to its entry of `result`.
fn penalty_for_quartad<'a>(
    string: &[char],
    count: usize,
    position_map: &LayoutPosMap,
    result: &mut Vec<KeyPenaltyResult<'a>>,
    detailed: bool,
) -> (total: i128)
    requires
        string@.len() >= 1,
        detailed ==> old(result)@.len() >= num_kinds(),
        detailed ==> results_bounded(old(result)@, i128::MAX - 160 * count),
    ensures
        total == count * quartad_penalty(position_map@, string@),
        -2080 * count <= total <= 2080 * count,
        !detailed ==> final(result)@ == old(result)@,
        detailed ==> final(result)@.len() == old(result)@.len(),
        detailed ==> forall|k: int|
            0 <= k < old(result)@.len() ==> {
                &&& (#[trigger] final(result)@[k]).name == old(result)@[k].name
                &&& final(result)@[k].total == old(result)@[k].total + (if k < num_kinds() {
                    count * applied(quartad_kind_penalty(position_map@, string@, k))
                } else {
                    0
                })
                &&& final(result)@[k].high_keys@ == (if k < num_kinds() {
                    charged_keys(
                        old(result)@[k].high_keys@,
                        string@,
                        k,
                        count as int,
                        quartad_kind_penalty(position_map@, string@, k),
                    )
                } else {
                    old(result)@[k].high_keys@
                })
                &&& k < num_kinds() ==> -160 * count <= count * applied(
                    quartad_kind_penalty(position_map@, string@, k),
                ) <= 160 * count
            },
{
    let ghost pm = position_map@;
    let ghost q = string@;
    let len = string.len();
    let curr = match position_map.get_key_position(string[len - 1]) {
        Some(kp) => kp,
        None => {
            proof {
                assert forall|k: int| 0 <= k < old(result)@.len() implies count * applied(
                    quartad_kind_penalty(pm, q, k),
                ) == 0 by {
                    assert(applied(quartad_kind_penalty(pm, q, k)) == 0);
                }
            }
            return 0;
        },
    };
    let old1 = if len >= 2 {
        position_map.get_key_position(string[len - 2])
    } else {
        None
    };
    let old2 = if len >= 3 {
        position_map.get_key_position(string[len - 3])
    } else {
        None
    };
    let old3 = if len >= 4 {
        position_map.get_key_position(string[len - 4])
    } else {
        None
    };
    assert(old1 == key_before(pm, q, 1));
    assert(old2 == key_before(pm, q, 2));
    assert(old3 == key_before(pm, q, 3));
    proof {
        lemma_penalty_upto_bound(curr, old1, old2, old3, 13);
        assert(-2080 * count <= count * penalty_upto(curr, old1, old2, old3, 13) <= 2080 * count)
            by (nonlinear_arith)
            requires
                -2080 <= penalty_upto(curr, old1, old2, old3, 13) <= 2080,
                0 <= count,
        ;
        assert forall|k: int| 0 <= k < 13 implies -160 * count <= count * applied(
            #[trigger] quartad_kind_penalty(pm, q, k),
        ) <= 160 * count by {
            lemma_kind_penalty_bound(k, curr, old1, old2, old3);
            let a = applied(quartad_kind_penalty(pm, q, k));
            assert(-160 * count <= count * a <= 160 * count) by (nonlinear_arith)
                requires
                    -160 <= a <= 160,
                    0 <= count,
            ;
        }
    }
    penalize(string, count, &curr, &old1, &old2, &old3, result, detailed)
}

/// The penalty of the first `n` quartads, each weighted by its count.
pub open spec fn corpus_penalty(pm: Seq<Option<KeyPress>>, qs: Seq<Seq<char>>, cs: Seq<usize>, n: int) -> int
    decreases n,
{
    if n <= 0 {
        0
    } else {
        corpus_penalty(pm, qs, cs, n - 1) + cs[n - 1] * quartad_penalty(pm, qs[n - 1])
    }
}

/// The total of penalty kind `kind` over the first `n` quartads.
pub open spec fn corpus_kind_penalty(
    pm: Seq<Option<KeyPress>>,
    qs: Seq<Seq<char>>,
    cs: Seq<usize>,
    n: int,
    kind: int,
) -> int
    decreases n,
{
    if n <= 0 {
        0
    } else {
        corpus_kind_penalty(pm, qs, cs, n - 1, kind) + cs[n - 1] * applied(quartad_kind_penalty(pm, qs[n - 1], kind))
    }
}

/// The shares of penalty kind `kind` over the first `n` quartads, by packed run of keys.
pub open spec fn corpus_high_keys(
    pm: Seq<Option<KeyPress>>,
    qs: Seq<Seq<char>>,
    cs: Seq<usize>,
    n: int,
    kind: int,
) -> Map<u64, i128>
    decreases n,
{
    if n <= 0 {
        Map::empty()
    } else {
        charged_keys(
            corpus_high_keys(pm, qs, cs, n - 1, kind),
            qs[n - 1],
            kind,
            cs[n - 1] as int,
            quartad_kind_penalty(pm, qs[n - 1], kind),
        )
    }
}


proof fn lemma_sum_counts_prefix(cs: Seq<usize>, i: int)
    requires
        0 <= i <= cs.len(),
    ensures
        0 <= sum_counts(cs.take(i)) <= sum_counts(cs),
        i < cs.len() ==> sum_counts(cs.take(i + 1)) == sum_counts(cs.take(i)) + cs[i],
    decreases cs.len(),
{
    if i < cs.len() {
        assert(cs.take(i + 1).drop_last() =~= cs.take(i));
        lemma_sum_counts_prefix(cs.drop_last(), i);
        assert(cs.drop_last().take(i) =~= cs.take(i));
        assert(cs.last() == cs[cs.len() - 1]);
    } else {
        assert(cs.take(i) =~= cs);
        if cs.len() > 0 {
            lemma_sum_counts_prefix(cs.drop_last(), 0);
            lemma_sum_counts_bounds(cs, 0);
        } else {
            assert(sum_counts(cs) == 0);
        }
    }
}

/// The penalty of typing the quartads of a corpus on `layout`, in eighths of a
/// point: each quartad's penalty times how often it occurs. With `detailed`, also
/// how each kind of penalty (one result per entry of `penalties`, in its order)
/// added up, and which runs of keys incurred it; without, no results.
pub fn calculate_penalty<'a>(
    quartads: &QuartadList,
    layout: &Layout,
    penalties: &Vec<KeyPenalty<'a>>,
    detailed: bool,
) -> (r: (i128, Vec<KeyPenaltyResult<'a>>))
    requires
        detailed ==> penalties@.len() >= num_kinds(),
    ensures
        ({
            let pm = position_map_spec(layout.lower(), layout.upper());
            let qs = quartads.quartads();
            let cs = quartads.counts();
            &&& r.0 == corpus_penalty(pm, qs, cs, qs.len() as int)
            &&& !detailed ==> r.1@.len() == 0
            &&& detailed ==> r.1@.len() == penalties@.len()
            &&& detailed ==> forall|k: int|
                0 <= k < penalties@.len() ==> {
                    &&& (#[trigger] r.1@[k]).name == penalties@[k].name
                    &&& r.1@[k].total == (if k < num_kinds() {
                        corpus_kind_penalty(pm, qs, cs, qs.len() as int, k)
                    } else {
                        0
                    })
                    &&& r.1@[k].high_keys@ == (if k < num_kinds() {
                        corpus_high_keys(pm, qs, cs, qs.len() as int, k)
                    } else {
                        Map::empty()
                    })
                }
        }),
{
    broadcast use vstd::std_specs::hash::group_hash_axioms;
    proof {
        use_type_invariant(quartads);
    }
    let mut result: Vec<KeyPenaltyResult<'a>> = Vec::new();
    if detailed {
        let mut p: usize = 0;
        while p < penalties.len()
            invariant
                p <= penalties@.len(),
                result@.len() == p,
                forall|k: int|
                    0 <= k < p ==> {
                        &&& (#[trigger] result@[k]).name == penalties@[k].name
                        &&& result@[k].total == 0
                        &&& result@[k].high_keys@ == Map::<u64, i128>::empty()
                    },
            decreases penalties@.len() - p,
        {
            result.push(KeyPenaltyResult { name: penalties[p].name, total: 0, high_keys: HashMap::new() });
            p += 1;
        }
    }

    let position_map = layout.get_position_map();
    let ghost pm = position_map@;
    let ghost qs = quartads.quartads();
    let ghost cs = quartads.counts();
    let mut total: i128 = 0;
    let mut i: usize = 0;
    while i < quartads.grams.len()
        invariant
            i <= qs.len(),
            qs == quartads.quartads(),
            cs == quartads.counts(),
            pm == position_map@,
            qs.len() == cs.len(),
            qs.len() == quartads.grams@.len(),
            cs == quartads.counts@,
            forall|k: int|
                0 <= k < qs.len() ==> is_gram(#[trigger] qs[k]) && qs[k].len() >= 1,
            sum_counts(cs) <= usize::MAX,
            total == corpus_penalty(pm, qs, cs, i as int),
            -2080 * sum_counts(cs.take(i as int)) <= total <= 2080 * sum_counts(cs.take(i as int)),
            !detailed ==> result@.len() == 0,
            detailed ==> result@.len() == penalties@.len(),
            detailed ==> penalties@.len() >= 13,
            detailed ==> results_bounded(result@, 160 * sum_counts(cs.take(i as int))),
            detailed ==> forall|k: int|
                0 <= k < penalties@.len() ==> {
                    &&& (#[trigger] result@[k]).name == penalties@[k].name
                    &&& result@[k].total == (if k < num_kinds() {
                        corpus_kind_penalty(pm, qs, cs, i as int, k)
                    } else {
                        0
                    })
                    &&& result@[k].high_keys@ == (if k < num_kinds() {
                        corpus_high_keys(pm, qs, cs, i as int, k)
                    } else {
                        Map::empty()
                    })
                },
        decreases qs.len() - i,
    {
        proof {
            lemma_sum_counts_prefix(cs, i as int);
            lemma_sum_counts_prefix(cs, i as int + 1);
            assert(qs[i as int] == quartads.grams@[i as int]@);
        }
        let ghost prev = result@;
        let ghost prefix = sum_counts(cs.take(i as int));
        let count = quartads.counts[i];
        let t = penalty_for_quartad(quartads.grams[i].as_slice(), count, &position_map, &mut result, detailed);
        total = total + t;
        proof {
            let b = 160 * (prefix + count);
            if detailed {
                assert forall|k: int| 0 <= k < result@.len() implies {
                    &&& -b <= (#[trigger] result@[k]).total <= b
                    &&& forall|key: u64| #[trigger]
                        result@[k].high_keys@.contains_key(key) ==> -b <= result@[k].high_keys@[key] <= b
                } by {
                    assert(result@[k].name == prev[k].name);
                    if k < 13 {
                        let a = count * applied(quartad_kind_penalty(pm, qs[i as int], k));
                        assert(-160 * count <= a <= 160 * count);
                        assert forall|key: u64| #[trigger]
                            result@[k].high_keys@.contains_key(key) implies -b <= result@[k].high_keys@[key] <= b by {
                            if prev[k].high_keys@.contains_key(key) {
                                assert(-160 * prefix <= prev[k].high_keys@[key] <= 160 * prefix);
                            }
                        }
                    } else {
                        assert(result@[k].high_keys@ == prev[k].high_keys@);
                    }
                }
            }
        }
        i += 1;
    }
    proof {
        assert(qs.len() == i);
    }
    (total, result)
}


/* ---------------------------------------------------------------- *
 * The kinds of penalty add up to the whole penalty.                 *
 * ---------------------------------------------------------------- */

/// The penalties of the kinds below `m` that typing quartad `q` incurs, added up.
pub open spec fn quartad_penalty_upto(pm: Seq<Option<KeyPress>>, q: Seq<char>, m: int) -> int
    decreases m,
{
    if m <= 0 {
        0
    } else {
        quartad_penalty_upto(pm, q, m - 1) + applied(quartad_kind_penalty(pm, q, m - 1))
    }
}

/// The totals of the kinds of penalty below `m` over the first `n` quartads, added up.
pub open spec fn corpus_kinds_upto(
    pm: Seq<Option<KeyPress>>,
    qs: Seq<Seq<char>>,
    cs: Seq<usize>,
    n: int,
    m: int,
) -> int
    decreases m,
{
    if m <= 0 {
        0
    } else {
        corpus_kinds_upto(pm, qs, cs, n, m - 1) + corpus_kind_penalty(pm, qs, cs, n, m - 1)
    }
}

/// The first `n` quartads weighted by their counts, each charged the kinds below `m`.
pub open spec fn weighted_upto(pm: Seq<Option<KeyPress>>, qs: Seq<Seq<char>>, cs: Seq<usize>, n: int, m: int) -> int
    decreases n,
{
    if n <= 0 {
        0
    } else {
        weighted_upto(pm, qs, cs, n - 1, m) + cs[n - 1] * quartad_penalty_upto(pm, qs[n - 1], m)
    }
}

proof fn lemma_quartad_penalty_kinds(pm: Seq<Option<KeyPress>>, q: Seq<char>, m: int)
    requires
        0 <= m,
    ensures
        quartad_penalty_upto(pm, q, m) == match key_before(pm, q, 0) {
            None => 0,
            Some(curr) => penalty_upto(curr, key_before(pm, q, 1), key_before(pm, q, 2), key_before(pm, q, 3), m),
        },
    decreases m,
{
    if m > 0 {
        lemma_quartad_penalty_kinds(pm, q, m - 1);
    }
}

proof fn lemma_weighted_zero(pm: Seq<Option<KeyPress>>, qs: Seq<Seq<char>>, cs: Seq<usize>, n: int)
    requires
        0 <= n,
    ensures
        weighted_upto(pm, qs, cs, n, 0) == 0,
    decreases n,
{
    if n > 0 {
        lemma_weighted_zero(pm, qs, cs, n - 1);
        assert(cs[n - 1] * quartad_penalty_upto(pm, qs[n - 1], 0) == 0);
    }
}

proof fn lemma_weighted_step(pm: Seq<Option<KeyPress>>, qs: Seq<Seq<char>>, cs: Seq<usize>, n: int, m: int)
    requires
        0 <= n,
        0 <= m,
    ensures
        weighted_upto(pm, qs, cs, n, m + 1) == weighted_upto(pm, qs, cs, n, m) + corpus_kind_penalty(
            pm,
            qs,
            cs,
            n,
            m,
        ),
    decreases n,
{
    if n > 0 {
        lemma_weighted_step(pm, qs, cs, n - 1, m);
        let c = cs[n - 1] as int;
        let x = quartad_penalty_upto(pm, qs[n - 1], m);
        let y = applied(quartad_kind_penalty(pm, qs[n - 1], m));
        assert(c * (x + y) == c * x + c * y) by (nonlinear_arith);
    }
}

proof fn lemma_kinds_weighted(pm: Seq<Option<KeyPress>>, qs: Seq<Seq<char>>, cs: Seq<usize>, n: int, m: int)
    requires
        0 <= n,
        0 <= m,
    ensures
        corpus_kinds_upto(pm, qs, cs, n, m) == weighted_upto(pm, qs, cs, n, m),
    decreases m,
{
    if m == 0 {
        lemma_weighted_zero(pm, qs, cs, n);
    } else {
        lemma_kinds_weighted(pm, qs, cs, n, m - 1);
        lemma_weighted_step(pm, qs, cs, n, m - 1);
    }
}

proof fn lemma_weighted_all_kinds(pm: Seq<Option<KeyPress>>, qs: Seq<Seq<char>>, cs: Seq<usize>, n: int)
    requires
        0 <= n,
    ensures
        weighted_upto(pm, qs, cs, n, num_kinds()) == corpus_penalty(pm, qs, cs, n),
    decreases n,
{
    if n > 0 {
        lemma_weighted_all_kinds(pm, qs, cs, n - 1);
        lemma_quartad_penalty_kinds(pm, qs[n - 1], num_kinds());
    }
}

/// The totals of the kinds of penalty add up to the whole penalty of the corpus.
pub proof fn lemma_kind_totals_add_up(pm: Seq<Option<KeyPress>>, qs: Seq<Seq<char>>, cs: Seq<usize>, n: int)
    requires
        0 <= n,
    ensures
        corpus_kinds_upto(pm, qs, cs, n, num_kinds()) == corpus_penalty(pm, qs, cs, n),
{
    lemma_kinds_weighted(pm, qs, cs, n, num_kinds());
    lemma_weighted_all_kinds(pm, qs, cs, n);
}


/* ---------------------------------------------------------------- *
 * The penalty of a corpus is the sum over its keystrokes.           *
 * ---------------------------------------------------------------- */

/// The penalty, on the layout with position map `pm`, of the keystrokes among the
/// first `n` characters of `s` that the position map `prep` types: each one costs
/// the penalty of the quartad that ends with it.
pub open spec fn keystroke_penalty(
    s: Seq<char>,
    prep: Seq<Option<KeyPress>>,
    pm: Seq<Option<KeyPress>>,
    n: int,
) -> int
    decreases n,
{
    if n <= 0 {
        0
    } else {
        keystroke_penalty(s, prep, pm, n - 1) + (if is_mapped(prep, s[n - 1]) {
            quartad_penalty(pm, quartad_at(s, prep, n - 1))
        } else {
            0
        })
    }
}

/// The first `m` quartads of `qs`, each weighted by how often it occurs among the first `n` positions of `s`.
pub open spec fn weighted_occurrences(
    s: Seq<char>,
    prep: Seq<Option<KeyPress>>,
    pm: Seq<Option<KeyPress>>,
    qs: Seq<Seq<char>>,
    n: int,
    m: int,
) -> int
    decreases m,
{
    if m <= 0 {
        0
    } else {
        weighted_occurrences(s, prep, pm, qs, n, m - 1) + occurrences(s, prep, n, qs[m - 1]) * quartad_penalty(
            pm,
            qs[m - 1],
        )
    }
}

proof fn lemma_occurrences_grow(s: Seq<char>, prep: Seq<Option<KeyPress>>, q: Seq<char>, n: int, m: int)
    requires
        0 <= n <= m,
    ensures
        occurrences(s, prep, n, q) <= occurrences(s, prep, m, q),
    decreases m - n,
{
    if n < m {
        lemma_occurrences_grow(s, prep, q, n, m - 1);
    }
}

proof fn lemma_weighted_occurrences_empty(
    s: Seq<char>,
    prep: Seq<Option<KeyPress>>,
    pm: Seq<Option<KeyPress>>,
    qs: Seq<Seq<char>>,
    m: int,
)
    requires
        0 <= m,
    ensures
        weighted_occurrences(s, prep, pm, qs, 0, m) == 0,
    decreases m,
{
    if m > 0 {
        lemma_weighted_occurrences_empty(s, prep, pm, qs, m - 1);
        assert(occurrences(s, prep, 0, qs[m - 1]) == 0);
        assert(0 * quartad_penalty(pm, qs[m - 1]) == 0);
    }
}

proof fn lemma_weighted_occurrences_step(
    s: Seq<char>,
    prep: Seq<Option<KeyPress>>,
    pm: Seq<Option<KeyPress>>,
    qs: Seq<Seq<char>>,
    n: int,
    m: int,
)
    requires
        0 <= n,
        0 <= m <= qs.len(),
        forall|j: int, k: int| 0 <= j < k < qs.len() ==> #[trigger] qs[j] != #[trigger] qs[k],
    ensures
        weighted_occurrences(s, prep, pm, qs, n + 1, m) == weighted_occurrences(s, prep, pm, qs, n, m) + (if is_mapped(
            prep,
            s[n],
        ) && (exists|k: int| 0 <= k < m && qs[k] == quartad_at(s, prep, n)) {
            quartad_penalty(pm, quartad_at(s, prep, n))
        } else {
            0
        }),
    decreases m,
{
    if m > 0 {
        lemma_weighted_occurrences_step(s, prep, pm, qs, n, m - 1);
        let q = qs[m - 1];
        let a = occurrences(s, prep, n, q) as int;
        let c = quartad_penalty(pm, q);
        let qn = quartad_at(s, prep, n);
        if is_mapped(prep, s[n]) && q == qn {
            assert((a + 1) * c == a * c + c) by (nonlinear_arith);
            assert(!(exists|k: int| 0 <= k < m - 1 && qs[k] == qn)) by {
                if exists|k: int| 0 <= k < m - 1 && qs[k] == qn {
                    let k = choose|k: int| 0 <= k < m - 1 && qs[k] == qn;
                    assert(qs[k] == qs[m - 1]);
                }
            }
        } else {
            assert(occurrences(s, prep, n + 1, q) == a);
            if is_mapped(prep, s[n]) && (exists|k: int| 0 <= k < m && qs[k] == qn) {
                let k = choose|k: int| 0 <= k < m && qs[k] == qn;
                assert(k < m - 1);
            }
        }
    }
}

proof fn lemma_keystrokes_weighted(
    s: Seq<char>,
    prep: Seq<Option<KeyPress>>,
    pm: Seq<Option<KeyPress>>,
    qs: Seq<Seq<char>>,
    n: int,
)
    requires
        0 <= n <= s.len(),
        forall|j: int, k: int| 0 <= j < k < qs.len() ==> #[trigger] qs[j] != #[trigger] qs[k],
        forall|q: Seq<char>| #[trigger] occurrences(s, prep, s.len() as int, q) > 0 ==> qs.contains(q),
    ensures
        keystroke_penalty(s, prep, pm, n) == weighted_occurrences(s, prep, pm, qs, n, qs.len() as int),
    decreases n,
{
    if n == 0 {
        lemma_weighted_occurrences_empty(s, prep, pm, qs, qs.len() as int);
    } else {
        lemma_keystrokes_weighted(s, prep, pm, qs, n - 1);
        lemma_weighted_occurrences_step(s, prep, pm, qs, n - 1, qs.len() as int);
        let qn = quartad_at(s, prep, n - 1);
        if is_mapped(prep, s[n - 1]) {
            assert(occurrences(s, prep, n, qn) >= 1);
            lemma_occurrences_grow(s, prep, qn, n, s.len() as int);
            assert(qs.contains(qn));
        }
    }
}

proof fn lemma_corpus_weighted(
    s: Seq<char>,
    prep: Seq<Option<KeyPress>>,
    pm: Seq<Option<KeyPress>>,
    qs: Seq<Seq<char>>,
    cs: Seq<usize>,
    m: int,
)
    requires
        0 <= m <= qs.len(),
        qs.len() == cs.len(),
        forall|k: int| 0 <= k < qs.len() ==> cs[k] == occurrences(s, prep, s.len() as int, #[trigger] qs[k]),
    ensures
        corpus_penalty(pm, qs, cs, m) == weighted_occurrences(s, prep, pm, qs, s.len() as int, m),
    decreases m,
{
    if m > 0 {
        lemma_corpus_weighted(s, prep, pm, qs, cs, m - 1);
        assert(cs[m - 1] == occurrences(s, prep, s.len() as int, qs[m - 1]));
    }
}

/// The penalty of a corpus is the sum of the penalties of its keystrokes: for the
/// quartads and counts that `prepare_quartad_list` gives for `s` (on the layout of
/// position map `prep`), the penalty that `calculate_penalty` adds up on the
/// layout of position map `pm` is, over each character of `s` that `prep` types,
/// the penalty of the quartad that ends with it.
pub proof fn lemma_penalty_is_per_keystroke(
    s: Seq<char>,
    prep: Seq<Option<KeyPress>>,
    pm: Seq<Option<KeyPress>>,
    qs: Seq<Seq<char>>,
    cs: Seq<usize>,
)
    requires
        qs.len() == cs.len(),
        forall|k: int| 0 <= k < qs.len() ==> cs[k] == occurrences(s, prep, s.len() as int, #[trigger] qs[k]),
        forall|q: Seq<char>| #[trigger] occurrences(s, prep, s.len() as int, q) > 0 ==> qs.contains(q),
        forall|j: int, k: int| 0 <= j < k < qs.len() ==> #[trigger] qs[j] != #[trigger] qs[k],
    ensures
        corpus_penalty(pm, qs, cs, qs.len() as int) == keystroke_penalty(s, prep, pm, s.len() as int),
{
    lemma_corpus_weighted(s, prep, pm, qs, cs, qs.len() as int);
    lemma_keystrokes_weighted(s, prep, pm, qs, s.len() as int);
}


/// The penalty grows in proportion to the counts: where every quartad occurs `c`
/// times as often, the corpus costs `c` times as much.
pub proof fn lemma_penalty_scales_with_counts(
    pm: Seq<Option<KeyPress>>,
    qs: Seq<Seq<char>>,
    cs: Seq<usize>,
    scaled_cs: Seq<usize>,
    c: int,
    n: int,
)
    requires
        0 <= n <= cs.len(),
        cs.len() == scaled_cs.len(),
        forall|k: int| 0 <= k < cs.len() ==> scaled_cs[k] == c * (#[trigger] cs[k]),
    ensures
        corpus_penalty(pm, qs, scaled_cs, n) == c * corpus_penalty(pm, qs, cs, n),
    decreases n,
{
    if n > 0 {
        lemma_penalty_scales_with_counts(pm, qs, cs, scaled_cs, c, n - 1);
        let x = cs[n - 1] as int;
        let p = quartad_penalty(pm, qs[n - 1]);
        let rest = corpus_penalty(pm, qs, cs, n - 1);
        assert(scaled_cs[n - 1] == c * x);
        assert((c * x) * p + c * rest == c * (rest + x * p)) by (nonlinear_arith);
    }
}


/* ---------------------------------------------------------------- *
 * An untyped character cuts a corpus in two.                        *
 * ---------------------------------------------------------------- */

proof fn lemma_prefix_occurrences(s: Seq<char>, a: Seq<char>, pm: Seq<Option<KeyPress>>, q: Seq<char>, n: int)
    requires
        0 <= n <= a.len() <= s.len(),
        forall|j: int| 0 <= j < a.len() ==> s[j] == a[j],
    ensures
        run_start(s, pm, n) == run_start(a, pm, n),
        occurrences(s, pm, n, q) == occurrences(a, pm, n, q),
    decreases n,
{
    if n > 0 {
        lemma_prefix_occurrences(s, a, pm, q, n - 1);
        let i = n - 1;
        lemma_prefix_occurrences(s, a, pm, q, i);
        lemma_run_is_mapped(a, pm, i);
        assert(quartad_at(s, pm, i) =~= quartad_at(a, pm, i));
    }
}

proof fn lemma_suffix_run_start(s: Seq<char>, b: Seq<char>, pm: Seq<Option<KeyPress>>, off: int, m: int)
    requires
        1 <= off,
        0 <= m <= b.len(),
        s.len() == off + b.len(),
        !is_mapped(pm, s[off - 1]),
        forall|j: int| 0 <= j < b.len() ==> s[off + j] == b[j],
    ensures
        run_start(s, pm, off + m) == off + run_start(b, pm, m),
    decreases m,
{
    if m > 0 {
        lemma_suffix_run_start(s, b, pm, off, m - 1);
        assert(s[off + m - 1] == b[m - 1]);
    }
}

proof fn lemma_suffix_occurrences(s: Seq<char>, b: Seq<char>, pm: Seq<Option<KeyPress>>, q: Seq<char>, off: int, m: int)
    requires
        1 <= off,
        0 <= m <= b.len(),
        s.len() == off + b.len(),
        !is_mapped(pm, s[off - 1]),
        forall|j: int| 0 <= j < b.len() ==> s[off + j] == b[j],
    ensures
        occurrences(s, pm, off + m, q) == occurrences(s, pm, off, q) + occurrences(b, pm, m, q),
    decreases m,
{
    if m > 0 {
        lemma_suffix_occurrences(s, b, pm, q, off, m - 1);
        let i = m - 1;
        lemma_suffix_run_start(s, b, pm, off, i);
        lemma_run_is_mapped(b, pm, i);
        assert(s[off + i] == b[i]);
        let rb = run_start(b, pm, i);
        let sb = if rb < i - 3 { i - 3 } else { rb };
        assert(quartad_at(s, pm, off + i) == s.subrange(off + sb, off + i + 1));
        assert(s.subrange(off + sb, off + i + 1) =~= b.subrange(sb, i + 1));
    }
}

/// An untyped character cuts a corpus in two: every quartad occurs in `a`, an
/// untyped `sep`, then `b`, as often as in `a` and in `b` together.
pub proof fn lemma_occurrences_split(
    a: Seq<char>,
    sep: char,
    b: Seq<char>,
    pm: Seq<Option<KeyPress>>,
    q: Seq<char>,
)
    requires
        !is_mapped(pm, sep),
    ensures
        ({
            let s = a + seq![sep] + b;
            occurrences(s, pm, s.len() as int, q) == occurrences(a, pm, a.len() as int, q) + occurrences(
                b,
                pm,
                b.len() as int,
                q,
            )
        }),
{
    let s = a + seq![sep] + b;
    let off = a.len() + 1int;
    assert forall|j: int| 0 <= j < a.len() implies s[j] == a[j] by {}
    assert forall|j: int| 0 <= j < b.len() implies s[off + j] == b[j] by {}
    assert(s[off - 1] == sep);
    lemma_prefix_occurrences(s, a, pm, q, a.len() as int);
    lemma_suffix_occurrences(s, b, pm, q, off, b.len() as int);
}


/* ---------------------------------------------------------------- *
 * The shares of each kind add up to its total.                      *
 * ---------------------------------------------------------------- */

/// The shares in `m` of the keys `keys`, added up.
pub open spec fn shares_sum(m: Map<u64, i128>, keys: Seq<u64>) -> int
    decreases keys.len(),
{
    if keys.len() == 0 {
        0
    } else {
        shares_sum(m, keys.drop_last()) + m[keys.last()] as int
    }
}

/// `keys` lists each key of `m` once.
pub open spec fn enumerates(m: Map<u64, i128>, keys: Seq<u64>) -> bool {
    &&& keys.no_duplicates()
    &&& forall|key: u64| #[trigger] m.contains_key(key) <==> keys.contains(key)
}

proof fn lemma_shares_sum_insert(m: Map<u64, i128>, keys: Seq<u64>, key: u64, v: i128)
    requires
        keys.no_duplicates(),
    ensures
        keys.contains(key) ==> shares_sum(m.insert(key, v), keys) == shares_sum(m, keys) - m[key] + v,
        !keys.contains(key) ==> shares_sum(m.insert(key, v), keys) == shares_sum(m, keys),
    decreases keys.len(),
{
    if keys.len() > 0 {
        let init = keys.drop_last();
        assert(init.no_duplicates());
        lemma_shares_sum_insert(m, init, key, v);
        if keys.last() == key {
            assert(!init.contains(key)) by {
                if init.contains(key) {
                    let i = choose|i: int| 0 <= i < init.len() && init[i] == key;
                    assert(keys[i] == keys[keys.len() - 1]);
                }
            }
        } else {
            assert(keys.contains(key) ==> init.contains(key)) by {
                if keys.contains(key) {
                    let i = choose|i: int| 0 <= i < keys.len() && keys[i] == key;
                    assert(init[i] == key);
                }
            }
            assert(init.contains(key) ==> keys.contains(key)) by {
                if init.contains(key) {
                    let i = choose|i: int| 0 <= i < init.len() && init[i] == key;
                    assert(keys[i] == key);
                }
            }
        }
    }
}

proof fn lemma_shares_step(
    pm: Seq<Option<KeyPress>>,
    qs: Seq<Seq<char>>,
    cs: Seq<usize>,
    kind: int,
    n: int,
)
    requires
        positions_valid(pm),
        pm.len() == 128,
        qs.len() == cs.len(),
        0 <= n <= qs.len(),
        sum_counts(cs) <= usize::MAX,
    ensures
        exists|keys: Seq<u64>|
            enumerates(corpus_high_keys(pm, qs, cs, n, kind), keys) && shares_sum(
                corpus_high_keys(pm, qs, cs, n, kind),
                keys,
            ) == corpus_kind_penalty(pm, qs, cs, n, kind),
        forall|key: u64| #[trigger]
            corpus_high_keys(pm, qs, cs, n, kind).contains_key(key) ==> -160 * sum_counts(cs.take(n))
                <= corpus_high_keys(pm, qs, cs, n, kind)[key] <= 160 * sum_counts(cs.take(n)),
    decreases n,
{
    lemma_sum_counts_prefix(cs, n);
    if n == 0 {
        let keys: Seq<u64> = Seq::empty();
        assert(enumerates(corpus_high_keys(pm, qs, cs, 0, kind), keys));
    } else {
        let i = n - 1;
        lemma_shares_step(pm, qs, cs, kind, i);
        lemma_sum_counts_prefix(cs, i);
        let m = corpus_high_keys(pm, qs, cs, i, kind);
        let keys = choose|keys: Seq<u64>|
            enumerates(m, keys) && shares_sum(m, keys) == corpus_kind_penalty(pm, qs, cs, i, kind);
        let prefix = sum_counts(cs.take(i));
        let count = cs[i] as int;
        let p = quartad_kind_penalty(pm, qs[i], kind);
        let m2 = corpus_high_keys(pm, qs, cs, n, kind);
        match p {
            None => {
                assert(count * applied(p) == 0);
                assert(shares_sum(m2, keys) == corpus_kind_penalty(pm, qs, cs, n, kind));
            },
            Some(v) => {
                let q = qs[i];
                let curr = key_before(pm, q, 0)->0;
                assert(0 <= (q[q.len() - 1] as int) < 128);
                assert(pm[q[q.len() - 1] as int] is Some);
                lemma_kind_penalty_bound(kind, curr, key_before(pm, q, 1), key_before(pm, q, 2), key_before(pm, q, 3));
                let amount = count * v;
                assert(-160 * count <= amount <= 160 * count) by (nonlinear_arith)
                    requires
                        amount == count * v,
                        -160 <= v <= 160,
                        0 <= count,
                ;
                let key = slice_key(q, kind);
                let before = if m.contains_key(key) { m[key] as int } else { 0 };
                assert(-160 * prefix <= before <= 160 * prefix);
                let new_v = (before + amount) as i128;
                assert(new_v == before + amount);
                assert(m2 == m.insert(key, new_v));
                lemma_shares_sum_insert(m, keys, key, new_v);
                if m.contains_key(key) {
                    assert(enumerates(m2, keys));
                    assert(shares_sum(m2, keys) == corpus_kind_penalty(pm, qs, cs, n, kind));
                } else {
                    let keys2 = keys.push(key);
                    assert(keys2.drop_last() =~= keys);
                    assert(keys2.no_duplicates()) by {
                        assert forall|a: int, b: int| 0 <= a < b < keys2.len() implies keys2[a] != keys2[b] by {
                            if b == keys.len() {
                                assert(keys.contains(keys2[a]) ==> keys2[a] != key);
                                assert(keys2[a] == keys[a]);
                            } else {
                                assert(keys2[a] == keys[a] && keys2[b] == keys[b]);
                            }
                        }
                    }
                    assert forall|k2: u64| #[trigger] m2.contains_key(k2) <==> keys2.contains(k2) by {
                        if keys.contains(k2) {
                            let j = choose|j: int| 0 <= j < keys.len() && keys[j] == k2;
                            assert(keys2[j] == k2);
                        }
                        if keys2.contains(k2) && k2 != key {
                            let j = choose|j: int| 0 <= j < keys2.len() && keys2[j] == k2;
                            assert(keys[j] == k2);
                        }
                        assert(keys2[keys.len() as int] == key);
                    }
                    assert(shares_sum(m2, keys2) == shares_sum(m2, keys) + new_v);
                    assert(enumerates(m2, keys2));
                }
            },
        }
    }
}

/// The shares of each kind of penalty add up to its total: on the layout with
/// layers `lower` and `upper`, the runs of keys charged with penalty kind `kind`
/// over the quartads `qs` (counted `cs`) can be listed, each once, so that their
/// shares add up to the kind's total.
pub proof fn lemma_shares_add_up(
    lower: Seq<char>,
    upper: Seq<char>,
    qs: Seq<Seq<char>>,
    cs: Seq<usize>,
    kind: int,
)
    requires
        lower.len() == 33,
        upper.len() == 33,
        qs.len() == cs.len(),
        sum_counts(cs) <= usize::MAX,
    ensures
        ({
            let pm = position_map_spec(lower, upper);
            let m = corpus_high_keys(pm, qs, cs, qs.len() as int, kind);
            exists|keys: Seq<u64>|
                enumerates(m, keys) && shares_sum(m, keys) == corpus_kind_penalty(pm, qs, cs, qs.len() as int, kind)
        }),
{
    let m0 = empty_position_map();
    assert(positions_valid(m0));
    lemma_fill_positions_valid(lower, 33, m0);
    lemma_fill_positions_valid(upper, 33, fill_spec(lower, 33, m0));
    lemma_shares_step(position_map_spec(lower, upper), qs, cs, kind, qs.len() as int);
}


/* ---------------------------------------------------------------- *
 * What each kind of penalty is for.                                 *
 * ---------------------------------------------------------------- */

/// Two keystrokes on different hands incur none of the penalties that look at
/// the last two keystrokes.
pub proof fn lemma_two_key_penalties_need_one_hand(
    curr: KeyPress,
    prev: KeyPress,
    old2: Option<KeyPress>,
    old3: Option<KeyPress>,
    kind: int,
)
    requires
        curr.hand != prev.hand,
        kind == 1 || kind == 2 || kind == 3 || kind == 4 || kind == 5 || kind == 9 || kind == 10,
    ensures
        kind_penalty(kind, curr, Some(prev), old2, old3) is None,
{
}

/// Pressing the same key twice is no same-finger penalty; two different keys on
/// one finger of one hand cost 5 points, and 5 more for each of them in a centre column.
pub proof fn lemma_same_finger(curr: KeyPress, prev: KeyPress, old2: Option<KeyPress>, old3: Option<KeyPress>)
    ensures
        kind_penalty(1, curr, Some(curr), old2, old3) is None,
        curr.hand == prev.hand && curr.finger == prev.finger && curr.pos != prev.pos ==> kind_penalty(
            1,
            curr,
            Some(prev),
            old2,
            old3,
        ) == Some(40 + (if curr.center { 40int } else { 0 }) + (if prev.center { 40int } else { 0 })),
        curr.finger != prev.finger ==> kind_penalty(1, curr, Some(prev), old2, old3) is None,
{
}

/// A jump between the top and the bottom row on one hand costs 1 point whatever
/// the fingers; 10 points more only where the finger is the same. Without such a
/// jump neither applies.
pub proof fn lemma_long_jumps(curr: KeyPress, prev: KeyPress, old2: Option<KeyPress>, old3: Option<KeyPress>)
    requires
        curr.hand == prev.hand,
    ensures
        (curr.row == Row::Top && prev.row == Row::Bottom) || (curr.row == Row::Bottom && prev.row == Row::Top)
            ==> kind_penalty(2, curr, Some(prev), old2, old3) == Some(8int),
        (curr.row == Row::Top && prev.row == Row::Bottom) || (curr.row == Row::Bottom && prev.row == Row::Top)
            ==> kind_penalty(3, curr, Some(prev), old2, old3) == (if curr.finger == prev.finger {
            Some(80int)
        } else {
            None
        }),
        !((curr.row == Row::Top && prev.row == Row::Bottom) || (curr.row == Row::Bottom && prev.row == Row::Top))
            ==> kind_penalty(2, curr, Some(prev), old2, old3) is None && kind_penalty(3, curr, Some(prev), old2, old3)
            is None && kind_penalty(4, curr, Some(prev), old2, old3) is None,
{
}

/// A long jump between the pinky and the ring finger, or the ring and the middle
/// finger, costs 5 points in either order; between the middle and the index finger
/// only from the middle finger on the bottom row to the index finger on the top
/// row; between fingers that are not neighbours, or on one finger, never.
pub proof fn lemma_long_jump_consecutive(
    curr: KeyPress,
    prev: KeyPress,
    old2: Option<KeyPress>,
    old3: Option<KeyPress>,
)
    requires
        curr.hand == prev.hand,
        (curr.row == Row::Top && prev.row == Row::Bottom) || (curr.row == Row::Bottom && prev.row == Row::Top),
    ensures
        ((curr.finger == Finger::Pinky && prev.finger == Finger::Ring) || (curr.finger == Finger::Ring
            && prev.finger == Finger::Pinky) || (curr.finger == Finger::Ring && prev.finger == Finger::Middle)
            || (curr.finger == Finger::Middle && prev.finger == Finger::Ring)) ==> kind_penalty(
            4,
            curr,
            Some(prev),
            old2,
            old3,
        ) == Some(40int),
        curr.finger == Finger::Index && prev.finger == Finger::Middle ==> kind_penalty(4, curr, Some(prev), old2, old3)
            == (if curr.row == Row::Top { Some(40int) } else { None }),
        curr.finger == Finger::Middle && prev.finger == Finger::Index ==> kind_penalty(4, curr, Some(prev), old2, old3)
            is None,
        (finger_rank(curr.finger) - finger_rank(prev.finger) > 1 || finger_rank(prev.finger) - finger_rank(curr.finger)
            > 1 || curr.finger == prev.finger) ==> kind_penalty(4, curr, Some(prev), old2, old3) is None,
{
}

/// The pinky reaching above the ring finger costs 10 points in either order: a
/// ring-finger key on the home or bottom row and a pinky key on the top row of the
/// same hand, one right after the other.
pub proof fn lemma_pinky_ring_twist(ring: KeyPress, pinky: KeyPress, old2: Option<KeyPress>, old3: Option<KeyPress>)
    requires
        ring.hand == pinky.hand,
        ring.finger == Finger::Ring,
        pinky.finger == Finger::Pinky,
        pinky.row == Row::Top,
        ring.row == Row::Home || ring.row == Row::Bottom,
    ensures
        kind_penalty(5, ring, Some(pinky), old2, old3) == Some(80int),
        kind_penalty(5, pinky, Some(ring), old2, old3) == Some(80int),
        kind_penalty(5, ring, Some(pinky), old2, old3) == kind_penalty(5, pinky, Some(ring), old2, old3),
{
}

/// The pinky/ring twist needs the pinky on the top row above a lower ring-finger key.
pub proof fn lemma_pinky_ring_twist_only(curr: KeyPress, prev: KeyPress, old2: Option<KeyPress>, old3: Option<KeyPress>)
    ensures
        kind_penalty(5, curr, Some(prev), old2, old3) is Some ==> {
            ||| curr.finger == Finger::Ring && prev.finger == Finger::Pinky && prev.row == Row::Top && curr.row != Row::Top
            ||| curr.finger == Finger::Pinky && prev.finger == Finger::Ring && curr.row == Row::Top && prev.row != Row::Top
        },
{
}

/// Reversing a roll at the end of the hand costs 20 points, the same read either
/// way: middle, pinky, then ring, or ring, pinky, then middle, on one hand.
pub proof fn lemma_roll_reversal(a: KeyPress, b: KeyPress, c: KeyPress, old3: Option<KeyPress>, old3b: Option<KeyPress>)
    ensures
        kind_penalty(6, a, Some(b), Some(c), old3) == kind_penalty(6, c, Some(b), Some(a), old3b),
        a.hand == b.hand && b.hand == c.hand && b.finger == Finger::Pinky && ((a.finger == Finger::Middle
            && c.finger == Finger::Ring) || (a.finger == Finger::Ring && c.finger == Finger::Middle)) ==> kind_penalty(
            6,
            a,
            Some(b),
            Some(c),
            old3,
        ) == Some(160int),
        b.finger != Finger::Pinky ==> kind_penalty(6, a, Some(b), Some(c), old3) is None,
{
}

/// A twist through the three rows is charged the same read either way, at 10 points.
pub proof fn lemma_twist_reversed(a: KeyPress, b: KeyPress, c: KeyPress, old3: Option<KeyPress>, old3b: Option<KeyPress>)
    ensures
        kind_penalty(12, a, Some(b), Some(c), old3) == kind_penalty(12, c, Some(b), Some(a), old3b),
        kind_penalty(12, a, Some(b), Some(c), old3) is Some ==> kind_penalty(12, a, Some(b), Some(c), old3)
            == Some(80int) && b.row == Row::Home,
        a.hand == b.hand && b.hand == c.hand && a.row == Row::Top && b.row == Row::Home && c.row == Row::Bottom
            && finger_rank(c.finger) < finger_rank(b.finger) && finger_rank(b.finger) < finger_rank(a.finger)
            ==> kind_penalty(12, a, Some(b), Some(c), old3) == Some(80int),
{
}

/// The long jump sandwich looks only at the first and the third keystroke: one
/// finger of one hand jumping between the top and the bottom row, 3 points.
pub proof fn lemma_long_jump_sandwich(
    curr: KeyPress,
    mid: KeyPress,
    other_mid: KeyPress,
    first: KeyPress,
    old3: Option<KeyPress>,
    old3b: Option<KeyPress>,
)
    ensures
        kind_penalty(11, curr, Some(mid), Some(first), old3) == kind_penalty(11, curr, Some(other_mid), Some(first), old3b),
        curr.hand == first.hand && curr.finger == first.finger && ((curr.row == Row::Top && first.row == Row::Bottom) || (
        curr.row == Row::Bottom && first.row == Row::Top)) ==> kind_penalty(11, curr, Some(mid), Some(first), old3)
            == Some(24int),
        curr.finger != first.finger ==> kind_penalty(11, curr, Some(mid), Some(first), old3) is None,
{
}

/// Four keystrokes on one hand cost half a point, and so do four that alternate
/// hands; no four keystrokes do both.
pub proof fn lemma_same_and_alternating_hands(a: KeyPress, b: KeyPress, c: KeyPress, d: KeyPress)
    ensures
        a.hand == b.hand && b.hand == c.hand && c.hand == d.hand ==> kind_penalty(7, a, Some(b), Some(c), Some(d))
            == Some(4int) && kind_penalty(8, a, Some(b), Some(c), Some(d)) is None,
        a.hand != b.hand && b.hand != c.hand && c.hand != d.hand ==> kind_penalty(8, a, Some(b), Some(c), Some(d))
            == Some(4int) && kind_penalty(7, a, Some(b), Some(c), Some(d)) is None,
        !(a.hand == b.hand && b.hand == c.hand && c.hand == d.hand) ==> kind_penalty(7, a, Some(b), Some(c), Some(d))
            is None,
        !(a.hand != b.hand && b.hand != c.hand && c.hand != d.hand) ==> kind_penalty(8, a, Some(b), Some(c), Some(d))
            is None,
{
}

/// On one hand, rolling outwards costs an eighth of a point and rolling inwards
/// earns one; what rolls out one way rolls in the other, and staying on a finger is neither.
pub proof fn lemma_rolls(curr: KeyPress, prev: KeyPress, old2: Option<KeyPress>, old3: Option<KeyPress>)
    requires
        curr.hand == prev.hand,
        curr.finger != Finger::Thumb,
        prev.finger != Finger::Thumb,
    ensures
        kind_penalty(9, curr, Some(prev), old2, old3) is Some <==> kind_penalty(10, prev, Some(curr), old2, old3) is Some,
        kind_penalty(9, curr, Some(prev), old2, old3) is Some ==> kind_penalty(9, curr, Some(prev), old2, old3)
            == Some(1int) && kind_penalty(10, curr, Some(prev), old2, old3) is None,
        kind_penalty(10, curr, Some(prev), old2, old3) is Some ==> kind_penalty(10, curr, Some(prev), old2, old3)
            == Some(-1int),
        curr.finger == prev.finger ==> kind_penalty(9, curr, Some(prev), old2, old3) is None && kind_penalty(
            10,
            curr,
            Some(prev),
            old2,
            old3,
        ) is None,
        curr.finger == Finger::Pinky && prev.finger == Finger::Ring ==> kind_penalty(9, curr, Some(prev), old2, old3)
            == Some(1int),
        curr.finger == Finger::Index && prev.finger == Finger::Middle ==> kind_penalty(10, curr, Some(prev), old2, old3)
            == Some(-1int),
{
}


/// The base penalties mirror each other between the hands, the home row is never
/// dearer than the top or bottom row in the same column, and the home keys of the
/// middle and index fingers (those that are no centre keys) cost nothing.
pub proof fn lemma_base_penalties(c: int)
    requires
        0 <= c <= 4,
    ensures
        base_penalty_table()[c] == base_penalty_table()[9 - c],
        base_penalty_table()[11 + c] == base_penalty_table()[11 + 9 - c],
        base_penalty_table()[22 + c] == base_penalty_table()[22 + 9 - c],
        base_penalty_table()[11 + c] <= base_penalty_table()[c],
        base_penalty_table()[11 + c] <= base_penalty_table()[22 + c],
        base_penalty_table()[11 + 9 - c] <= base_penalty_table()[9 - c],
        base_penalty_table()[11 + 9 - c] <= base_penalty_table()[22 + 9 - c],
        (c == 2 || c == 3) ==> base_penalty_table()[11 + c] == 0 && base_penalty_table()[11 + 9 - c] == 0,
        base_penalty_table()[21] <= base_penalty_table()[10],
        base_penalty_table()[32] == 0,
        base_penalty_table()[4] >= base_penalty_table()[3] && base_penalty_table()[15] >= base_penalty_table()[14]
            && base_penalty_table()[26] >= base_penalty_table()[25],
        base_penalty_table()[0] >= base_penalty_table()[1] && base_penalty_table()[11] >= base_penalty_table()[12]
            && base_penalty_table()[22] >= base_penalty_table()[23],
{
}

/// Each kind of penalty is about the last `slice_len(kind)` keystrokes, the run of
/// keys it is charged to: it applies only where each of them is typed, and does not
/// change with the keystrokes before them.
pub proof fn lemma_kinds_look_at_their_runs(
    kind: int,
    curr: KeyPress,
    old1: Option<KeyPress>,
    old2: Option<KeyPress>,
    old3: Option<KeyPress>,
    other1: Option<KeyPress>,
    other2: Option<KeyPress>,
    other3: Option<KeyPress>,
)
    requires
        0 <= kind < num_kinds(),
    ensures
        slice_len(kind) >= 2 && old1 is None ==> kind_penalty(kind, curr, old1, old2, old3) is None,
        slice_len(kind) >= 3 && old2 is None ==> kind_penalty(kind, curr, old1, old2, old3) is None,
        slice_len(kind) >= 4 && old3 is None ==> kind_penalty(kind, curr, old1, old2, old3) is None,
        slice_len(kind) == 1 ==> kind_penalty(kind, curr, old1, old2, old3) == kind_penalty(kind, curr, other1, other2, other3),
        slice_len(kind) == 2 && old1 is Some ==> kind_penalty(kind, curr, old1, old2, old3) == kind_penalty(
            kind,
            curr,
            old1,
            other2,
            other3,
        ),
        slice_len(kind) == 3 && old1 is Some && old2 is Some ==> kind_penalty(kind, curr, old1, old2, old3) == kind_penalty(
            kind,
            curr,
            old1,
            old2,
            other3,
        ),
        kind == 0 ==> kind_penalty(kind, curr, old1, old2, old3) is Some,
{
}

} // verus!
