//! Data structures and methods for creating and shuffling keyboard layouts.
//!
//! Key positions, as indices into a `KeyMap`:
//!
//! ```text
//!    LEFT HAND   |    RIGHT HAND
//!  0  1  2  3  4 |  5  6  7  8  9 10
//! 11 12 13 14 15 | 16 17 18 19 20 21
//! 22 23 24 25 26 | 27 28 29 30 31
//!
//!             32 (thumb key)
//! ```
use vstd::prelude::*;

verus! {

/// One value per key position.
#[derive(Clone, Copy)]
pub struct KeyMap<T>(pub [T; 33]);

/// The characters that the keys type on one level (unshifted or shifted).
#[derive(Clone, Copy)]
pub struct Layer(pub KeyMap<char>);

/// A layout: the unshifted layer, then the shifted one.
#[derive(Clone, Copy)]
pub struct Layout(pub Layer, pub Layer);

/// Which positions a shuffle may move.
#[derive(Clone, Copy)]
pub struct LayoutShuffleMask(pub KeyMap<bool>);

#[derive(Clone, Copy, PartialEq, Eq, Structural, Debug)]
pub enum Finger {
    Thumb,
    Index,
    Middle,
    Ring,
    Pinky,
}

#[derive(Clone, Copy, PartialEq, Eq, Structural, Debug)]
pub enum Hand {
    Left,
    Right,
}

#[derive(Clone, Copy, PartialEq, Eq, Structural, Debug)]
pub enum Row {
    Top,
    Home,
    Bottom,
    Thumb,
}

/// What it takes to type a character: the key, and the finger, hand and row that press it.
#[derive(Clone, Copy, PartialEq, Eq, Structural, Debug)]
pub struct KeyPress {
    pub kc: char,
    pub pos: usize,
    pub finger: Finger,
    pub hand: Hand,
    pub row: Row,
    /// The key lies in one of the two centre columns, which the index fingers reach sideways.
    pub center: bool,
}

/// For each ASCII character, how it is typed on a layout (`None` where no key types it).
pub struct LayoutPosMap([Option<KeyPress>; 128]);

/* ---------------------------------------------------------------- *
 * The fixed geometry of the keyboard, position by position.         *
 * ---------------------------------------------------------------- */

/// The column of a position within its row (the thumb key has none).
pub open spec fn column_of(pos: int) -> int {
    if pos < 11 {
        pos
    } else if pos < 22 {
        pos - 11
    } else if pos < 32 {
        pos - 22
    } else {
        -1
    }
}

pub open spec fn finger_at(pos: int) -> Finger {
    let c = column_of(pos);
    if pos == 32 {
        Finger::Thumb
    } else if c == 0 || c == 9 || c == 10 {
        Finger::Pinky
    } else if c == 1 || c == 8 {
        Finger::Ring
    } else if c == 2 || c == 7 {
        Finger::Middle
    } else {
        Finger::Index
    }
}

pub open spec fn hand_at(pos: int) -> Hand {
    if pos == 32 || column_of(pos) <= 4 {
        Hand::Left
    } else {
        Hand::Right
    }
}

pub open spec fn row_at(pos: int) -> Row {
    if pos < 11 {
        Row::Top
    } else if pos < 22 {
        Row::Home
    } else if pos < 32 {
        Row::Bottom
    } else {
        Row::Thumb
    }
}

pub open spec fn center_at(pos: int) -> bool {
    pos != 32 && (column_of(pos) == 4 || column_of(pos) == 5)
}

/// The positions that a shuffle may move: all but the two outer right-pinky keys and the thumb key.
pub open spec fn swappable(pos: int) -> bool {
    0 <= pos < 33 && pos != 10 && pos != 21 && pos != 32
}

/// How a character on position `pos` is typed.
pub open spec fn keypress_at(c: char, pos: int) -> KeyPress {
    KeyPress {
        kc: c,
        pos: pos as usize,
        finger: finger_at(pos),
        hand: hand_at(pos),
        row: row_at(pos),
        center: center_at(pos),
    }
}

fn column_exec(pos: usize) -> (c: usize)
    requires
        pos < 32,
    ensures
        c == column_of(pos as int),
{
    if pos < 11 {
        pos
    } else if pos < 22 {
        pos - 11
    } else {
        pos - 22
    }
}

fn finger_exec(pos: usize) -> (f: Finger)
    requires
        pos < 33,
    ensures
        f == finger_at(pos as int),
{
    if pos == 32 {
        return Finger::Thumb;
    }
    let c = column_exec(pos);
    if c == 0 || c == 9 || c == 10 {
        Finger::Pinky
    } else if c == 1 || c == 8 {
        Finger::Ring
    } else if c == 2 || c == 7 {
        Finger::Middle
    } else {
        Finger::Index
    }
}

fn hand_exec(pos: usize) -> (h: Hand)
    requires
        pos < 33,
    ensures
        h == hand_at(pos as int),
{
    if pos == 32 || column_exec(pos) <= 4 {
        Hand::Left
    } else {
        Hand::Right
    }
}

fn row_exec(pos: usize) -> (r: Row)
    requires
        pos < 33,
    ensures
        r == row_at(pos as int),
{
    if pos < 11 {
        Row::Top
    } else if pos < 22 {
        Row::Home
    } else if pos < 32 {
        Row::Bottom
    } else {
        Row::Thumb
    }
}

fn center_exec(pos: usize) -> (b: bool)
    requires
        pos < 33,
    ensures
        b == center_at(pos as int),
{
    if pos == 32 {
        false
    } else {
        let c = column_exec(pos);
        c == 4 || c == 5
    }
}

/// The fingers of the two hands mirror each other: in every row, the key in
/// right-hand column `9 - c` is typed by the same finger as the key in left-hand
/// column `c`; from the outside in, the left hand's columns go to the pinky, the
/// ring finger, the middle finger, and the index finger for the last two. The
/// left-hand columns are typed by the left hand, their mirrors by the right, on
/// the same row; only the two innermost columns are centre columns.
pub proof fn lemma_hands_mirror(row_start: int, c: int)
    requires
        row_start == 0 || row_start == 11 || row_start == 22,
        0 <= c <= 4,
    ensures
        finger_at(row_start + c) == finger_at(row_start + 9 - c),
        c == 0 ==> finger_at(row_start + c) == Finger::Pinky,
        c == 1 ==> finger_at(row_start + c) == Finger::Ring,
        c == 2 ==> finger_at(row_start + c) == Finger::Middle,
        c >= 3 ==> finger_at(row_start + c) == Finger::Index,
        hand_at(row_start + c) == Hand::Left,
        hand_at(row_start + 9 - c) == Hand::Right,
        row_at(row_start + c) == row_at(row_start + 9 - c),
        row_at(row_start + c) == (if row_start == 0 { Row::Top } else if row_start == 11 { Row::Home } else { Row::Bottom }),
        center_at(row_start + c) == (c == 4),
        center_at(row_start + 9 - c) == (c == 4),
{
}

/// The outermost right-hand column, on the top and home rows, is the right pinky's;
/// the thumb key is the left thumb's, on a row of its own.
pub proof fn lemma_outer_and_thumb_keys()
    ensures
        finger_at(10) == Finger::Pinky && hand_at(10) == Hand::Right && row_at(10) == Row::Top && !center_at(10),
        finger_at(21) == Finger::Pinky && hand_at(21) == Hand::Right && row_at(21) == Row::Home && !center_at(21),
        finger_at(32) == Finger::Thumb && hand_at(32) == Hand::Left && row_at(32) == Row::Thumb && !center_at(32),
{
}

/// The key press for character `c` on position `pos`.
pub fn key_press(c: char, pos: usize) -> (kp: KeyPress)
    requires
        pos < 33,
    ensures
        kp == keypress_at(c, pos as int),
{
    KeyPress {
        kc: c,
        pos,
        finger: finger_exec(pos),
        hand: hand_exec(pos),
        row: row_exec(pos),
        center: center_exec(pos),
    }
}

/// The shuffle mask: `true` on the positions that a shuffle may move.
pub fn layout_mask() -> (m: LayoutShuffleMask)
    ensures
        forall|p: int| 0 <= p < 33 ==> m.0.0@[p] == swappable(p),
{
    let m = LayoutShuffleMask(KeyMap([
        true, true, true, true, true, true, true, true, true, true, false,
        true, true, true, true, true, true, true, true, true, true, false,
        true, true, true, true, true, true, true, true, true, true,
        false,
    ]));
    assert forall|p: int| 0 <= p < 33 implies m.0.0@[p] == swappable(p) by {
        assert(m.0.0@[p] == m.0.0[p]);
    }
    m
}

/* ---------------------------------------------------------------- *
 * Swapping and shuffling.                                           *
 * ---------------------------------------------------------------- */

/// `perm` rearranges the key positions: it is a bijection of the positions
/// that leaves every position a shuffle may not move where it is.
pub open spec fn is_shuffle_permutation(perm: Seq<int>) -> bool {
    &&& perm.len() == 33
    &&& forall|p: int| 0 <= p < 33 ==> 0 <= #[trigger] perm[p] < 33
    &&& forall|p: int, q: int| 0 <= p < 33 && 0 <= q < 33 && p != q ==> #[trigger] perm[p] != #[trigger] perm[q]
    &&& forall|p: int| 0 <= p < 33 && !swappable(p) ==> #[trigger] perm[p] == p
}

/// The key contents `keys` rearranged by `perm`: position `p` receives what stood on `perm[p]`.
pub open spec fn permute<T>(keys: Seq<T>, perm: Seq<int>) -> Seq<T> {
    Seq::new(33, |p: int| keys[perm[p]])
}

/// `keys` with the keys on positions `i` and `j` exchanged.
pub open spec fn swap_keys(keys: Seq<char>, i: int, j: int) -> Seq<char> {
    keys.update(i, keys[j]).update(j, keys[i])
}

/// `keys` after the swaps of positions in `swaps`, in order.
pub open spec fn apply_swaps(keys: Seq<char>, swaps: Seq<(int, int)>) -> Seq<char>
    decreases swaps.len(),
{
    if swaps.len() == 0 {
        keys
    } else {
        let (i, j) = swaps.last();
        swap_keys(apply_swaps(keys, swaps.drop_last()), i, j)
    }
}

/// Each swap exchanges two different positions that a shuffle may move.
pub open spec fn are_shuffle_swaps(swaps: Seq<(int, int)>) -> bool {
    forall|k: int|
        0 <= k < swaps.len() ==> (#[trigger] swaps[k]).0 != swaps[k].1 && swappable(swaps[k].0) && swappable(swaps[k].1)
}

/// The identity rearrangement.
pub open spec fn identity_permutation() -> Seq<int> {
    Seq::new(33, |p: int| p)
}

/// The `n`-th (from 0) position that a shuffle may move.
pub open spec fn nth_swappable(n: int) -> int {
    if n < 10 {
        n
    } else if n < 20 {
        n + 1
    } else {
        n + 2
    }
}

/// The number of positions below `k` that a shuffle may not move.
pub open spec fn fixed_below(k: int) -> int {
    (if k > 10 { 1int } else { 0int }) + (if k > 21 { 1int } else { 0int }) + (if k > 32 { 1int } else { 0int })
}

/// The two positions that `Layout::shuffle_position_for` picks from two random numbers.
pub open spec fn shuffle_position_spec(r1: int, r2: int) -> (int, int) {
    let i = r1 % 30;
    let j0 = r2 % 29;
    let j = if j0 >= i { j0 + 1 } else { j0 };
    (nth_swappable(i), nth_swappable(j))
}

/// Calls `rand::random::<usize>()`, which draws a uniformly random `usize` from the
/// thread-local generator; nothing is promised of the value that comes back.
#[verifier::external_body]
pub(crate) fn random_usize() -> usize {
    rand::random::<usize>()
}

impl Layer {
    pub open spec fn keys(&self) -> Seq<char> {
        self.0.0@
    }

    /// Exchanges the characters on positions `i` and `j`.
    pub fn swap(&mut self, i: usize, j: usize)
        requires
            i < 33,
            j < 33,
        ensures
            final(self).keys() == swap_keys(old(self).keys(), i as int, j as int),
    {
        let temp = self.0.0[i];
        self.0.0[i] = self.0.0[j];
        self.0.0[j] = temp;
    }
}

impl Layout {
    pub open spec fn lower(&self) -> Seq<char> {
        self.0.keys()
    }

    pub open spec fn upper(&self) -> Seq<char> {
        self.1.keys()
    }

    /// Picks the `r1 % 30`-th position that may move and a different one, chosen by `r2`.
    pub fn shuffle_position_for(r1: usize, r2: usize) -> (r: (usize, usize))
        ensures
            r.0 == shuffle_position_spec(r1 as int, r2 as int).0,
            r.1 == shuffle_position_spec(r1 as int, r2 as int).1,
            r.0 != r.1,
            swappable(r.0 as int),
            swappable(r.1 as int),
    {
        let mask = layout_mask();
        let mut i: usize = r1 % 30;
        let mut j: usize = r2 % 29;
        if j >= i {
            j += 1;
        }
        let ghost i0 = i as int;
        let ghost j0 = j as int;
        let mut k: usize = 0;
        while k <= i
            invariant
                0 <= i0 < 30,
                forall|p: int| 0 <= p < 33 ==> mask.0.0@[p] == swappable(p),
                i == i0 + fixed_below(k as int),
                k <= i + 1,
                k <= nth_swappable(i0) + 1,
            decreases 33 - k,
        {
            assert(mask.0.0@[k as int] == swappable(k as int));
            assert(fixed_below(k as int + 1) == fixed_below(k as int) + (if swappable(k as int) { 0int } else { 1int }));
            if mask.0.0[k] == false {
                i += 1;
            }
            k += 1;
        }
        k = 0;
        while k <= j
            invariant
                0 <= j0 < 30,
                forall|p: int| 0 <= p < 33 ==> mask.0.0@[p] == swappable(p),
                j == j0 + fixed_below(k as int),
                k <= j + 1,
                k <= nth_swappable(j0) + 1,
            decreases 33 - k,
        {
            assert(mask.0.0@[k as int] == swappable(k as int));
            assert(fixed_below(k as int + 1) == fixed_below(k as int) + (if swappable(k as int) { 0int } else { 1int }));
            if mask.0.0[k] == false {
                j += 1;
            }
            k += 1;
        }
        (i, j)
    }

    /// Two different positions that a shuffle may move, chosen at random.
    fn shuffle_position() -> (r: (usize, usize))
        ensures
            r.0 != r.1,
            swappable(r.0 as int),
            swappable(r.1 as int),
    {
        let r1 = random_usize();
        let r2 = random_usize();
        Layout::shuffle_position_for(r1, r2)
    }

    /// Swaps `times` random pairs of movable keys, on both layers alike.
    pub fn shuffle(&mut self, times: usize)
        ensures
            times == 0 ==> *final(self) == *old(self),
            exists|swaps: Seq<(int, int)>|
                swaps.len() == times && are_shuffle_swaps(swaps) && final(self).lower() == apply_swaps(
                    old(self).lower(),
                    swaps,
                ) && final(self).upper() == apply_swaps(old(self).upper(), swaps),
            exists|perm: Seq<int>|
                is_shuffle_permutation(perm) && final(self).lower() == permute(old(self).lower(), perm)
                    && final(self).upper() == permute(old(self).upper(), perm),
    {
        let ghost perm = identity_permutation();
        let ghost swaps: Seq<(int, int)> = Seq::empty();
        let ghost lower0 = self.lower();
        let ghost upper0 = self.upper();
        assert(self.lower() =~= permute(lower0, perm));
        assert(self.upper() =~= permute(upper0, perm));
        for step in 0..times
            invariant
                times == 0 ==> *self == *old(self),
                is_shuffle_permutation(perm),
                swaps.len() == step,
                are_shuffle_swaps(swaps),
                self.lower() == apply_swaps(lower0, swaps),
                self.upper() == apply_swaps(upper0, swaps),
                self.lower() == permute(lower0, perm),
                self.upper() == permute(upper0, perm),
                lower0.len() == 33,
                upper0.len() == 33,
        {
            let (i, j) = Layout::shuffle_position();
            self.0.swap(i, j);
            self.1.swap(i, j);
            proof {
                let s0 = swaps;
                swaps = s0.push((i as int, j as int));
                assert(swaps.drop_last() =~= s0);
                let p0 = perm;
                perm = p0.update(i as int, p0[j as int]).update(j as int, p0[i as int]);
                assert(self.lower() =~= permute(lower0, perm));
                assert(self.upper() =~= permute(upper0, perm));
                assert forall|p: int, q: int| 0 <= p < 33 && 0 <= q < 33 && p != q implies #[trigger] perm[p]
                    != #[trigger] perm[q] by {
                    let pp = if p == i { j as int } else if p == j { i as int } else { p };
                    let qq = if q == i { j as int } else if q == j { i as int } else { q };
                    assert(perm[p] == p0[pp]);
                    assert(perm[q] == p0[qq]);
                    assert(p0[pp] != p0[qq]);
                }
            }
        }
        assert(is_shuffle_permutation(perm));
    }
}

/* ---------------------------------------------------------------- *
 * Where each character is typed.                                    *
 * ---------------------------------------------------------------- */

/// The entry of a position map for character `c`: what `LayoutPosMap::get_key_position` gives.
pub open spec fn lookup(map: Seq<Option<KeyPress>>, c: char) -> Option<KeyPress> {
    if 0 <= (c as int) < 128 {
        map[c as int]
    } else {
        None
    }
}

/// `map` after the first `n` positions of `keys` were entered in order: each ASCII
/// character on position `p` gets the key press of `p`, later positions overwriting earlier ones.
pub open spec fn fill_spec(keys: Seq<char>, n: int, map: Seq<Option<KeyPress>>) -> Seq<Option<KeyPress>>
    decreases n,
{
    if n <= 0 {
        map
    } else {
        let m = fill_spec(keys, n - 1, map);
        let c = keys[n - 1];
        if 0 <= (c as int) < 128 {
            m.update(c as int, Some(keypress_at(c, n - 1)))
        } else {
            m
        }
    }
}

/// The map with no character on it.
pub open spec fn empty_position_map() -> Seq<Option<KeyPress>> {
    Seq::new(128, |c: int| None)
}

/// The position map of a layout: the unshifted layer entered first, then the shifted one.
pub open spec fn position_map_spec(lower: Seq<char>, upper: Seq<char>) -> Seq<Option<KeyPress>> {
    fill_spec(upper, 33, fill_spec(lower, 33, empty_position_map()))
}

/// The last position below `n` that holds `c` (or -1 where none does).
pub open spec fn last_position(keys: Seq<char>, c: char, n: int) -> int
    decreases n,
{
    if n <= 0 {
        -1
    } else if keys[n - 1] == c {
        n - 1
    } else {
        last_position(keys, c, n - 1)
    }
}

proof fn lemma_last_position(keys: Seq<char>, c: char, n: int)
    requires
        0 <= n <= keys.len(),
    ensures
        -1 <= last_position(keys, c, n) < n,
        last_position(keys, c, n) >= 0 ==> keys[last_position(keys, c, n)] == c,
        forall|q: int| last_position(keys, c, n) < q < n ==> keys[q] != c,
    decreases n,
{
    if n > 0 {
        lemma_last_position(keys, c, n - 1);
    }
}

proof fn lemma_fill_spec(keys: Seq<char>, n: int, map: Seq<Option<KeyPress>>, c: char)
    requires
        0 <= n <= keys.len(),
        map.len() == 128,
        0 <= (c as int) < 128,
    ensures
        fill_spec(keys, n, map).len() == 128,
        fill_spec(keys, n, map)[c as int] == (if last_position(keys, c, n) >= 0 {
            Some(keypress_at(c, last_position(keys, c, n)))
        } else {
            map[c as int]
        }),
    decreases n,
{
    if n > 0 {
        lemma_fill_spec(keys, n - 1, map, c);
    }
}

/// Reading the position map gives back what the layout holds: an ASCII character is typed
/// by the last key of the shifted layer that holds it, or else by the last key of the
/// unshifted layer that holds it; a character that neither layer holds, and any
/// non-ASCII character, is typed by no key.
pub proof fn lemma_position_map_lookup(layout: Layout, c: char)
    ensures
        ({
            let pm = position_map_spec(layout.lower(), layout.upper());
            let up = last_position(layout.upper(), c, 33);
            let lo = last_position(layout.lower(), c, 33);
            lookup(pm, c) == (if !(0 <= (c as int) < 128) {
                None
            } else if up >= 0 {
                Some(keypress_at(c, up))
            } else if lo >= 0 {
                Some(keypress_at(c, lo))
            } else {
                None::<KeyPress>
            })
        }),
        last_position(layout.upper(), c, 33) >= 0 ==> layout.upper()[last_position(layout.upper(), c, 33)] == c,
        last_position(layout.lower(), c, 33) >= 0 ==> layout.lower()[last_position(layout.lower(), c, 33)] == c,
        last_position(layout.upper(), c, 33) < 0 ==> !layout.upper().contains(c),
        last_position(layout.lower(), c, 33) < 0 ==> !layout.lower().contains(c),
{
    lemma_last_position(layout.upper(), c, 33);
    lemma_last_position(layout.lower(), c, 33);
    if 0 <= (c as int) < 128 {
        let m0 = empty_position_map();
        lemma_fill_spec(layout.lower(), 33, m0, c);
        lemma_fill_spec(layout.upper(), 33, fill_spec(layout.lower(), 33, m0), c);
    }
}

/// Entering the same layer into a position map a second time changes nothing.
pub proof fn lemma_fill_twice(keys: Seq<char>, map: Seq<Option<KeyPress>>)
    requires
        keys.len() == 33,
        map.len() == 128,
    ensures
        fill_spec(keys, 33, fill_spec(keys, 33, map)) == fill_spec(keys, 33, map),
{
    let once = fill_spec(keys, 33, map);
    lemma_fill_positions_len(keys, 33, map);
    lemma_fill_positions_len(keys, 33, once);
    assert forall|i: int| 0 <= i < 128 implies fill_spec(keys, 33, once)[i] == once[i] by {
        let c = i as char;
        assert(c as int == i);
        lemma_fill_spec(keys, 33, map, c);
        lemma_fill_spec(keys, 33, once, c);
    }
    assert(fill_spec(keys, 33, once) =~= once);
}

proof fn lemma_fill_positions_len(keys: Seq<char>, n: int, map: Seq<Option<KeyPress>>)
    requires
        0 <= n <= keys.len(),
        map.len() == 128,
    ensures
        fill_spec(keys, n, map).len() == 128,
    decreases n,
{
    if n > 0 {
        lemma_fill_positions_len(keys, n - 1, map);
    }
}

/// A layout whose keys are all different across both layers, and all ASCII.
pub open spec fn has_distinct_ascii_keys(layout: Layout) -> bool {
    let all = layout.lower() + layout.upper();
    &&& forall|p: int| 0 <= p < 66 ==> 0 <= (#[trigger] all[p] as int) < 128
    &&& forall|p: int, q: int| 0 <= p < q < 66 ==> #[trigger] all[p] != #[trigger] all[q]
}

proof fn lemma_last_position_unique(keys: Seq<char>, c: char, p: int)
    requires
        keys.len() == 33,
        0 <= p < 33,
        keys[p] == c,
        forall|q: int| 0 <= q < 33 && q != p ==> keys[q] != c,
    ensures
        last_position(keys, c, 33) == p,
{
    lemma_last_position(keys, c, 33);
    if last_position(keys, c, 33) != p {
        assert(keys[p] != c);
    }
}

/// On a layout whose keys are all different and ASCII, every key is found on its own position.
pub proof fn lemma_position_map_finds_every_key(layout: Layout, p: int)
    requires
        has_distinct_ascii_keys(layout),
        0 <= p < 33,
    ensures
        lookup(position_map_spec(layout.lower(), layout.upper()), layout.lower()[p]) == Some(
            keypress_at(layout.lower()[p], p),
        ),
        lookup(position_map_spec(layout.lower(), layout.upper()), layout.upper()[p]) == Some(
            keypress_at(layout.upper()[p], p),
        ),
{
    let lo = layout.lower();
    let up = layout.upper();
    let all = lo + up;
    assert(all[p] == lo[p]);
    assert(all[p + 33] == up[p]);
    assert forall|q: int| 0 <= q < 33 && q != p implies lo[q] != lo[p] by {
        assert(all[q] == lo[q]);
    }
    assert forall|q: int| 0 <= q < 33 && q != p implies up[q] != up[p] by {
        assert(all[q + 33] == up[q]);
    }
    assert forall|q: int| 0 <= q < 33 implies up[q] != lo[p] by {
        assert(all[q + 33] == up[q]);
    }
    lemma_last_position_unique(lo, lo[p], p);
    lemma_last_position_unique(up, up[p], p);
    lemma_last_position(up, lo[p], 33);
    lemma_position_map_lookup(layout, lo[p]);
    lemma_position_map_lookup(layout, up[p]);
}

/// Swapping two keys twice puts them back.
pub proof fn lemma_swap_twice(keys: Seq<char>, i: int, j: int)
    requires
        0 <= i < keys.len(),
        0 <= j < keys.len(),
    ensures
        ({
            let once = keys.update(i, keys[j]).update(j, keys[i]);
            once.update(i, once[j]).update(j, once[i]) == keys
        }),
{
    let once = keys.update(i, keys[j]).update(j, keys[i]);
    assert(once.update(i, once[j]).update(j, once[i]) =~= keys);
}

/// The ASCII code of `c`, or `None` where `c` is not ASCII.
pub fn ascii_code(c: char) -> (r: Option<usize>)
    ensures
        match r {
            Some(k) => k < 128 && k as int == c as int,
            None => !(0 <= (c as int) < 128),
        },
{
    let code = c as u32;
    if code < 128 {
        Some(code as usize)
    } else {
        None
    }
}

impl Layer {
    /// Enters this layer's ASCII characters into `map`.
    fn fill_position_map(&self, map: &mut [Option<KeyPress>; 128])
        ensures
            final(map)@ == fill_spec(self.keys(), 33, old(map)@),
    {
        let ghost map0 = map@;
        let mut i: usize = 0;
        while i < 33
            invariant
                i <= 33,
                map@ == fill_spec(self.keys(), i as int, map0),
                map@.len() == 128,
            decreases 33 - i,
        {
            let c = self.0.0[i];
            if let Some(code) = ascii_code(c) {
                map[code] = Some(key_press(c, i));
            }
            i += 1;
        }
    }
}

impl Layout {
    /// For each ASCII character, the key press that types it on this layout.
    pub fn get_position_map(&self) -> (pm: LayoutPosMap)
        ensures
            pm@ == position_map_spec(self.lower(), self.upper()),
    {
        let mut map: [Option<KeyPress>; 128] = [None; 128];
        assert(map@ =~= empty_position_map());
        self.0.fill_position_map(&mut map);
        self.1.fill_position_map(&mut map);
        proof {
            lemma_fill_positions_valid(self.lower(), 33, empty_position_map());
            lemma_fill_positions_valid(self.upper(), 33, fill_spec(self.lower(), 33, empty_position_map()));
        }
        LayoutPosMap(map)
    }
}

impl View for LayoutPosMap {
    type V = Seq<Option<KeyPress>>;

    closed spec fn view(&self) -> Seq<Option<KeyPress>> {
        self.0@
    }
}

/// Every key press in `map` is on a key position.
pub open spec fn positions_valid(map: Seq<Option<KeyPress>>) -> bool {
    forall|c: int| 0 <= c < map.len() && (#[trigger] map[c]) is Some ==> map[c]->0.pos < 33
}

pub(crate) proof fn lemma_fill_positions_valid(keys: Seq<char>, n: int, map: Seq<Option<KeyPress>>)
    requires
        0 <= n <= keys.len(),
        keys.len() == 33,
        map.len() == 128,
        positions_valid(map),
    ensures
        positions_valid(fill_spec(keys, n, map)),
        fill_spec(keys, n, map).len() == 128,
    decreases n,
{
    if n > 0 {
        lemma_fill_positions_valid(keys, n - 1, map);
    }
}

impl LayoutPosMap {
    #[verifier::type_invariant]
    closed spec fn keys_on_positions(&self) -> bool {
        positions_valid(self.0@)
    }

    /// How `kc` is typed; `None` for a character that no key types, and for any non-ASCII one.
    pub fn get_key_position(&self, kc: char) -> (r: Option<KeyPress>)
        ensures
            r == lookup(self@, kc),
            r matches Some(kp) ==> kp.pos < 33,
    {
        proof {
            use_type_invariant(self);
        }
        if let Some(code) = ascii_code(kc) {
            self.0[code]
        } else {
            None
        }
    }
}

/* ---------------------------------------------------------------- *
 * Every layout within a number of swaps.                            *
 * ---------------------------------------------------------------- */

/// The pair `(a, b)`, `a < b < 30`, of ranks of movable positions that number `p`
/// in lexicographic order, counting from the pairs whose first rank is `a`.
pub open spec fn pair_from(p: int, a: int) -> (int, int)
    decreases 29 - a,
{
    if a >= 29 || p < 29 - a {
        (a, a + 1 + p)
    } else {
        pair_from(p - (29 - a), a + 1)
    }
}

/// How many pairs of ranks have a first rank from `a` on.
pub open spec fn pairs_from(a: int) -> int
    decreases 29 - a,
{
    if a >= 29 {
        0
    } else {
        (29 - a) + pairs_from(a + 1)
    }
}

proof fn lemma_pair_from(p: int, a: int)
    requires
        0 <= a < 29,
        0 <= p < pairs_from(a),
    ensures
        a <= pair_from(p, a).0 < pair_from(p, a).1 < 30,
    decreases 29 - a,
{
    assert(pairs_from(29) == 0);
    if p >= 29 - a {
        lemma_pair_from(p - (29 - a), a + 1);
    }
}

/// The ranks of the pair of movable positions numbered `p` (below 435).
fn pair_of(p: usize) -> (r: (usize, usize))
    requires
        p < 435,
    ensures
        (r.0 as int, r.1 as int) == pair_from(p as int, 0),
        r.0 < r.1 < 30,
{
    let mut a: usize = 0;
    let mut rest: usize = p;
    proof {
        reveal_with_fuel(pairs_from, 30);
        assert(pairs_from(0) == 435);
        lemma_pair_from(p as int, 0);
    }
    while a < 29 && rest >= 29 - a
        invariant
            a <= 29,
            pair_from(rest as int, a as int) == pair_from(p as int, 0),
            a < 29 ==> rest < pairs_from(a as int),
            a == 29 ==> rest == 0,
        decreases 29 - a,
    {
        rest = rest - (29 - a);
        a = a + 1;
        proof {
            assert(pairs_from(29) == 0);
        }
    }
    proof {
        if a < 29 {
            lemma_pair_from(rest as int, a as int);
        }
    }
    (a, a + 1 + rest)
}

/// The layers of the layout that `index` numbers among those reached from the
/// layers `lower` and `upper` by `depth` swaps: the digits of `index` in base
/// 435, lowest first, number the pairs of movable keys swapped, one swap per digit
/// (see `pair_from`); `None` where `index` has more than `depth` digits.
pub open spec fn permutation_keys(lower: Seq<char>, upper: Seq<char>, depth: nat, index: int) -> Option<
    (Seq<char>, Seq<char>),
>
    decreases depth,
{
    if depth == 0 {
        if index == 0 {
            Some((lower, upper))
        } else {
            None
        }
    } else {
        let (a, b) = pair_from(index % 435, 0);
        let i = nth_swappable(a);
        let j = nth_swappable(b);
        permutation_keys(swap_keys(lower, i, j), swap_keys(upper, i, j), (depth - 1) as nat, index / 435)
    }
}

/// The layout that `index` numbers among those reached from `layout` by `depth` swaps.
fn permutation_at(layout: &Layout, depth: usize, index: usize) -> (r: Option<Layout>)
    ensures
        match permutation_keys(layout.lower(), layout.upper(), depth as nat, index as int) {
            None => r is None,
            Some(keys) => r matches Some(l) && l.lower() == keys.0 && l.upper() == keys.1,
        },
    decreases depth,
{
    if depth == 0 {
        if index == 0 {
            Some(*layout)
        } else {
            None
        }
    } else {
        let (a, b) = pair_of(index % 435);
        let (i, j) = (nth_movable(a), nth_movable(b));
        let mut next = *layout;
        next.0.swap(i, j);
        next.1.swap(i, j);
        permutation_at(&next, depth - 1, index / 435)
    }
}

/// The rearrangement that exchanges positions `i` and `j`.
pub open spec fn swap_permutation(i: int, j: int) -> Seq<int> {
    identity_permutation().update(i, j).update(j, i)
}

/// `perm2` after `perm1`: position `p` receives what `perm1` puts where `perm2` takes from.
pub open spec fn compose(perm1: Seq<int>, perm2: Seq<int>) -> Seq<int> {
    Seq::new(33, |p: int| perm1[perm2[p]])
}

proof fn lemma_compose(keys: Seq<char>, perm1: Seq<int>, perm2: Seq<int>)
    requires
        keys.len() == 33,
        is_shuffle_permutation(perm1),
        is_shuffle_permutation(perm2),
    ensures
        is_shuffle_permutation(compose(perm1, perm2)),
        permute(permute(keys, perm1), perm2) == permute(keys, compose(perm1, perm2)),
{
    let c = compose(perm1, perm2);
    assert forall|p: int, q: int| 0 <= p < 33 && 0 <= q < 33 && p != q implies #[trigger] c[p] != #[trigger] c[q] by {
        assert(perm2[p] != perm2[q]);
    }
    assert(permute(permute(keys, perm1), perm2) =~= permute(keys, c));
}

proof fn lemma_swap_permutation(keys: Seq<char>, i: int, j: int)
    requires
        keys.len() == 33,
        swappable(i),
        swappable(j),
    ensures
        is_shuffle_permutation(swap_permutation(i, j)),
        swap_keys(keys, i, j) == permute(keys, swap_permutation(i, j)),
{
    let sp = swap_permutation(i, j);
    assert forall|p: int, q: int| 0 <= p < 33 && 0 <= q < 33 && p != q implies #[trigger] sp[p] != #[trigger] sp[q] by {
    }
    assert(swap_keys(keys, i, j) =~= permute(keys, sp));
}

/// Every layout reached by swaps is a rearrangement of the movable keys, alike on both layers.
pub proof fn lemma_permutation_rearranges(lower: Seq<char>, upper: Seq<char>, depth: nat, index: int)
    requires
        lower.len() == 33,
        upper.len() == 33,
    ensures
        permutation_keys(lower, upper, depth, index) matches Some(keys) ==> exists|perm: Seq<int>|
            is_shuffle_permutation(perm) && keys.0 == permute(lower, perm) && keys.1 == permute(upper, perm),
    decreases depth,
{
    if depth == 0 {
        let id = identity_permutation();
        assert(lower =~= permute(lower, id));
        assert(upper =~= permute(upper, id));
        assert(is_shuffle_permutation(id));
    } else {
        let (a, b) = pair_from(index % 435, 0);
        reveal_with_fuel(pairs_from, 30);
        lemma_pair_from(index % 435, 0);
        let i = nth_swappable(a);
        let j = nth_swappable(b);
        let lo = swap_keys(lower, i, j);
        let up = swap_keys(upper, i, j);
        lemma_permutation_rearranges(lo, up, (depth - 1) as nat, index / 435);
        if let Some(keys) = permutation_keys(lower, upper, depth, index) {
            let perm2 = choose|perm: Seq<int>|
                is_shuffle_permutation(perm) && keys.0 == permute(lo, perm) && keys.1 == permute(up, perm);
            lemma_swap_permutation(lower, i, j);
            lemma_swap_permutation(upper, i, j);
            let sp = swap_permutation(i, j);
            lemma_compose(lower, sp, perm2);
            lemma_compose(upper, sp, perm2);
            assert(is_shuffle_permutation(compose(sp, perm2)));
        }
    }
}

proof fn lemma_permutation_first(lower: Seq<char>, upper: Seq<char>, depth: nat)
    ensures
        permutation_keys(lower, upper, depth, 0) is Some,
    decreases depth,
{
    if depth > 0 {
        let (a, b) = pair_from(0, 0);
        let i = nth_swappable(a);
        let j = nth_swappable(b);
        lemma_permutation_first(swap_keys(lower, i, j), swap_keys(upper, i, j), (depth - 1) as nat);
    }
}

/// Walks through every layout within `depth` swaps of two movable keys of
/// `orig_layout`: those reached by no swap, then by one, and so on up to `depth`,
/// each number of swaps in the order of `permutation_keys`. It stands at number
/// `next_index` among the layouts reached by `current_depth` swaps.
pub struct LayoutPermutations {
    pub orig_layout: Layout,
    pub depth: usize,
    pub current_depth: usize,
    pub next_index: usize,
    pub done: bool,
}

impl LayoutPermutations {
    pub fn new(layout: &Layout, depth: usize) -> (r: LayoutPermutations)
        ensures
            r.orig_layout == *layout,
            r.depth == depth,
            r.current_depth == 0,
            r.next_index == 0,
            !r.done,
    {
        LayoutPermutations { orig_layout: *layout, depth, current_depth: 0, next_index: 0, done: false }
    }

    /// Moves past the layout numbered `next_index`, on to the next number of swaps
    /// where the numbers run out.
    fn advance(&mut self)
        ensures
            final(self).orig_layout == old(self).orig_layout,
            final(self).depth == old(self).depth,
            old(self).next_index < usize::MAX ==> final(self).next_index == old(self).next_index + 1
                && final(self).current_depth == old(self).current_depth && final(self).done == old(self).done,
    {
        if self.next_index == usize::MAX {
            if self.current_depth >= self.depth {
                self.done = true;
            } else {
                self.current_depth = self.current_depth + 1;
                self.next_index = 0;
            }
        } else {
            self.next_index = self.next_index + 1;
        }
    }

    /// The next layout, or `None` once all are done. Every layout it gives is a
    /// rearrangement of the movable keys of `orig_layout`, alike on both layers.
    pub fn next(&mut self) -> (r: Option<Layout>)
        ensures
            final(self).orig_layout == old(self).orig_layout,
            final(self).depth == old(self).depth,
            old(self).done ==> r is None,
            !old(self).done ==> match permutation_keys(
                old(self).orig_layout.lower(),
                old(self).orig_layout.upper(),
                old(self).current_depth as nat,
                old(self).next_index as int,
            ) {
                Some(keys) => r matches Some(l) && l.lower() == keys.0 && l.upper() == keys.1,
                None => if old(self).current_depth < old(self).depth {
                    permutation_keys(
                        old(self).orig_layout.lower(),
                        old(self).orig_layout.upper(),
                        (old(self).current_depth + 1) as nat,
                        0,
                    ) matches Some(keys) && r matches Some(l) && l.lower() == keys.0 && l.upper() == keys.1
                        && final(self).current_depth == old(self).current_depth + 1 && final(self).next_index == 1
                } else {
                    r is None && final(self).done
                },
            },
            r matches Some(l) ==> exists|perm: Seq<int>|
                is_shuffle_permutation(perm) && l.lower() == permute(old(self).orig_layout.lower(), perm)
                    && l.upper() == permute(old(self).orig_layout.upper(), perm),
            r is Some && old(self).next_index < usize::MAX && permutation_keys(
                old(self).orig_layout.lower(),
                old(self).orig_layout.upper(),
                old(self).current_depth as nat,
                old(self).next_index as int,
            ) is Some ==> final(self).next_index == old(self).next_index + 1 && final(self).current_depth
                == old(self).current_depth && !final(self).done,
    {
        if self.done {
            return None;
        }
        proof {
            lemma_permutation_rearranges(
                self.orig_layout.lower(),
                self.orig_layout.upper(),
                self.current_depth as nat,
                self.next_index as int,
            );
        }
        match permutation_at(&self.orig_layout, self.current_depth, self.next_index) {
            Some(l) => {
                self.advance();
                Some(l)
            },
            None => {
                if self.current_depth >= self.depth {
                    self.done = true;
                    return None;
                }
                self.current_depth = self.current_depth + 1;
                self.next_index = 0;
                proof {
                    lemma_permutation_first(self.orig_layout.lower(), self.orig_layout.upper(), self.current_depth as nat);
                    lemma_permutation_rearranges(
                        self.orig_layout.lower(),
                        self.orig_layout.upper(),
                        self.current_depth as nat,
                        0,
                    );
                }
                let r = permutation_at(&self.orig_layout, self.current_depth, 0);
                self.advance();
                r
            },
        }
    }
}

/// The position of the `n`-th movable key.
fn nth_movable(n: usize) -> (p: usize)
    requires
        n < 30,
    ensures
        p == nth_swappable(n as int),
        swappable(p as int),
{
    if n < 10 {
        n
    } else if n < 20 {
        n + 1
    } else {
        n + 2
    }
}

/* ---------------------------------------------------------------- *
 * Showing a layout.                                                 *
 * ---------------------------------------------------------------- */

/// The keys on positions `a` up to (not including) `b`, separated by single spaces.
pub open spec fn spaced(keys: Seq<char>, a: int, b: int) -> Seq<char>
    decreases b - a,
{
    if b <= a {
        Seq::empty()
    } else if b == a + 1 {
        seq![keys[a]]
    } else {
        spaced(keys, a, b - 1) + seq![' ', keys[b - 1]]
    }
}

/// One row of keys: the left hand's from `a`, a bar, then the right hand's up to `b`.
pub open spec fn row_text(keys: Seq<char>, a: int, mid: int, b: int) -> Seq<char> {
    spaced(keys, a, mid) + seq![' ', '|', ' '] + spaced(keys, mid, b)
}

/// A layer as text: its three rows, one per line, then the thumb key on a line of its own.
pub open spec fn layer_text(keys: Seq<char>) -> Seq<char> {
    row_text(keys, 0, 5, 11) + seq!['\n'] + row_text(keys, 11, 16, 22) + seq!['\n'] + row_text(keys, 22, 27, 32)
        + seq!['\n', ' ', ' ', ' ', ' ', ' ', ' ', ' ', ' ', keys[32]]
}

/// Appends the keys on positions `a` to `b`, separated by single spaces.
fn push_spaced(out: &mut Vec<char>, keys: &[char; 33], a: usize, b: usize)
    requires
        a < b <= 33,
    ensures
        final(out)@ == old(out)@ + spaced(keys@, a as int, b as int),
{
    let ghost start = out@;
    out.push(keys[a]);
    let mut i: usize = a + 1;
    assert(out@ =~= start + spaced(keys@, a as int, i as int));
    while i < b
        invariant
            a < i <= b <= 33,
            out@ == start + spaced(keys@, a as int, i as int),
        decreases b - i,
    {
        out.push(' ');
        out.push(keys[i]);
        i += 1;
        assert(out@ =~= start + spaced(keys@, a as int, i as int));
    }
}

fn push_row(out: &mut Vec<char>, keys: &[char; 33], a: usize, mid: usize, b: usize)
    requires
        a < mid < b <= 33,
    ensures
        final(out)@ == old(out)@ + row_text(keys@, a as int, mid as int, b as int),
{
    let ghost start = out@;
    push_spaced(out, keys, a, mid);
    out.push(' ');
    out.push('|');
    out.push(' ');
    push_spaced(out, keys, mid, b);
    assert(out@ =~= start + row_text(keys@, a as int, mid as int, b as int));
}

impl Layer {
    /// The layer as text (see `layer_text`).
    pub fn display_chars(&self) -> (text: Vec<char>)
        ensures
            text@ == layer_text(self.keys()),
    {
        let keys = &self.0.0;
        let mut out: Vec<char> = Vec::new();
        push_row(&mut out, keys, 0, 5, 11);
        out.push('\n');
        push_row(&mut out, keys, 11, 16, 22);
        out.push('\n');
        push_row(&mut out, keys, 22, 27, 32);
        out.push('\n');
        let mut n: usize = 0;
        let ghost before = out@;
        while n < 8
            invariant
                n <= 8,
                out@ == before + Seq::new(n as nat, |i: int| ' '),
            decreases 8 - n,
        {
            out.push(' ');
            n += 1;
            assert(out@ =~= before + Seq::new(n as nat, |i: int| ' '));
        }
        out.push(keys[32]);
        assert(out@ =~= layer_text(self.keys()));
        out
    }
}

impl Layout {
    /// The layout as text: its unshifted layer.
    pub fn display_chars(&self) -> (text: Vec<char>)
        ensures
            text@ == layer_text(self.lower()),
    {
        self.0.display_chars()
    }
}

} // verus!
