use keygen::layout::{
    key_press, layout_mask, Finger, Hand, KeyMap, Layer, Layout, LayoutPermutations, Row,
};

fn qwerty() -> Layout {
    Layout(
        Layer(KeyMap([
            'q', 'w', 'e', 'r', 't', 'y', 'u', 'i', 'o', 'p', '-', //
            'a', 's', 'd', 'f', 'g', 'h', 'j', 'k', 'l', ';', '\'', //
            'z', 'x', 'c', 'v', 'b', 'n', 'm', ',', '.', '/', //
            '\0',
        ])),
        Layer(KeyMap([
            'Q', 'W', 'E', 'R', 'T', 'Y', 'U', 'I', 'O', 'P', '_', //
            'A', 'S', 'D', 'F', 'G', 'H', 'J', 'K', 'L', ':', '"', //
            'Z', 'X', 'C', 'V', 'B', 'N', 'M', '<', '>', '?', //
            '\0',
        ])),
    )
}

fn pairs(layout: &Layout) -> Vec<(char, char)> {
    let mut v: Vec<(char, char)> = (0..33).map(|p| ((layout.0).0 .0[p], (layout.1).0 .0[p])).collect();
    v.sort();
    v
}

#[test]
fn key_press_geometry() {
    let kp = key_press('t', 4);
    assert_eq!(kp.kc, 't');
    assert_eq!(kp.pos, 4);
    assert_eq!(kp.finger, Finger::Index);
    assert_eq!(kp.hand, Hand::Left);
    assert_eq!(kp.row, Row::Top);
    assert!(kp.center);

    let kp = key_press('d', 13);
    assert_eq!(kp.finger, Finger::Middle);
    assert_eq!(kp.hand, Hand::Left);
    assert_eq!(kp.row, Row::Home);
    assert!(!kp.center);

    let kp = key_press('\'', 21);
    assert_eq!(kp.finger, Finger::Pinky);
    assert_eq!(kp.hand, Hand::Right);
    assert_eq!(kp.row, Row::Home);

    let kp = key_press('n', 27);
    assert_eq!(kp.finger, Finger::Index);
    assert_eq!(kp.hand, Hand::Right);
    assert_eq!(kp.row, Row::Bottom);
    assert!(kp.center);

    let kp = key_press('e', 32);
    assert_eq!(kp.finger, Finger::Thumb);
    assert_eq!(kp.hand, Hand::Left);
    assert_eq!(kp.row, Row::Thumb);
    assert!(!kp.center);
}

#[test]
fn mask_fixes_outer_pinky_and_thumb_keys() {
    let m = layout_mask();
    for p in 0..33 {
        assert_eq!((m.0).0[p], p != 10 && p != 21 && p != 32, "position {}", p);
    }
}

#[test]
fn shuffle_position_for_picks_ranks() {
    assert_eq!(Layout::shuffle_position_for(0, 0), (0, 1));
    assert_eq!(Layout::shuffle_position_for(25, 25), (27, 28));
    assert_eq!(Layout::shuffle_position_for(10, 9), (11, 9));
    assert_eq!(Layout::shuffle_position_for(29, 28), (31, 30));
    assert_eq!(Layout::shuffle_position_for(30 + 9, 29 + 9), (9, 11));
    let (i, j) = Layout::shuffle_position_for(usize::MAX, usize::MAX);
    assert_ne!(i, j);
}

#[test]
fn swap_exchanges_two_keys_and_twice_restores() {
    let mut layer = qwerty().0;
    layer.swap(0, 31);
    assert_eq!(layer.0 .0[0], '/');
    assert_eq!(layer.0 .0[31], 'q');
    layer.swap(0, 31);
    assert_eq!(layer.0 .0, qwerty().0 .0 .0);
}

#[test]
fn shuffle_zero_times_changes_nothing() {
    let mut l = qwerty();
    l.shuffle(0);
    assert_eq!(l.0 .0 .0, qwerty().0 .0 .0);
    assert_eq!(l.1 .0 .0, qwerty().1 .0 .0);
}

#[test]
fn shuffle_rearranges_movable_keys_on_both_layers_alike() {
    let orig = qwerty();
    let mut l = qwerty();
    l.shuffle(50);
    assert_eq!(pairs(&l), pairs(&orig));
    for p in [10usize, 21, 32] {
        assert_eq!(l.0 .0 .0[p], orig.0 .0 .0[p]);
        assert_eq!(l.1 .0 .0[p], orig.1 .0 .0[p]);
    }
}

#[test]
fn position_map_reads_back_keys() {
    let pm = qwerty().get_position_map();
    let e = pm.get_key_position('e').unwrap();
    assert_eq!(e.pos, 2);
    assert_eq!(e.finger, Finger::Middle);
    assert_eq!(e.row, Row::Top);
    let big_e = pm.get_key_position('E').unwrap();
    assert_eq!(big_e.pos, 2);
    assert_eq!(big_e.kc, 'E');
    let nul = pm.get_key_position('\0').unwrap();
    assert_eq!(nul.pos, 32);
    assert_eq!(nul.finger, Finger::Thumb);
    assert!(pm.get_key_position('1').is_none());
    assert!(pm.get_key_position('é').is_none());
    let quote = pm.get_key_position('"').unwrap();
    assert_eq!(quote.pos, 21);
    assert_eq!(quote.hand, Hand::Right);
}

#[test]
fn position_map_prefers_last_key_and_shifted_layer() {
    let mut l = qwerty();
    // 'a' on two unshifted keys: the later one counts.
    l.0 .0 .0[25] = 'a';
    // 'q' also on the shifted layer: the shifted key counts.
    l.1 .0 .0[31] = 'q';
    let pm = l.get_position_map();
    assert_eq!(pm.get_key_position('a').unwrap().pos, 25);
    assert_eq!(pm.get_key_position('q').unwrap().pos, 31);
    assert!(pm.get_key_position('v').is_none());
    assert!(pm.get_key_position('?').is_none());
}

#[test]
fn layout_text_shows_unshifted_layer() {
    let text: String = qwerty().display_chars().into_iter().collect();
    assert_eq!(
        text,
        "q w e r t | y u i o p -\na s d f g | h j k l ; '\nz x c v b | n m , . /\n        \0"
    );
    let upper: String = qwerty().1.display_chars().into_iter().collect();
    assert_eq!(
        upper,
        "Q W E R T | Y U I O P _\nA S D F G | H J K L : \"\nZ X C V B | N M < > ?\n        \0"
    );
}

#[test]
fn permutations_depth_zero_is_the_layout_itself() {
    let mut perms = LayoutPermutations::new(&qwerty(), 0);
    let first = perms.next().unwrap();
    assert_eq!(first.0 .0 .0, qwerty().0 .0 .0);
    assert!(perms.next().is_none());
    assert!(perms.next().is_none());
}

#[test]
fn permutations_depth_one_are_the_layout_then_all_single_swaps() {
    let orig = qwerty();
    let mut perms = LayoutPermutations::new(&orig, 1);
    let first = perms.next().unwrap();
    assert_eq!(first.0 .0 .0, orig.0 .0 .0);
    let mut seen = Vec::new();
    while let Some(l) = perms.next() {
        let diff: Vec<usize> = (0..33).filter(|&p| l.0 .0 .0[p] != orig.0 .0 .0[p]).collect();
        assert_eq!(diff.len(), 2);
        assert_eq!(l.0 .0 .0[diff[0]], orig.0 .0 .0[diff[1]]);
        assert_eq!(l.1 .0 .0[diff[0]], orig.1 .0 .0[diff[1]]);
        seen.push((diff[0], diff[1]));
    }
    assert_eq!(seen.len(), 435);
    assert_eq!(seen[0], (0, 1));
    assert_eq!(seen[1], (0, 2));
    assert_eq!(seen[434], (30, 31));
    let mut sorted = seen.clone();
    sorted.dedup();
    assert_eq!(sorted.len(), 435);
    assert!(perms.next().is_none());
}

#[test]
fn permutations_depth_two_include_fewer_swaps_first() {
    let orig = qwerty();
    let mut perms = LayoutPermutations::new(&orig, 2);
    // No swap, then the 435 single swaps.
    for _ in 0..436 {
        perms.next().unwrap();
    }
    // Two swaps: number 0 swaps ranks (0, 1) twice: the layout itself.
    let first = perms.next().unwrap();
    assert_eq!(first.0 .0 .0, orig.0 .0 .0);
    // Number 1 swaps (0, 2), then (0, 1).
    let second = perms.next().unwrap();
    assert_eq!(second.0 .0 .0[0], 'w');
    assert_eq!(second.0 .0 .0[1], 'e');
    assert_eq!(second.0 .0 .0[2], 'q');
    assert_eq!(pairs(&second), pairs(&orig));
}
