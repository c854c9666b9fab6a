use keygen::gram::{gram_chars_of, gram_code_of};
use keygen::layout::{Finger, KeyMap, Layer, Layout};
use keygen::penalty::{calculate_penalty, init, is_roll_in, is_roll_out, prepare_quartad_list};

fn qwerty() -> Layout {
    Layout(
        Layer(KeyMap([
            'q', 'w', 'e', 'r', 't', 'y', 'u', 'i', 'o', 'p', '-', //
            'a', 's', 'd', 'f', 'g', 'h', 'j', 'k', 'l', ';', '\'', //
            'z', 'x', 'c', 'v', 'b', 'n', 'm', ',', '.', '/', //
            '\0',
        ])),
        Layer(KeyMap([
            'Q', 'W', 'E', 'R', 'T', 'Y', 'U', 'I', 'O', 'P', '_', //
            'A', 'S', 'D', 'F', 'G', 'H', 'J', 'K', 'L', ':', '"', //
            'Z', 'X', 'C', 'V', 'B', 'N', 'M', '<', '>', '?', //
            '\0',
        ])),
    )
}

fn chars(s: &str) -> Vec<char> {
    s.chars().collect()
}

/// The penalty of a corpus typed on QWERTY, in eighths of a point.
fn qwerty_penalty(corpus: &str) -> i128 {
    let layout = qwerty();
    let quartads = prepare_quartad_list(corpus, &layout.get_position_map());
    calculate_penalty(&quartads, &layout, &init(), false).0
}

#[test]
fn init_names_every_kind_in_order() {
    let names: Vec<&str> = init().iter().map(|p| p.name).collect();
    assert_eq!(
        names,
        vec![
            "base",
            "same finger",
            "long jump hand",
            "long jump",
            "long jump consecutive",
            "pinky/ring twist",
            "roll reversal",
            "same hand",
            "alternating hand",
            "roll out",
            "roll in",
            "long jump sandwich",
            "twist",
        ]
    );
}

#[test]
fn rolls_go_by_finger_order() {
    let fingers = [Finger::Thumb, Finger::Index, Finger::Middle, Finger::Ring, Finger::Pinky];
    for (a, fa) in fingers.iter().enumerate() {
        for (b, fb) in fingers.iter().enumerate() {
            assert_eq!(is_roll_out(*fa, *fb), b < a);
            assert_eq!(is_roll_in(*fa, *fb), a < b);
            assert_eq!(is_roll_in(*fa, *fb), is_roll_out(*fb, *fa));
        }
    }
}

#[test]
fn gram_codes_pack_one_byte_per_character() {
    assert_eq!(gram_code_of(&[]), 0);
    assert_eq!(gram_code_of(&chars("a")), 98);
    assert_eq!(gram_code_of(&chars("ab")), 98 * 256 + 99);
    assert_eq!(gram_code_of(&chars("\0\0\0\0")), 0x0101_0101);
    assert_eq!(gram_chars_of(98 * 256 + 99), Some(chars("ab")));
    assert_eq!(gram_chars_of(0), Some(Vec::new()));
    for s in ["x", "the ", "\u{7f}", "q;'/"] {
        let code = gram_code_of(&chars(s));
        assert_eq!(gram_chars_of(code), Some(chars(s)));
    }
    // A zero byte, a byte past ASCII, and a fifth character pack nothing.
    assert_eq!(gram_chars_of(256), None);
    assert_eq!(gram_chars_of(130), None);
    assert_eq!(gram_chars_of(0x01_0101_0101), None);
}

#[test]
fn quartads_are_runs_of_up_to_four_typed_characters() {
    let pm = qwerty().get_position_map();
    let q = prepare_quartad_list("the the", &pm);
    // The space is not typed on this layout, so it cuts the runs.
    assert_eq!(q.len(), 3);
    assert_eq!(q.count_of(&chars("t")), 2);
    assert_eq!(q.count_of(&chars("th")), 2);
    assert_eq!(q.count_of(&chars("the")), 2);
    assert_eq!(q.count_of(&chars("e t")), 0);
    assert_eq!(q.count_of(&chars("he")), 0);

    let q = prepare_quartad_list("abcdef", &pm);
    assert_eq!(q.len(), 6);
    for s in ["a", "ab", "abc", "abcd", "bcde", "cdef"] {
        assert_eq!(q.count_of(&chars(s)), 1, "{}", s);
    }
    assert_eq!(q.count_of(&chars("abcde")), 0);

    let q = prepare_quartad_list("abcde", &pm);
    assert_eq!(q.len(), 5);
    for s in ["a", "ab", "abc", "abcd", "bcde"] {
        assert_eq!(q.count_of(&chars(s)), 1, "{}", s);
    }

    let q = prepare_quartad_list("ab ab", &pm);
    assert_eq!(q.len(), 2);
    assert_eq!(q.count_of(&chars("a")), 2);
    assert_eq!(q.count_of(&chars("ab")), 2);

    let q = prepare_quartad_list("", &pm);
    assert_eq!(q.len(), 0);

    // Non-ASCII characters are typed by no key.
    let q = prepare_quartad_list("aéa", &pm);
    assert_eq!(q.len(), 1);
    assert_eq!(q.count_of(&chars("a")), 2);
}

#[test]
fn quartad_counts_add_up_to_typed_characters() {
    let pm = qwerty().get_position_map();
    let corpus = "the quick brown fox jumps over the lazy dog, the end.";
    let q = prepare_quartad_list(corpus, &pm);
    let typed = corpus.chars().filter(|c| pm.get_key_position(*c).is_some()).count();
    // Every typed character ends exactly one quartad; sum the counts of all quartads seen.
    let mut seen: Vec<Vec<char>> = Vec::new();
    let v: Vec<char> = corpus.chars().collect();
    let mut start = 0;
    for i in 0..v.len() {
        if pm.get_key_position(v[i]).is_none() {
            start = i + 1;
            continue;
        }
        let from = if i >= 3 && start < i - 3 { i - 3 } else { start };
        let g = v[from..=i].to_vec();
        if !seen.contains(&g) {
            seen.push(g);
        }
    }
    assert_eq!(seen.len(), q.len());
    let total: usize = seen.iter().map(|g| q.count_of(g)).sum();
    assert_eq!(total, typed);
}

#[test]
fn same_finger_penalty() {
    // "e" costs its base (1 point); "ed" is the same finger on two keys (5 points).
    assert_eq!(qwerty_penalty("ed"), 8 + 40);
    // Centre columns cost 5 more each: "t" then "g" on the left index finger.
    assert_eq!(qwerty_penalty("tg"), 24 + (12 + 40 + 40 + 40));
}

#[test]
fn roll_in_earns_a_little() {
    // "a" (0.5) then "s" (0.5) rolls in (-0.125).
    assert_eq!(qwerty_penalty("as"), 4 + 4 - 1);
}

#[test]
fn long_jump_on_consecutive_fingers() {
    // "e" then "x": middle finger top row, ring finger bottom row.
    // base x 2, long jump hand 1, long jump consecutive 5, roll out 0.125.
    assert_eq!(qwerty_penalty("ex"), 8 + (16 + 8 + 40 + 1));
}

#[test]
fn ring_then_index_is_no_consecutive_jump() {
    // "x" (ring, bottom) then "r" (index, top): ring and index are not consecutive.
    // base r 1.5, long jump hand 1, roll in -0.125.
    assert_eq!(qwerty_penalty("xr"), 16 + (12 + 8 - 1));
    // Middle finger bottom row, then index finger top row, is charged.
    // "c" then "r": base 1.5, long jump hand 1, long jump consecutive 5, roll in -0.125.
    assert_eq!(qwerty_penalty("cr"), 12 + (12 + 8 + 40 - 1));
    // Middle finger top row, then index finger bottom row, is not.
    assert_eq!(qwerty_penalty("ev"), 8 + (12 + 8 - 1));
}

#[test]
fn penalty_grows_with_counts() {
    assert_eq!(qwerty_penalty("ed ed ed"), 3 * qwerty_penalty("ed"));
}

#[test]
fn untyped_character_cuts_the_corpus() {
    let pm = qwerty().get_position_map();
    let whole = prepare_quartad_list("where are you", &pm);
    let a = prepare_quartad_list("where are", &pm);
    let b = prepare_quartad_list("you", &pm);
    for g in ["w", "wh", "whe", "wher", "here", "a", "ar", "are", "y", "yo", "you", "e are"] {
        let g = chars(g);
        assert_eq!(whole.count_of(&g), a.count_of(&g) + b.count_of(&g));
    }
}

#[test]
fn long_jump_on_one_finger() {
    // "c" then "e": same finger (5), long jump hand (1), long jump (10).
    assert_eq!(qwerty_penalty("ce"), 12 + (8 + 40 + 8 + 80));
}

#[test]
fn roll_reversal() {
    // "w", "wa" (rolls out), "wad": ring, pinky, middle.
    assert_eq!(qwerty_penalty("wad"), 8 + (4 + 1) + (0 + 160 - 1));
}

#[test]
fn pinky_reaching_above_ring_finger() {
    // "q" (3), then "s": ring finger home row after pinky top row: twist (10), roll in (-0.125).
    assert_eq!(qwerty_penalty("qs"), 24 + (4 + 80 - 1));
}

#[test]
fn long_jump_sandwich() {
    // "c", "j" on the other hand, then "e": the middle finger jumps rows around one keystroke.
    assert_eq!(qwerty_penalty("cje"), 12 + 0 + (8 + 24));
}

#[test]
fn twist_through_three_rows() {
    // "z" bottom, "s" home, "e" top, rolling inwards on one hand.
    assert_eq!(qwerty_penalty("zse"), 16 + (4 - 1) + (8 - 1 + 80));
}

#[test]
fn empty_corpus_costs_nothing() {
    assert_eq!(qwerty_penalty(""), 0);
    assert_eq!(qwerty_penalty("   "), 0);
}

#[test]
fn detailed_results_split_the_penalty_by_kind() {
    let layout = qwerty();
    let corpus = "the quick brown fox jumps over the lazy dog; we were ready";
    let quartads = prepare_quartad_list(corpus, &layout.get_position_map());
    let penalties = init();
    let (total, results) = calculate_penalty(&quartads, &layout, &penalties, true);
    let (plain_total, plain_results) = calculate_penalty(&quartads, &layout, &penalties, false);
    assert_eq!(total, plain_total);
    assert!(plain_results.is_empty());
    assert_eq!(results.len(), 13);
    let sum: i128 = results.iter().map(|r| r.total).sum();
    assert_eq!(sum, total);
    for (r, p) in results.iter().zip(penalties.iter()) {
        assert_eq!(r.name, p.name);
        let shares: i128 = r.high_keys.values().sum();
        assert_eq!(shares, r.total, "{}", r.name);
    }
}

#[test]
fn detailed_results_charge_runs_of_keys() {
    let layout = qwerty();
    let quartads = prepare_quartad_list("ed", &layout.get_position_map());
    let (total, results) = calculate_penalty(&quartads, &layout, &init(), true);
    assert_eq!(total, 48);
    assert_eq!(results[0].total, 8);
    assert_eq!(results[0].high_keys.len(), 2);
    assert_eq!(results[0].high_keys[&gram_code_of(&chars("e"))], 8);
    assert_eq!(results[0].high_keys[&gram_code_of(&chars("d"))], 0);
    assert_eq!(results[1].total, 40);
    assert_eq!(results[1].high_keys.len(), 1);
    assert_eq!(results[1].high_keys[&gram_code_of(&chars("ed"))], 40);
    for r in &results[2..] {
        assert_eq!(r.total, 0);
        assert!(r.high_keys.is_empty());
    }
}

#[test]
fn same_hand_and_alternating_hands() {
    let layout = qwerty();
    let quartads = prepare_quartad_list("were", &layout.get_position_map());
    let (_, results) = calculate_penalty(&quartads, &layout, &init(), true);
    assert_eq!(results[7].total, 4);
    assert_eq!(results[7].high_keys[&gram_code_of(&chars("were"))], 4);
    assert_eq!(results[8].total, 0);

    let quartads = prepare_quartad_list("with", &layout.get_position_map());
    let (_, results) = calculate_penalty(&quartads, &layout, &init(), true);
    assert_eq!(results[8].total, 4);
    assert_eq!(results[7].total, 0);
}

#[test]
fn quartads_keep_their_characters_on_another_layout() {
    // Quartads prepared on one layout, scored on another that lacks a key:
    // nothing before the missing key counts.
    let prep = qwerty();
    let mut other = qwerty();
    other.0 .0 .0[12] = '1'; // no 's' any more
    let quartads = prepare_quartad_list("sd", &prep.get_position_map());
    let (total, _) = calculate_penalty(&quartads, &other, &init(), false);
    // "s" scores nothing; "sd" scores only the base of "d".
    assert_eq!(total, 0);
    let quartads = prepare_quartad_list("se", &prep.get_position_map());
    let (total, _) = calculate_penalty(&quartads, &other, &init(), false);
    assert_eq!(total, 8);
}

#[test]
fn detailed_results_for_a_roll_in() {
    let layout = qwerty();
    let quartads = prepare_quartad_list("as", &layout.get_position_map());
    let (total, results) = calculate_penalty(&quartads, &layout, &init(), true);
    assert_eq!(total, 7);
    assert_eq!(results.len(), 13);
    assert_eq!(results[0].total, 8);
    assert_eq!(results[0].high_keys.len(), 2);
    assert_eq!(results[0].high_keys[&gram_code_of(&chars("a"))], 4);
    assert_eq!(results[0].high_keys[&gram_code_of(&chars("s"))], 4);
    assert_eq!(results[10].name, "roll in");
    assert_eq!(results[10].total, -1);
    assert_eq!(results[10].high_keys.len(), 1);
    assert_eq!(results[10].high_keys[&gram_code_of(&chars("as"))], -1);
    for k in 1..13 {
        if k != 10 {
            assert_eq!(results[k].total, 0);
            assert!(results[k].high_keys.is_empty());
        }
    }
}
