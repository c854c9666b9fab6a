use keygen::layout::{KeyMap, Layer, Layout};
use keygen::simulator::{list_insert_ordered, refine_step, truncate_best_layouts, BestLayoutsEntry, Simulation};

fn layout_of(c: char) -> Layout {
    let mut keys = ['a'; 33];
    keys[0] = c;
    Layout(Layer(KeyMap(keys)), Layer(KeyMap(keys)))
}

fn entry(c: char, p: i128) -> BestLayoutsEntry<'static> {
    BestLayoutsEntry { layout: layout_of(c), total_penalty: p, penalties: Vec::new() }
}

fn tags(list: &[BestLayoutsEntry]) -> Vec<(char, i128)> {
    list.iter().map(|e| (e.layout.0 .0 .0[0], e.total_penalty)).collect()
}

#[test]
fn entries_rank_by_penalty() {
    assert!(entry('a', 1).ranks_before(&entry('b', 2)));
    assert!(!entry('a', 2).ranks_before(&entry('b', 2)));
    assert!(!entry('a', 3).ranks_before(&entry('b', 2)));
}

#[test]
fn insert_goes_after_equal_penalties() {
    let list = vec![entry('a', 1), entry('b', 3), entry('c', 3), entry('d', 5)];
    let list = list_insert_ordered(list, entry('x', 3));
    assert_eq!(tags(&list), vec![('a', 1), ('b', 3), ('c', 3), ('x', 3), ('d', 5)]);
    let list = list_insert_ordered(list, entry('y', 0));
    assert_eq!(list[0].total_penalty, 0);
    let list = list_insert_ordered(list, entry('z', 9));
    assert_eq!(tags(&list).last(), Some(&('z', 9)));
    let empty = list_insert_ordered(Vec::new(), entry('e', -4));
    assert_eq!(tags(&empty), vec![('e', -4)]);
}

#[test]
fn truncate_keeps_the_best() {
    let mut list = vec![entry('a', 1), entry('b', 2), entry('c', 3)];
    truncate_best_layouts(&mut list, 5);
    assert_eq!(list.len(), 3);
    truncate_best_layouts(&mut list, 2);
    assert_eq!(tags(&list), vec![('a', 1), ('b', 2)]);
    truncate_best_layouts(&mut list, 0);
    assert!(list.is_empty());
}

#[test]
fn accepting_keeps_a_ranked_top_list() {
    let mut sim = Simulation::new(layout_of('s'), 10, 2);
    assert_eq!(sim.accepted_penalty, 10);
    sim.accept(entry('a', 7));
    sim.accept(entry('b', 3));
    sim.accept(entry('c', 5));
    assert_eq!(sim.accepted_penalty, 5);
    assert_eq!(sim.accepted_layout.0 .0 .0[0], 'c');
    assert_eq!(tags(&sim.best_layouts), vec![('b', 3), ('c', 5)]);
    sim.accept(entry('d', 9));
    assert_eq!(sim.accepted_penalty, 9);
    assert_eq!(tags(&sim.best_layouts), vec![('b', 3), ('c', 5)]);
}

#[test]
fn candidates_rearrange_the_accepted_layout() {
    let mut keys = ['a'; 33];
    for (p, k) in keys.iter_mut().enumerate() {
        *k = (b'!' + p as u8) as char;
    }
    let layout = Layout(Layer(KeyMap(keys)), Layer(KeyMap(keys)));
    let sim = Simulation::new(layout, 0, 1);
    for _ in 0..20 {
        let c = sim.candidate(3);
        let mut got = c.0 .0 .0.to_vec();
        got.sort();
        assert_eq!(got, keys.to_vec());
        assert_eq!(c.0 .0 .0, c.1 .0 .0);
        for p in [10usize, 21, 32] {
            assert_eq!(c.0 .0 .0[p], keys[p]);
        }
        let one = sim.candidate(1);
        let moved = (0..33).filter(|&p| one.0 .0 .0[p] != keys[p]).count();
        assert_eq!(moved, 2);
    }
}

#[test]
fn refining_stops_when_nothing_is_better() {
    let best = vec![entry('b', 4), entry('c', 6)];
    assert!(refine_step(4, &best).is_none());
    assert!(refine_step(3, &best).is_none());
    let next = refine_step(5, &best).unwrap();
    assert_eq!(next.0 .0 .0 .0[0], 'b');
    assert_eq!(next.1, 4);
}
