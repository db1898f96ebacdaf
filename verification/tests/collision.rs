use mm_engine::collision::{all_pairs, CollisionSchedule};

#[test]
fn all_pairs_lists_each_pair_once() {
    let pairs = all_pairs();
    assert_eq!(pairs.len(), 28);
    for (i, j) in pairs.iter() {
        assert!(i < j && *j < 8);
    }
    for i in 0..8u32 {
        for j in (i + 1)..8u32 {
            assert_eq!(pairs.iter().filter(|p| **p == (i, j)).count(), 1);
        }
    }
    assert_eq!(pairs[0], (0, 1));
    assert_eq!(pairs[27], (6, 7));
}

#[test]
fn rounds_stop_when_resolved() {
    let mut schedule = CollisionSchedule::new();
    assert_eq!(schedule.rounds, 0);
    assert!(schedule.next_round());
    assert_eq!(schedule.rounds, 1);
    schedule.correct();
    assert!(schedule.next_round());
    assert_eq!(schedule.rounds, 2);
    assert!(!schedule.next_round());
    assert_eq!(schedule.rounds, 2);
}

#[test]
fn rounds_stop_at_the_cap() {
    let mut schedule = CollisionSchedule::new();
    let mut rounds = 0;
    while schedule.next_round() {
        schedule.correct();
        rounds += 1;
        assert!(rounds <= 100);
    }
    assert_eq!(rounds, 100);
    assert_eq!(schedule.rounds, 100);
    schedule.correct();
    assert!(!schedule.next_round());
}

#[test]
fn each_round_keeps_the_pairs_and_changes_their_order() {
    let mut schedule = CollisionSchedule::new();
    let first = schedule.pairs.clone();
    let mut moved = false;
    for _ in 0..20 {
        assert!(schedule.next_round());
        schedule.correct();
        let mut sorted = schedule.pairs.clone();
        sorted.sort();
        assert_eq!(sorted, first);
        if schedule.pairs != first {
            moved = true;
        }
    }
    assert!(moved);
}
