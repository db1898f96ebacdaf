use mm_engine::team::{Team, TeamPair};

#[test]
fn other_exchanges_the_teams() {
    assert!(Team::A.other() == Team::B);
    assert!(Team::B.other() == Team::A);
    assert!(Team::A.other().other() == Team::A);
}

#[test]
fn pair_holds_a_first() {
    let pair = TeamPair::new(3u32, 7u32);
    assert_eq!(pair.a, 3);
    assert_eq!(pair.b, 7);
    assert_eq!(*pair.get(Team::A), 3);
    assert_eq!(*pair.get(Team::B), 7);
    let (a, b) = pair.iter();
    assert_eq!((*a, *b), (3, 7));
}

#[test]
fn pair_set_changes_one_side() {
    let mut pair = TeamPair::new(1u32, 2u32);
    pair.set(Team::B, 9);
    assert_eq!((pair.a, pair.b), (1, 9));
    pair.set(Team::A, 5);
    assert_eq!((pair.a, pair.b), (5, 9));
}

#[test]
fn pair_iter_mut_writes_through() {
    let mut pair = TeamPair::new(1u32, 2u32);
    {
        let (a, b) = pair.iter_mut();
        *a += 10;
        *b += 20;
    }
    assert_eq!((pair.a, pair.b), (11, 22));
}

#[test]
fn swapping_twice_gives_the_pair_back() {
    let pair = TeamPair::new(4u32, 6u32);
    let once = pair.swapped();
    assert_eq!((once.a, once.b), (6, 4));
    let twice = once.swapped();
    assert!(twice == pair);
}
