use dlseq::game::gameInfo;
use dlseq::sequence::Sequence;

struct Foo;

#[test]
fn is_generic() {
    Sequence::<Foo>::new();
}

#[test]
fn basics_empty_list() {
    let list: Sequence<i32> = Sequence::new();
    assert_eq!(list.len(), 0);
    assert!(list.is_empty());
}

#[test]
fn basics_single_element_back() {
    let mut list: Sequence<i32> = Sequence::new();
    list.push_back(5);

    assert_eq!(list.len(), 1);
    assert!(!list.is_empty());

    assert_eq!(list.pop_back(), Some(5));

    assert_eq!(list.len(), 0);
    assert!(list.is_empty());
}

#[test]
fn basics_push_pop_at_back() {
    let mut list: Sequence<i32> = Sequence::new();
    for i in 0..10 {
        list.push_back(i);
        assert_eq!(list.len(), i as usize + 1);
        assert!(!list.is_empty());
    }
    for i in (0..10).rev() {
        assert_eq!(list.len(), i as usize + 1);
        assert!(!list.is_empty());
        assert_eq!(i, list.pop_back().unwrap());
    }
    assert_eq!(list.len(), 0);
    assert!(list.is_empty());
}

#[test]
fn basics_single_element_front() {
    let mut list: Sequence<i32> = Sequence::new();
    list.push_front(5);

    assert_eq!(list.len(), 1);
    assert!(!list.is_empty());

    assert_eq!(list.pop_front(), Some(5));

    assert_eq!(list.len(), 0);
    assert!(list.is_empty());
}

#[test]
fn basics_push_pop_at_front() {
    let mut list: Sequence<i32> = Sequence::new();
    for i in 0..10 {
        list.push_front(i);
        assert_eq!(list.len(), i as usize + 1);
        assert!(!list.is_empty());
    }
    for i in (0..10).rev() {
        assert_eq!(list.len(), i as usize + 1);
        assert!(!list.is_empty());
        assert_eq!(i, list.pop_front().unwrap());
    }
    assert_eq!(list.len(), 0);
    assert!(list.is_empty());
}

// The length is the net count of pushes minus successful pops, and
// `is_empty` agrees with it, across a mixed run of operations.
#[test]
fn len_tracks_net_count() {
    let mut list: Sequence<i32> = Sequence::new();
    assert!(list.is_empty());
    list.push_back(1); // net 1
    list.push_front(2); // net 2
    list.push_back(3); // net 3
    assert_eq!(list.len(), 3);
    assert!(!list.is_empty());
    assert_eq!(list.pop_front(), Some(2)); // net 2
    assert_eq!(list.len(), 2);
    assert_eq!(list.pop_back(), Some(3)); // net 1
    assert_eq!(list.pop_back(), Some(1)); // net 0
    assert_eq!(list.len(), 0);
    assert!(list.is_empty());
    // an unsuccessful pop does not change the count
    assert_eq!(list.pop_front(), None);
    assert_eq!(list.len(), 0);
    assert!(list.is_empty());
}

// Pushing at the back and popping at the front yields the push order.
#[test]
fn fifo_back_to_front() {
    let mut list: Sequence<i32> = Sequence::new();
    for i in 0..10 {
        list.push_back(i);
    }
    for i in 0..10 {
        assert_eq!(list.pop_front(), Some(i));
    }
    assert_eq!(list.pop_front(), None);
}

// Pushing at the front and popping at the back yields the push order too.
#[test]
fn fifo_front_to_back() {
    let mut list: Sequence<i32> = Sequence::new();
    for i in 0..10 {
        list.push_front(i);
    }
    for i in 0..10 {
        assert_eq!(list.pop_back(), Some(i));
    }
    assert_eq!(list.pop_back(), None);
}

// `iter` yields exactly the pushed elements in push order.
#[test]
fn iter_yields_push_order() {
    let mut list: Sequence<i32> = Sequence::new();
    for i in 0..10 {
        list.push_back(i);
    }
    let mut it = list.iter();
    let mut seen: Vec<i32> = Vec::new();
    while let Some(x) = it.next() {
        seen.push(*x);
    }
    assert_eq!(seen, vec![0, 1, 2, 3, 4, 5, 6, 7, 8, 9]);
}

// Iterating an empty sequence yields no elements, and a fresh iterator can
// be made again after one is exhausted.
#[test]
fn iter_empty_and_restart() {
    let list: Sequence<i32> = Sequence::new();
    let mut it = list.iter();
    assert_eq!(it.next(), None);
    assert_eq!(it.next(), None);

    let mut list: Sequence<i32> = Sequence::new();
    list.push_back(4);
    let mut it = list.iter();
    assert_eq!(it.next(), Some(&4));
    assert_eq!(it.next(), None);
    let mut again = list.iter();
    assert_eq!(again.next(), Some(&4));
}

#[test]
fn game_info_starts_zeroed() {
    let g = gameInfo::GameInfo();
    assert_eq!(g.gameId, 0);
    assert_eq!(g.player1.x, 0);
    assert_eq!(g.player1.y, 0);
    assert_eq!(g.player2.x, 0);
    assert_eq!(g.player2.y, 0);
    assert_eq!(g.ball.x, 0);
    assert_eq!(g.ball.y, 0);
    assert_eq!(g.gameStatus, 0);
}
