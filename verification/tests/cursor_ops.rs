use dlseq::sequence::Sequence;

// The concrete walk-through: build [1, 2, 3], step onto 2, take it out.
#[test]
fn three_elements_take_middle() {
    let mut seq: Sequence<i32> = Sequence::new();
    seq.push_back(1);
    seq.push_back(2);
    seq.push_back(3);
    assert_eq!(seq.len(), 3);

    let mut c = seq.cursor_front();
    assert_eq!(c.next(), Some(&mut 2));
    assert_eq!(c.take(), Some(2));

    let seq = c.into_sequence();
    assert_eq!(seq.len(), 2);
    let mut it = seq.iter();
    assert_eq!(it.next(), Some(&1));
    assert_eq!(it.next(), Some(&3));
    assert_eq!(it.next(), None);
}

// `insert_after` then `next` twice: the just-inserted element, then the
// original successor.
#[test]
fn insert_after_then_next_twice() {
    let mut seq: Sequence<i32> = Sequence::new();
    seq.push_back(10);
    seq.push_back(30);
    let mut c = seq.cursor_front();
    c.insert_after(20);
    assert_eq!(c.next(), Some(&mut 20));
    assert_eq!(c.next(), Some(&mut 30));
    let seq = c.into_sequence();
    assert_eq!(seq.len(), 3);
}

// `insert_after` at the last element: the second `next` is absent.
#[test]
fn insert_after_at_back_then_next_twice() {
    let mut seq: Sequence<i32> = Sequence::new();
    seq.push_back(10);
    let mut c = seq.cursor_front();
    c.insert_after(20);
    assert_eq!(c.next(), Some(&mut 20));
    assert_eq!(c.next(), None);
}

// `take` on a one-element sequence empties it and returns the element; a
// second `take` is absent.
#[test]
fn take_singleton_then_again() {
    let mut seq: Sequence<i32> = Sequence::new();
    seq.push_back(42);
    let mut c = seq.cursor_front();
    assert_eq!(c.take(), Some(42));
    assert_eq!(c.take(), None);
    let seq = c.into_sequence();
    assert_eq!(seq.len(), 0);
    assert!(seq.is_empty());
}

// Round trip: `insert_before(x)`, `prev`, `peek_mut` yields `Some(&mut x)`.
#[test]
fn insert_before_prev_peek() {
    let mut seq: Sequence<i32> = Sequence::new();
    seq.push_back(9);
    let mut c = seq.cursor_front();
    c.insert_before(7);
    assert_eq!(c.prev(), Some(&mut 7));
    assert_eq!(c.peek_mut(), Some(&mut 7));
}

// The same round trip from the off-the-end position of an empty sequence.
#[test]
fn insert_before_on_empty() {
    let seq: Sequence<i32> = Sequence::new();
    let mut c = seq.cursor_front();
    assert_eq!(c.peek_mut(), None);
    c.insert_before(7);
    assert_eq!(c.prev(), Some(&mut 7));
    assert_eq!(c.peek_mut(), Some(&mut 7));
    let seq = c.into_sequence();
    assert_eq!(seq.len(), 1);
}

// Writing through `peek_mut` is visible in the sequence afterwards.
#[test]
fn peek_mut_writes_stick() {
    let mut seq: Sequence<i32> = Sequence::new();
    seq.push_back(1);
    seq.push_back(2);
    let mut c = seq.cursor_front();
    if let Some(e) = c.peek_mut() {
        *e = 100;
    }
    let seq = c.into_sequence();
    let mut it = seq.iter();
    assert_eq!(it.next(), Some(&100));
    assert_eq!(it.next(), Some(&2));
    assert_eq!(it.next(), None);
}

// `cursor_back` stands on the last element; `prev` walks toward the front
// and stops there.
#[test]
fn cursor_back_and_prev() {
    let mut seq: Sequence<i32> = Sequence::new();
    seq.push_back(1);
    seq.push_back(2);
    seq.push_back(3);
    let mut c = seq.cursor_back();
    assert_eq!(c.peek_mut(), Some(&mut 3));
    assert_eq!(c.prev(), Some(&mut 2));
    assert_eq!(c.prev(), Some(&mut 1));
    assert_eq!(c.prev(), None);
    assert_eq!(c.peek_mut(), Some(&mut 1));
}

// After `next` walks off the end, `prev` comes back onto the last element.
#[test]
fn off_end_then_prev() {
    let mut seq: Sequence<i32> = Sequence::new();
    seq.push_back(5);
    let mut c = seq.cursor_front();
    assert_eq!(c.next(), None);
    assert_eq!(c.peek_mut(), None);
    assert_eq!(c.prev(), Some(&mut 5));
}

// `take` repositions the cursor on the removed element's former successor.
#[test]
fn take_moves_to_successor() {
    let mut seq: Sequence<i32> = Sequence::new();
    seq.push_back(1);
    seq.push_back(2);
    seq.push_back(3);
    let mut c = seq.cursor_front();
    assert_eq!(c.take(), Some(1));
    assert_eq!(c.peek_mut(), Some(&mut 2));
    assert_eq!(c.take(), Some(2));
    assert_eq!(c.peek_mut(), Some(&mut 3));
    assert_eq!(c.take(), Some(3));
    assert_eq!(c.peek_mut(), None);
    assert_eq!(c.take(), None);
}

// Removal frees arena room that later insertions reuse; the order of the
// remaining and the new elements is unaffected.
#[test]
fn removal_then_reinsertion() {
    let mut seq: Sequence<i32> = Sequence::new();
    seq.push_back(1);
    seq.push_back(2);
    seq.push_back(3);
    let mut c = seq.cursor_front();
    assert_eq!(c.next(), Some(&mut 2));
    assert_eq!(c.take(), Some(2));
    c.insert_before(8);
    let mut seq = c.into_sequence();
    assert_eq!(seq.len(), 3);
    let mut it = seq.iter();
    assert_eq!(it.next(), Some(&1));
    assert_eq!(it.next(), Some(&8));
    assert_eq!(it.next(), Some(&3));
    assert_eq!(it.next(), None);
    assert_eq!(seq.pop_back(), Some(3));
    assert_eq!(seq.pop_back(), Some(8));
    assert_eq!(seq.pop_back(), Some(1));
}
