use lossyq::cb::IterRange;
use lossyq::spsc;
use lossyq::spsc::noloss::{hand_off, pour, Overflow, PourResult};
use std::collections::HashSet;
use std::collections::VecDeque;

#[test]
fn tests_option_i32() {
    // the interface supports the i32 datatype
    let (mut tx, mut _rx) = spsc::channel(2);
    tx.put(Some(1));
}

#[test]
fn tests_string_literal() {
    // the interface supports string literals
    let (mut tx, mut _rx) = spsc::channel(2);
    tx.put(Some("world"));
}

#[test]
fn tests_boxed_string_obj() {
    // the interface supports boxed strings
    let (mut tx, mut _rx) = spsc::channel(2);
    tx.put(Some(Box::new(String::from("world"))));
}

fn no_loss(sz: usize) {
    // passing 10_000 values without loss: whenever a put displaces an
    // unread value, drain the ring and publish the displaced value again
    let (mut tx, mut rx) = spsc::channel::<i32>(sz);
    let mut recvd = HashSet::new();
    for i in 0..10_000i32 {
        let mut x = Some(i);
        loop {
            let v = x.take();
            tx.put(v);
            x = tx.tmp(None);
            if x.is_none() {
                break;
            }
            // the ring was full: make room before putting the value back
            let mut it = rx.iter();
            while let Some(v) = it.next() {
                assert_eq!(recvd.contains(&v), false);
                recvd.insert(v);
            }
        }
    }
    loop {
        let mut got_any = false;
        let mut it = rx.iter();
        while let Some(v) = it.next() {
            assert_eq!(recvd.contains(&v), false);
            recvd.insert(v);
            got_any = true;
        }
        if !got_any {
            break;
        }
    }
    for i in 0..10_000i32 {
        assert_eq!(recvd.get(&i), Some(&i));
        assert_eq!(true, recvd.contains(&i));
    }
    assert_eq!(recvd.len(), 10_000);
}

#[test]
fn no_loss_iter() {
    for i in 0..40 as usize {
        no_loss(1 + (i * 17));
    }
}

struct Destination {
    pub overflow: VecDeque<i32>,
}

impl Destination {
    fn new() -> Destination {
        Destination { overflow: VecDeque::new() }
    }
}

impl Overflow for Destination {
    type Input = i32;
    fn overflow(&mut self, val: &mut Option<Self::Input>) {
        match val.take() {
            Some(v) => {
                self.overflow.push_back(v);
            }
            None => {}
        }
    }
}

fn pour_in(sz: usize) {
    // passing 10_000 values, overflowing into a sink when the reader
    // falls behind: the drained set and the sink together hold everything
    let (mut tx, mut rx) = spsc::channel::<i32>(sz);
    let mut dest = Destination::new();
    let mut recvd = HashSet::new();
    for i in 0..10_000i32 {
        let mut x = Some(i);
        pour(&mut x, &mut tx, &mut dest);
        if i % 7 == 0 {
            let mut it = rx.iter();
            while let Some(v) = it.next() {
                assert_eq!(recvd.contains(&v), false);
                recvd.insert(v);
            }
        }
    }
    loop {
        let mut got_any = false;
        let mut it = rx.iter();
        while let Some(v) = it.next() {
            assert_eq!(recvd.contains(&v), false);
            recvd.insert(v);
            got_any = true;
        }
        if !got_any {
            break;
        }
    }
    for v in &dest.overflow {
        assert_eq!(recvd.contains(v), false);
        recvd.insert(*v);
    }
    for i in 0..10_000i32 {
        assert_eq!(recvd.get(&i), Some(&i));
        assert_eq!(true, recvd.contains(&i));
    }
    assert!(recvd.len() > 0);
    assert_eq!(recvd.len(), 10_000);
}

#[test]
fn pour_test() {
    for i in 0..40 as usize {
        pour_in(1 + (i * 13));
    }
}

#[test]
fn tests_at_most_once() {
    // when an iterator claims a range of items, it removes all of them
    // from the channel
    let (mut tx, mut rx) = spsc::channel(20);
    tx.put(Some(1));
    tx.put(Some(2));
    tx.put(Some(3));
    {
        // the first iterator yields the first element; the rest of its
        // range is claimed whether consumed or not
        let mut it = rx.iter();
        assert_eq!(Some(1), it.next());
    }
    {
        // the second iterator gets nothing: the first received the whole
        // range no matter whether next was called on every item
        let mut it = rx.iter();
        assert_eq!(None, it.next());
    }
}

#[test]
fn range_of_second_drain() {
    // the ids a drain can still deliver, after an earlier drain consumed
    // one item
    let (mut tx, mut rx) = spsc::channel(10);
    tx.put(Some(10));
    {
        let mut it = rx.iter();
        assert_eq!(Some(10), it.next());
    }
    tx.put(Some(11));
    tx.put(Some(12));
    let mut it = rx.iter();
    let (from, to) = it.get_range();
    assert_eq!(from, 1);
    assert_eq!(to, 3);
    assert_eq!(Some(1), it.next_id());
    assert_eq!(Some(11), it.next());
    assert_eq!(Some(12), it.next());
    assert_eq!(None, it.next());
}

#[test]
fn sum_of_live_window_after_three_puts() {
    // a producer that finished before the consumer starts: the drain
    // yields the last two items of a capacity-two channel
    let (mut tx, mut rx) = spsc::channel(2);
    for i in 1..4 {
        tx.put(Some(i));
    }
    let mut it = rx.iter();
    let mut sum = 0;
    while let Some(num) = it.next() {
        sum += num;
    }
    assert_eq!(sum, 5);
}

#[test]
fn sender_seqno_counts_puts() {
    let (mut tx, mut _rx) = spsc::channel::<i32>(4);
    assert_eq!(tx.seqno(), 0);
    assert_eq!(tx.put(Some(5)), 0);
    assert_eq!(tx.put(Some(6)), 1);
    assert_eq!(tx.seqno(), 2);
}

#[test]
fn hand_off_settles_by_displaced_payload() {
    let mut dest = Destination::new();
    let (r, id) = hand_off(None, &mut dest, 4);
    assert!(matches!(r, PourResult::Poured));
    assert_eq!(id, 4);
    assert!(dest.overflow.is_empty());
    let (r, id) = hand_off(Some(9), &mut dest, 5);
    assert!(matches!(r, PourResult::Overflowed));
    assert_eq!(id, 5);
    assert_eq!(dest.overflow.len(), 1);
    assert_eq!(dest.overflow[0], 9);
}

#[test]
fn pour_reports_overflow_exactly_when_lapped() {
    let (mut tx, mut _rx) = spsc::channel::<i32>(2);
    let mut dest = Destination::new();
    let mut a = Some(0);
    let (r0, id0) = pour(&mut a, &mut tx, &mut dest);
    assert!(matches!(r0, PourResult::Poured));
    assert_eq!(id0, 0);
    let mut b = Some(1);
    let (r1, id1) = pour(&mut b, &mut tx, &mut dest);
    assert!(matches!(r1, PourResult::Poured));
    assert_eq!(id1, 1);
    assert!(dest.overflow.is_empty());
    // the third pour laps the ring of capacity two: the oldest unread
    // value lands in the sink
    let mut c = Some(2);
    let (r2, id2) = pour(&mut c, &mut tx, &mut dest);
    assert!(matches!(r2, PourResult::Overflowed));
    assert_eq!(id2, 2);
    assert_eq!(dest.overflow.len(), 1);
    assert_eq!(dest.overflow[0], 0);
}
