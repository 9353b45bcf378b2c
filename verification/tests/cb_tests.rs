use lossyq::cb::CircularBuffer;
use lossyq::cb::IterRange;

fn drain_count<T>(x: &mut CircularBuffer<T>) -> usize {
    let mut it = x.iter();
    let mut n: usize = 0;
    while let Some(_v) = it.next() {
        n += 1;
    }
    n
}

fn put_copy<T: Copy>(size: usize, count: usize, default: T) -> usize {
    let mut x = CircularBuffer::new(size);
    for _i in 0..count {
        x.put(Some(default));
    }
    drain_count(&mut x)
}

fn put_clone<T: Clone>(size: usize, count: usize, default: T) -> usize {
    let mut x = CircularBuffer::new(size);
    for _i in 0..count {
        x.put(Some(default.clone()));
    }
    drain_count(&mut x)
}

fn iter_copy<T: Copy>(size: usize, count: usize, rounds: usize, default: T) -> usize {
    let mut x = CircularBuffer::new(size);
    for _i in 0..rounds - 1 {
        for _ii in 0..count {
            x.put(Some(default));
        }
        let _xi = drain_count(&mut x);
    }
    for _i in 0..count {
        x.put(Some(default));
    }
    drain_count(&mut x)
}

fn min_max(size: usize, count: i32, rounds: usize, min: i32, max: i32) -> bool {
    let mut x = CircularBuffer::<i32>::new(size);
    let mut a = 0;
    for _i in 0..rounds - 1 {
        for _ii in 0..count {
            x.put(Some(a));
            a += 1;
        }
        let _xi = drain_count(&mut x);
    }
    for _i in 0..count {
        x.put(Some(a));
        a += 1;
    }
    let mut r_min = min + max + a + 1;
    let mut r_max = min - count - 1;
    let mut it = x.iter();
    while let Some(i) = it.next() {
        if r_min > i {
            r_min = i;
        }
        if r_max < i {
            r_max = i;
        }
    }
    assert_eq!(r_min, min);
    assert_eq!(r_max, max);
    min == r_min && max == r_max
}

#[test]
fn put_less_i32() {
    for i in 1..100 as usize {
        assert_eq!(i, put_copy(i + 1 + (i / 3), i, 0 as i32));
    }
}

#[test]
fn put_full_str() {
    for i in 1..100 as usize {
        assert_eq!(i, put_copy(i, i, "hello"));
    }
}

#[test]
fn put_overflow_box_string() {
    for i in 1..100 as usize {
        assert_eq!(i, put_clone(i + 1, i, String::from("hello")));
    }
}

#[test]
fn put_overflow_box_string_3() {
    let mut x = CircularBuffer::new(3);
    assert_eq!(true, x.tmp(None).is_none());
    x.put(Some(Box::new(String::from("foo"))));
    assert_eq!(true, x.tmp(None).is_none());
    x.put(Some(Box::new(String::from("bar"))));
    assert_eq!(true, x.tmp(None).is_none());
    x.put(Some(Box::new(String::from("baz"))));
    assert_eq!(true, x.tmp(None).is_none());
    x.put(Some(Box::new(String::from("faz"))));
    assert_eq!(true, x.tmp(None).is_some());
    x.put(Some(Box::new(String::from("foobar"))));
    assert_eq!(drain_count(&mut x), 3);
}

#[test]
fn iter_empty_i32_5() {
    let mut x = CircularBuffer::<i32>::new(5);
    assert_eq!(drain_count(&mut x), 0);
}

#[test]
fn iter_less_i32() {
    for i in 1..100 as i32 {
        assert!(min_max((i + 1) as usize, i, 13, (i * 13) - i, (i * 13) - 1));
    }
}

#[test]
fn iter_less_str() {
    for i in 1..100 as usize {
        assert_eq!(i, iter_copy(i + 1, i, 13, "hello"));
    }
}

#[test]
fn iter_less_str_7() {
    let mut x = CircularBuffer::<&str>::new(7);
    x.put(Some("Hello"));
    x.put(Some("World"));
    let mut c = String::new();
    let mut it = x.iter();
    while let Some(v) = it.next() {
        c.push_str(v);
    }
    assert_eq!(c, "HelloWorld");
}

#[test]
fn iter_full_box_string() {
    let mut x = CircularBuffer::new(10);
    for _i in 0..10 {
        assert!(x.tmp(None).is_none());
        x.put(Some(Box::new(String::from("hello"))));
    }

    let mut c = 0;
    let mut it = x.iter();
    while let Some(i) = it.next() {
        assert_eq!(*i, "hello");
        c += 1;
    }
    assert_eq!(c, 10);
}

#[test]
fn iter_overflow_i32() {
    for i in 1..100 as i32 {
        let e_min = ((i + 1) * 17) - i;
        let e_max = ((i + 1) * 17) - 1;
        assert!(min_max(i as usize, i + 1, 17, e_min, e_max));
    }
}

#[test]
fn tmp_and_put_i32() {
    let mut x = CircularBuffer::new(1);
    let t = x.tmp(None);
    assert!(t.is_none());
    x.put(Some(1));
    let t = x.tmp(None);
    assert!(t.is_none());
    x.put(Some(2));
    let t = x.tmp(None);
    assert!(t.is_some());
    x.tmp(t);
    let t = x.tmp(None);
    assert!(t.is_some());
    assert_eq!(t, Some(1));
    x.put(Some(3));
    let t = x.tmp(None);
    assert!(t.is_some());
    x.tmp(t);
}

#[test]
fn empty_buffer() {
    let mut x = CircularBuffer::<i32>::new(1);
    {
        assert_eq!(drain_count(&mut x), 0);
    }
    {
        let i = x.iter();
        let (from, to) = i.get_range();
        assert_eq!(from, 0);
        assert_eq!(to, 0);
        assert_eq!(None, i.next_id());
    }
}

#[test]
fn add_one() {
    let mut x = CircularBuffer::new(10);
    {
        let pos = x.put(Some(1));
        assert_eq!(pos, 0);
        let i = x.iter();
        let (from, to) = i.get_range();
        assert_eq!(from, 0);
        assert_eq!(to, 1);
        assert_eq!(Some(0), i.next_id());
    }
    {
        x.put(Some(2));
        x.put(Some(3));
        let mut i = x.iter();
        let (from, to) = i.get_range();
        assert_eq!(from, 1);
        assert_eq!(to, 3);
        assert_eq!(Some(1), i.next_id());
        i.next();
        let (from, to) = i.get_range();
        assert_eq!(from, 2);
        assert_eq!(to, 3);
        assert_eq!(Some(2), i.next_id());
    }
    {
        x.put(Some(4));
        let pos = x.put(Some(5));
        assert_eq!(pos, 4);
        let i = x.iter();
        let (from, to) = i.get_range();
        assert_eq!(to - from, 2);
        assert_eq!(from, 3);
    }
}

#[test]
fn sum_available() {
    let mut x = CircularBuffer::new(4);
    x.put(Some(2));
    x.put(Some(4));
    x.put(Some(6));
    x.put(Some(8));
    x.put(Some(10));
    let mut it = x.iter();
    let mut sum = 0;
    let mut k = 0;
    while k < 3 {
        if let Some(num) = it.next() {
            sum += num;
        }
        k += 1;
    }
    assert_eq!(sum, 18);
}

#[test]
fn read_twice() {
    let mut x = CircularBuffer::new(2);
    x.put(Some(1));
    assert_eq!(drain_count(&mut x), 1);
    assert_eq!(drain_count(&mut x), 0);
    x.put(Some(2));
    x.put(Some(3));
    assert_eq!(drain_count(&mut x), 2);
    assert_eq!(drain_count(&mut x), 0);
}

#[test]
fn zero_capacity_coerces_to_one() {
    let mut x = CircularBuffer::<i32>::new(0);
    x.put(Some(1));
    x.put(Some(2));
    let mut it = x.iter();
    assert_eq!(it.next(), Some(2));
    assert_eq!(it.next(), None);
}

#[test]
fn capacity_multiple_of_tag_span_widens() {
    let mut x = CircularBuffer::<usize>::new(256);
    for i in 0..257 {
        x.put(Some(i));
    }
    assert_eq!(drain_count(&mut x), 257);
}

#[test]
fn put_ids_advance_by_one() {
    let mut x = CircularBuffer::<i32>::new(4);
    assert_eq!(x.put(Some(7)), 0);
    assert_eq!(x.put(Some(8)), 1);
    assert_eq!(x.put(Some(9)), 2);
    assert_eq!(x.seqno(), 3);
}

#[test]
fn published_empty_consumes_a_slot() {
    let mut x = CircularBuffer::<i32>::new(4);
    x.put(Some(1));
    x.put(None);
    x.put(Some(3));
    let mut it = x.iter();
    let (from, to) = it.get_range();
    assert_eq!((from, to), (0, 3));
    assert_eq!(it.next(), Some(1));
    // the empty publication ends the pass early, as an iterator would
    assert_eq!(it.next(), None);
    let (from, to) = it.get_range();
    assert_eq!((from, to), (2, 3));
    assert_eq!(it.next(), Some(3));
}

#[test]
fn tmp_parks_and_returns_a_value() {
    let mut x = CircularBuffer::<i32>::new(2);
    assert_eq!(x.tmp(Some(5)), None);
    assert_eq!(x.tmp(None), Some(5));
    assert_eq!(x.tmp(None), None);
}
