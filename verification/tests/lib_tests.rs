use lossyq::spsc;

#[test]
fn lib_option_i32() {
    let (mut tx, mut _rx) = spsc::channel(2);
    tx.put(Some(1));
}

#[test]
fn lib_string_literal() {
    let (mut tx, mut _rx) = spsc::channel(2);
    tx.put(Some("world"));
}

#[test]
fn lib_boxed_string_obj() {
    let (mut tx, mut _rx) = spsc::channel(2);
    tx.put(Some(String::from("world")));
}

#[test]
fn lib_at_most_once() {
    let (mut tx, mut rx) = spsc::channel(20);
    tx.put(Some(1));
    tx.put(Some(2));
    tx.put(Some(3));
    {
        // the first iterator yields the first element; the rest of its
        // range is claimed whether consumed or not
        let mut it = rx.iter();
        assert_eq!(Some(1), it.next());
    }
    {
        // the second iterator gets nothing: the first received the whole
        // range no matter whether next was called on every item
        let mut it = rx.iter();
        assert_eq!(None, it.next());
    }
}
