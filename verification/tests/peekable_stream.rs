use cknittel_util::peekable_stream::{IntoPeekableStream, PeekableStream};

#[derive(Debug, PartialEq, Eq)]
struct Char(char);

#[test]
fn test_non_cloneable() {
    let chars = ['a', 'b', 'c', 'd', 'e'].map(Char);

    let mut stream = chars.into_iter().peekable_stream();
    let peeked = stream.peek();
    assert_eq!(peeked.as_deref(), Some(&Char('a')));
    assert_eq!(peeked.unwrap().take(), Char('a'));

    assert_eq!(stream.peek().as_deref(), Some(&Char('b')));

    assert_eq!(stream.next(), Some(Char('b')));
    assert_eq!(stream.next(), Some(Char('c')));
    assert_eq!(stream.next(), Some(Char('d')));
    assert_eq!(stream.next(), Some(Char('e')));

    assert!(stream.peek().is_none());
}

#[test]
fn test_fresh_stream_yields_inner_items_and_peeks_take_nothing() {
    let mut stream = PeekableStream::<std::vec::IntoIter<u32>>::new(vec![4, 5, 6].into_iter());
    for _ in 0..3 {
        assert_eq!(*stream.peek().unwrap(), 4);
    }
    assert_eq!(stream.next(), Some(4));
    assert_eq!(stream.next(), Some(5));
    assert_eq!(stream.next(), Some(6));
    assert_eq!(stream.next(), None);
    assert_eq!(stream.next(), None);
    assert!(stream.peek().is_none());
}
