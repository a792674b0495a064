use cknittel_util::builder::error::BuilderError;
use cknittel_util::iter::{CollectResult, JoinWith};
use cknittel_util::iter_ones::IterOnes;
use cknittel_util::option::OptionUtil;
use cknittel_util::peekable_stream::{IntoPeekableStream, PeekableStream};
use cknittel_util::result::{CloneErr, EraseOk};
use cknittel_util::tuple::TupleTraits;
use cknittel_util::union_find::{RootNodeProxy, UnionFind};

#[test]
fn test_builder_error_message() {
    let err = BuilderError::missing_field("string");
    assert_eq!(err.message(), "Missing field `string`");
    match err.clone() {
        BuilderError::MissingField { field_name } => assert_eq!(field_name, "string"),
    }
}

#[test]
fn test_erase_some_and_ok() {
    assert_eq!(Some(5).erase_some(), Some(()));
    assert_eq!(None::<u8>.erase_some(), None);
    assert_eq!(Ok::<u8, &str>(3).erase_ok(), Ok(()));
    assert_eq!(Err::<u8, &str>("bad").erase_ok(), Err("bad"));
}

#[test]
fn test_clone_err() {
    let ok: Result<u8, String> = Ok(4);
    assert_eq!(ok.clone_err(), Ok(&4));
    let err: Result<u8, String> = Err("e".to_string());
    assert_eq!(err.clone_err(), Err("e".to_string()));
}

#[test]
fn test_tuple_traits() {
    let pair = (1, "a");
    assert_eq!((&pair).first(), &1);
    assert_eq!((&pair).second(), &"a");
    let mut pair2 = (1, 2);
    *(&mut pair2).first() = 10;
    *(&mut pair2).second() = 20;
    assert_eq!(pair2, (10, 20));
    assert_eq!(pair2.first(), 10);
    assert_eq!(pair2.second(), 20);
}

#[test]
fn test_collect_result_returns_first_error() {
    let iter = [Ok(1), Err("first"), Ok(3), Err("second")].into_iter();
    assert_eq!(iter.collect_result_vec(), Err("first"));
    let empty: [Result<u8, u8>; 0] = [];
    assert_eq!(empty.into_iter().collect_result_vec(), Ok(vec![]));
}

#[test]
fn test_join_with_single_item() {
    assert_eq!([7].into_iter().join_with(|| 0), vec![7]);
    assert_eq!([1, 2].into_iter().join_with(|| 0), vec![1, 0, 2]);
}

#[test]
fn test_iter_ones_edges() {
    assert_eq!(0u64.iter_ones(), Vec::<u32>::new());
    assert_eq!(u128::MAX.iter_ones(), (0..128).collect::<Vec<u32>>());
    assert_eq!((1u128 << 127 | 1u128 << 64 | 1).iter_ones(), vec![0, 64, 127]);
    assert_eq!((-1i8).iter_ones(), vec![0, 1, 2, 3, 4, 5, 6, 7]);
    assert_eq!(i64::MIN.iter_ones(), vec![63]);
    assert_eq!(0b1010_0000u8.iter_ones(), vec![5, 7]);
}

#[test]
fn test_peek_does_not_consume() {
    let mut stream = PeekableStream::<std::vec::IntoIter<u8>>::new(vec![1u8, 2].into_iter());
    assert_eq!(stream.peek().as_deref(), Some(&1));
    assert_eq!(stream.peek().as_deref(), Some(&1));
    assert_eq!(stream.next(), Some(1));
    assert_eq!(stream.peek().map(|p| p.take()), Some(2));
    assert!(stream.peek().is_none());
    assert_eq!(stream.next(), None);
    let mut empty = Vec::<u8>::new().into_iter().peekable_stream();
    assert!(empty.peek().is_none());
    assert_eq!(empty.next(), None);
}

#[test]
fn test_union_find_data_mut_and_proxies() {
    let mut uf = UnionFind::new_with_data(vec![(), (), ()]);
    assert_eq!(uf.capacity(), 3);
    assert_eq!(uf.unique_sets(), 3);
    {
        let mut proxy = uf.find_mut(2);
        assert_eq!(proxy.id(), 2);
        assert_eq!(proxy.data(), &());
        let shared: RootNodeProxy<'_, ()> = proxy.into();
        assert_eq!(shared.id(), 2);
        assert_eq!(*shared, ());
    }
    assert_eq!(uf.union(2, 0).id(), 2);
    assert_eq!(uf.union(0, 2).id(), 2);
    assert_eq!(uf.unique_sets(), 2);
    assert_eq!(uf.const_find(0).id(), 2);
    assert_eq!(uf.find(1).id(), 1);
}

#[derive(Debug, PartialEq)]
struct Count(u32);

impl cknittel_util::union_find::UnionFindData for Count {
    type Error = std::convert::Infallible;
    fn merge_ok(_before: Self, _other: Self) -> bool {
        true
    }
    fn merge_result(before: Self, other: Self) -> Self {
        Count(before.0 + other.0)
    }
    fn merge_error(_before: Self, _other: Self) -> std::convert::Infallible {
        unreachable!("adding counts never fails")
    }
    fn merge(
        &mut self,
        other: Self,
    ) -> Result<(), cknittel_util::union_find::UnionFindMergeError<Self, std::convert::Infallible>> {
        self.0 += other.0;
        Ok(())
    }
}

#[test]
fn test_union_merges_data_and_data_mut_writes() {
    let mut uf = UnionFind::new_with_data(vec![Count(1), Count(2), Count(4)]);
    uf.union(0, 1);
    uf.union(2, 0);
    assert_eq!(uf.find(1).data(), &Count(7));
    assert_eq!(uf.find(1).id(), 2);
    *uf.find_mut(0).data_mut() = Count(100);
    assert_eq!(uf.const_find(1).data(), &Count(100));
    let mut uf2: UnionFind<Count> = UnionFind::default();
    assert_eq!(uf2.capacity(), 0);
    assert_eq!(uf2.add_set(Count(3)).id(), 0);
    assert_eq!(uf2.unique_sets(), 1);
}
