use cknittel_util::union_find::{UnionFind, UnionFindData, UnionFindMergeError};

#[test]
fn test_basic() {
    let mut uf = UnionFind::new(10);

    for i in 0..10 {
        assert_eq!(uf.find(i).id(), i);
    }

    uf.union(1, 3);
    uf.union(4, 5);
    uf.union(1, 5);

    assert_eq!(uf.const_find(1).id(), uf.const_find(3).id());
    assert_eq!(uf.const_find(1).id(), uf.const_find(4).id());
    assert_eq!(uf.const_find(1).id(), uf.const_find(5).id());
    assert_eq!(uf.const_find(0).id(), 0);
    assert_eq!(uf.const_find(2).id(), 2);
    assert_eq!(uf.const_find(6).id(), 6);
    assert_eq!(uf.const_find(7).id(), 7);
    assert_eq!(uf.const_find(8).id(), 8);
    assert_eq!(uf.const_find(9).id(), 9);

    assert_eq!(uf.find(1).id(), uf.find(3).id());
    assert_eq!(uf.find(1).id(), uf.find(4).id());
    assert_eq!(uf.find(1).id(), uf.find(5).id());
    assert_eq!(uf.find(0).id(), 0);
    assert_eq!(uf.find(2).id(), 2);
    assert_eq!(uf.find(6).id(), 6);
    assert_eq!(uf.find(7).id(), 7);
    assert_eq!(uf.find(8).id(), 8);
    assert_eq!(uf.find(9).id(), 9);
}

#[test]
fn test_long_chain() {
    let mut uf = UnionFind::new(256);

    for i in 0..255 {
        uf.union(i, i + 1);
    }

    let root_id = uf.find(0).id();
    for i in 1..256 {
        assert_eq!(uf.find(i).id(), root_id);
    }
}

#[derive(Debug, PartialEq, Eq)]
enum MyError {
    Overflow,
}

#[derive(Debug, PartialEq, Eq)]
struct Data(u8);

impl UnionFindData for Data {
    type Error = MyError;
    fn merge_ok(before: Self, other: Self) -> bool {
        before.0.checked_add(other.0).is_some()
    }
    fn merge_result(before: Self, other: Self) -> Self {
        Data(before.0.wrapping_add(other.0))
    }
    fn merge_error(_before: Self, _other: Self) -> MyError {
        MyError::Overflow
    }
    fn merge(&mut self, other: Self) -> Result<(), UnionFindMergeError<Self, MyError>> {
        match self.0.checked_add(other.0) {
            Some(sum) => {
                self.0 = sum;
                Ok(())
            }
            None => Err(UnionFindMergeError::new(MyError::Overflow, other)),
        }
    }
}

#[test]
fn test_fallible_data() {
    let mut uf = UnionFind::new_with_data(vec![Data(10), Data(30), Data(255)]);

    assert_eq!(uf.find(0).id(), 0);
    assert_eq!(uf.find(0).data(), &Data(10));
    assert_eq!(uf.find(1).id(), 1);
    assert_eq!(uf.find(1).data(), &Data(30));
    assert_eq!(uf.find(2).id(), 2);
    assert_eq!(uf.find(2).data(), &Data(255));

    match uf.try_union(0, 1) {
        Ok(proxy) => assert_eq!(proxy.data(), &Data(40)),
        Err(_) => panic!("expected the union to succeed"),
    }
    assert_eq!(uf.find(0).data(), &Data(40));
    assert_eq!(uf.find(1).data(), &Data(40));

    assert!(matches!(uf.try_union(0, 2), Err(MyError::Overflow)));
    // This should leave the UF unchanged.
    assert_eq!(uf.find(0).data(), &Data(40));
    assert_eq!(uf.find(1).data(), &Data(40));
    assert_eq!(uf.find(2).data(), &Data(255));
}

#[test]
fn test_add_set() {
    let mut uf: UnionFind<()> = UnionFind::new(0);
    let id1 = uf.add_set(()).id();
    let id2 = uf.add_set(()).id();

    assert_eq!(uf.unique_sets(), 2);
    assert!(uf.try_union(id1, id2).is_ok());
    assert_eq!(uf.unique_sets(), 1);
}

#[test]
fn test_union_order_and_repeat_keep_the_sets() {
    let mut ab = UnionFind::new(5);
    let mut ba = UnionFind::new(5);
    ab.union(3, 4);
    ba.union(3, 4);
    ab.union(1, 3);
    ba.union(3, 1);
    for x in 0..5 {
        for y in 0..5 {
            let same_ab = ab.const_find(x).id() == ab.const_find(y).id();
            let same_ba = ba.const_find(x).id() == ba.const_find(y).id();
            assert_eq!(same_ab, same_ba);
        }
    }
    assert_eq!(ab.unique_sets(), 3);
    assert_eq!(ba.unique_sets(), 3);
    let roots: Vec<usize> = (0..5).map(|i| ab.const_find(i).id()).collect();
    ab.union(1, 3);
    assert_eq!(ab.unique_sets(), 3);
    for i in 0..5 {
        assert_eq!(ab.const_find(i).id(), roots[i]);
    }
}
