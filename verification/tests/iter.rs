use cknittel_util::iter::{CollectResult, JoinWith};

#[derive(Debug, PartialEq)]
struct TestError;

#[test]
fn test_collect_result() {
    let iter = [Ok::<_, TestError>(1), Ok(2), Ok(3)].into_iter();

    assert_eq!(iter.collect_result::<Vec<_>>(), Ok(vec![1, 2, 3]));
}

#[test]
fn test_collect_result_err() {
    let iter = [Ok(1), Ok(2), Err(TestError)].into_iter();

    assert!(iter.collect_result::<Vec<_>>().is_err());
}

#[test]
fn test_collect_result_vec() {
    let iter = [Ok::<_, TestError>(1), Ok(2), Ok(3)].into_iter();

    assert_eq!(iter.collect_result_vec(), Ok(vec![1, 2, 3]));
}

#[test]
fn test_collect_result_vec_err() {
    let iter = [Ok(1), Ok(2), Err(TestError)].into_iter();

    assert!(iter.collect_result_vec().is_err());
}

#[test]
fn test_join_with() {
    let iter = [1, 2, 3, 4, 5].into_iter();
    let mut v = 10;

    assert_eq!(
        iter.join_with(|| {
            let res = v;
            v += 1;
            res
        }),
        vec![1, 10, 2, 11, 3, 12, 4, 13, 5]
    );
}

#[test]
fn test_join_with_empty() {
    let empty: [i32; 0] = [];
    assert!(empty.into_iter().join_with(|| 10).is_empty());
}
