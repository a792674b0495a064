use cknittel_util::iter_ones::IterOnes;

#[test]
fn iter_ones() {
    assert_eq!(1.iter_ones(), vec![0]);
    assert_eq!(0x01_00.iter_ones(), vec![8]);

    assert_eq!(
        0xff_ff.iter_ones(),
        vec![0, 1, 2, 3, 4, 5, 6, 7, 8, 9, 10, 11, 12, 13, 14, 15]
    );

    assert_eq!(4i8.iter_ones(), vec![2]);
    assert_eq!(4i16.iter_ones(), vec![2]);
    assert_eq!(4i32.iter_ones(), vec![2]);
    assert_eq!(4i64.iter_ones(), vec![2]);
    assert_eq!(4i128.iter_ones(), vec![2]);
    assert_eq!(4isize.iter_ones(), vec![2]);
    assert_eq!(4u8.iter_ones(), vec![2]);
    assert_eq!(4u16.iter_ones(), vec![2]);
    assert_eq!(4u32.iter_ones(), vec![2]);
    assert_eq!(4u64.iter_ones(), vec![2]);
    assert_eq!(4u128.iter_ones(), vec![2]);
    assert_eq!(4usize.iter_ones(), vec![2]);
}
