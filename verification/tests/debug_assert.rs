use cknittel_util::debug_assert::{debug_assert_ge, debug_assert_gt, debug_assert_le, debug_assert_lt};

#[test]
fn test_debug_assertions() {
    debug_assert_le(0, 1);
    debug_assert_le(1, 1);
    debug_assert_lt(0, 1);
    debug_assert_ge(1, 0);
    debug_assert_ge(1, 1);
    debug_assert_gt(1, 0);
}
