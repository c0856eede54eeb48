use rediff::tui::loader::pool_size_for;

#[test]
fn pool_leaves_a_core_free_and_stays_small() {
    assert_eq!(pool_size_for(0, 8), 0);
    assert_eq!(pool_size_for(100, 8), 7);
    assert_eq!(pool_size_for(100, 1), 1);
    assert_eq!(pool_size_for(100, 64), 8);
    assert_eq!(pool_size_for(3, 16), 3, "never more workers than files");
}
