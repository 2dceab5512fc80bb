use cloth_sim::buffers::PingPong;

#[test]
fn replace_swaps_one_slot_only() {
    let mut p = PingPong::new(vec![1, 2, 3], vec![1, 2, 3]);
    assert_eq!(p.len(), 3);
    let old = p.replace(1, vec![4, 5, 6]);
    assert_eq!(old, vec![1, 2, 3]);
    assert_eq!(p.slot(0), &vec![1, 2, 3]);
    assert_eq!(p.slot(1), &vec![4, 5, 6]);
    let old = p.replace(0, vec![7, 8, 9]);
    assert_eq!(old, vec![1, 2, 3]);
    assert_eq!(p.slot(0), &vec![7, 8, 9]);
    assert_eq!(p.slot(1), &vec![4, 5, 6]);
}
