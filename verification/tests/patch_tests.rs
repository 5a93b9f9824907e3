use block::Block;

fn block_with_others(others: Vec<String>) -> Block {
    let mut b = Block::new(String::from("p"), 1);
    b.get_root_hashs();
    // Two matching reports out-tally the block's own vote, so the given hash
    // set is adopted.
    b.update_others(vec![(String::from("d"), others.clone()), (String::from("d"), others)]);
    b
}

#[test]
fn change_set_replaces_in_place() {
    let mut b = block_with_others(vec![String::from("a"), String::from("b"), String::from("c")]);
    b.change_set(vec![(String::from("b"), String::from("d"))]);
    let patched = vec![String::from("a"), String::from("d"), String::from("c")];
    assert_eq!(b.other_hashes(), &patched);
    b.change_set(vec![(String::from("x"), String::from("y"))]);
    assert_eq!(b.other_hashes(), &patched);
}

#[test]
fn change_set_touches_only_first_duplicate() {
    let mut b = block_with_others(vec![String::from("b"), String::from("b")]);
    b.change_set(vec![(String::from("b"), String::from("d"))]);
    assert_eq!(b.other_hashes(), &vec![String::from("d"), String::from("b")]);
}

#[test]
fn change_set_applies_pairs_in_order() {
    let mut b = block_with_others(vec![String::from("a")]);
    b.change_set(vec![
        (String::from("a"), String::from("b")),
        (String::from("b"), String::from("c")),
    ]);
    assert_eq!(b.other_hashes(), &vec![String::from("c")]);
}

#[test]
fn change_set_leaves_root_hash_stale() {
    let mut b = block_with_others(vec![String::from("a")]);
    let root_before = b.current_root_hash().clone();
    b.change_set(vec![(String::from("a"), String::from("z"))]);
    // The cached root deliberately still reflects the state before the patch.
    assert_eq!(b.current_root_hash(), &root_before);
    b.get_root_hashs();
    assert_ne!(b.current_root_hash(), &root_before);
}
