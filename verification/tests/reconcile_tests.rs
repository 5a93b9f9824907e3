use block::Block;
use sha2::Digest;

fn expected_sha512_hex(s: &str) -> String {
    let mut hasher = sha2::Sha512::new();
    hasher.update(s);
    format!("{:x}", hasher.finalize())
}

#[test]
fn reconcile_adopts_strict_majority() {
    let mut b = Block::new(String::from("p"), 1);
    b.get_root_hashs();
    let winning = vec![String::from("aaa"), String::from("bbb")];
    let reports = vec![
        (String::from("x"), winning.clone()),
        (String::from("y"), vec![String::from("ccc")]),
        (String::from("x"), winning.clone()),
        (String::from("x"), winning.clone()),
    ];
    b.update_others(reports);
    assert_eq!(b.other_hashes(), &winning);
    let self_hash = b.get_self_hash();
    let expected_root = expected_sha512_hex(&format!("{}aaabbb", self_hash));
    assert_eq!(b.current_root_hash(), &expected_root);
}

#[test]
fn reconcile_noop_on_self_win() {
    let mut b = Block::new(String::from("p"), 1);
    b.get_root_hashs();
    let root_before = b.current_root_hash().clone();
    // One report against the block's own vote is a tie; the root is 128
    // lowercase hex characters, so it sorts before "zzz" and wins the tie.
    b.update_others(vec![(String::from("zzz"), vec![String::from("q")])]);
    assert_eq!(b.current_root_hash(), &root_before);
    assert!(b.other_hashes().is_empty());
}

#[test]
fn reconcile_empty_reports_is_noop() {
    let mut b = Block::new(String::from("p"), 9);
    b.get_root_hashs();
    let root_before = b.current_root_hash().clone();
    b.update_others(vec![]);
    assert_eq!(b.current_root_hash(), &root_before);
    assert!(b.other_hashes().is_empty());
}

#[test]
fn reconcile_adopts_when_own_digest_reported() {
    let mut b = Block::new(String::from("p"), 1);
    b.get_root_hashs();
    let own = b.current_root_hash().clone();
    b.update_others(vec![(own, vec![String::from("peer1")])]);
    assert_eq!(b.other_hashes(), &vec![String::from("peer1")]);
}

#[test]
fn reconcile_tie_breaks_to_smallest_digest() {
    let mut b = Block::new(String::from("p"), 1);
    b.get_root_hashs();
    // A tie between the block's own digest and the empty digest resolves to
    // the empty one, which sorts before everything.
    b.update_others(vec![(String::new(), vec![String::from("w")])]);
    assert_eq!(b.other_hashes(), &vec![String::from("w")]);
}

#[test]
fn reconcile_adopts_first_report_of_winning_digest() {
    let mut b = Block::new(String::from("p"), 1);
    b.get_root_hashs();
    let reports = vec![
        (String::from("x"), vec![String::from("first")]),
        (String::from("x"), vec![String::from("second")]),
    ];
    b.update_others(reports);
    assert_eq!(b.other_hashes(), &vec![String::from("first")]);
}

#[test]
fn reconcile_recomputes_root_from_adopted_set() {
    let mut b = Block::new(String::from("doc"), 3);
    b.get_root_hashs();
    let adopted = vec![String::from("h1"), String::from("h2"), String::from("h3")];
    b.update_others(vec![
        (String::from("k"), adopted.clone()),
        (String::from("k"), adopted.clone()),
    ]);
    let expected_root = expected_sha512_hex(&format!("{}h1h2h3", b.get_self_hash()));
    assert_eq!(b.current_root_hash(), &expected_root);
}
