use block::u32_decimal;
use block::Block;
use block::strings::str_lt_exec;
use sha2::Digest;

fn independent_sha512_hex(s: &str) -> String {
    let mut hasher = sha2::Sha512::new();
    hasher.update(s);
    format!("{:x}", hasher.finalize())
}

#[test]
fn self_hash_matches_independent_digest() {
    let b = Block::new(String::from("\"hello\""), 7);
    let expected = independent_sha512_hex("7\"hello\"");
    assert_eq!(b.get_self_hash(), expected);
    assert_ne!(b.get_self_hash(), String::from("7\"hello\""));
}

#[test]
fn self_hash_deterministic_across_instances() {
    let a = Block::new(String::from("payload"), 42);
    let b = Block::new(String::from("payload"), 42);
    assert_eq!(a.get_self_hash(), b.get_self_hash());
}

#[test]
fn self_hash_idempotent() {
    let b = Block::new(String::from("data"), 3);
    assert_eq!(b.get_self_hash(), b.get_self_hash());
}

#[test]
fn self_hash_sensitive_to_trust_and_data() {
    let a = Block::new(String::from("data"), 1);
    let b = Block::new(String::from("data"), 2);
    let c = Block::new(String::from("datb"), 1);
    assert_ne!(a.get_self_hash(), b.get_self_hash());
    assert_ne!(a.get_self_hash(), c.get_self_hash());
}

#[test]
fn root_hash_aggregates_self_hash_alone_when_no_peers() {
    let mut b = Block::new(String::from("x"), 5);
    b.get_root_hashs();
    let expected = independent_sha512_hex(&independent_sha512_hex("5x"));
    assert_eq!(b.current_root_hash(), &expected);
}

#[test]
fn check_request_compares_with_current_root() {
    let mut b = Block::new(String::from("x"), 5);
    b.get_root_hashs();
    let root = b.current_root_hash().clone();
    assert!(b.check_request(root));
    assert!(!b.check_request(String::from("something else")));
}

#[test]
fn new_block_starts_with_empty_state() {
    let b = Block::new(String::from("p"), 11);
    assert!(b.other_hashes().is_empty());
    assert_eq!(b.current_root_hash(), &String::new());
    assert_eq!(b.trust(), 11);
    assert_eq!(b.data(), &String::from("p"));
}

#[test]
fn decimal_rendering_exact() {
    assert_eq!(u32_decimal(0), String::from("0"));
    assert_eq!(u32_decimal(7), String::from("7"));
    assert_eq!(u32_decimal(100), String::from("100"));
    assert_eq!(u32_decimal(1234567890), String::from("1234567890"));
    assert_eq!(u32_decimal(u32::MAX), String::from("4294967295"));
}

#[test]
fn lexicographic_order_on_digests() {
    assert!(str_lt_exec("abc", "abd"));
    assert!(str_lt_exec("ab", "abc"));
    assert!(!str_lt_exec("abc", "abc"));
    assert!(!str_lt_exec("b", "ab"));
    assert!(str_lt_exec("", "a"));
    assert!(!str_lt_exec("a", ""));
}
