use fractal_store::config::StorageConfig;
use fractal_store::inbox::{resonance_or_default, validate_inbox_activity};
use fractal_store::models::Contribution;
use fractal_store::storage::FractalStorage;
use sha2::{Digest, Sha256};

fn contribution(node: &str, user: &str, content: &str, resonance: u32) -> Contribution {
    Contribution::new(
        node.to_string(),
        user.to_string(),
        content.to_string(),
        resonance,
        None,
    )
}

#[test]
fn receipt_carries_the_hex_sha256_of_the_content() {
    let mut s = FractalStorage::empty(StorageConfig::default());
    let c = contribution("root:Alpha", "u1", "hello", 700);
    let id = c.id.clone();
    let r = s.store_contribution(c);
    assert_eq!(
        r.content_hash,
        "2cf24dba5fb0a30e26e83b2ac5b9e29e1b161e5c1fa7425e73043362938b9824"
    );
    assert_eq!(r.content_hash, hex::encode(Sha256::digest("hello".as_bytes())));
    assert_eq!(r.id, id);
    assert_eq!(r.node_id, "root:Alpha");
    assert_eq!(r.resonance, 700);
    assert_eq!(s.get_storage_stats().total_contributions, 1);
}

#[test]
fn lookup_by_hash_recomputes_and_returns_first_match() {
    let mut s = FractalStorage::empty(StorageConfig::default());
    let first = contribution("n1", "alice", "same text", 500);
    let first_id = first.id.clone();
    let r1 = s.store_contribution(first);
    let r2 = s.store_contribution(contribution("n2", "bob", "same text", 600));
    assert_eq!(r1.content_hash, r2.content_hash);
    let found = s.get_contribution(&r1.content_hash).unwrap();
    assert_eq!(found.id, first_id);
    assert_eq!(found.content, "same text");
    assert!(s.get_contribution("00ff").is_none());
}

#[test]
fn node_and_user_filters_return_matching_contributions_in_order() {
    let mut s = FractalStorage::empty(StorageConfig::default());
    s.store_contribution(contribution("n1", "alice", "a", 100));
    s.store_contribution(contribution("n2", "alice", "b", 200));
    s.store_contribution(contribution("n1", "bob", "c", 300));
    let n1 = s.get_node_contributions("n1");
    assert_eq!(n1.len(), 2);
    assert_eq!(n1[0].content, "a");
    assert_eq!(n1[1].content, "c");
    let alice = s.get_user_contributions("alice");
    assert_eq!(alice.len(), 2);
    assert_eq!(alice[0].content, "a");
    assert_eq!(alice[1].content, "b");
    assert!(s.get_node_contributions("n3").is_empty());
    assert!(s.get_user_contributions("carol").is_empty());
    assert_eq!(s.get_storage_stats().total_contributions, 3);
}

#[test]
fn appends_never_touch_earlier_entries() {
    let mut s = FractalStorage::empty(StorageConfig::default());
    let r1 = s.store_contribution(contribution("n1", "alice", "first", 100));
    s.store_contribution(contribution("n1", "alice", "second", 200));
    let all = s.get_node_contributions("n1");
    assert_eq!(all.len(), 2);
    assert_eq!(all[0].id, r1.id);
    assert_eq!(all[0].content, "first");
    assert_eq!(all[0].resonance, 100);
}

#[test]
fn contributions_may_target_unknown_nodes() {
    let mut s = FractalStorage::empty(StorageConfig::default());
    let r = s.store_contribution(contribution("never:stored", "u", "text", 500));
    assert_eq!(r.node_id, "never:stored");
    assert_eq!(s.get_node_contributions("never:stored").len(), 1);
}

#[test]
fn inbox_accepts_only_create_activities_with_objects() {
    assert!(validate_inbox_activity("Create", true));
    assert!(!validate_inbox_activity("Create", false));
    assert!(!validate_inbox_activity("Like", true));
    assert!(!validate_inbox_activity("", true));
}

#[test]
fn unspecified_resonance_defaults_to_one_half() {
    assert_eq!(resonance_or_default(None), 500);
    assert_eq!(resonance_or_default(Some(700)), 700);
    assert_eq!(resonance_or_default(Some(0)), 0);
}
