use ed25519_dalek::{Signer, SigningKey};
use moot::content::{
    validate_author, check_leaf_author, check_leaf_content, check_leaf_submission, expired_leaves, leaf_count_in_branch, leaf_expiry, leaf_from_request,
    leaves_in_root, received_leaf, seed_deadline, LeafExpiry, LeafRejection, NodeConfig, SeedError,
};
use moot::crypto::derive_address;
use moot::models::{CreateLeafRequest, Leaf, Timestamp};

fn leaf(id: &str, root: &str, branch: &str, deleted: bool, until: Option<Timestamp>) -> Leaf {
    Leaf {
        id: id.to_string(),
        author_address: "0xa".to_string(),
        author_name: None,
        content: "c".to_string(),
        media_urls: vec![],
        root: root.to_string(),
        branch: branch.to_string(),
        parent_leaf_id: None,
        created_at: Timestamp { secs: 0, nanos: 0 },
        upvotes: 0,
        downvotes: 0,
        mirrors: vec![],
        is_mirrored: false,
        is_deleted: deleted,
        seeded_until: until,
    }
}

const ADDR: &str = "0x1234567890abcdef1234567890abcdef12345678";

#[test]
fn listing_in_root_skips_deleted_and_others() {
    let leaves = vec![
        leaf("1", "g", "b", false, None),
        leaf("2", "a", "b", false, None),
        leaf("3", "g", "b", true, None),
        leaf("4", "g", "c", false, None),
    ];
    let shown: Vec<String> = leaves_in_root(leaves, "g").into_iter().map(|l| l.id).collect();
    assert_eq!(shown, vec!["1".to_string(), "4".to_string()]);
}

#[test]
fn counting_in_branch() {
    let leaves = vec![
        leaf("1", "g", "b", false, None),
        leaf("2", "a", "b", false, None),
        leaf("3", "g", "b", true, None),
        leaf("4", "g", "c", false, None),
    ];
    assert_eq!(leaf_count_in_branch(&leaves, "b"), 2);
    assert_eq!(leaf_count_in_branch(&leaves, "z"), 0);
}

#[test]
fn submission_accepts_unsigned() {
    assert_eq!(check_leaf_submission(ADDR, "", "", " <b>hi</b> ", 0), Ok("hi".to_string()));
}

#[test]
fn submission_invalid_address() {
    assert_eq!(check_leaf_submission("invalid_address", "", "", "hi", 0), Err(LeafRejection::InvalidAddress));
    assert_eq!(check_leaf_submission("0x", "", "", "hi", 0), Err(LeafRejection::InvalidAddress));
    assert_eq!(check_leaf_submission("0xTest-User", "", "", "hi", 0), Err(LeafRejection::InvalidAddress));
}

#[test]
fn submission_invalid_signature_format() {
    assert_eq!(
        check_leaf_submission(ADDR, "nothex", "key", "hi", 0),
        Err(LeafRejection::InvalidSignatureFormat)
    );
}

#[test]
fn submission_key_mismatch() {
    let sig = "ab".repeat(64);
    assert_eq!(check_leaf_submission(ADDR, &sig, "key", "hi", 0), Err(LeafRejection::KeyMismatch));
}

fn signed(content: &str) -> (String, String, String) {
    let sk = SigningKey::from_bytes(&[9u8; 32]);
    let pk_hex = hex::encode(sk.verifying_key().to_bytes());
    let sig_hex = hex::encode(sk.sign(content.as_bytes()).to_bytes());
    let address = derive_address(&pk_hex);
    (address, pk_hex, sig_hex)
}

#[test]
fn submission_signed_ok() {
    let (address, pk, sig) = signed("hello");
    assert_eq!(check_leaf_submission(&address, &sig, &pk, "hello", 3), Ok("hello".to_string()));
}

#[test]
fn submission_bad_signature() {
    let (address, pk, sig) = signed("hello");
    assert_eq!(
        check_leaf_submission(&address, &sig, &pk, "other", 0),
        Err(LeafRejection::InvalidSignature)
    );
}

#[test]
fn submission_empty_content() {
    assert_eq!(check_leaf_submission(ADDR, "", "", "<p> </p>", 0), Err(LeafRejection::EmptyContent));
}

#[test]
fn submission_branch_full() {
    assert_eq!(check_leaf_submission(ADDR, "", "", "hi", 1000), Err(LeafRejection::BranchFull));
    assert_eq!(check_leaf_submission(ADDR, "", "", "hi", 999), Ok("hi".to_string()));
}

#[test]
fn leaf_built_from_request() {
    let req = CreateLeafRequest {
        author_name: Some("n".to_string()),
        content: "raw".to_string(),
        media_urls: None,
        root: "g".to_string(),
        branch: "b".to_string(),
        parent_leaf_id: None,
    };
    let until = Some(Timestamp { secs: 5, nanos: 0 });
    let l = leaf_from_request(ADDR.to_string(), req, "clean".to_string(), until);
    assert_eq!(l.content, "clean");
    assert_eq!(l.author_name, Some("n".to_string()));
    assert!(l.media_urls.is_empty());
    assert_eq!(l.seeded_until, until);
    assert_eq!(l.id.len(), 36);
    assert_eq!(l.upvotes, 0);
}

#[test]
fn mirror_recorded_once() {
    let mut l = leaf("1", "g", "b", false, None);
    assert!(l.record_mirror("0xm"));
    assert!(l.is_mirrored);
    assert!(!l.record_mirror("0xm"));
    assert_eq!(l.mirrors, vec!["0xm".to_string()]);
}

#[test]
fn votes_count_up() {
    let mut l = leaf("1", "g", "b", false, None);
    l.record_upvote();
    l.record_upvote();
    l.record_downvote();
    assert_eq!((l.upvotes, l.downvotes), (2, 1));
    l.mark_deleted();
    assert!(l.is_deleted);
}

#[test]
fn default_node_config() {
    let c = NodeConfig::default();
    assert_eq!(
        c,
        NodeConfig { cache_ttl_days: 7, cache_max_mb: 1024, legendary_cache_max_mb: 512, auto_seed: true }
    );
}

#[test]
fn seeding_deadline() {
    let now = Timestamp { secs: 1000, nanos: 5 };
    let c = NodeConfig::default();
    assert_eq!(seed_deadline(&c, now), Ok(Some(Timestamp { secs: 1000 + 7 * 86400, nanos: 5 })));
    let off = NodeConfig { auto_seed: false, ..c };
    assert_eq!(seed_deadline(&off, now), Ok(None));
}

#[test]
fn expiry_filter() {
    let now = Timestamp { secs: 100, nanos: 0 };
    let leaves = vec![
        leaf("past", "g", "b", false, Some(Timestamp { secs: 99, nanos: 999 })),
        leaf("future", "g", "b", false, Some(Timestamp { secs: 101, nanos: 0 })),
        leaf("never", "g", "b", false, None),
        leaf("deleted", "g", "b", true, Some(Timestamp { secs: 1, nanos: 0 })),
        leaf("same", "g", "b", false, Some(Timestamp { secs: 100, nanos: 0 })),
    ];
    let ids: Vec<String> = expired_leaves(leaves, &vec![], now).into_iter().map(|l| l.id).collect();
    assert_eq!(ids, vec!["past".to_string()]);
}

#[test]
fn legendary_leaves_never_expire() {
    let now = Timestamp { secs: 100, nanos: 0 };
    let leaves = vec![
        leaf("kept", "g", "b", false, Some(Timestamp { secs: 1, nanos: 0 })),
        leaf("gone", "g", "b", false, Some(Timestamp { secs: 2, nanos: 0 })),
    ];
    let ids: Vec<String> =
        expired_leaves(leaves, &vec!["kept".to_string()], now).into_iter().map(|l| l.id).collect();
    assert_eq!(ids, vec!["gone".to_string()]);
}

#[test]
fn expiry_report() {
    let now = Timestamp { secs: 100, nanos: 500 };
    let l = leaf("x", "g", "b", false, Some(Timestamp { secs: 110, nanos: 400 }));
    let e = leaf_expiry(&l, now).unwrap();
    assert_eq!(e.expires_in_seconds, Some(9));
    assert!(!e.is_expired);
    let l2 = leaf("y", "g", "b", false, Some(Timestamp { secs: 90, nanos: 0 }));
    let e2 = leaf_expiry(&l2, now).unwrap();
    assert_eq!(e2.expires_in_seconds, Some(0));
    assert!(e2.is_expired);
    let l3 = leaf("z", "g", "b", false, None);
    let e3 = leaf_expiry(&l3, now);
    assert_eq!(e3, Some(LeafExpiry { seeded_until: None, expires_in_seconds: None, is_expired: false }));
    let beyond = leaf("w", "g", "b", false, Some(Timestamp { secs: 10, nanos: 2_500_000_000 }));
    assert_eq!(leaf_expiry(&beyond, now), None);
}

#[test]
fn author_and_content_checked_apart() {
    assert_eq!(check_leaf_author("invalid_address", "", "", "hi"), Err(LeafRejection::InvalidAddress));
    assert_eq!(check_leaf_author("0xTestUser", "", "", "Hello from Moot!"), Ok(()));
    assert_eq!(check_leaf_author(ADDR, "", "", "anything"), Ok(()));
    let (address, pk, sig) = signed("hello");
    assert_eq!(check_leaf_author(&address, &sig, &pk, "hello"), Ok(()));
    assert_eq!(check_leaf_author(&address, &sig, &pk, "hellO"), Err(LeafRejection::InvalidSignature));
    assert_eq!(check_leaf_content("<i>x</i>", 0), Ok("x".to_string()));
    assert_eq!(check_leaf_content("<br>", 0), Err(LeafRejection::EmptyContent));
    assert_eq!(check_leaf_content("x", 1000), Err(LeafRejection::BranchFull));
}

#[test]
fn seeding_with_huge_ttl_wraps_to_the_past() {
    let now = Timestamp { secs: 1_000_000, nanos: 0 };
    let wrapped = NodeConfig { cache_ttl_days: u64::MAX, cache_max_mb: 1, legendary_cache_max_mb: 1, auto_seed: true };
    assert_eq!(seed_deadline(&wrapped, now), Ok(Some(Timestamp { secs: 1_000_000 - 86400, nanos: 0 })));
}

#[test]
fn seeding_out_of_range() {
    let now = Timestamp { secs: 1_000_000, nanos: 0 };
    let far = NodeConfig { cache_ttl_days: 200_000_000_000_000, cache_max_mb: 1, legendary_cache_max_mb: 1, auto_seed: true };
    assert_eq!(seed_deadline(&far, now), Err(SeedError::OutOfRange));
    let last = Timestamp { secs: 8_210_298_412_799, nanos: 0 };
    assert_eq!(seed_deadline(&NodeConfig::default(), last), Err(SeedError::OutOfRange));
    let off = NodeConfig { auto_seed: false, ..far };
    assert_eq!(seed_deadline(&off, last), Ok(None));
    let beyond = Timestamp { secs: 10, nanos: 2_500_000_000 };
    assert_eq!(seed_deadline(&NodeConfig::default(), beyond), Err(SeedError::OutOfRange));
    assert_eq!(seed_deadline(&off, beyond), Ok(None));
}

#[test]
fn received_leaf_is_reseeded() {
    let now = Timestamp { secs: 1000, nanos: 0 };
    let l = leaf("x", "g", "b", false, Some(Timestamp { secs: 5, nanos: 0 }));
    let got = received_leaf(l.clone(), &NodeConfig::default(), now).unwrap();
    assert_eq!(got.seeded_until, Some(Timestamp { secs: 1000 + 7 * 86400, nanos: 0 }));
    assert_eq!(got.id, l.id);
    assert_eq!(got.content, l.content);
    let off = NodeConfig { auto_seed: false, ..NodeConfig::default() };
    assert_eq!(received_leaf(l.clone(), &off, now).unwrap().seeded_until, None);
    let last = Timestamp { secs: 8_210_298_412_799, nanos: 0 };
    assert!(matches!(received_leaf(l, &NodeConfig::default(), last), Err(SeedError::OutOfRange)));
}

#[test]
fn handle_posts_like_an_address() {
    assert_eq!(
        check_leaf_submission("0xTestUser", "", "", "Hello from Moot!", 0),
        Ok("Hello from Moot!".to_string())
    );
    assert!(validate_author("0xUser42"));
    assert!(validate_author(ADDR));
    assert!(!validate_author("invalid_address"));
}

#[test]
fn expiry_across_a_leap_second() {
    let base: i64 = 86400 * 19000;
    let now = Timestamp { secs: base + 59, nanos: 1_200_000_000 };
    let l = leaf("x", "g", "b", false, Some(Timestamp { secs: base + 120, nanos: 0 }));
    let e = leaf_expiry(&l, now).unwrap();
    assert_eq!(e.expires_in_seconds, Some(60));
    assert!(!e.is_expired);
    let in_leap = leaf("y", "g", "b", false, Some(Timestamp { secs: base + 86399, nanos: 1_500_000_000 }));
    let e = leaf_expiry(&in_leap, Timestamp { secs: base + 86000, nanos: 0 }).unwrap();
    assert_eq!(e.expires_in_seconds, Some(400));
}

#[test]
fn seeding_from_inside_a_leap_second() {
    let base: i64 = 86400 * 19000;
    let now = Timestamp { secs: base + 59, nanos: 1_200_000_000 };
    let c = NodeConfig::default();
    assert_eq!(seed_deadline(&c, now), Ok(Some(Timestamp { secs: base + 59 + 7 * 86400, nanos: 200_000_000 })));
    let back = NodeConfig { cache_ttl_days: u64::MAX, ..c };
    assert_eq!(seed_deadline(&back, now), Ok(Some(Timestamp { secs: base + 60 - 86400, nanos: 200_000_000 })));
}
