use moot::models::{before, HollowComment, Leaf, Root, Timestamp, Trunk};

fn uuid_shaped(s: &str) -> bool {
    s.len() == 36
        && s.chars().enumerate().all(|(i, c)| {
            if i == 8 || i == 13 || i == 18 || i == 23 {
                c == '-'
            } else {
                c.is_ascii_digit() || ('a'..='f').contains(&c)
            }
        })
}

#[test]
fn new_leaf_is_fresh() {
    let a = Leaf::new("0xa".to_string(), "hi".to_string(), "g".to_string(), "b".to_string());
    let b = Leaf::new("0xa".to_string(), "hi".to_string(), "g".to_string(), "b".to_string());
    assert!(uuid_shaped(&a.id));
    assert_ne!(a.id, b.id);
    assert_eq!(a.upvotes, 0);
    assert_eq!(a.downvotes, 0);
    assert!(a.mirrors.is_empty() && !a.is_deleted && !a.is_mirrored);
    assert!(a.created_at.secs > 0);
}

#[test]
fn new_trunk_and_root() {
    let t = Trunk::new("a".to_string(), "General".to_string(), "d".to_string(), "system".to_string());
    assert!(uuid_shaped(&t.id));
    assert_eq!(t.root_id, "a");
    let r = Root::new("a".to_string(), "Anime & Manga".to_string(), "/a\\".to_string());
    assert!(r.branches.is_empty());
    let c = HollowComment::new("0xh".to_string(), "0xa".to_string(), "nice".to_string());
    assert!(uuid_shaped(&c.id));
    assert_eq!(c.target_hollow, "0xh");
}

#[test]
fn instants_order() {
    let a = Timestamp { secs: 10, nanos: 5 };
    let b = Timestamp { secs: 10, nanos: 6 };
    let c = Timestamp { secs: 11, nanos: 0 };
    assert!(before(a, b));
    assert!(before(b, c));
    assert!(!before(b, a));
    assert!(!before(a, a));
}

#[test]
fn concatenation() {
    assert_eq!(moot::models::concat("ab", "cd"), "abcd");
    assert_eq!(moot::models::concat("", "x"), "x");
    assert_eq!(moot::models::concat("é", "ü"), "éü");
}
