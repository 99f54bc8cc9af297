use moot::models::{Branch, Leaf, Root, Timestamp};
use moot::search::{search_branches, search_leaves, search_roots, text_contains};

fn leaf(id: &str, content: &str, author: Option<&str>, deleted: bool) -> Leaf {
    Leaf {
        id: id.to_string(),
        author_address: "0xa".to_string(),
        author_name: author.map(|a| a.to_string()),
        content: content.to_string(),
        media_urls: vec![],
        root: "a".to_string(),
        branch: "b".to_string(),
        parent_leaf_id: None,
        created_at: Timestamp { secs: 0, nanos: 0 },
        upvotes: 0,
        downvotes: 0,
        mirrors: vec![],
        is_mirrored: false,
        is_deleted: deleted,
        seeded_until: None,
    }
}

#[test]
fn substring_search() {
    assert!(text_contains("hello world", "lo w"));
    assert!(text_contains("abc", ""));
    assert!(!text_contains("abc", "abcd"));
    assert!(!text_contains("abc", "ac"));
}

#[test]
fn leaves_match_content_or_author_ignoring_case() {
    let leaves = vec![
        leaf("1", "Rust is GREAT", None, false),
        leaf("2", "nothing here", Some("Rustacean"), false),
        leaf("3", "rust again", None, true),
        leaf("4", "python", Some("snake"), false),
    ];
    let ids: Vec<String> = search_leaves(leaves, "RUST").into_iter().map(|l| l.id).collect();
    assert_eq!(ids, vec!["1".to_string(), "2".to_string()]);
}

#[test]
fn branches_match_name_or_description() {
    let mk = |id: &str, name: &str, desc: &str| Branch {
        id: id.to_string(),
        root_id: "a".to_string(),
        trunk_id: None,
        name: name.to_string(),
        description: desc.to_string(),
        created_at: Timestamp { secs: 0, nanos: 0 },
        parent_branch_id: None,
    };
    let branches = vec![mk("1", "Memes", ""), mk("2", "x", "dank MEMES only"), mk("3", "news", "daily")];
    let ids: Vec<String> = search_branches(branches, "meme").into_iter().map(|b| b.id).collect();
    assert_eq!(ids, vec!["1".to_string(), "2".to_string()]);
}

#[test]
fn roots_match_name_or_designator() {
    let mk = |id: &str, name: &str, des: &str| Root {
        id: id.to_string(),
        name: name.to_string(),
        designator: des.to_string(),
        created_at: Timestamp { secs: 0, nanos: 0 },
        branches: vec![],
    };
    let roots = vec![mk("a", "Anime & Manga", "/a\\"), mk("b", "Books & Literature", "/b\\")];
    let ids: Vec<String> = search_roots(roots.clone(), "anime").into_iter().map(|r| r.id).collect();
    assert_eq!(ids, vec!["a".to_string()]);
    let by_des: Vec<String> = search_roots(roots, "/b").into_iter().map(|r| r.id).collect();
    assert_eq!(by_des, vec!["b".to_string()]);
}

#[test]
fn search_ignores_ascii_case_and_empty_query_finds_all() {
    let leaves = vec![
        leaf("1", "Rust is GREAT", None, false),
        leaf("2", "nothing", None, false),
        leaf("3", "rust", None, true),
    ];
    let lower: Vec<String> = search_leaves(leaves.clone(), "rust").into_iter().map(|l| l.id).collect();
    let upper: Vec<String> = search_leaves(leaves.clone(), "RUST").into_iter().map(|l| l.id).collect();
    assert_eq!(lower, upper);
    let all: Vec<String> = search_leaves(leaves, "").into_iter().map(|l| l.id).collect();
    assert_eq!(all, vec!["1".to_string(), "2".to_string()]);
}
