use moot::hollow::{check_comment, sort_newest_first, visitor_view, CommentRejection, HollowView};
use moot::models::{
    CreateHollowPostRequest, Hollow, HollowComment, HollowPost, Timestamp, UpdateHollowRequest,
};

fn empty_update() -> UpdateHollowRequest {
    UpdateHollowRequest {
        display_name: None,
        bio: None,
        is_public: None,
        theme: None,
        custom_css: None,
        custom_html: None,
        music_url: None,
        video_embed: None,
        font_size: None,
        text_color: None,
        bg_color: None,
        animation: None,
    }
}

#[test]
fn new_hollow_defaults() {
    let h = Hollow::new("0xHollowUser".to_string());
    assert_eq!(h.owner_address, "0xHollowUser");
    assert!(!h.settings.is_public);
    assert!(h.settings.allow_mirrors);
    assert_eq!(h.settings.theme, "default");
    assert!(h.private_posts.is_empty() && h.friends.is_empty());
}

#[test]
fn update_applies_present_fields() {
    let mut h = Hollow::new("0xabc".to_string());
    let mut u = empty_update();
    u.display_name = Some("Test User".to_string());
    u.is_public = Some(true);
    u.theme = Some("dark".to_string());
    u.music_url = Some("https://example.com/song.mp3".to_string());
    h.apply_update(u);
    assert_eq!(h.display_name, Some("Test User".to_string()));
    assert!(h.settings.is_public);
    assert_eq!(h.settings.theme, "dark");
    assert_eq!(h.music_url, Some("https://example.com/song.mp3".to_string()));
    assert_eq!(h.bio, None);
    h.apply_update(empty_update());
    assert_eq!(h.display_name, Some("Test User".to_string()));
}

#[test]
fn friends_added_once() {
    let mut h = Hollow::new("0xabc".to_string());
    assert!(h.add_friend("0xFriend123"));
    assert!(!h.add_friend("0xFriend123"));
    assert_eq!(h.friends, vec!["0xFriend123".to_string()]);
}

#[test]
fn posts_added_and_deleted() {
    let mut h = Hollow::new("0xabc".to_string());
    let p = HollowPost::from_request(CreateHollowPostRequest { content: "My secret thought".to_string(), is_public: None });
    assert!(!p.is_public);
    let id = p.id.clone();
    h.add_post(p);
    h.add_post(HollowPost { id: "keep".to_string(), content: "k".to_string(), created_at: Timestamp { secs: 0, nanos: 0 }, is_public: true });
    h.delete_post(&id);
    assert_eq!(h.private_posts.len(), 1);
    assert_eq!(h.private_posts[0].id, "keep");
}

#[test]
fn private_hollow_view_is_restricted() {
    let mut h = Hollow::new("0xabc".to_string());
    match visitor_view(h.clone()) {
        HollowView::Restricted { owner_address, .. } => assert_eq!(owner_address, "0xabc"),
        HollowView::Full(_) => panic!("private hollow shown in full"),
    }
    h.settings.is_public = true;
    assert!(matches!(visitor_view(h), HollowView::Full(_)));
}

#[test]
fn comment_checks() {
    assert_eq!(check_comment("   "), Err(CommentRejection::Empty));
    assert_eq!(check_comment(&"a".repeat(2001)), Err(CommentRejection::TooLong));
    assert_eq!(check_comment(&"a".repeat(2000)), Ok("a".repeat(2000)));
    assert_eq!(check_comment(" <b>nice</b> page "), Ok("nice page".to_string()));
}

#[test]
fn comment_limit_counts_characters() {
    assert_eq!(check_comment(&"é".repeat(1001)), Ok("é".repeat(1001)));
    assert_eq!(check_comment(&"é".repeat(2000)), Ok("é".repeat(2000)));
    assert_eq!(check_comment(&"é".repeat(2001)), Err(CommentRejection::TooLong));
}

#[test]
fn comments_newest_first() {
    let c = |id: &str, secs: i64| HollowComment {
        id: id.to_string(),
        target_hollow: "h".to_string(),
        author_address: "a".to_string(),
        content: "x".to_string(),
        created_at: Timestamp { secs, nanos: 0 },
    };
    let sorted = sort_newest_first(vec![c("a", 1), c("b", 3), c("c", 2), c("d", 3)]);
    let ids: Vec<String> = sorted.into_iter().map(|c| c.id).collect();
    assert_eq!(ids, vec!["b".to_string(), "d".to_string(), "c".to_string(), "a".to_string()]);
}
