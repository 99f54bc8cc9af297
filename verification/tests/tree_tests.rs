use moot::models::{u64_to_hex, Branch, Root, Timestamp, Trunk};
use moot::tree::{
    branches_in_root, branches_in_trunk, check_branch_id, check_new_branch, check_new_trunk, default_roots,
    general_trunk, plan_defaults, trunks_in_root, BranchRejection, TrunkRejection, MAX_TRUNKS_PER_ROOT,
};

fn trunk(id: &str, root: &str, name: &str) -> Trunk {
    Trunk {
        id: id.to_string(),
        root_id: root.to_string(),
        name: name.to_string(),
        description: String::new(),
        created_by: "system".to_string(),
        created_at: Timestamp { secs: 0, nanos: 0 },
    }
}

fn branch(id: &str, root: &str, trunk_id: Option<&str>, name: &str) -> Branch {
    Branch {
        id: id.to_string(),
        root_id: root.to_string(),
        trunk_id: trunk_id.map(|t| t.to_string()),
        name: name.to_string(),
        description: String::new(),
        created_at: Timestamp { secs: 0, nanos: 0 },
        parent_branch_id: None,
    }
}

#[test]
fn trunk_accepted_when_room_and_new_name() {
    let existing = vec![trunk("1", "a", "General")];
    assert_eq!(check_new_trunk(&existing, "Music"), Ok(()));
}

#[test]
fn trunk_refused_on_duplicate_name() {
    let existing = vec![trunk("1", "a", "General"), trunk("2", "a", "Music")];
    assert_eq!(check_new_trunk(&existing, "Music"), Err(TrunkRejection::DuplicateName));
    assert_eq!(
        TrunkRejection::DuplicateName.message(),
        "Trunk with this name already exists in this root"
    );
}

#[test]
fn trunk_refused_at_limit() {
    let existing: Vec<Trunk> =
        (0..MAX_TRUNKS_PER_ROOT).map(|i| trunk(&i.to_string(), "a", &format!("t{}", i))).collect();
    assert_eq!(existing.len(), 20);
    assert_eq!(check_new_trunk(&existing, "fresh"), Err(TrunkRejection::TooMany));
    assert_eq!(TrunkRejection::TooMany.message(), "Maximum trunks per root (20) reached");
    let nineteen: Vec<Trunk> = existing.into_iter().take(19).collect();
    assert_eq!(check_new_trunk(&nineteen, "fresh"), Ok(()));
}

#[test]
fn branch_names_unique_in_root() {
    let existing = vec![branch("x", "a", None, "memes")];
    assert_eq!(check_new_branch(&existing, "memes"), Err(BranchRejection::DuplicateName));
    assert_eq!(check_new_branch(&existing, "news"), Ok(()));
    assert_eq!(
        BranchRejection::DuplicateName.message(),
        "Branch with this name already exists in this root"
    );
}

#[test]
fn chosen_branch_id_is_kept_and_unique() {
    let b = Branch::with_id(
        "hardware".to_string(),
        "g".to_string(),
        None,
        "Hardware".to_string(),
        "Hardware discussion".to_string(),
    );
    assert_eq!(b.id, "hardware");
    assert_eq!(b.root_id, "g");
    assert_eq!(b.description, "Hardware discussion");
    let all = vec![b, branch("x", "a", None, "memes")];
    assert_eq!(check_branch_id(&all, "hardware"), Err(BranchRejection::IdTaken));
    assert_eq!(check_branch_id(&all, "x"), Err(BranchRejection::IdTaken));
    assert_eq!(check_branch_id(&all, "software"), Ok(()));
    assert_eq!(check_branch_id(&vec![], "hardware"), Ok(()));
    assert_eq!(BranchRejection::IdTaken.message(), "Branch ID already exists");
}

#[test]
fn register_branch_once() {
    let mut root = Root {
        id: "a".to_string(),
        name: "Anime & Manga".to_string(),
        designator: "/a\\".to_string(),
        created_at: Timestamp { secs: 0, nanos: 0 },
        branches: vec![],
    };
    assert!(root.register_branch("b1"));
    assert!(!root.register_branch("b1"));
    assert!(root.register_branch("b2"));
    assert_eq!(root.branches, vec!["b1".to_string(), "b2".to_string()]);
}

#[test]
fn listings_filter_by_owner() {
    let trunks = vec![trunk("1", "a", "x"), trunk("2", "b", "y"), trunk("3", "a", "z")];
    let ids: Vec<String> = trunks_in_root(trunks, "a").into_iter().map(|t| t.id).collect();
    assert_eq!(ids, vec!["1".to_string(), "3".to_string()]);

    let branches = vec![
        branch("p", "a", Some("t1"), "one"),
        branch("q", "b", Some("t1"), "two"),
        branch("r", "a", None, "three"),
    ];
    let in_root: Vec<String> =
        branches_in_root(branches.clone(), "a").into_iter().map(|b| b.id).collect();
    assert_eq!(in_root, vec!["p".to_string(), "r".to_string()]);
    let in_trunk: Vec<String> =
        branches_in_trunk(branches, "t1").into_iter().map(|b| b.id).collect();
    assert_eq!(in_trunk, vec!["p".to_string(), "q".to_string()]);
}

#[test]
fn default_roots_a_to_z() {
    let roots = default_roots();
    assert_eq!(roots.len(), 26);
    assert_eq!(
        roots[0],
        ("a".to_string(), "/a\\".to_string(), "Anime & Manga".to_string())
    );
    assert_eq!(
        roots[19],
        (
            "t".to_string(),
            "/t\\".to_string(),
            "Technology (Gadgets, IT, Software, Automotive)".to_string()
        )
    );
    assert_eq!(
        roots[25],
        ("z".to_string(), "/z\\".to_string(), "Random & Misc".to_string())
    );
}

#[test]
fn general_trunk_fields() {
    let (name, description, created_by) = general_trunk();
    assert_eq!(name, "General");
    assert_eq!(description, "General discussion — everything that doesn't fit elsewhere");
    assert_eq!(created_by, "system");
}

#[test]
fn hex_formatting() {
    assert_eq!(u64_to_hex(0), "0");
    assert_eq!(u64_to_hex(255), "ff");
    assert_eq!(u64_to_hex(0x1a2b), "1a2b");
    assert_eq!(u64_to_hex(u64::MAX), "ffffffffffffffff");
}

#[test]
fn branch_id_is_hex_of_hash() {
    let b = Branch::new("a".to_string(), None, "memes".to_string(), "d".to_string());
    assert!(!b.id.is_empty() && b.id.len() <= 16);
    assert!(b.id.chars().all(|c| c.is_ascii_hexdigit() && !c.is_ascii_uppercase()));
    assert_eq!(b.root_id, "a");
    assert_eq!(b.name, "memes");
    assert!(b.parent_branch_id.is_none());
}

#[test]
fn defaults_give_general_trunk_only_where_missing() {
    let trunks = vec![trunk("t1", "g", "General"), trunk("t2", "z", "Other")];
    let plan = plan_defaults(&trunks);
    assert_eq!(plan.len(), 26);
    assert_eq!(plan[0].id, "a");
    assert_eq!(plan[0].designator, "/a\\");
    assert!(plan[0].needs_general_trunk);
    assert_eq!(plan[6].id, "g");
    assert!(!plan[6].needs_general_trunk);
    assert!(!plan[25].needs_general_trunk);
    assert_eq!(plan.iter().filter(|s| s.needs_general_trunk).count(), 24);
    assert!(plan_defaults(&vec![]).iter().all(|s| s.needs_general_trunk));
}
