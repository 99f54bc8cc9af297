use moot::moderation::ReportTarget;
use moot::store::{
    all_read, presence_outcome, read_outcome, strings_from_stored, values_read, write_outcome, Database,
    StoreError,
};

fn open() -> Database {
    let db = sled::Config::new().temporary(true).open().expect("temporary tree");
    Database::new(db)
}

#[test]
fn leaf_write_read_delete() {
    let mut d = open();
    assert_eq!(d.get_leaf("l1"), None);
    assert_eq!(d.add_leaf("l1", b"{\"a\":1}"), Ok(()));
    assert_eq!(d.get_leaf("l1"), Some(b"{\"a\":1}".to_vec()));
    assert_eq!(d.add_leaf("l1", b"two"), Ok(()));
    assert_eq!(d.get_leaf("l1"), Some(b"two".to_vec()));
    assert_eq!(d.add_leaf("l2", b"three"), Ok(()));
    assert_eq!(d.list_leaves().values, vec![b"two".to_vec(), b"three".to_vec()]);
    assert_eq!(d.delete_leaf("l1"), Ok(()));
    assert_eq!(d.get_leaf("l1"), None);
    assert_eq!(d.list_leaves().values, vec![b"three".to_vec()]);
}

#[test]
fn kinds_do_not_mix() {
    let mut d = open();
    d.add_root("a", b"root").unwrap();
    d.add_user("a", b"user").unwrap();
    assert_eq!(d.get_root("a"), Some(b"root".to_vec()));
    assert_eq!(d.get_user("a"), Some(b"user".to_vec()));
    assert_eq!(d.list_roots().values, vec![b"root".to_vec()]);
    assert!(d.list_leaves().values.is_empty());
}

#[test]
fn trunks_and_branches() {
    let mut d = open();
    d.put_trunk("t1", b"T1").unwrap();
    d.put_branch("b1", b"B1").unwrap();
    assert_eq!(d.get_trunk("t1"), Some(b"T1".to_vec()));
    assert_eq!(d.get_branch("b1"), Some(b"B1".to_vec()));
    assert_eq!(d.list_trunks().values, vec![b"T1".to_vec()]);
    assert_eq!(d.list_all_branches().values, vec![b"B1".to_vec()]);
    d.delete_trunk("t1").unwrap();
    assert_eq!(d.get_trunk("t1"), None);
}

#[test]
fn reports_are_indexed_by_target() {
    let mut d = open();
    assert!(d.get_reports_for_target("leaf9").is_empty());
    d.add_report("r1", "leaf9", b"R1").unwrap();
    d.add_report("r2", "leaf9", b"R2").unwrap();
    d.add_report("r3", "other", b"R3").unwrap();
    assert_eq!(d.get_report("r2"), Some(b"R2".to_vec()));
    assert_eq!(d.get_reports_for_target("leaf9"), vec![b"R1".to_vec(), b"R2".to_vec()]);
    assert_eq!(d.get_reports_for_target("other"), vec![b"R3".to_vec()]);
}

#[test]
fn moderation_votes_and_blacklist() {
    let mut d = open();
    d.add_blacklist_vote("r1", "0xa", b"v1").unwrap();
    d.add_blacklist_vote("r1", "0xb", b"v2").unwrap();
    d.add_blacklist_vote("r2", "0xc", b"other").unwrap();
    d.add_dismiss_vote("r1", "0xd", b"d1").unwrap();
    assert_eq!(d.get_blacklist_votes("r1").values.len(), 2);
    assert_eq!(d.get_dismiss_votes("r1").values, vec![b"d1".to_vec()]);
    assert!(!d.is_blacklisted("x", ReportTarget::Leaf));
    d.add_blacklist_entry(ReportTarget::Leaf, "x", b"entry").unwrap();
    assert!(d.is_blacklisted("x", ReportTarget::Leaf));
    assert!(!d.is_blacklisted("x", ReportTarget::User));
}

#[test]
fn legendary_entries() {
    let mut d = open();
    assert!(!d.is_legendary("0xa", "l1"));
    d.add_legendary("0xa", "l1", b"E1").unwrap();
    d.add_legendary("0xa", "l2", b"E2").unwrap();
    d.add_legendary("0xb", "l1", b"E3").unwrap();
    assert!(d.is_legendary("0xa", "l1"));
    assert_eq!(d.list_legendary("0xa").values, vec![b"E1".to_vec(), b"E2".to_vec()]);
    d.remove_legendary("0xa", "l1").unwrap();
    assert!(!d.is_legendary("0xa", "l1"));
    assert!(d.is_legendary("0xb", "l1"));
}

#[test]
fn hollows_and_comments() {
    let mut d = open();
    d.add_hollow("0xa", b"H").unwrap();
    assert_eq!(d.get_hollow("0xa"), Some(b"H".to_vec()));
    d.add_hollow_comment("0xa", "c1", b"C1").unwrap();
    d.add_hollow_comment("0xa", "c2", b"C2").unwrap();
    assert_eq!(d.list_hollow_comments("0xa").values.len(), 2);
    d.delete_hollow_comment("0xa", "c1").unwrap();
    assert_eq!(d.list_hollow_comments("0xa").values, vec![b"C2".to_vec()]);
}

#[test]
fn meta_values_and_peers() {
    let mut d = open();
    assert_eq!(d.get_node_config(), None);
    d.set_node_config(b"cfg").unwrap();
    assert_eq!(d.get_node_config(), Some(b"cfg".to_vec()));
    d.set_network_avg_score(b"2.5").unwrap();
    assert_eq!(d.get_network_avg_score(), Some(b"2.5".to_vec()));
    assert!(d.load_peers().is_empty());
    let peers = vec!["/ip4/1.2.3.4/tcp/4001".to_string(), "/dns/x/tcp/1".to_string()];
    assert_eq!(d.save_peers(&peers), Ok(()));
    assert_eq!(d.load_peers(), peers);
    assert_eq!(d.add_vote("leaf1", "0xa", b"V"), Ok(()));
}

#[test]
fn values_of_a_scan() {
    let entries = vec![
        Some((b"k1".to_vec(), b"v1".to_vec())),
        None,
        Some((b"k2".to_vec(), b"v2".to_vec())),
    ];
    assert_eq!(values_read(&entries), vec![b"v1".to_vec(), b"v2".to_vec()]);
    assert!(values_read(&vec![None]).is_empty());
}

#[test]
fn string_lists_from_stored_bytes() {
    assert_eq!(
        strings_from_stored(Some(b"[\"a\",\"b\"]".to_vec())),
        vec!["a".to_string(), "b".to_string()]
    );
    assert!(strings_from_stored(Some(b"not json".to_vec())).is_empty());
    assert!(strings_from_stored(Some(b"{\"a\":1}".to_vec())).is_empty());
    assert!(strings_from_stored(None).is_empty());
}

#[test]
fn outcomes_of_store_calls() {
    assert_eq!(write_outcome(true), Ok(()));
    assert_eq!(write_outcome(false), Err(StoreError::WriteFailed));
    assert_eq!(read_outcome(Some(Some(b"v".to_vec()))), Some(b"v".to_vec()));
    assert_eq!(read_outcome(Some(None)), None);
    assert_eq!(read_outcome(None), None);
    assert!(presence_outcome(&Some(Some(vec![]))));
    assert!(!presence_outcome(&Some(None)));
    assert!(!presence_outcome(&None));
}

#[test]
fn reports_follow_index_order_and_skip_missing() {
    let mut d = open();
    d.add_report("r2", "t", b"second").unwrap();
    d.add_report("r1", "t", b"first").unwrap();
    assert_eq!(d.get_reports_for_target("t"), vec![b"second".to_vec(), b"first".to_vec()]);
}

#[test]
fn listings_report_complete_reads() {
    let mut d = open();
    d.add_legendary("0xTestUser", "l1", b"E").unwrap();
    let l = d.list_legendary("0xTestUser");
    assert!(l.complete);
    assert_eq!(l.values.len(), 1);
    d.remove_legendary("0xTestUser", "l1").unwrap();
    let l = d.list_legendary("0xTestUser");
    assert!(l.complete && l.values.is_empty());
    assert!(all_read(&vec![Some((b"k".to_vec(), b"v".to_vec()))]));
    assert!(!all_read(&vec![Some((b"k".to_vec(), b"v".to_vec())), None]));
}

#[test]
fn node_config_read_back() {
    let mut d = open();
    d.set_node_config(b"{\"cache_ttl_days\":14}").unwrap();
    assert_eq!(d.get_node_config(), Some(b"{\"cache_ttl_days\":14}".to_vec()));
}
