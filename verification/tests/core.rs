//! Configuration, requests, advertisements, throttling and text.

use multiraft::config::{ClusterConfig, FileLogSyncLevel, NodeRole, SnapshotMode};
use multiraft::order::stable_order;
use multiraft::snapshot::{
    is_standby_snapshot_trigger, SnapshotAdvertisement, SnapshotRuntime, STANDBY_SNAPSHOT_TRIGGER,
};
use multiraft::standby_throttle::{BeforeSend, StandbyThrottle};
use multiraft::text::{
    decimal_text, hex_text, is_blank, join_path, number_list_text, text_contains,
    trim_trailing_slashes,
};
use multiraft::type_config::{Request, Response};

#[test]
fn from_u8_roundtrip_and_reject() {
    assert_eq!(FileLogSyncLevel::from_u8(0), Some(FileLogSyncLevel::Os));
    assert_eq!(FileLogSyncLevel::from_u8(1), Some(FileLogSyncLevel::Data));
    assert_eq!(FileLogSyncLevel::from_u8(2), Some(FileLogSyncLevel::All));
    assert_eq!(FileLogSyncLevel::from_u8(3), None);
    assert_eq!(FileLogSyncLevel::from_u8(255), None);

    assert_eq!(FileLogSyncLevel::Os.as_u8(), 0);
    assert_eq!(FileLogSyncLevel::Data.as_u8(), 1);
    assert_eq!(FileLogSyncLevel::All.as_u8(), 2);
}

#[test]
fn default_is_os() {
    assert_eq!(FileLogSyncLevel::default(), FileLogSyncLevel::Os);
}

#[test]
fn debug_and_eq() {
    assert_eq!(format!("{:?}", FileLogSyncLevel::Data), "Data");
    assert_ne!(FileLogSyncLevel::Os, FileLogSyncLevel::All);
}

#[test]
fn for_test_defaults_and_stale_queries() {
    let c = ClusterConfig::for_test(1, &[1, 2, 3]);
    assert_eq!(c.file_log_sync_level, FileLogSyncLevel::Os);
    assert_eq!(c.file_log_coalesce_us, 0);
    assert_eq!(c.role, NodeRole::Voter);
    let c = c.with_stale_queries(true);
    assert!(c.enable_stale_queries);
}

#[test]
fn for_test_peers() {
    let c = ClusterConfig::for_test(2, &[1, 2, 46535]);
    assert_eq!(c.node_id, 2);
    assert_eq!(
        c.peers,
        vec![
            (1, "127.0.0.1:19001".to_string()),
            (2, "127.0.0.1:19002".to_string()),
            (46535, "127.0.0.1:65535".to_string()),
        ]
    );
    assert_eq!(c.data_dir, "");
    assert_eq!(c.snapshot_mode, SnapshotMode::Disabled);
}

#[test]
fn standby_trigger_and_advertisement() {
    assert!(is_standby_snapshot_trigger(&STANDBY_SNAPSHOT_TRIGGER));
    assert!(!is_standby_snapshot_trigger(b"other"));
    assert_eq!(&STANDBY_SNAPSHOT_TRIGGER, b"\0multiraft.standby_snapshot_trigger\0");
    let ad = SnapshotAdvertisement {
        group: 1,
        last_index: 10,
        last_term: 2,
        snapshot_id: "s1".into(),
        size: 64,
        sha256_hex: "abc".into(),
        fetch_url: "http://127.0.0.1/s".into(),
    };
    let back = ad.clone();
    assert_eq!(back, ad);
    let _ = format!("{ad:?}");
}

fn ad(group: u64, index: u64, term: u64, id: &str, url: &str) -> SnapshotAdvertisement {
    SnapshotAdvertisement {
        group,
        last_index: index,
        last_term: term,
        snapshot_id: id.to_string(),
        size: 1,
        sha256_hex: String::new(),
        fetch_url: url.to_string(),
    }
}

#[test]
fn advertisements_replace_and_rank() {
    let mut config = ClusterConfig::for_test(1, &[1]);
    config.data_dir = "/d".to_string();
    config.snapshot_mode = SnapshotMode::StandbyOffload;
    config.snapshot_keep = 4;
    let mut rt = SnapshotRuntime::new(&config, Vec::new());
    let catalog = rt.catalog.as_ref().unwrap();
    assert_eq!((catalog.root(), catalog.keep()), ("/d/snapshots", 4));
    assert!(rt.record_ad(ad(0, 10, 1, "a", "u1")));
    assert!(rt.record_ad(ad(0, 5, 2, "b", "u2")));
    assert!(rt.record_ad(ad(0, 99, 9, "c", "")));
    assert!(rt.record_ad(ad(1, 50, 5, "a", "u4")));
    // Term before index; one that cannot be fetched does not count.
    assert_eq!(rt.best_snapshot_ad(0).unwrap().snapshot_id, "b");
    // The same snapshot takes its old one's place, at the end.
    assert!(rt.record_ad(ad(0, 10, 3, "a", "u5")));
    assert_eq!(rt.ads.len(), 4);
    assert_eq!(rt.best_snapshot_ad(0).unwrap().fetch_url, "u5");
    assert!(rt.best_snapshot_ad(2).is_none());
    // Of equals the last.
    assert!(rt.record_ad(ad(0, 10, 3, "z", "u6")));
    assert_eq!(rt.best_snapshot_ad(0).unwrap().snapshot_id, "z");
    // Without a directory there is no catalog, and nothing is kept.
    config.data_dir = String::new();
    let mut rt = SnapshotRuntime::new(&config, Vec::new());
    assert!(rt.catalog.is_none());
    assert!(!rt.record_ad(ad(0, 1, 1, "a", "u")));
}

#[test]
fn request_new_display_and_serde() {
    let req = Request::new(b"abc".to_vec());
    assert_eq!(req.data, b"abc");
    assert_eq!(req.display(), "Request(3 bytes)");
    let back = req.clone();
    assert_eq!(back.data, b"abc");
}

#[test]
fn response_new_none_and_serde() {
    let none = Response::none();
    assert!(none.effects.is_empty());
    let resp = Response::new(vec![1, 2]);
    assert_eq!(resp.effects, vec![1, 2]);
    let back = resp.clone();
    assert_eq!(back.effects, vec![1, 2]);
    assert!(Response::default().effects.is_empty());
}

#[test]
fn from_config_seeds_ids_and_knobs() {
    let mut cfg = ClusterConfig::for_test(1, &[1, 2, 3, 4]);
    cfg.standby_node_ids = vec![4];
    cfg.standby_replicate_delay_ms = 25;
    cfg.standby_max_inflight = 3;
    let t = StandbyThrottle::from_config(&cfg);
    assert!(t.contains(4));
    assert!(!t.contains(2));
    assert_eq!(t.delay_ms(), 25);
    assert_eq!(t.max_inflight(), 3);
}

#[test]
fn insert_remove_updates_set() {
    let mut t = StandbyThrottle::default();
    t.insert(9);
    assert!(t.contains(9));
    t.remove(9);
    assert!(!t.contains(9));
    assert!(t.standby_ids().is_empty());
}

#[test]
fn before_send_none_for_voter() {
    let mut t = StandbyThrottle::default();
    t.insert(4);
    assert_eq!(t.before_send(2), BeforeSend::Pass);
    assert_eq!(t.before_send(4), BeforeSend::Throttled { delay_ms: 0 });
    assert_eq!(t.gate(4).capacity, 8);
}

#[test]
fn max_inflight_gates_standby() {
    let mut cfg = ClusterConfig::for_test(1, &[1, 2, 3, 4]);
    cfg.standby_node_ids = vec![4];
    cfg.standby_max_inflight = 1;
    cfg.standby_replicate_delay_ms = 0;
    let mut t = StandbyThrottle::from_config(&cfg);
    let g1 = t.gate(4);
    assert_eq!((g1.capacity, g1.fresh), (1, true));
    let g2 = t.gate(4);
    assert_eq!((g2.capacity, g2.fresh), (1, false));
    // A new limit takes effect with a new gate.
    cfg.standby_max_inflight = 0;
    t.apply_config(&cfg);
    let g3 = t.gate(4);
    assert_eq!((g3.capacity, g3.fresh), (8, true));
    // Another target has a gate of its own; the first keeps its own meanwhile.
    t.insert(5);
    assert!(t.gate(5).fresh);
    t.remove(5);
    assert!(!t.gate(4).fresh);
    t.remove(4);
    assert_eq!(t.before_send(4), BeforeSend::Pass);
}

#[test]
fn texts() {
    assert_eq!(decimal_text(0), "0");
    assert_eq!(decimal_text(u64::MAX), "18446744073709551615");
    assert_eq!(hex_text(&[0, 0x0f, 0xa0, 0xff]), "000fa0ff");
    assert!(text_contains("a configuration change is in progress", "configuration change"));
    assert!(!text_contains("configuration chang", "configuration change"));
    assert!(text_contains("", ""));
    assert_eq!(trim_trailing_slashes("http://h//"), "http://h");
    assert_eq!(trim_trailing_slashes("///"), "");
    assert_eq!(number_list_text(&[1, 22, 3]), "1, 22, 3");
    assert_eq!(join_path("/a", "b"), "/a/b");
    assert_eq!(join_path("/a/", "b"), "/a/b");
    assert_eq!(join_path("", "b"), "b");
    for n in 0..=0x10ffffu32 {
        if let Some(c) = char::from_u32(n) {
            assert_eq!(is_blank(&c.to_string()), c.is_whitespace());
        }
    }
    assert_eq!(stable_order(&vec![(2, 1), (1, 9), (2, 0), (1, 9)]), vec![1, 3, 2, 0]);
}
