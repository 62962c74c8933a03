use tsdb::offsets::{offsets_file_text, offsets_from_saved, offsets_from_text, saved_offsets, OffsetTable};
use tsdb::replicator::{
    apply_gossip_event, initial_members, peer_http_url, peers_to_replicate, plan_push, record_push,
    replication_log_entry, GossipEvent, MembershipChange, PushOutcome, ReplicationTask,
};
use tsdb::wal::entries_since;

#[test]
fn peer_url_uses_host_and_http_port() {
    assert_eq!(peer_http_url("10.1.2.3:5000", 3000), "http://10.1.2.3:3000");
    assert_eq!(peer_http_url("hostonly", 80), "http://hostonly:80");
}

#[test]
fn bootstrap_peers_seed_members() {
    let m = initial_members(&vec!["localhost:3001".to_string(), "other:5000".to_string()], 3000);
    assert_eq!(m.len(), 2);
    assert_eq!(m.get("localhost:3001").map(|s| s.as_str()), Some("http://localhost:3000"));
    assert_eq!(m.get("other:5000").map(|s| s.as_str()), Some("http://other:3000"));
    assert_eq!(m.get("missing"), None);
}

#[test]
fn gossip_events_update_members() {
    let mut m = initial_members(&vec![], 3000);
    let self_http = "http://me:3000";
    let c = apply_gossip_event(&mut m, GossipEvent::Joined("peer:5000".to_string()), self_http, 3000);
    assert!(matches!(c, MembershipChange::Added { ref gossip, ref url } if gossip == "peer:5000" && url == "http://peer:3000"));
    assert_eq!(m.len(), 1);

    let c = apply_gossip_event(&mut m, GossipEvent::Recovered("peer:5000".to_string()), self_http, 3000);
    assert!(matches!(c, MembershipChange::Added { .. }));
    assert_eq!(m.len(), 1);

    let c = apply_gossip_event(&mut m, GossipEvent::Joined(self_http.to_string()), self_http, 3000);
    assert!(matches!(c, MembershipChange::Unchanged));
    assert_eq!(m.len(), 1);

    let c = apply_gossip_event(&mut m, GossipEvent::Suspected("peer:5000".to_string()), self_http, 3000);
    assert!(matches!(c, MembershipChange::Removed { ref gossip } if gossip == "peer:5000"));
    assert_eq!(m.get("peer:5000"), None);

    apply_gossip_event(&mut m, GossipEvent::Joined("a:1".to_string()), self_http, 3000);
    apply_gossip_event(&mut m, GossipEvent::Deceased("a:1".to_string()), self_http, 3000);
    assert_eq!(m.len(), 0);
    assert!(matches!(apply_gossip_event(&mut m, GossipEvent::Other, self_http, 3000), MembershipChange::Unchanged));
}

#[test]
fn targets_skip_own_url() {
    let m = initial_members(&vec!["me:5000".to_string(), "b:5000".to_string(), "c:5000".to_string()], 3000);
    let peers = peers_to_replicate(&m, "http://me:3000");
    assert_eq!(peers, vec!["http://b:3000".to_string(), "http://c:3000".to_string()]);
}

#[test]
fn push_planning_and_recording() {
    let mut offsets = OffsetTable::new();
    let task = plan_push(&offsets, "http://b:3000", 5).expect("behind");
    assert_eq!((task.start, task.end), (0, 5));

    record_push(&mut offsets, &task, false);
    assert_eq!(offsets.get("http://b:3000"), None);

    record_push(&mut offsets, &task, true);
    assert_eq!(offsets.get("http://b:3000"), Some(5));
    assert!(plan_push(&offsets, "http://b:3000", 5).is_none());

    let next = plan_push(&offsets, "http://b:3000", 8).expect("grown");
    assert_eq!((next.start, next.end), (5, 8));
    assert!(plan_push(&offsets, "http://c:3000", 0).is_none());
}

#[test]
fn consecutive_pushes_cover_the_log_once() {
    let log: Vec<u32> = (0..8).collect();
    let mut offsets = OffsetTable::new();
    let first = plan_push(&offsets, "p", 5).unwrap();
    let sent1 = entries_since(log[..5].to_vec(), first.start);
    record_push(&mut offsets, &first, true);
    let second = plan_push(&offsets, "p", 8).unwrap();
    let sent2 = entries_since(log.clone(), second.start);
    let mut all = sent1;
    all.extend(sent2);
    assert_eq!(all, log);
}

#[test]
fn offsets_round_trip_through_saved_pairs() {
    let table = offsets_from_saved(vec![("a".to_string(), 3), ("b".to_string(), 7), ("a".to_string(), 9)]);
    assert_eq!(table.get("a"), Some(9));
    let mut saved = saved_offsets(&table);
    saved.sort();
    assert_eq!(saved, vec![("a".to_string(), 9), ("b".to_string(), 7)]);
    let again = offsets_from_saved(saved);
    assert_eq!(again.get("b"), Some(7));
}

#[test]
fn offsets_file_text_reads_back() {
    let mut table = OffsetTable::new();
    table.insert("http://b:3000".to_string(), 12);
    table.insert("http://c:3000".to_string(), 0);
    let text = offsets_file_text(&table);
    assert!(text.contains("\"http://b:3000\": 12"));
    let again = offsets_from_text(&text);
    assert_eq!(again.get("http://b:3000"), Some(12));
    assert_eq!(again.get("http://c:3000"), Some(0));
    assert_eq!(again.get("http://d:3000"), None);
}

#[test]
fn offsets_from_text_reads_json_or_nothing() {
    let t = offsets_from_text("{\"http://x:1\": 4}");
    assert_eq!(t.get("http://x:1"), Some(4));
    assert_eq!(offsets_from_text("").get("http://x:1"), None);
    assert_eq!(offsets_from_text("not json").get("http://x:1"), None);
    assert_eq!(offsets_from_text("{\"a\": -1}").get("a"), None);
}

#[test]
fn log_entries_describe_outcomes() {
    let task = ReplicationTask { peer: "http://b:3000".to_string(), start: 4, end: 10 };
    assert_eq!(
        replication_log_entry("T", &task, &PushOutcome::Delivered),
        "[T] SUCCESS 6→http://b:3000 idx 4\n"
    );
    assert_eq!(
        replication_log_entry("T", &task, &PushOutcome::Refused { status: "500 Internal Server Error".to_string() }),
        "[T] FAIL http://b:3000 returned 500 Internal Server Error\n"
    );
    assert_eq!(
        replication_log_entry("T", &task, &PushOutcome::Unreachable { error: "refused".to_string() }),
        "[T] ERROR sending to http://b:3000: refused\n"
    );
}
