use ternary_beacon::{
    AgentId, Beacon, BeaconFilter, BeaconMessage, BeaconOp, BeaconRegistry, BeaconScanner,
    FilterCriterion, Metadata, ProtocolMessage, SignalStrength, Ternary, PROTOCOL_VERSION,
};

fn caps_of(m: &BeaconMessage) -> Vec<String> {
    m.capabilities.clone()
}

// -- classification --

#[test]
fn classification_band_edges() {
    assert_eq!(SignalStrength::from_raw(0), SignalStrength::Weak);
    assert_eq!(SignalStrength::from_raw(25), SignalStrength::Weak);
    assert_eq!(SignalStrength::from_raw(26), SignalStrength::Medium);
    assert_eq!(SignalStrength::from_raw(50), SignalStrength::Medium);
    assert_eq!(SignalStrength::from_raw(51), SignalStrength::Strong);
    assert_eq!(SignalStrength::from_raw(75), SignalStrength::Strong);
    assert_eq!(SignalStrength::from_raw(76), SignalStrength::Excellent);
    assert_eq!(SignalStrength::from_raw(100), SignalStrength::Excellent);
    assert_eq!(SignalStrength::from_raw(101), SignalStrength::NoSignal);
    assert_eq!(SignalStrength::from_raw(u32::MAX), SignalStrength::NoSignal);
}

#[test]
fn usable_exactly_on_scale() {
    assert!(SignalStrength::from_raw(100).is_usable());
    assert!(SignalStrength::from_raw(0).is_usable());
    assert!(!SignalStrength::from_raw(101).is_usable());
    assert!(SignalStrength::Medium.is_usable());
    assert!(SignalStrength::Excellent.is_usable());
}

#[test]
fn classification_is_monotone_on_scale() {
    for a in 0..=100u32 {
        for b in a..=100u32 {
            assert!(SignalStrength::from_raw(a) <= SignalStrength::from_raw(b));
        }
    }
}

// -- messages and metadata --

#[test]
fn added_capability_is_advertised() {
    let m = BeaconMessage::new(AgentId(4), 10, 5).with_capability("gpio").with_capability("spi");
    assert!(m.has_capability("gpio"));
    assert!(m.has_capability("spi"));
    assert!(!m.has_capability("i2c"));
    assert_eq!(caps_of(&m), vec!["gpio".to_string(), "spi".to_string()]);
    assert_eq!(m.source, AgentId(4));
    assert_eq!(m.signal_strength, 10);
    assert_eq!(m.timestamp, 5);
}

#[test]
fn with_capability_keeps_duplicates() {
    let m = BeaconMessage::new(AgentId(4), 10, 5).with_capability("gpio").with_capability("gpio");
    assert_eq!(m.capabilities.len(), 2);
}

#[test]
fn metadata_read_after_write() {
    let m = BeaconMessage::new(AgentId(1), 50, 100)
        .with_metadata("location", "engine_room")
        .with_metadata("region", "north");
    assert_eq!(m.metadata.get("location"), Some(&"engine_room".to_string()));
    assert_eq!(m.metadata.get("region"), Some(&"north".to_string()));
    assert_eq!(m.metadata.get("missing"), None);
    let m = m.with_metadata("region", "south");
    assert_eq!(m.metadata.get("region"), Some(&"south".to_string()));
    assert_eq!(m.metadata.get("location"), Some(&"engine_room".to_string()));
}

#[test]
fn metadata_insert_returns_previous() {
    let mut md = Metadata::new();
    assert_eq!(md.insert("k".to_string(), "v1".to_string()), None);
    assert_eq!(md.insert("k".to_string(), "v2".to_string()), Some("v1".to_string()));
    assert_eq!(md.get("k"), Some(&"v2".to_string()));
}

#[test]
fn message_clone_keeps_content() {
    let m = BeaconMessage::new(AgentId(9), 33, 44).with_capability("a").with_metadata("x", "y");
    let c = m.clone();
    assert_eq!(c.source, AgentId(9));
    assert_eq!(c.signal_strength, 33);
    assert_eq!(c.timestamp, 44);
    assert_eq!(caps_of(&c), vec!["a".to_string()]);
    assert_eq!(c.metadata.get("x"), Some(&"y".to_string()));
}

// -- beacon --

#[test]
fn new_beacon_message() {
    let b = Beacon::new(AgentId(3), 42, 7);
    assert_eq!(b.message().source, AgentId(3));
    assert_eq!(b.message().signal_strength, 42);
    assert_eq!(b.message().timestamp, 7);
    assert!(b.message().capabilities.is_empty());
}

#[test]
fn broadcast_stamps_time_and_range() {
    let mut b = Beacon::new(AgentId(3), 42, 7);
    b.add_capability("gpio");
    let m = b.broadcast(99);
    assert_eq!(m.timestamp, 99);
    assert_eq!(m.signal_strength, 42);
    assert_eq!(m.source, AgentId(3));
    assert!(m.has_capability("gpio"));
    assert_eq!(b.broadcast_count(), 1);
}

#[test]
fn add_capability_is_idempotent() {
    let mut b = Beacon::new(AgentId(1), 75, 100);
    b.add_capability("a");
    b.add_capability("b");
    b.add_capability("a");
    b.add_capability("b");
    assert_eq!(caps_of(b.message()), vec!["a".to_string(), "b".to_string()]);
}

#[test]
fn remove_capability_keeps_the_rest_in_order() {
    let mut b = Beacon::new(AgentId(1), 75, 100);
    b.add_capability("a");
    b.add_capability("b");
    b.add_capability("c");
    b.remove_capability("b");
    assert_eq!(caps_of(b.message()), vec!["a".to_string(), "c".to_string()]);
    b.remove_capability("zzz");
    assert_eq!(caps_of(b.message()), vec!["a".to_string(), "c".to_string()]);
    assert!(!b.message().has_capability("b"));
}

#[test]
fn set_metadata_overwrites() {
    let mut b = Beacon::new(AgentId(1), 75, 100);
    b.set_metadata("region", "us-west");
    b.set_metadata("region", "eu");
    assert_eq!(b.message().metadata.get("region"), Some(&"eu".to_string()));
}

// -- scanner --

#[test]
fn scan_distance_and_class() {
    let mut s = BeaconScanner::new(AgentId(0), 100);
    let msgs = vec![
        BeaconMessage::new(AgentId(1), 60, 1),
        BeaconMessage::new(AgentId(2), 0, 1),
        BeaconMessage::new(AgentId(3), 30, 1),
        BeaconMessage::new(AgentId(4), 100, 1),
    ];
    let r = s.scan(&msgs);
    assert_eq!(r.len(), 4);
    assert_eq!(r[0].message.source, AgentId(4));
    assert_eq!(r[0].distance_estimate, 1);
    assert_eq!(r[0].signal_class, SignalStrength::Excellent);
    assert_eq!(r[1].message.source, AgentId(1));
    assert_eq!(r[1].distance_estimate, 1);
    assert_eq!(r[1].signal_class, SignalStrength::Strong);
    assert_eq!(r[2].message.source, AgentId(3));
    assert_eq!(r[2].distance_estimate, 3);
    assert_eq!(r[2].signal_class, SignalStrength::Medium);
    assert_eq!(r[3].message.source, AgentId(2));
    assert_eq!(r[3].distance_estimate, 100);
    assert_eq!(r[3].signal_class, SignalStrength::Weak);
}

#[test]
fn scan_is_stable_for_equal_signals() {
    let mut s = BeaconScanner::new(AgentId(0), 100);
    let msgs = vec![
        BeaconMessage::new(AgentId(1), 40, 1),
        BeaconMessage::new(AgentId(2), 70, 1),
        BeaconMessage::new(AgentId(3), 40, 1),
        BeaconMessage::new(AgentId(4), 70, 1),
        BeaconMessage::new(AgentId(5), 40, 1),
    ];
    let r = s.scan(&msgs);
    let order: Vec<u64> = r.iter().map(|d| d.message.source.0).collect();
    assert_eq!(order, vec![2, 4, 1, 3, 5]);
}

#[test]
fn scan_range_is_inclusive_and_self_excluded() {
    let mut s = BeaconScanner::new(AgentId(7), 50);
    let msgs = vec![
        BeaconMessage::new(AgentId(1), 50, 1),
        BeaconMessage::new(AgentId(2), 51, 1),
        BeaconMessage::new(AgentId(7), 10, 1),
    ];
    let r = s.scan(&msgs);
    assert_eq!(r.len(), 1);
    assert_eq!(r[0].message.source, AgentId(1));
}

#[test]
fn rescan_replaces_detections() {
    let mut s = BeaconScanner::new(AgentId(0), 100);
    s.scan(&[BeaconMessage::new(AgentId(1), 10, 1), BeaconMessage::new(AgentId(2), 20, 1)]);
    assert_eq!(s.detections().len(), 2);
    s.scan(&[BeaconMessage::new(AgentId(3), 10, 1)]);
    assert_eq!(s.detections().len(), 1);
    assert_eq!(s.detections()[0].message.source, AgentId(3));
    assert_eq!(s.agent_id(), AgentId(0));
    assert_eq!(s.scan_range(), 100);
}

#[test]
fn count_above_is_monotone_in_threshold() {
    let mut s = BeaconScanner::new(AgentId(0), 100);
    let msgs = vec![
        BeaconMessage::new(AgentId(1), 10, 1),
        BeaconMessage::new(AgentId(2), 30, 1),
        BeaconMessage::new(AgentId(3), 60, 1),
        BeaconMessage::new(AgentId(4), 90, 1),
    ];
    s.scan(&msgs);
    assert_eq!(s.count_above(SignalStrength::NoSignal), 4);
    assert_eq!(s.count_above(SignalStrength::Weak), 4);
    assert_eq!(s.count_above(SignalStrength::Medium), 3);
    assert_eq!(s.count_above(SignalStrength::Strong), 2);
    assert_eq!(s.count_above(SignalStrength::Excellent), 1);
}

// -- filter --

#[test]
fn metadata_criterion_three_outcomes() {
    let c = FilterCriterion::HasMetadata("region".to_string(), "us-west".to_string());
    let hit = BeaconMessage::new(AgentId(1), 50, 1).with_metadata("region", "us-west");
    let other = BeaconMessage::new(AgentId(1), 50, 1).with_metadata("region", "eu");
    let missing = BeaconMessage::new(AgentId(1), 50, 1);
    assert_eq!(c.apply(&hit), Ternary::Positive);
    assert_eq!(c.apply(&other), Ternary::Neutral);
    assert_eq!(c.apply(&missing), Ternary::Negative);
}

#[test]
fn combination_of_results() {
    let mut f = BeaconFilter::default();
    assert_eq!(f.criterion_count(), 0);
    f.add_criterion(FilterCriterion::HasMetadata("region".to_string(), "us-west".to_string()));
    let msg = BeaconMessage::new(AgentId(1), 60, 1).with_metadata("region", "eu");
    assert_eq!(f.apply(&msg), Ternary::Neutral);
    f.add_criterion(FilterCriterion::MinSignal(50));
    assert_eq!(f.apply(&msg), Ternary::Positive);
    f.add_criterion(FilterCriterion::NotCapability("legacy".to_string()));
    assert_eq!(f.apply(&msg), Ternary::Positive);
    let legacy = msg.clone().with_capability("legacy");
    assert_eq!(f.apply(&legacy), Ternary::Negative);
    assert_eq!(f.criterion_count(), 3);
}

#[test]
fn capability_criteria_are_opposites() {
    let has = FilterCriterion::HasCapability("x".to_string());
    let not = FilterCriterion::NotCapability("x".to_string());
    let with = BeaconMessage::new(AgentId(1), 1, 1).with_capability("x");
    let without = BeaconMessage::new(AgentId(1), 1, 1);
    assert_eq!(has.apply(&with), Ternary::Positive);
    assert_eq!(not.apply(&with), Ternary::Negative);
    assert_eq!(has.apply(&without), Ternary::Negative);
    assert_eq!(not.apply(&without), Ternary::Positive);
}

#[test]
fn filter_keeps_order_and_neutral() {
    let mut f = BeaconFilter::new();
    f.add_criterion(FilterCriterion::HasMetadata("zone".to_string(), "a".to_string()));
    let msgs = vec![
        BeaconMessage::new(AgentId(1), 1, 1).with_metadata("zone", "b"),
        BeaconMessage::new(AgentId(2), 1, 1),
        BeaconMessage::new(AgentId(3), 1, 1).with_metadata("zone", "a"),
    ];
    let kept = f.filter(&msgs);
    let ids: Vec<u64> = kept.iter().map(|m| m.source.0).collect();
    assert_eq!(ids, vec![1, 3]);
}

#[test]
fn empty_filter_passes_everything() {
    let f = BeaconFilter::new();
    let msgs = vec![BeaconMessage::new(AgentId(1), 1, 1), BeaconMessage::new(AgentId(2), 200, 1)];
    assert_eq!(f.apply(&msgs[0]), Ternary::Neutral);
    assert_eq!(f.filter(&msgs).len(), 2);
}

// -- registry --

#[test]
fn register_records_signal_and_time() {
    let mut reg = BeaconRegistry::new(10);
    reg.register(&BeaconMessage::new(AgentId(5), 77, 1000));
    let e = reg.get(AgentId(5)).unwrap();
    assert_eq!(e.agent_id, AgentId(5));
    assert_eq!(e.signal_strength, 77);
    assert_eq!(e.last_seen, 1000);
    assert!(reg.get(AgentId(6)).is_none());
    assert!(reg.is_active(AgentId(5), 1000));
    assert!(!reg.is_active(AgentId(6), 1000));
}

#[test]
fn registry_merge_keeps_order_without_duplicates() {
    let mut reg = BeaconRegistry::new(100);
    reg.register(&BeaconMessage::new(AgentId(1), 50, 100).with_capability("a").with_capability("b"));
    reg.register(
        &BeaconMessage::new(AgentId(1), 40, 200)
            .with_capability("c")
            .with_capability("a")
            .with_capability("c"),
    );
    let e = reg.get(AgentId(1)).unwrap();
    assert_eq!(
        e.capabilities,
        vec!["a".to_string(), "b".to_string(), "c".to_string()]
    );
    assert_eq!(e.last_seen, 200);
    assert_eq!(e.signal_strength, 40);
    assert_eq!(reg.entry_count(), 1);
}

#[test]
fn earlier_time_counts_as_no_time() {
    let mut reg = BeaconRegistry::new(0);
    reg.register(&BeaconMessage::new(AgentId(1), 50, 100));
    assert!(reg.is_active(AgentId(1), 50));
    assert!(reg.is_active(AgentId(1), 100));
    assert!(!reg.is_active(AgentId(1), 101));
}

#[test]
fn prune_twice_removes_nothing_more() {
    let mut reg = BeaconRegistry::new(100);
    reg.register(&BeaconMessage::new(AgentId(1), 50, 100));
    reg.register(&BeaconMessage::new(AgentId(2), 50, 200));
    reg.register(&BeaconMessage::new(AgentId(3), 50, 300));
    assert_eq!(reg.prune(300), 1);
    assert_eq!(reg.prune(300), 0);
    assert_eq!(reg.entry_count(), 2);
    assert!(reg.get(AgentId(1)).is_none());
    assert_eq!(reg.active_entries(300).len(), 2);
}

#[test]
fn active_entries_skip_expired() {
    let mut reg = BeaconRegistry::new(50);
    reg.register(&BeaconMessage::new(AgentId(1), 50, 100));
    reg.register(&BeaconMessage::new(AgentId(2), 50, 150));
    let mut ids: Vec<u64> = reg.active_entries(190).iter().map(|e| e.agent_id.0).collect();
    ids.sort();
    assert_eq!(ids, vec![2]);
    assert_eq!(reg.entry_count(), 2);
    let copy = reg.clone();
    assert_eq!(copy.entry_count(), 2);
}

// -- protocol --

#[test]
fn protocol_new_keeps_fields() {
    let payload = BeaconMessage::new(AgentId(2), 5, 6);
    let m = ProtocolMessage::new(BeaconOp::Query, AgentId(2), 6, payload);
    assert_eq!(m.version, PROTOCOL_VERSION);
    assert_eq!(m.op, BeaconOp::Query);
    assert!(!m.is_announce());
    assert!(!m.is_depart());
    assert_eq!(m.source, AgentId(2));
    assert_eq!(m.timestamp, 6);
    assert_eq!(m.payload.signal_strength, 5);
    assert_eq!(PROTOCOL_VERSION, "ternary-beacon/1.0");
}

// -- laws added with the invariants --

#[test]
fn cloned_beacon_broadcasts_for_its_agent() {
    let mut b = Beacon::new(AgentId(8), 30, 1);
    b.add_capability("x");
    b.broadcast(2);
    let mut c = b.clone();
    assert_eq!(c.broadcast_count(), 1);
    let m = c.broadcast(5);
    assert_eq!(m.source, AgentId(8));
    assert_eq!(m.timestamp, 5);
    assert!(m.has_capability("x"));
    assert_eq!(c.broadcast_count(), 2);
    assert_eq!(b.broadcast_count(), 1);
}

#[test]
fn inactive_beacon_still_broadcasts() {
    let mut b = Beacon::new(AgentId(8), 30, 1);
    b.deactivate();
    let m = b.broadcast(9);
    assert_eq!(m.timestamp, 9);
    assert!(!b.is_active());
    assert_eq!(b.broadcast_count(), 1);
}

#[test]
fn scanning_twice_gives_the_same_result() {
    let msgs = vec![
        BeaconMessage::new(AgentId(1), 40, 1),
        BeaconMessage::new(AgentId(2), 70, 1),
        BeaconMessage::new(AgentId(3), 40, 1),
    ];
    let mut s = BeaconScanner::new(AgentId(0), 100);
    let first: Vec<u64> = s.scan(&msgs).iter().map(|d| d.message.source.0).collect();
    let second: Vec<u64> = s.scan(&msgs).iter().map(|d| d.message.source.0).collect();
    let mut fresh = BeaconScanner::new(AgentId(0), 100);
    let third: Vec<u64> = fresh.scan(&msgs).iter().map(|d| d.message.source.0).collect();
    assert_eq!(first, second);
    assert_eq!(first, third);
}

#[test]
fn register_adds_an_entry_only_for_new_agents() {
    let mut reg = BeaconRegistry::new(10);
    let m = BeaconMessage::new(AgentId(1), 5, 5).with_capability("a");
    reg.register(&m);
    assert_eq!(reg.entry_count(), 1);
    reg.register(&m);
    assert_eq!(reg.entry_count(), 1);
    assert_eq!(reg.get(AgentId(1)).unwrap().capabilities, vec!["a".to_string()]);
    reg.register(&BeaconMessage::new(AgentId(2), 5, 5));
    assert_eq!(reg.entry_count(), 2);
}

#[test]
fn active_plus_pruned_is_all() {
    let mut reg = BeaconRegistry::new(50);
    reg.register(&BeaconMessage::new(AgentId(1), 50, 100));
    reg.register(&BeaconMessage::new(AgentId(2), 50, 150));
    reg.register(&BeaconMessage::new(AgentId(3), 50, 160));
    let total = reg.entry_count();
    let active = reg.active_entries(190).len();
    let removed = reg.clone().prune(190);
    assert_eq!(active + removed, total);
    assert_eq!(active, 2);
}
