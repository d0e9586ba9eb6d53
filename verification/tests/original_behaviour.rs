use ternary_beacon::{
    AgentId, Beacon, BeaconFilter, BeaconMessage, BeaconRegistry, BeaconScanner, FilterCriterion,
    ProtocolMessage, SignalStrength, Ternary, PROTOCOL_VERSION,
};

fn agent(id: u64) -> AgentId {
    AgentId(id)
}

// -- SignalStrength tests --

#[test]
fn signal_classification() {
    assert_eq!(SignalStrength::from_raw(10), SignalStrength::Weak);
    assert_eq!(SignalStrength::from_raw(30), SignalStrength::Medium);
    assert_eq!(SignalStrength::from_raw(60), SignalStrength::Strong);
    assert_eq!(SignalStrength::from_raw(90), SignalStrength::Excellent);
}

#[test]
fn signal_usable() {
    assert!(SignalStrength::Weak.is_usable());
    assert!(SignalStrength::Strong.is_usable());
    assert!(!SignalStrength::NoSignal.is_usable());
}

// -- Beacon tests --

#[test]
fn beacon_new() {
    let b = Beacon::new(agent(1), 75, 100);
    assert_eq!(b.agent_id(), agent(1));
    assert!(b.is_active());
    assert_eq!(b.broadcast_range(), 75);
    assert_eq!(b.broadcast_count(), 0);
}

#[test]
fn beacon_broadcast() {
    let mut b = Beacon::new(agent(1), 75, 100);
    let msg = b.broadcast(200);
    assert_eq!(msg.timestamp, 200);
    assert_eq!(b.broadcast_count(), 1);
    b.broadcast(300);
    assert_eq!(b.broadcast_count(), 2);
}

#[test]
fn beacon_activate_deactivate() {
    let mut b = Beacon::new(agent(1), 75, 100);
    b.deactivate();
    assert!(!b.is_active());
    b.activate();
    assert!(b.is_active());
}

#[test]
fn beacon_capabilities() {
    let mut b = Beacon::new(agent(1), 75, 100);
    b.add_capability("compute");
    b.add_capability("storage");
    assert!(b.message().has_capability("compute"));
    assert!(b.message().has_capability("storage"));
    b.remove_capability("compute");
    assert!(!b.message().has_capability("compute"));
}

#[test]
fn beacon_no_duplicate_capability() {
    let mut b = Beacon::new(agent(1), 75, 100);
    b.add_capability("compute");
    b.add_capability("compute");
    assert_eq!(b.message().capabilities.len(), 1);
}

#[test]
fn beacon_metadata() {
    let mut b = Beacon::new(agent(1), 75, 100);
    b.set_metadata("region", "us-west");
    assert_eq!(b.message().metadata.get("region"), Some(&"us-west".to_string()));
}

// -- BeaconScanner tests --

#[test]
fn scanner_basic_scan() {
    let mut scanner = BeaconScanner::new(agent(2), 80);
    let msgs = vec![
        BeaconMessage::new(agent(1), 60, 100),
        BeaconMessage::new(agent(3), 90, 100), // out of range
    ];
    let results = scanner.scan(&msgs);
    assert_eq!(results.len(), 1);
    assert_eq!(results[0].message.source, agent(1));
}

#[test]
fn scanner_ignores_self() {
    let mut scanner = BeaconScanner::new(agent(1), 100);
    let msgs = vec![
        BeaconMessage::new(agent(1), 50, 100), // self
        BeaconMessage::new(agent(2), 50, 100),
    ];
    let results = scanner.scan(&msgs);
    assert_eq!(results.len(), 1);
    assert_eq!(results[0].message.source, agent(2));
}

#[test]
fn scanner_sorted_by_signal() {
    let mut scanner = BeaconScanner::new(agent(0), 100);
    let msgs = vec![
        BeaconMessage::new(agent(1), 30, 100),
        BeaconMessage::new(agent(2), 80, 100),
        BeaconMessage::new(agent(3), 50, 100),
    ];
    let results = scanner.scan(&msgs);
    assert_eq!(results[0].message.source, agent(2)); // strongest first
}

#[test]
fn scanner_count_above() {
    let mut scanner = BeaconScanner::new(agent(0), 100);
    let msgs = vec![
        BeaconMessage::new(agent(1), 20, 100),
        BeaconMessage::new(agent(2), 60, 100),
    ];
    scanner.scan(&msgs);
    assert_eq!(scanner.count_above(SignalStrength::Strong), 1);
}

// -- BeaconFilter tests --

#[test]
fn filter_has_capability() {
    let filter = BeaconFilter::new(); // no criteria = pass all
    let msg = BeaconMessage::new(agent(1), 50, 100);
    assert!(!matches!(filter.apply(&msg), Ternary::Negative));
}

#[test]
fn filter_positive_match() {
    let mut f = BeaconFilter::new();
    f.add_criterion(FilterCriterion::HasCapability("compute".to_string()));
    let msg = BeaconMessage::new(agent(1), 50, 100).with_capability("compute");
    assert_eq!(f.apply(&msg), Ternary::Positive);
}

#[test]
fn filter_negative_match() {
    let mut f = BeaconFilter::new();
    f.add_criterion(FilterCriterion::HasCapability("compute".to_string()));
    let msg = BeaconMessage::new(agent(1), 50, 100);
    assert_eq!(f.apply(&msg), Ternary::Negative);
}

#[test]
fn filter_not_capability() {
    let mut f = BeaconFilter::new();
    f.add_criterion(FilterCriterion::NotCapability("legacy".to_string()));
    let msg_good = BeaconMessage::new(agent(1), 50, 100).with_capability("compute");
    let msg_bad = BeaconMessage::new(agent(2), 50, 100).with_capability("legacy");
    assert_eq!(f.apply(&msg_good), Ternary::Positive);
    assert_eq!(f.apply(&msg_bad), Ternary::Negative);
}

#[test]
fn filter_min_signal() {
    let mut f = BeaconFilter::new();
    f.add_criterion(FilterCriterion::MinSignal(50));
    let msg_strong = BeaconMessage::new(agent(1), 70, 100);
    let msg_weak = BeaconMessage::new(agent(2), 30, 100);
    assert_eq!(f.apply(&msg_strong), Ternary::Positive);
    assert_eq!(f.apply(&msg_weak), Ternary::Negative);
}

#[test]
fn filter_metadata_match() {
    let mut f = BeaconFilter::new();
    f.add_criterion(FilterCriterion::HasMetadata("region".to_string(), "us-west".to_string()));
    let msg = BeaconMessage::new(agent(1), 50, 100).with_metadata("region", "us-west");
    assert_eq!(f.apply(&msg), Ternary::Positive);
}

#[test]
fn filter_combined_any_negative_rejects() {
    let mut f = BeaconFilter::new();
    f.add_criterion(FilterCriterion::HasCapability("compute".to_string()));
    f.add_criterion(FilterCriterion::MinSignal(50));
    let msg = BeaconMessage::new(agent(1), 30, 100).with_capability("compute");
    assert_eq!(f.apply(&msg), Ternary::Negative); // fails signal check
}

#[test]
fn filter_filter_method() {
    let mut f = BeaconFilter::new();
    f.add_criterion(FilterCriterion::MinSignal(50));
    let msgs = vec![
        BeaconMessage::new(agent(1), 70, 100),
        BeaconMessage::new(agent(2), 30, 100),
    ];
    let filtered = f.filter(&msgs);
    assert_eq!(filtered.len(), 1);
}

// -- BeaconRegistry tests --

#[test]
fn registry_register_and_get() {
    let mut reg = BeaconRegistry::new(100);
    let msg = BeaconMessage::new(agent(1), 50, 100).with_capability("compute");
    reg.register(&msg);
    let entry = reg.get(agent(1)).unwrap();
    assert_eq!(entry.last_seen, 100);
    assert!(entry.capabilities.contains(&"compute".to_string()));
}

#[test]
fn registry_is_active() {
    let mut reg = BeaconRegistry::new(100);
    let msg = BeaconMessage::new(agent(1), 50, 100);
    reg.register(&msg);
    assert!(reg.is_active(agent(1), 150));
    assert!(!reg.is_active(agent(1), 250)); // expired
}

#[test]
fn registry_prune() {
    let mut reg = BeaconRegistry::new(100);
    reg.register(&BeaconMessage::new(agent(1), 50, 100));
    reg.register(&BeaconMessage::new(agent(2), 50, 200));
    let pruned = reg.prune(250);
    assert_eq!(pruned, 1); // agent 1 expired
    assert_eq!(reg.entry_count(), 1);
}

#[test]
fn registry_capability_merge() {
    let mut reg = BeaconRegistry::new(100);
    reg.register(&BeaconMessage::new(agent(1), 50, 100).with_capability("a"));
    reg.register(&BeaconMessage::new(agent(1), 50, 200).with_capability("b"));
    let entry = reg.get(agent(1)).unwrap();
    assert!(entry.capabilities.contains(&"a".to_string()));
    assert!(entry.capabilities.contains(&"b".to_string()));
}

#[test]
fn registry_active_entries() {
    let mut reg = BeaconRegistry::new(100);
    reg.register(&BeaconMessage::new(agent(1), 50, 100));
    reg.register(&BeaconMessage::new(agent(2), 50, 150));
    let active = reg.active_entries(180);
    assert_eq!(active.len(), 2);
}

// -- ProtocolMessage tests --

#[test]
fn protocol_announce() {
    let msg = ProtocolMessage::announce(agent(1), 100, 75);
    assert!(msg.is_announce());
    assert!(!msg.is_depart());
    assert_eq!(msg.version, PROTOCOL_VERSION);
    assert_eq!(msg.payload.signal_strength, 75);
}

#[test]
fn protocol_depart() {
    let msg = ProtocolMessage::depart(agent(1), 100);
    assert!(msg.is_depart());
    assert_eq!(msg.payload.signal_strength, 0);
}
