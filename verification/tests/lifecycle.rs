use net226::frame::{encode, Frame};
use net226::node226::{
    handle_net_event, handle_signals, Effect, NetEvent226, Node226, Signals226, DEFAULT_GROUP_IP,
    DEFAULT_GROUP_PORT, HEART_BEAT_INTERVAL, SHUTDOWN_DELAY,
};

fn test_node() -> Node226 {
    Node226 {
        uuid: 0x0123456789ABCDEF_FEDCBA9876543210,
        group_ip: DEFAULT_GROUP_IP,
        group_port: DEFAULT_GROUP_PORT,
        heart_beat: HEART_BEAT_INTERVAL,
    }
}

#[test]
fn connected_multicast_sends_one_join_and_arms_heartbeat() {
    let node = test_node();
    let mut last: u64 = 0;
    let effects =
        handle_net_event(&NetEvent226::Connected { multicast: true }, &mut last, 5, 8080, &node);
    assert_eq!(
        effects,
        vec![
            Effect::SendFrame(Frame::Join { uuid: node.uuid, port: 8080, flags: 0b00000001 }),
            Effect::ListenMulticast,
            Effect::ArmTimer { signal: Signals226::Heartbeat, delay: HEART_BEAT_INTERVAL },
        ]
    );
    assert_eq!(last, 5);
}

#[test]
fn connected_other_channel_is_ignored() {
    let node = test_node();
    let mut last: u64 = 3;
    let effects =
        handle_net_event(&NetEvent226::Connected { multicast: false }, &mut last, 9, 8080, &node);
    assert_eq!(effects, vec![]);
    assert_eq!(last, 3);
}

#[test]
fn heartbeat_due_sends_and_rearms() {
    let node = test_node();
    let mut last: u64 = 0;
    let effects = handle_signals(Signals226::Heartbeat, &mut last, 11, 8080, &node);
    assert_eq!(
        effects,
        vec![
            Effect::SendFrame(Frame::Heartbeat { uuid: node.uuid, port: 8080, flags: 0b00000001 }),
            Effect::ArmTimer { signal: Signals226::Heartbeat, delay: HEART_BEAT_INTERVAL },
        ]
    );
    assert_eq!(last, 11);
}

#[test]
fn heartbeat_within_interval_does_nothing_and_does_not_rearm() {
    let node = test_node();
    let mut last: u64 = 5;
    // elapsed time equal to the interval is not yet due
    let effects = handle_signals(Signals226::Heartbeat, &mut last, 15, 8080, &node);
    assert_eq!(effects, vec![]);
    assert_eq!(last, 5);
    // a send timestamp in the future also suppresses the heartbeat
    let effects = handle_signals(Signals226::Heartbeat, &mut last, 1, 8080, &node);
    assert_eq!(effects, vec![]);
    assert_eq!(last, 5);
}

#[test]
fn lifecycle_join_quit_shutdown() {
    let node = test_node();
    let mut last: u64 = 0;

    // Connected(multicast): exactly one Join with the advertised port and
    // flags = 1, and a Heartbeat timer armed at the configured interval.
    let effects =
        handle_net_event(&NetEvent226::Connected { multicast: true }, &mut last, 0, 4242, &node);
    let sends: Vec<&Effect> =
        effects.iter().filter(|e| matches!(e, Effect::SendFrame(_))).collect();
    assert_eq!(sends.len(), 1);
    assert_eq!(
        *sends[0],
        Effect::SendFrame(Frame::Join { uuid: node.uuid, port: 4242, flags: 1 })
    );
    assert!(effects.contains(&Effect::ArmTimer {
        signal: Signals226::Heartbeat,
        delay: HEART_BEAT_INTERVAL,
    }));

    // Quit: exactly one Leave with flags = 1 and a ShutdownNow timer at 333.
    let effects = handle_signals(Signals226::Quit, &mut last, 1, 4242, &node);
    assert_eq!(
        effects,
        vec![
            Effect::SendFrame(Frame::Leave { uuid: node.uuid, flags: 1 }),
            Effect::ArmTimer { signal: Signals226::ShutdownNow, delay: SHUTDOWN_DELAY },
        ]
    );
    assert_eq!(SHUTDOWN_DELAY, 333);

    // ShutdownNow: the loop halts and no further frames are sent.
    let effects = handle_signals(Signals226::ShutdownNow, &mut last, 2, 4242, &node);
    assert_eq!(effects, vec![Effect::Halt]);
}

#[test]
fn multicast_payload_is_decoded_and_reported() {
    let node = test_node();
    let mut last: u64 = 7;
    let f1 = Frame::Heartbeat { uuid: 77, port: 7000, flags: 1 };
    let f2 = Frame::Leave { uuid: 78, flags: 0 };
    let mut data = encode(&f1);
    data.extend_from_slice(encode(&f2).as_slice());
    let effects = handle_net_event(
        &NetEvent226::Message { multicast: true, data },
        &mut last,
        9,
        8080,
        &node,
    );
    assert_eq!(effects, vec![Effect::Report(f1), Effect::Report(f2)]);
    assert_eq!(last, 7);
}

#[test]
fn payload_from_other_channel_is_dropped() {
    let node = test_node();
    let mut last: u64 = 7;
    let data = encode(&Frame::Leave { uuid: 78, flags: 0 });
    let effects = handle_net_event(
        &NetEvent226::Message { multicast: false, data },
        &mut last,
        9,
        8080,
        &node,
    );
    assert_eq!(effects, vec![]);
}

#[test]
fn accepted_and_disconnected_are_informational_only() {
    let node = test_node();
    let mut last: u64 = 1;
    assert_eq!(handle_net_event(&NetEvent226::Accepted, &mut last, 2, 80, &node), vec![]);
    assert_eq!(
        handle_net_event(&NetEvent226::Disconnected { multicast: true }, &mut last, 2, 80, &node),
        vec![]
    );
    assert_eq!(last, 1);
}

#[test]
fn default_node_uses_the_well_known_group() {
    let node = Node226::default();
    assert_eq!(node.group_ip, u32::from_be_bytes([226, 226, 226, 226]));
    assert_eq!(node.group_port, 22626);
    assert_eq!(node.heart_beat, 10);
}

#[test]
fn message_builders_match_the_codec() {
    let node = test_node();
    assert_eq!(
        node.join_msg(8080, 1),
        encode(&Frame::Join { uuid: node.uuid, port: 8080, flags: 1 })
    );
    assert_eq!(
        node.hb_msg(8080, 1),
        encode(&Frame::Heartbeat { uuid: node.uuid, port: 8080, flags: 1 })
    );
    assert_eq!(node.leave_msg(1), encode(&Frame::Leave { uuid: node.uuid, flags: 1 }));
    assert_eq!(node.join_msg(8080, 1).len(), 22);
    assert_eq!(node.leave_msg(1).len(), 20);
}

#[test]
fn new_nodes_get_distinct_identities() {
    let a = Node226::new(DEFAULT_GROUP_IP, DEFAULT_GROUP_PORT);
    let b = Node226::new(DEFAULT_GROUP_IP, DEFAULT_GROUP_PORT);
    assert_ne!(a.uuid, b.uuid);
    assert_eq!(a.heart_beat, 10);
}
