//! The presence lifecycle controller: identity and timing state, and the
//! transition functions that decide which frames are emitted, which timers
//! are armed, and when the event loop halts.
//!
//! The controller is a pure state machine: each handler maps the current
//! state and one signal or network event to a new send timestamp and a list
//! of effects. The surrounding program performs the effects (sending bytes,
//! arming timers, stopping the loop) against the real transport.

use vstd::prelude::*;

use crate::frame::{decode_all, spec_decode, spec_encode, Frame};

verus! {

/// Default multicast group address 226.226.226.226, as a 32-bit value.
pub const DEFAULT_GROUP_IP: u32 = 0xE2E2E2E2;

/// Default multicast group port.
pub const DEFAULT_GROUP_PORT: u16 = 22626;

/// Time units between heartbeats.
pub const HEART_BEAT_INTERVAL: u64 = 10;

/// Time units granted after a Leave before the loop is halted, so the final
/// send can flush.
pub const SHUTDOWN_DELAY: u64 = 333;

/// The flags byte carried by every frame this node emits.
pub const SEND_FLAGS: u8 = 0b00000001;

/// An IPv4 address lies in the multicast range 224.0.0.0/4.
pub open spec fn spec_is_multicast_v4(ip: u32) -> bool {
    0xE0000000 <= ip < 0xF0000000
}

/// The internal timer and interrupt signals the controller reacts to.
#[derive(Clone, Copy, Debug, PartialEq, Eq, Structural)]
pub enum Signals226 {
    Heartbeat,
    Quit,
    ShutdownNow,
}

/// A transport event as the controller sees it: only whether the event
/// concerns the multicast channel matters, plus any payload bytes.
#[derive(Debug, PartialEq, Eq)]
pub enum NetEvent226 {
    Connected { multicast: bool },
    Accepted,
    Message { multicast: bool, data: Vec<u8> },
    Disconnected { multicast: bool },
}

/// What the controller asks the surrounding program to do, in order.
#[derive(Clone, Copy, Debug, PartialEq, Eq, Structural)]
pub enum Effect {
    /// Encode this frame and send it to the multicast group.
    SendFrame(Frame),
    /// Deliver this signal after the given number of time units.
    ArmTimer { signal: Signals226, delay: u64 },
    /// Start receiving datagrams from the multicast group.
    ListenMulticast,
    /// Stop the event loop; no further events are handled.
    Halt,
    /// Surface one decoded inbound frame to the observer.
    Report(Frame),
}

/// A node's identity and configuration: immutable for the process lifetime.
#[derive(Clone, Copy, Debug, PartialEq, Eq, Structural)]
pub struct Node226 {
    /// 128-bit identity, generated once at construction.
    pub uuid: u128,
    /// Multicast group address the node announces on.
    pub group_ip: u32,
    /// Multicast group port.
    pub group_port: u16,
    /// Time units between heartbeats.
    pub heart_beat: u64,
}

/// A snapshot of another node as a presence frame describes it.
#[derive(Clone, Copy, Debug, PartialEq, Eq, Structural, PartialOrd, Ord, Hash)]
pub struct Node226Info {
    pub uuid: u128,
    pub last_heart_beat: u64,
    pub home_ip: u32,
    pub home_port: u16,
}

/// A heartbeat is due when the last send lies strictly more than one
/// interval in the past. A send timestamp in the future (a clock step
/// backwards) counts as elapsed time zero, so nothing is due.
pub open spec fn spec_heartbeat_due(last: u64, now: u64, interval: u64) -> bool {
    now > last && now - last > interval
}

/// Relies on uuid::Uuid::new_v4 and Uuid::as_u128: a freshly generated
/// random 128-bit identifier. Nothing is promised of the value, which
/// depends on the process's randomness source.
#[verifier::external_body]
fn fresh_uuid() -> u128 {
    uuid::Uuid::new_v4().as_u128()
}

impl Node226 {
    pub fn new(group_ip: u32, group_port: u16) -> (n: Node226)
        requires
            spec_is_multicast_v4(group_ip),
        ensures
            n.group_ip == group_ip,
            n.group_port == group_port,
            n.heart_beat == HEART_BEAT_INTERVAL,
    {
        Node226 { uuid: fresh_uuid(), group_ip, group_port, heart_beat: HEART_BEAT_INTERVAL }
    }

    /// The wire bytes of a Join frame announcing this node at `port`.
    pub fn join_msg(&self, port: u16, flags: u8) -> (buf: Vec<u8>)
        ensures
            buf@ == spec_encode(Frame::Join { uuid: self.uuid, port, flags }),
    {
        crate::frame::encode(&Frame::Join { uuid: self.uuid, port, flags })
    }

    /// The wire bytes of a Heartbeat frame for this node at `port`.
    pub fn hb_msg(&self, port: u16, flags: u8) -> (buf: Vec<u8>)
        ensures
            buf@ == spec_encode(Frame::Heartbeat { uuid: self.uuid, port, flags }),
    {
        crate::frame::encode(&Frame::Heartbeat { uuid: self.uuid, port, flags })
    }

    /// The wire bytes of a Leave frame announcing this node's departure.
    pub fn leave_msg(&self, flags: u8) -> (buf: Vec<u8>)
        ensures
            buf@ == spec_encode(Frame::Leave { uuid: self.uuid, flags }),
    {
        crate::frame::encode(&Frame::Leave { uuid: self.uuid, flags })
    }
}

impl Default for Node226 {
    /// A node on the well-known default multicast group, with the fixed
    /// heartbeat interval.
    fn default() -> (n: Node226)
        ensures
            n.group_ip == DEFAULT_GROUP_IP,
            n.group_port == DEFAULT_GROUP_PORT,
            n.heart_beat == HEART_BEAT_INTERVAL,
    {
        Node226::new(DEFAULT_GROUP_IP, DEFAULT_GROUP_PORT)
    }
}

/// React to one internal signal.
///
/// A Heartbeat signal sends a Heartbeat frame and re-arms the timer only
/// when a heartbeat is due; when a more recent send already happened it does
/// nothing, and in that branch no successor timer is armed. A Quit signal
/// sends a Leave frame and arms the one-shot shutdown timer. A ShutdownNow
/// signal halts the loop.
pub fn handle_signals(
    signal: Signals226,
    last_msg_time: &mut u64,
    now: u64,
    port: u16,
    node226: &Node226,
) -> (effects: Vec<Effect>)
    ensures
        match signal {
            Signals226::Heartbeat => if spec_heartbeat_due(
                *old(last_msg_time),
                now,
                node226.heart_beat,
            ) {
                *final(last_msg_time) == now && effects@ == seq![
                    Effect::SendFrame(
                        Frame::Heartbeat { uuid: node226.uuid, port, flags: SEND_FLAGS },
                    ),
                    Effect::ArmTimer { signal: Signals226::Heartbeat, delay: node226.heart_beat },
                ]
            } else {
                *final(last_msg_time) == *old(last_msg_time) && effects@ == Seq::<Effect>::empty()
            },
            Signals226::Quit => *final(last_msg_time) == *old(last_msg_time) && effects@ == seq![
                Effect::SendFrame(Frame::Leave { uuid: node226.uuid, flags: SEND_FLAGS }),
                Effect::ArmTimer { signal: Signals226::ShutdownNow, delay: SHUTDOWN_DELAY },
            ],
            Signals226::ShutdownNow => *final(last_msg_time) == *old(last_msg_time) && effects@
                == seq![Effect::Halt],
        },
{
    let mut effects: Vec<Effect> = Vec::new();
    match signal {
        Signals226::Heartbeat => {
            if now > *last_msg_time && now - *last_msg_time > node226.heart_beat {
                effects.push(
                    Effect::SendFrame(
                        Frame::Heartbeat { uuid: node226.uuid, port, flags: SEND_FLAGS },
                    ),
                );
                effects.push(
                    Effect::ArmTimer { signal: Signals226::Heartbeat, delay: node226.heart_beat },
                );
                *last_msg_time = now;
                assert(effects@ =~= seq![
                    Effect::SendFrame(
                        Frame::Heartbeat { uuid: node226.uuid, port, flags: SEND_FLAGS },
                    ),
                    Effect::ArmTimer { signal: Signals226::Heartbeat, delay: node226.heart_beat },
                ]);
            } else {
                assert(effects@ =~= Seq::<Effect>::empty());
            }
        }
        Signals226::Quit => {
            effects.push(Effect::SendFrame(Frame::Leave { uuid: node226.uuid, flags: SEND_FLAGS }));
            effects.push(Effect::ArmTimer { signal: Signals226::ShutdownNow, delay: SHUTDOWN_DELAY });
            assert(effects@ =~= seq![
                Effect::SendFrame(Frame::Leave { uuid: node226.uuid, flags: SEND_FLAGS }),
                Effect::ArmTimer { signal: Signals226::ShutdownNow, delay: SHUTDOWN_DELAY },
            ]);
        }
        Signals226::ShutdownNow => {
            effects.push(Effect::Halt);
            assert(effects@ =~= seq![Effect::Halt]);
        }
    }
    effects
}

/// React to one transport event.
///
/// A connection on the multicast channel sends the one Join frame, records
/// the send time, starts listening for inbound multicast traffic and arms
/// the first heartbeat timer. A payload from the multicast channel is
/// decoded and every frame found is reported; payloads from other channels,
/// accepted point-to-point connections and disconnections change nothing.
pub fn handle_net_event(
    event: &NetEvent226,
    last_msg_time: &mut u64,
    now: u64,
    port: u16,
    node226: &Node226,
) -> (effects: Vec<Effect>)
    ensures
        match *event {
            NetEvent226::Connected { multicast } => if multicast {
                *final(last_msg_time) == now && effects@ == seq![
                    Effect::SendFrame(Frame::Join { uuid: node226.uuid, port, flags: SEND_FLAGS }),
                    Effect::ListenMulticast,
                    Effect::ArmTimer { signal: Signals226::Heartbeat, delay: node226.heart_beat },
                ]
            } else {
                *final(last_msg_time) == *old(last_msg_time) && effects@ == Seq::<Effect>::empty()
            },
            NetEvent226::Message { multicast, data } => *final(last_msg_time) == *old(last_msg_time)
                && if multicast {
                effects@ == spec_decode(data@).map_values(|f: Frame| Effect::Report(f))
            } else {
                effects@ == Seq::<Effect>::empty()
            },
            _ => *final(last_msg_time) == *old(last_msg_time) && effects@
                == Seq::<Effect>::empty(),
        },
{
    let mut effects: Vec<Effect> = Vec::new();
    match event {
        NetEvent226::Connected { multicast } => {
            if *multicast {
                effects.push(
                    Effect::SendFrame(Frame::Join { uuid: node226.uuid, port, flags: SEND_FLAGS }),
                );
                effects.push(Effect::ListenMulticast);
                effects.push(
                    Effect::ArmTimer { signal: Signals226::Heartbeat, delay: node226.heart_beat },
                );
                *last_msg_time = now;
                assert(effects@ =~= seq![
                    Effect::SendFrame(Frame::Join { uuid: node226.uuid, port, flags: SEND_FLAGS }),
                    Effect::ListenMulticast,
                    Effect::ArmTimer { signal: Signals226::Heartbeat, delay: node226.heart_beat },
                ]);
            } else {
                assert(effects@ =~= Seq::<Effect>::empty());
            }
        }
        NetEvent226::Message { multicast, data } => {
            if *multicast {
                let frames = decode_all(data.as_slice());
                let n = frames.len();
                let mut i: usize = 0;
                while i < n
                    invariant
                        n == frames.len(),
                        frames@ == spec_decode(data@),
                        0 <= i <= n,
                        effects@ =~= frames@.map_values(|f: Frame| Effect::Report(f)).take(
                            i as int,
                        ),
                    decreases n - i,
                {
                    effects.push(Effect::Report(frames[i]));
                    assert(effects@ =~= frames@.map_values(|f: Frame| Effect::Report(f)).take(
                        i + 1,
                    ));
                    i = i + 1;
                }
                assert(effects@ =~= spec_decode(data@).map_values(|f: Frame| Effect::Report(f)));
            } else {
                assert(effects@ =~= Seq::<Effect>::empty());
            }
        }
        _ => {
            assert(effects@ =~= Seq::<Effect>::empty());
        }
    }
    effects
}

} // verus!
