//! The decisions of the network exchanges: which replies of a scan count,
//! which datagram answers a status request, and the pairing animation that
//! makes a newly found light blink red and blue until it has a name.

use vstd::prelude::*;
use crate::packet::{
    color_packet, color_word, is_command, power_packet, turn_word, Color, GoveeCmd, GoveeMessage,
    GoveePacket, GoveeStatus,
};

verus! {

broadcast use vstd::seq_lib::group_seq_properties;

/// The message that asks every device on the network to introduce itself.
pub const MSG_SCAN: &'static str = "\n{\n  \"msg\": {\n    \"cmd\": \"scan\",\n    \"data\": {\n      \"accout_topic\": \"reserve\"\n    }\n  }\n}\n";

/// The message that asks one device for its state.
pub const MSG_STATUS: &'static str = "\n{\n    \"msg\": {\n        \"cmd\": \"devStatus\",\n        \"data\": {}\n    }\n}\n";

/// `p` is a scan reply.
pub open spec fn is_handshake(p: GoveePacket) -> bool {
    p.msg is Handshake
}

/// The scan replies of a sequence of datagrams, in order.
pub open spec fn scan_replies(s: Seq<GoveePacket>) -> Seq<GoveePacket> {
    s.filter(|p: GoveePacket| is_handshake(p))
}

/// The scan replies among the datagrams that a scan received, in order.
pub fn handshake_packets(packets: Vec<GoveePacket>) -> (r: Vec<GoveePacket>)
    ensures
        r@ == scan_replies(packets@),
{
    let ghost all = packets@;
    let ghost keep = |p: GoveePacket| is_handshake(p);
    let total = packets.len();
    let mut rest = packets;
    let mut r: Vec<GoveePacket> = Vec::new();
    let mut k: usize = 0;
    proof {
        assert(all.take(0) =~= Seq::<GoveePacket>::empty());
        assert(all.skip(0) =~= all);
        assert(Seq::<GoveePacket>::empty().filter(keep) =~= Seq::<GoveePacket>::empty());
    }
    while rest.len() > 0
        invariant
            all.len() == total,
            k + rest@.len() == all.len(),
            rest@ == all.skip(k as int),
            keep == (|p: GoveePacket| is_handshake(p)),
            r@ == all.take(k as int).filter(keep),
        decreases rest.len(),
    {
        let p = rest.remove(0);
        proof {
            assert(all.take(k + 1) =~= all.take(k as int).push(p));
            all.take(k as int).lemma_filter_push(p, keep);
            assert(all.skip(k + 1) =~= all.skip(k as int).drop_first());
        }
        let is_hs = match &p.msg {
            GoveeMessage::Handshake { .. } => true,
            _ => false,
        };
        if is_hs {
            r.push(p);
        }
        k = k + 1;
    }
    proof {
        assert(all.take(k as int) =~= all);
    }
    r
}

/// Whether a datagram whose sender's address reads `source` is the reply of
/// the device at `device_ip`.
pub fn is_reply_from(source: &String, device_ip: &String) -> (r: bool)
    ensures
        r == (source@ == device_ip@),
{
    *source == *device_ip
}

/// The state that a status reply carries; none for any other message.
pub fn reply_status(p: &GoveePacket) -> (r: Option<GoveeStatus>)
    ensures
        r == (match p.msg {
            GoveeMessage::Response { cmd: _, data } => Some(data),
            _ => None,
        }),
{
    match &p.msg {
        GoveeMessage::Response { cmd: _, data } => Some(*data),
        _ => None,
    }
}

/// Where the pairing animation stands.
#[derive(Debug, Clone, Copy, PartialEq, Eq, Structural)]
pub enum AnimationPhase {
    /// Nothing sent yet.
    Start,
    /// The light was switched on.
    SwitchedOn,
    /// The light shows red.
    ShowingRed,
    /// The light shows blue.
    ShowingBlue,
    /// The light was switched off; the animation is over.
    Done,
}

/// What the animation sends to the light.
#[derive(Debug, Clone, Copy, PartialEq, Eq, Structural)]
pub enum AnimationSignal {
    PowerOn,
    Red,
    Blue,
    PowerOff,
}

/// One step of the animation: the signal to send, and whether to wait a
/// second after it (and then look whether the animation should stop).
#[derive(Debug, Clone, Copy, PartialEq, Eq, Structural)]
pub struct AnimationFrame {
    pub signal: AnimationSignal,
    pub pause_after: bool,
}

/// The next phase and the frame to send, from `phase`, where `stop` tells
/// whether the user has finished naming the light.
pub open spec fn spec_pairing_step(phase: AnimationPhase, stop: bool) -> (
    AnimationPhase,
    Option<AnimationFrame>,
) {
    let off = AnimationFrame { signal: AnimationSignal::PowerOff, pause_after: false };
    match phase {
        AnimationPhase::Start => (
            AnimationPhase::SwitchedOn,
            Some(AnimationFrame { signal: AnimationSignal::PowerOn, pause_after: false }),
        ),
        AnimationPhase::SwitchedOn => (
            AnimationPhase::ShowingRed,
            Some(AnimationFrame { signal: AnimationSignal::Red, pause_after: true }),
        ),
        AnimationPhase::ShowingRed => if stop {
            (AnimationPhase::Done, Some(off))
        } else {
            (
                AnimationPhase::ShowingBlue,
                Some(AnimationFrame { signal: AnimationSignal::Blue, pause_after: true }),
            )
        },
        AnimationPhase::ShowingBlue => if stop {
            (AnimationPhase::Done, Some(off))
        } else {
            (
                AnimationPhase::ShowingRed,
                Some(AnimationFrame { signal: AnimationSignal::Red, pause_after: true }),
            )
        },
        AnimationPhase::Done => (AnimationPhase::Done, None),
    }
}

/// One step of the pairing animation.
pub fn pairing_step(phase: AnimationPhase, stop: bool) -> (r: (
    AnimationPhase,
    Option<AnimationFrame>,
))
    ensures
        r == spec_pairing_step(phase, stop),
{
    let off = AnimationFrame { signal: AnimationSignal::PowerOff, pause_after: false };
    match phase {
        AnimationPhase::Start => (
            AnimationPhase::SwitchedOn,
            Some(AnimationFrame { signal: AnimationSignal::PowerOn, pause_after: false }),
        ),
        AnimationPhase::SwitchedOn => (
            AnimationPhase::ShowingRed,
            Some(AnimationFrame { signal: AnimationSignal::Red, pause_after: true }),
        ),
        AnimationPhase::ShowingRed => if stop {
            (AnimationPhase::Done, Some(off))
        } else {
            (
                AnimationPhase::ShowingBlue,
                Some(AnimationFrame { signal: AnimationSignal::Blue, pause_after: true }),
            )
        },
        AnimationPhase::ShowingBlue => if stop {
            (AnimationPhase::Done, Some(off))
        } else {
            (
                AnimationPhase::ShowingRed,
                Some(AnimationFrame { signal: AnimationSignal::Red, pause_after: true }),
            )
        },
        AnimationPhase::Done => (AnimationPhase::Done, None),
    }
}

/// The command word and payload that a signal is sent as.
pub open spec fn signal_command(s: AnimationSignal) -> (Seq<char>, GoveeCmd) {
    match s {
        AnimationSignal::PowerOn => (turn_word(), GoveeCmd { value: Some(1), color: None, temp: None }),
        AnimationSignal::PowerOff => (turn_word(), GoveeCmd { value: Some(0), color: None, temp: None }),
        AnimationSignal::Red => (
            color_word(),
            GoveeCmd { value: None, color: Some(Color { r: 255, g: 0, b: 0 }), temp: None },
        ),
        AnimationSignal::Blue => (
            color_word(),
            GoveeCmd { value: None, color: Some(Color { r: 0, g: 0, b: 255 }), temp: None },
        ),
    }
}

/// The packet that sends `s`.
pub fn signal_packet(s: AnimationSignal) -> (p: GoveePacket)
    ensures
        is_command(p, signal_command(s).0, signal_command(s).1),
{
    match s {
        AnimationSignal::PowerOn => power_packet(1),
        AnimationSignal::PowerOff => power_packet(0),
        AnimationSignal::Red => color_packet(Color { r: 255, g: 0, b: 0 }, None),
        AnimationSignal::Blue => color_packet(Color { r: 0, g: 0, b: 255 }, None),
    }
}

/// Every datagram that a scan keeps is a scan reply, and every scan reply
/// that it received is kept.
pub proof fn lemma_scan_keeps_handshakes(packets: Seq<GoveePacket>)
    ensures
        forall|i: int|
            0 <= i < scan_replies(packets).len() ==> is_handshake(
                #[trigger] scan_replies(packets)[i],
            ),
        forall|i: int|
            0 <= i < packets.len() && is_handshake(#[trigger] packets[i]) ==> scan_replies(
                packets,
            ).contains(packets[i]),
        forall|i: int|
            0 <= i < scan_replies(packets).len() ==> (#[trigger] scan_replies(packets)[i]).msg is Handshake,
        forall|i: int|
            0 <= i < packets.len() && (#[trigger] packets[i]).msg is Handshake ==> scan_replies(
                packets,
            ).contains(packets[i]),
        forall|i: int|
            0 <= i < packets.len() && !((#[trigger] packets[i]).msg is Handshake) ==> !scan_replies(
                packets,
            ).contains(packets[i]),
{
    let keep = |p: GoveePacket| is_handshake(p);
    assert forall|i: int| 0 <= i < scan_replies(packets).len() implies is_handshake(
        #[trigger] scan_replies(packets)[i],
    ) by {
        packets.lemma_filter_pred(keep, i);
    }
    assert forall|i: int| 0 <= i < packets.len() && is_handshake(#[trigger] packets[i]) implies scan_replies(
        packets,
    ).contains(packets[i]) by {
        packets.lemma_filter_contains(keep, i);
    }
    assert forall|i: int|
        0 <= i < packets.len() && !((#[trigger] packets[i]).msg is Handshake) implies !scan_replies(
        packets,
    ).contains(packets[i]) by {
        if scan_replies(packets).contains(packets[i]) {
            let k = choose|k: int|
                0 <= k < scan_replies(packets).len() && scan_replies(packets)[k] == packets[i];
            packets.lemma_filter_pred(keep, k);
        }
    }
}

/// The animation switches the light off exactly when it is asked to stop
/// while showing a color, and is then over.
pub proof fn lemma_animation_stops(phase: AnimationPhase, stop: bool)
    ensures
        (spec_pairing_step(phase, stop).1 matches Some(f) && f.signal == AnimationSignal::PowerOff)
            <==> (stop && (phase == AnimationPhase::ShowingRed || phase
            == AnimationPhase::ShowingBlue)),
        (stop && (phase == AnimationPhase::ShowingRed || phase == AnimationPhase::ShowingBlue))
            ==> spec_pairing_step(phase, stop).0 == AnimationPhase::Done,
{
}

/// Once over, the animation sends nothing more.
pub proof fn lemma_animation_done_is_silent(stop: bool)
    ensures
        spec_pairing_step(AnimationPhase::Done, stop) == (
            AnimationPhase::Done,
            None::<AnimationFrame>,
        ),
{
}

/// The animation first switches the light on and then shows red; until it is
/// asked to stop it alternates red and blue, waiting after each color.
pub proof fn lemma_animation_alternates(stop: bool)
    ensures
        spec_pairing_step(AnimationPhase::Start, stop).1 == Some(
            AnimationFrame { signal: AnimationSignal::PowerOn, pause_after: false },
        ),
        spec_pairing_step(AnimationPhase::SwitchedOn, stop).1 == Some(
            AnimationFrame { signal: AnimationSignal::Red, pause_after: true },
        ),
        spec_pairing_step(AnimationPhase::ShowingRed, false) == (
            AnimationPhase::ShowingBlue,
            Some(AnimationFrame { signal: AnimationSignal::Blue, pause_after: true }),
        ),
        spec_pairing_step(AnimationPhase::ShowingBlue, false) == (
            AnimationPhase::ShowingRed,
            Some(AnimationFrame { signal: AnimationSignal::Red, pause_after: true }),
        ),
{
}

/// The animation switches the light with the power command (`turn`, 1 for
/// on and 0 for off) and shows pure red and pure blue with the color command
/// (`colorwc`), with no color temperature.
pub proof fn lemma_signal_commands()
    ensures
        signal_command(AnimationSignal::PowerOn) == (
            seq!['t', 'u', 'r', 'n'],
            GoveeCmd { value: Some(1), color: None, temp: None },
        ),
        signal_command(AnimationSignal::PowerOff) == (
            seq!['t', 'u', 'r', 'n'],
            GoveeCmd { value: Some(0), color: None, temp: None },
        ),
        signal_command(AnimationSignal::Red) == (
            seq!['c', 'o', 'l', 'o', 'r', 'w', 'c'],
            GoveeCmd { value: None, color: Some(Color { r: 255, g: 0, b: 0 }), temp: None },
        ),
        signal_command(AnimationSignal::Blue) == (
            seq!['c', 'o', 'l', 'o', 'r', 'w', 'c'],
            GoveeCmd { value: None, color: Some(Color { r: 0, g: 0, b: 255 }), temp: None },
        ),
{
}

} // verus!
