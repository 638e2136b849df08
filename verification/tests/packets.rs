use govee_cli::cli::{command_color, power_value, PowerState};
use govee_cli::hex::{parse_hex_color, HexColorError};
use govee_cli::net::{
    handshake_packets, is_reply_from, pairing_step, reply_status, signal_packet, AnimationFrame,
    AnimationPhase, AnimationSignal, MSG_SCAN, MSG_STATUS,
};
use govee_cli::packet::{
    brightness_packet, color_packet, power_packet, Color, DevScanCmd, DevStatusCmd, GoveeCmd,
    GoveeDeviceInfo, GoveeMessage, GoveePacket, GoveeStatus,
};

fn command_of(p: &GoveePacket) -> (String, GoveeCmd) {
    match &p.msg {
        GoveeMessage::Command { cmd, data } => (cmd.clone(), *data),
        _ => panic!("not a command"),
    }
}

fn handshake(ip: &str) -> GoveePacket {
    GoveePacket {
        msg: GoveeMessage::Handshake {
            cmd: DevScanCmd::Scan,
            data: GoveeDeviceInfo {
                ip: ip.to_string(),
                mac: format!("mac-{ip}"),
                sku: "H6008".to_string(),
                bt_hard_version: "1".to_string(),
                bt_soft_version: "2".to_string(),
                wifi_hard_version: "3".to_string(),
                wifi_soft_version: "4".to_string(),
            },
        },
    }
}

fn status_reply() -> GoveePacket {
    GoveePacket {
        msg: GoveeMessage::Response {
            cmd: DevStatusCmd::DevStatus,
            data: GoveeStatus {
                is_on: true,
                brightness: 40,
                color: Color { r: 1, g: 2, b: 3 },
                temp: 3000,
            },
        },
    }
}

#[test]
fn color_packet_carries_color_and_temperature() {
    let c = Color { r: 10, g: 20, b: 30 };
    let (cmd, data) = command_of(&color_packet(c, Some(4000)));
    assert_eq!(cmd, "colorwc");
    assert_eq!(data, GoveeCmd { value: None, color: Some(c), temp: Some(4000) });
    let (_, data) = command_of(&color_packet(c, None));
    assert_eq!(data.temp, None);
}

#[test]
fn power_packet_sends_turn() {
    let (cmd, data) = command_of(&power_packet(1));
    assert_eq!(cmd, "turn");
    assert_eq!(data, GoveeCmd { value: Some(1), color: None, temp: None });
    let (_, data) = command_of(&power_packet(0));
    assert_eq!(data.value, Some(0));
}

#[test]
fn brightness_is_clamped_to_100() {
    let (cmd, data) = command_of(&brightness_packet(55));
    assert_eq!(cmd, "brightness");
    assert_eq!(data, GoveeCmd { value: Some(55), color: None, temp: None });
    assert_eq!(command_of(&brightness_packet(100)).1.value, Some(100));
    assert_eq!(command_of(&brightness_packet(101)).1.value, Some(100));
    assert_eq!(command_of(&brightness_packet(u32::MAX)).1.value, Some(100));
    assert_eq!(command_of(&brightness_packet(0)).1.value, Some(0));
}

#[test]
fn power_states_map_to_values() {
    assert_eq!(power_value(PowerState::On), 1);
    assert_eq!(power_value(PowerState::Off), 0);
}

#[test]
fn hex_six_digits() {
    assert_eq!(parse_hex_color(b"ff8000"), Ok(Color { r: 255, g: 128, b: 0 }));
    assert_eq!(parse_hex_color(b"#0A0b0C"), Ok(Color { r: 10, g: 11, b: 12 }));
    assert_eq!(parse_hex_color(b"##123456"), Ok(Color { r: 0x12, g: 0x34, b: 0x56 }));
}

#[test]
fn hex_three_digits_are_scaled_by_sixteen() {
    assert_eq!(parse_hex_color(b"fff"), Ok(Color { r: 240, g: 240, b: 240 }));
    assert_eq!(parse_hex_color(b"#1a0"), Ok(Color { r: 16, g: 160, b: 0 }));
}

#[test]
fn hex_sign_is_read_as_std_reads_it() {
    assert_eq!(parse_hex_color(b"+f+1+0"), Ok(Color { r: 15, g: 1, b: 0 }));
    assert_eq!(parse_hex_color(b"+ff"), Err(HexColorError::InvalidRed));
    assert_eq!(parse_hex_color(b"-f0000"), Err(HexColorError::InvalidRed));
}

#[test]
fn hex_errors() {
    assert_eq!(parse_hex_color(b"#ff00"), Err(HexColorError::InvalidLength(4)));
    assert_eq!(parse_hex_color(b""), Err(HexColorError::InvalidLength(0)));
    assert_eq!(parse_hex_color(b"####"), Err(HexColorError::InvalidLength(0)));
    assert_eq!(parse_hex_color(b"zz0000"), Err(HexColorError::InvalidRed));
    assert_eq!(parse_hex_color(b"00zz00"), Err(HexColorError::InvalidGreen));
    assert_eq!(parse_hex_color(b"0000zz"), Err(HexColorError::InvalidBlue));
    assert_eq!(parse_hex_color(b"0g0"), Err(HexColorError::InvalidGreen));
    assert_eq!(parse_hex_color("é1234".as_bytes()), Err(HexColorError::InvalidRed));
    assert_eq!(parse_hex_color("é12".as_bytes()), Err(HexColorError::InvalidLength(4)));
}

#[test]
fn hex_roundtrip_on_concrete_colors() {
    for c in [Color { r: 0, g: 0, b: 0 }, Color { r: 255, g: 16, b: 9 }, Color { r: 171, g: 205, b: 239 }] {
        let text = format!("{:02x}{:02x}{:02x}", c.r, c.g, c.b);
        assert_eq!(parse_hex_color(text.as_bytes()), Ok(c));
        let hashed = format!("#{text}");
        assert_eq!(parse_hex_color(hashed.as_bytes()), Ok(c));
    }
}

#[test]
fn color_command_choices() {
    assert_eq!(command_color(Some(1), Some(2), Some(3), Some(b"ffffff")), Some(Ok(Color { r: 1, g: 2, b: 3 })));
    assert_eq!(command_color(None, None, None, Some(b"#010203")), Some(Ok(Color { r: 1, g: 2, b: 3 })));
    assert_eq!(command_color(None, None, None, Some(b"12")), Some(Err(HexColorError::InvalidLength(2))));
    assert_eq!(command_color(Some(1), None, None, None), None);
    assert_eq!(command_color(None, None, None, None), None);
}

#[test]
fn scan_keeps_only_handshakes_in_order() {
    let cmd = power_packet(1);
    let packets = vec![handshake("10.0.0.1"), status_reply(), handshake("10.0.0.2"), cmd];
    let kept = handshake_packets(packets);
    assert_eq!(kept.len(), 2);
    match (&kept[0].msg, &kept[1].msg) {
        (GoveeMessage::Handshake { data: a, .. }, GoveeMessage::Handshake { data: b, .. }) => {
            assert_eq!(a.ip, "10.0.0.1");
            assert_eq!(b.ip, "10.0.0.2");
        }
        _ => panic!("not handshakes"),
    }
    assert!(handshake_packets(vec![status_reply()]).is_empty());
}

#[test]
fn status_reply_and_sender() {
    let st = reply_status(&status_reply()).unwrap();
    assert_eq!(st.brightness, 40);
    assert_eq!(st.color, Color { r: 1, g: 2, b: 3 });
    assert!(reply_status(&handshake("1.2.3.4")).is_none());
    assert!(is_reply_from(&"192.168.1.5".to_string(), &"192.168.1.5".to_string()));
    assert!(!is_reply_from(&"192.168.1.50".to_string(), &"192.168.1.5".to_string()));
}

#[test]
fn messages_are_the_protocol_requests() {
    assert!(MSG_SCAN.contains("\"cmd\": \"scan\""));
    assert!(MSG_SCAN.contains("\"accout_topic\": \"reserve\""));
    assert!(MSG_STATUS.contains("\"cmd\": \"devStatus\""));
}

#[test]
fn pairing_animation_sequence() {
    let mut phase = AnimationPhase::Start;
    let mut signals = Vec::new();
    let stops = [false, false, false, false, true, false];
    for stop in stops {
        let (next, frame) = pairing_step(phase, stop);
        if let Some(f) = frame {
            signals.push(f.signal);
        }
        phase = next;
    }
    assert_eq!(
        signals,
        vec![
            AnimationSignal::PowerOn,
            AnimationSignal::Red,
            AnimationSignal::Blue,
            AnimationSignal::Red,
            AnimationSignal::PowerOff
        ]
    );
    assert_eq!(phase, AnimationPhase::Done);
    assert_eq!(
        pairing_step(AnimationPhase::ShowingBlue, true),
        (AnimationPhase::Done, Some(AnimationFrame { signal: AnimationSignal::PowerOff, pause_after: false }))
    );
    assert_eq!(
        pairing_step(AnimationPhase::SwitchedOn, true),
        (AnimationPhase::ShowingRed, Some(AnimationFrame { signal: AnimationSignal::Red, pause_after: true }))
    );
}

#[test]
fn animation_signals_are_commands() {
    let (cmd, data) = command_of(&signal_packet(AnimationSignal::Red));
    assert_eq!(cmd, "colorwc");
    assert_eq!(data.color, Some(Color { r: 255, g: 0, b: 0 }));
    let (_, data) = command_of(&signal_packet(AnimationSignal::Blue));
    assert_eq!(data.color, Some(Color { r: 0, g: 0, b: 255 }));
    let (cmd, data) = command_of(&signal_packet(AnimationSignal::PowerOff));
    assert_eq!(cmd, "turn");
    assert_eq!(data.value, Some(0));
    assert_eq!(command_of(&signal_packet(AnimationSignal::PowerOn)).1.value, Some(1));
}
