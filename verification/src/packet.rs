//! The messages that travel between the controller and a device.

use vstd::prelude::*;

verus! {

/// A color as three 8-bit channels.
#[derive(Debug, Clone, Copy, PartialEq, Eq, Structural)]
pub struct Color {
    pub r: u8,
    pub g: u8,
    pub b: u8,
}

/// What a device tells about itself when it answers a scan.
#[derive(Debug)]
pub struct GoveeDeviceInfo {
    pub ip: String,
    pub mac: String,
    pub sku: String,
    pub bt_hard_version: String,
    pub bt_soft_version: String,
    pub wifi_hard_version: String,
    pub wifi_soft_version: String,
}

/// The payload of a command sent to a device.
#[derive(Debug, Clone, Copy, PartialEq, Eq, Structural)]
pub struct GoveeCmd {
    pub value: Option<u32>,
    pub color: Option<Color>,
    pub temp: Option<u32>,
}

/// The state a device reports when asked for its status.
#[derive(Debug, Clone, Copy, PartialEq, Eq, Structural)]
pub struct GoveeStatus {
    pub is_on: bool,
    pub brightness: u16,
    pub color: Color,
    pub temp: u32,
}

/// The command word of a status reply.
#[derive(Debug, Clone, Copy, PartialEq, Eq, Structural)]
pub enum DevStatusCmd {
    DevStatus,
}

/// The command word of a scan reply.
#[derive(Debug, Clone, Copy, PartialEq, Eq, Structural)]
pub enum DevScanCmd {
    Scan,
}

/// The three kinds of message: a scan reply, a status reply, and a command.
#[derive(Debug)]
pub enum GoveeMessage {
    Handshake { cmd: DevScanCmd, data: GoveeDeviceInfo },
    Response { cmd: DevStatusCmd, data: GoveeStatus },
    Command { cmd: String, data: GoveeCmd },
}

/// One datagram of the protocol.
#[derive(Debug)]
pub struct GoveePacket {
    pub msg: GoveeMessage,
}

/// `p` is a command packet with command word `word` and payload `data`.
pub open spec fn is_command(p: GoveePacket, word: Seq<char>, data: GoveeCmd) -> bool {
    p.msg matches GoveeMessage::Command { cmd, data: d } && cmd@ == word && d == data
}

/// The command word that sets the color.
pub open spec fn color_word() -> Seq<char> {
    seq!['c', 'o', 'l', 'o', 'r', 'w', 'c']
}

/// The command word that switches a device on or off.
pub open spec fn turn_word() -> Seq<char> {
    seq!['t', 'u', 'r', 'n']
}

/// The command word that sets the brightness.
pub open spec fn brightness_word() -> Seq<char> {
    seq!['b', 'r', 'i', 'g', 'h', 't', 'n', 'e', 's', 's']
}

/// The brightness that a requested level is clamped to: at most 100.
pub open spec fn clamped_brightness(level: u32) -> u32 {
    if level > 100 { 100 } else { level }
}

fn command_packet(word: &str, data: GoveeCmd) -> (p: GoveePacket)
    ensures
        is_command(p, word@, data),
{
    GoveePacket { msg: GoveeMessage::Command { cmd: String::from_str(word), data } }
}

/// The packet that sets a device's color, with an optional color temperature.
pub fn color_packet(color: Color, temp: Option<u32>) -> (p: GoveePacket)
    ensures
        is_command(p, color_word(), GoveeCmd { value: None, color: Some(color), temp }),
{
    let word = "colorwc";
    proof {
        reveal_strlit("colorwc");
        assert(word@ =~= color_word());
    }
    command_packet(word, GoveeCmd { value: None, color: Some(color), temp })
}

/// The packet that switches a device: `state` 1 is on, 0 is off.
pub fn power_packet(state: u32) -> (p: GoveePacket)
    ensures
        is_command(p, turn_word(), GoveeCmd { value: Some(state), color: None, temp: None }),
{
    let word = "turn";
    proof {
        reveal_strlit("turn");
        assert(word@ =~= turn_word());
    }
    command_packet(word, GoveeCmd { value: Some(state), color: None, temp: None })
}

/// The packet that sets a device's brightness, the level clamped to 0..=100.
pub fn brightness_packet(level: u32) -> (p: GoveePacket)
    ensures
        is_command(
            p,
            brightness_word(),
            GoveeCmd { value: Some(clamped_brightness(level)), color: None, temp: None },
        ),
{
    let word = "brightness";
    proof {
        reveal_strlit("brightness");
        assert(word@ =~= brightness_word());
    }
    let value = if level > 100 { 100 } else { level };
    command_packet(word, GoveeCmd { value: Some(value), color: None, temp: None })
}

/// A brightness command never asks for more than 100, and a level of at
/// most 100 is sent as it is.
pub proof fn lemma_brightness_clamped(level: u32)
    ensures
        clamped_brightness(level) <= 100,
        level <= 100 ==> clamped_brightness(level) == level,
        level > 100 ==> clamped_brightness(level) == 100,
{
}

} // verus!
