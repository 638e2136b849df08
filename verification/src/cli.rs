//! What the user asks for on the command line.

use vstd::prelude::*;
use crate::hex::{parse_hex_color, spec_parse_hex_color, HexColorError};
use crate::packet::Color;

verus! {

/// The parsed command line.
#[derive(Debug)]
pub struct Cli {
    pub command: Option<Commands>,
}

/// The two power states a light can be set to.
#[derive(Debug, Clone, Copy, PartialEq, Eq, Structural)]
pub enum PowerState {
    On,
    Off,
}

/// The subcommands.
#[derive(Debug)]
pub enum Commands {
    /// Find and name new devices (without asking where `auto`).
    FindNew { auto: bool },
    /// Remove an alias.
    RemoveAlias,
    /// List all devices on the network.
    List,
    /// List the aliases.
    ListAliases,
    /// Query a device's status.
    Status { ip_or_alias: String },
    /// Set the brightness (clamped to 0..=100).
    Brightness { ip_or_alias: String, brightness: u32 },
    /// Switch a device on or off.
    Power { ip_or_alias: String, state: PowerState },
    /// Set the color, by channels or by a hexadecimal text.
    Color {
        ip_or_alias: String,
        r: Option<u8>,
        g: Option<u8>,
        b: Option<u8>,
        temp: Option<u32>,
        hex: Option<String>,
    },
}

/// The value that switches a light to `state`: 1 for on, 0 for off.
pub open spec fn spec_power_value(state: PowerState) -> u32 {
    match state {
        PowerState::On => 1,
        PowerState::Off => 0,
    }
}

/// The value that switches a light to `state`.
pub fn power_value(state: PowerState) -> (v: u32)
    ensures
        v == spec_power_value(state),
{
    match state {
        PowerState::Off => 0,
        PowerState::On => 1,
    }
}

/// The color that a color command asks for, from its channel options and the
/// bytes of its hexadecimal option: the channels where all three are given,
/// the hexadecimal text where no channel is given and the text is; none for
/// any other combination (the command line does not let it through).
pub open spec fn spec_command_color(
    r: Option<u8>,
    g: Option<u8>,
    b: Option<u8>,
    hex: Option<Seq<u8>>,
) -> Option<Result<Color, HexColorError>> {
    match (r, g, b, hex) {
        (Some(r), Some(g), Some(b), _) => Some(Ok(Color { r, g, b })),
        (None, None, None, Some(h)) => Some(spec_parse_hex_color(h)),
        _ => None,
    }
}

/// The color that a color command asks for (see `spec_command_color`).
pub fn command_color(r: Option<u8>, g: Option<u8>, b: Option<u8>, hex: Option<&[u8]>) -> (c: Option<
    Result<Color, HexColorError>,
>)
    ensures
        c == spec_command_color(
            r,
            g,
            b,
            match hex {
                Some(h) => Some(h@),
                None => None,
            },
        ),
{
    match (r, g, b, hex) {
        (Some(r), Some(g), Some(b), _) => Some(Ok(Color { r, g, b })),
        (None, None, None, Some(h)) => Some(parse_hex_color(h)),
        _ => None,
    }
}

/// A color command with all three channels asks for exactly those channels,
/// whatever its hexadecimal option; one with no channel and a hexadecimal
/// option asks for the color that text stands for; one with some but not all
/// channels asks for nothing.
pub proof fn lemma_command_color_choice(
    rv: u8,
    gv: u8,
    bv: u8,
    h: Seq<u8>,
    r: Option<u8>,
    g: Option<u8>,
    b: Option<u8>,
    hex: Option<Seq<u8>>,
)
    ensures
        spec_command_color(Some(rv), Some(gv), Some(bv), hex) == Some(
            Ok::<Color, HexColorError>(Color { r: rv, g: gv, b: bv }),
        ),
        spec_command_color(None, None, None, Some(h)) == Some(spec_parse_hex_color(h)),
        spec_command_color(r, g, b, hex) is None <==> (!(r is Some && g is Some && b is Some) && !(
        r is None && g is None && b is None && hex is Some)),
{
}

/// Switching on sends 1, switching off sends 0.
pub proof fn lemma_power_values()
    ensures
        spec_power_value(PowerState::On) == 1,
        spec_power_value(PowerState::Off) == 0,
{
}

} // verus!
