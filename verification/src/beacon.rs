//! Local-network beacon settings: the UDP port a discovery scope uses, and
//! interface flag tests.
use vstd::prelude::*;

verus! {

/// Base UDP port of the beacon.
pub const DEFAULT_BEACON_PORT: u16 = 15200;

/// Number of ports over which scopes spread.
pub const BEACON_PORT_SPREAD: u16 = 2048;

/// The port of a scope: the base plus the scope's first two bytes, read
/// big-endian, modulo the spread; saturating at `u16::MAX`.
pub open spec fn beacon_port_spec(base: u16, scope: Option<Seq<u8>>) -> u16 {
    let offset: int = match scope {
        Some(b) => (b[0] * 256 + b[1]) % 2048,
        None => 0,
    };
    if base + offset > u16::MAX {
        u16::MAX
    } else {
        (base + offset) as u16
    }
}

/// The UDP port the beacon of a scope listens on.
pub fn beacon_port(base: u16, scope: Option<&[u8; 16]>) -> (p: u16)
    ensures
        p == beacon_port_spec(
            base,
            match scope {
                Some(s) => Some(s@),
                None => None,
            },
        ),
{
    let offset: u16 = match scope {
        Some(bytes) => ((bytes[0] as u16) * 256 + (bytes[1] as u16)) % BEACON_PORT_SPREAD,
        None => 0,
    };
    base.saturating_add(offset)
}

/// Whether the interface flag `flag` (a C `int`; negative values test
/// nothing) is set in `flags`.
pub fn flag_is_set(flags: u32, flag: i32) -> (b: bool)
    ensures
        b == ((flags & (if flag >= 0 {
            flag as u32
        } else {
            0u32
        })) != 0),
{
    let mask: u32 = if flag >= 0 {
        flag as u32
    } else {
        0
    };
    flags & mask != 0
}

} // verus!
