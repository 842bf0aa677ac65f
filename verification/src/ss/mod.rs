use vstd::prelude::*;

pub mod line;
pub mod text;
pub mod network_event;
pub mod dns_manager;
pub mod gate;

verus! {

/// The role a connection plays in the relay.
#[derive(Debug, Clone, Copy, PartialEq, Eq, Structural)]
pub enum LineType {
    /// A SOCKS5 client on the local side.
    Pc,
    /// A pre-opened connection from the local side to the remote gate.
    Hk,
    /// The remote gate's end of an `Hk` connection.
    MainLand,
    /// The remote gate's connection to the requested website.
    World,
}

/// Where a connection stands in its handshake and shutdown.
#[derive(Debug, Clone, Copy, PartialEq, Eq, Structural)]
pub enum Status {
    Raw,
    Established,
    FirstPackDone,
    WaitingDnsResult,
    SecondPackDone,
    EncryptDone,
    ReadClose,
    WriteClose,
    Close,
    Dead,
}

/// The byte scrambling applied between the two hops: bytes strictly between
/// 45 and 210 are mirrored (`255 - b`), the others pass unchanged.
pub open spec fn u8r_spec(input: u8) -> u8 {
    if 45 < input && input < 255 - 45 {
        (255 - input) as u8
    } else {
        input
    }
}

pub fn u8r(input: u8) -> (out: u8)
    ensures
        out == u8r_spec(input),
{
    if input > 45 && input < 255 - 45 {
        255 - input
    } else {
        input
    }
}

/// Scrambling is its own inverse: scrambling a scrambled byte gives it back.
pub proof fn lemma_u8r_involution(b: u8)
    ensures
        u8r_spec(u8r_spec(b)) == b,
{
}

/// Scrambling leaves exactly the bytes up to 45 and from 210 on unchanged,
/// and maps every other byte to its mirror `255 - b`, which is again in the
/// scrambled range.
pub proof fn lemma_u8r_ranges(b: u8)
    ensures
        (u8r_spec(b) == b) <==> (b <= 45 || b >= 210),
        45 < b < 210 ==> u8r_spec(b) + b == 255 && 45 < u8r_spec(b) < 210,
{
}

} // verus!
