use vstd::prelude::*;

verus! {

/// A peer's network endpoint: an IPv4 address packed into a `u32`
/// (most significant byte first) and a TCP port.
#[derive(Clone, Copy, PartialEq, Eq, Structural, Debug)]
pub struct Addr {
    pub ip: u32,
    pub port: u16,
}

} // verus!
