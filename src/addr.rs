use vstd::prelude::*;

verus! {

/// A link-layer (MAC) address.
#[derive(Clone, Copy, Debug, PartialEq, Eq)]
pub struct MacAddr(pub [u8; 6]);

impl MacAddr {
    /// The all-zero address, used until the real one has been resolved.
    pub fn unspecified() -> (r: MacAddr)
        ensures
            r.is_unspecified(),
    {
        MacAddr([0u8, 0u8, 0u8, 0u8, 0u8, 0u8])
    }

    pub open spec fn is_unspecified(self) -> bool {
        forall|i: int| 0 <= i < 6 ==> #[trigger] self.0@[i] == 0u8
    }
}

/// An IP address, version 4 or version 6, as raw octets.
#[derive(Clone, Copy, Debug, PartialEq, Eq)]
pub enum IpAddress {
    V4([u8; 4]),
    V6([u8; 16]),
}

/// An address assigned to an interface together with its prefix length.
#[derive(Clone, Copy, Debug, PartialEq, Eq)]
pub struct IpNetwork {
    pub addr: IpAddress,
    pub prefix: u8,
}

} // verus!
