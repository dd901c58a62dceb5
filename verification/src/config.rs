//! Immutable proxy configuration.
//!
//! Built once at startup and shared read-only by every connection; no
//! function of this crate mutates it.

use vstd::prelude::*;

verus! {

/// The settings the relay logic reads. Listen addresses live with the
/// socket code outside this crate.
pub struct ProxyConfig {
    /// Explicit byte offsets at which a ClientHello read is split.
    pub split_positions: Vec<usize>,
    /// Also split relative to the SNI host name.
    pub split_host: bool,
    /// Firewall mark for outbound sockets; 0 disables marking.
    pub fwmark: u32,
    /// Size of the per-connection read buffer.
    pub buffer_size: usize,
}

impl ProxyConfig {
    /// The mark to apply to an outbound socket: none when the configured
    /// mark is 0, which disables marking.
    pub fn outbound_mark(&self) -> (r: Option<u32>)
        ensures
            r == (if self.fwmark == 0 {
                None::<u32>
            } else {
                Some(self.fwmark)
            }),
    {
        if self.fwmark == 0 {
            None
        } else {
            Some(self.fwmark)
        }
    }
}

} // verus!
