use vstd::prelude::*;
use crate::addr::{IpNetwork, MacAddr};
use crate::table::{IfRow, packets_in_of, packets_out_of};

verus! {

/// What a record holds: each counter as last observed and as observed one
/// refresh earlier, the addresses, the MTU and the per-refresh marker.
pub struct RecordView {
    pub bytes_in: u64,
    pub bytes_in_prev: u64,
    pub bytes_out: u64,
    pub bytes_out_prev: u64,
    pub packets_in: u64,
    pub packets_in_prev: u64,
    pub packets_out: u64,
    pub packets_out_prev: u64,
    pub errors_in: u64,
    pub errors_in_prev: u64,
    pub errors_out: u64,
    pub errors_out_prev: u64,
    pub mac_addr: Seq<u8>,
    pub ip_networks: Seq<IpNetwork>,
    pub mtu: u64,
    pub seen: bool,
}

/// `a - b`, or zero where `b` exceeds `a`.
pub open spec fn sat_sub(a: u64, b: u64) -> u64 {
    if a >= b {
        (a - b) as u64
    } else {
        0
    }
}

/// A record for an interface seen for the first time in row `r`: every
/// counter's previous value equals its current one.
pub open spec fn first_seen(r: IfRow) -> RecordView {
    RecordView {
        bytes_in: r.in_octets,
        bytes_in_prev: r.in_octets,
        bytes_out: r.out_octets,
        bytes_out_prev: r.out_octets,
        packets_in: packets_in_of(r),
        packets_in_prev: packets_in_of(r),
        packets_out: packets_out_of(r),
        packets_out_prev: packets_out_of(r),
        errors_in: r.in_errors,
        errors_in_prev: r.in_errors,
        errors_out: r.out_errors,
        errors_out_prev: r.out_errors,
        mac_addr: seq![0u8, 0u8, 0u8, 0u8, 0u8, 0u8],
        ip_networks: Seq::empty(),
        mtu: r.mtu as u64,
        seen: true,
    }
}

/// Record `v` after row `r` was observed for it: each current value moves to
/// the previous one and the row's value becomes current.
pub open spec fn observed(v: RecordView, r: IfRow) -> RecordView {
    RecordView {
        bytes_in: r.in_octets,
        bytes_in_prev: v.bytes_in,
        bytes_out: r.out_octets,
        bytes_out_prev: v.bytes_out,
        packets_in: packets_in_of(r),
        packets_in_prev: v.packets_in,
        packets_out: packets_out_of(r),
        packets_out_prev: v.packets_out,
        errors_in: r.in_errors,
        errors_in_prev: v.errors_in,
        errors_out: r.out_errors,
        errors_out_prev: v.errors_out,
        mac_addr: v.mac_addr,
        ip_networks: v.ip_networks,
        mtu: r.mtu as u64,
        seen: true,
    }
}

/// Record `v` with its marker set to `b`.
pub open spec fn with_seen(v: RecordView, b: bool) -> RecordView {
    RecordView { seen: b, ..v }
}

/// The counters of one network interface.
pub struct NetworkDataInner {
    current_out: u64,
    old_out: u64,
    current_in: u64,
    old_in: u64,
    packets_in: u64,
    old_packets_in: u64,
    packets_out: u64,
    old_packets_out: u64,
    errors_in: u64,
    old_errors_in: u64,
    errors_out: u64,
    old_errors_out: u64,
    updated: bool,
    mac_addr: MacAddr,
    ip_networks: Vec<IpNetwork>,
    mtu: u64,
}

impl View for NetworkDataInner {
    type V = RecordView;

    closed spec fn view(&self) -> RecordView {
        RecordView {
            bytes_in: self.current_in,
            bytes_in_prev: self.old_in,
            bytes_out: self.current_out,
            bytes_out_prev: self.old_out,
            packets_in: self.packets_in,
            packets_in_prev: self.old_packets_in,
            packets_out: self.packets_out,
            packets_out_prev: self.old_packets_out,
            errors_in: self.errors_in,
            errors_in_prev: self.old_errors_in,
            errors_out: self.errors_out,
            errors_out_prev: self.old_errors_out,
            mac_addr: self.mac_addr.0@,
            ip_networks: self.ip_networks@,
            mtu: self.mtu,
            seen: self.updated,
        }
    }
}

impl NetworkDataInner {
    /// A record for an interface observed for the first time in `row`.
    pub fn first_seen(row: &IfRow) -> (r: NetworkDataInner)
        ensures
            r@ == first_seen(*row),
    {
        let packets_in = row.packets_in();
        let packets_out = row.packets_out();
        let mac_addr = MacAddr::unspecified();
        let r = NetworkDataInner {
            current_out: row.out_octets,
            old_out: row.out_octets,
            current_in: row.in_octets,
            old_in: row.in_octets,
            packets_in,
            old_packets_in: packets_in,
            packets_out,
            old_packets_out: packets_out,
            errors_in: row.in_errors,
            old_errors_in: row.in_errors,
            errors_out: row.out_errors,
            old_errors_out: row.out_errors,
            updated: true,
            mac_addr,
            ip_networks: Vec::new(),
            mtu: row.mtu as u64,
        };
        assert(r.ip_networks@ =~= Seq::<IpNetwork>::empty());
        assert(mac_addr.0@ =~= seq![0u8, 0u8, 0u8, 0u8, 0u8, 0u8]);
        r
    }

    /// Records the counters of `row`, keeping the current ones as previous.
    pub fn observe(&mut self, row: &IfRow)
        ensures
            final(self)@ == observed(old(self)@, *row),
    {
        self.old_out = self.current_out;
        self.current_out = row.out_octets;
        self.old_in = self.current_in;
        self.current_in = row.in_octets;
        self.old_packets_in = self.packets_in;
        self.packets_in = row.packets_in();
        self.old_packets_out = self.packets_out;
        self.packets_out = row.packets_out();
        self.old_errors_in = self.errors_in;
        self.errors_in = row.in_errors;
        self.old_errors_out = self.errors_out;
        self.errors_out = row.out_errors;
        let mtu = row.mtu as u64;
        if self.mtu != mtu {
            self.mtu = mtu;
        }
        self.updated = true;
    }

    /// Whether the record was matched since the marker was last cleared.
    pub fn is_seen(&self) -> (r: bool)
        ensures
            r == self@.seen,
    {
        self.updated
    }

    /// Sets the per-refresh marker.
    pub fn set_seen(&mut self, b: bool)
        ensures
            final(self)@ == with_seen(old(self)@, b),
    {
        self.updated = b;
    }

    /// Stores the addresses that were resolved for this interface.
    pub fn set_addresses(&mut self, mac_addr: MacAddr, ip_networks: Vec<IpNetwork>)
        ensures
            final(self)@ == (RecordView {
                mac_addr: mac_addr.0@,
                ip_networks: ip_networks@,
                ..old(self)@
            }),
    {
        self.mac_addr = mac_addr;
        self.ip_networks = ip_networks;
    }

    /// Bytes received since the previous refresh.
    pub fn received(&self) -> (r: u64)
        ensures
            r == sat_sub(self@.bytes_in, self@.bytes_in_prev),
    {
        self.current_in.saturating_sub(self.old_in)
    }

    /// Bytes received in all.
    pub fn total_received(&self) -> (r: u64)
        ensures
            r == self@.bytes_in,
    {
        self.current_in
    }

    /// Bytes transmitted since the previous refresh.
    pub fn transmitted(&self) -> (r: u64)
        ensures
            r == sat_sub(self@.bytes_out, self@.bytes_out_prev),
    {
        self.current_out.saturating_sub(self.old_out)
    }

    /// Bytes transmitted in all.
    pub fn total_transmitted(&self) -> (r: u64)
        ensures
            r == self@.bytes_out,
    {
        self.current_out
    }

    /// Packets received since the previous refresh.
    pub fn packets_received(&self) -> (r: u64)
        ensures
            r == sat_sub(self@.packets_in, self@.packets_in_prev),
    {
        self.packets_in.saturating_sub(self.old_packets_in)
    }

    /// Packets received in all.
    pub fn total_packets_received(&self) -> (r: u64)
        ensures
            r == self@.packets_in,
    {
        self.packets_in
    }

    /// Packets transmitted since the previous refresh.
    pub fn packets_transmitted(&self) -> (r: u64)
        ensures
            r == sat_sub(self@.packets_out, self@.packets_out_prev),
    {
        self.packets_out.saturating_sub(self.old_packets_out)
    }

    /// Packets transmitted in all.
    pub fn total_packets_transmitted(&self) -> (r: u64)
        ensures
            r == self@.packets_out,
    {
        self.packets_out
    }

    /// Receive errors since the previous refresh.
    pub fn errors_on_received(&self) -> (r: u64)
        ensures
            r == sat_sub(self@.errors_in, self@.errors_in_prev),
    {
        self.errors_in.saturating_sub(self.old_errors_in)
    }

    /// Receive errors in all.
    pub fn total_errors_on_received(&self) -> (r: u64)
        ensures
            r == self@.errors_in,
    {
        self.errors_in
    }

    /// Transmit errors since the previous refresh.
    pub fn errors_on_transmitted(&self) -> (r: u64)
        ensures
            r == sat_sub(self@.errors_out, self@.errors_out_prev),
    {
        self.errors_out.saturating_sub(self.old_errors_out)
    }

    /// Transmit errors in all.
    pub fn total_errors_on_transmitted(&self) -> (r: u64)
        ensures
            r == self@.errors_out,
    {
        self.errors_out
    }

    /// The link-layer address.
    pub fn mac_address(&self) -> (r: MacAddr)
        ensures
            r.0@ == self@.mac_addr,
    {
        self.mac_addr
    }

    /// The IP networks assigned to the interface.
    pub fn ip_networks(&self) -> (r: &[IpNetwork])
        ensures
            r@ == self@.ip_networks,
    {
        self.ip_networks.as_slice()
    }

    /// The maximum transfer unit.
    pub fn mtu(&self) -> (r: u64)
        ensures
            r == self@.mtu,
    {
        self.mtu
    }
}

} // verus!
