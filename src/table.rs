use vstd::prelude::*;

verus! {

/// The media connection state that the platform reports for an unplugged link.
pub const MEDIA_CONNECT_STATE_DISCONNECTED: i32 = 2;

/// The platform's per-adapter identifier.
#[derive(Clone, Copy, Debug, PartialEq, Eq)]
pub struct InterfaceGuid {
    pub data1: u32,
    pub data2: u16,
    pub data3: u16,
    pub data4: [u8; 8],
}

/// One raw entry of the platform interface table.
#[derive(Debug)]
pub struct IfRow {
    pub transmit_link_speed: u64,
    pub receive_link_speed: u64,
    pub media_connect_state: i32,
    pub physical_address_length: u32,
    pub interface_guid: InterfaceGuid,
    /// The interface alias, UTF-16, ended by the first zero unit if any.
    pub alias: Vec<u16>,
    pub mtu: u32,
    pub in_octets: u64,
    pub out_octets: u64,
    pub in_ucast_pkts: u64,
    pub in_nucast_pkts: u64,
    pub out_ucast_pkts: u64,
    pub out_nucast_pkts: u64,
    pub in_errors: u64,
    pub out_errors: u64,
}

/// A row worth considering: it has an active link, is connected, and has a
/// hardware address.
pub open spec fn passes_filter(r: IfRow) -> bool {
    !(r.transmit_link_speed == 0 && r.receive_link_speed == 0)
        && r.media_connect_state != MEDIA_CONNECT_STATE_DISCONNECTED
        && r.physical_address_length != 0
}

/// Two identifiers name the same hardware group when all their components
/// but the first agree.
pub open spec fn same_group(a: InterfaceGuid, b: InterfaceGuid) -> bool {
    a.data2 == b.data2 && a.data3 == b.data3 && a.data4@ == b.data4@
}

/// How many rows of `t` pass the filter and belong to the group of `g`.
pub open spec fn group_size(t: Seq<IfRow>, g: InterfaceGuid) -> nat
    decreases t.len(),
{
    if t.len() == 0 {
        0
    } else {
        group_size(t.drop_last(), g) + if passes_filter(t.last()) && same_group(
            t.last().interface_guid,
            g,
        ) {
            1nat
        } else {
            0nat
        }
    }
}

/// Row `i` passes the filter and is alone in its hardware group among the
/// rows that pass.
pub open spec fn eligible(t: Seq<IfRow>, i: int) -> bool {
    passes_filter(t[i]) && group_size(t, t[i].interface_guid) == 1
}

/// The units of an alias up to, not including, its first zero.
pub open spec fn alias_units(a: Seq<u16>) -> Seq<u16>
    decreases a.len(),
{
    if a.len() == 0 || a[0] == 0 {
        Seq::empty()
    } else {
        seq![a[0]] + alias_units(a.drop_first())
    }
}

/// What decoding UTF-16 units gives: the text, or nothing where the units
/// are not valid UTF-16.
pub uninterp spec fn utf16_decoded(units: Seq<u16>) -> Option<Seq<char>>;

/// The display name of a row, where its alias decodes.
pub open spec fn row_name(r: IfRow) -> Option<Seq<char>> {
    utf16_decoded(alias_units(r.alias@))
}

/// Received packets of a row: unicast and non-unicast, saturating.
pub open spec fn packets_in_of(r: IfRow) -> u64 {
    sat_add(r.in_ucast_pkts, r.in_nucast_pkts)
}

/// Transmitted packets of a row: unicast and non-unicast, saturating.
pub open spec fn packets_out_of(r: IfRow) -> u64 {
    sat_add(r.out_ucast_pkts, r.out_nucast_pkts)
}

/// `a + b`, or the largest `u64` where the sum does not fit.
pub open spec fn sat_add(a: u64, b: u64) -> u64 {
    if a + b > u64::MAX {
        u64::MAX
    } else {
        (a + b) as u64
    }
}

/// Relies on `String::from_utf16`: it returns the decoded text, or an error
/// exactly when the units are not valid UTF-16; the outcome depends on the
/// units alone.
#[verifier::external_body]
fn decode_utf16(units: &[u16]) -> (r: Option<String>)
    ensures
        match r {
            Some(s) => utf16_decoded(units@) == Some(s@),
            None => utf16_decoded(units@) is None,
        },
{
    String::from_utf16(units).ok()
}

proof fn lemma_alias_units(a: Seq<u16>, p: int)
    requires
        0 <= p <= a.len(),
        forall|j: int| 0 <= j < p ==> a[j] != 0,
        p == a.len() || a[p] == 0,
    ensures
        alias_units(a) == a.take(p),
    decreases a.len(),
{
    if a.len() == 0 || a[0] == 0 {
        assert(a.take(p) =~= Seq::<u16>::empty());
    } else {
        let d = a.drop_first();
        assert forall|j: int| 0 <= j < p - 1 implies d[j] != 0 by {
            assert(d[j] == a[j + 1]);
        }
        lemma_alias_units(d, p - 1);
        assert(seq![a[0]] + d.take(p - 1) =~= a.take(p));
    }
}

impl IfRow {
    /// The units of the alias before its first zero.
    pub fn alias_units(&self) -> (r: Vec<u16>)
        ensures
            r@ == alias_units(self.alias@),
    {
        let mut units: Vec<u16> = Vec::new();
        let mut i: usize = 0;
        while i < self.alias.len() && self.alias[i] != 0
            invariant
                i <= self.alias@.len(),
                units@ == self.alias@.take(i as int),
                forall|j: int| 0 <= j < i ==> self.alias@[j] != 0,
            decreases self.alias@.len() - i,
        {
            units.push(self.alias[i]);
            i += 1;
            assert(units@ =~= self.alias@.take(i as int));
        }
        proof {
            lemma_alias_units(self.alias@, i as int);
        }
        units
    }

    /// The display name decoded from the alias, or `None` where the alias is
    /// not valid UTF-16.
    pub fn name(&self) -> (r: Option<String>)
        ensures
            match r {
                Some(s) => row_name(*self) == Some(s@),
                None => row_name(*self) is None,
            },
    {
        let units = self.alias_units();
        decode_utf16(units.as_slice())
    }

    /// Whether the row passes the filter.
    pub fn passes_filter(&self) -> (r: bool)
        ensures
            r == passes_filter(*self),
    {
        !(self.transmit_link_speed == 0 && self.receive_link_speed == 0)
            && self.media_connect_state != MEDIA_CONNECT_STATE_DISCONNECTED
            && self.physical_address_length != 0
    }

    pub fn packets_in(&self) -> (r: u64)
        ensures
            r == packets_in_of(*self),
    {
        self.in_ucast_pkts.saturating_add(self.in_nucast_pkts)
    }

    pub fn packets_out(&self) -> (r: u64)
        ensures
            r == packets_out_of(*self),
    {
        self.out_ucast_pkts.saturating_add(self.out_nucast_pkts)
    }
}

impl InterfaceGuid {
    /// Whether two identifiers name the same hardware group.
    pub fn same_group(&self, other: &InterfaceGuid) -> (r: bool)
        ensures
            r == same_group(*self, *other),
    {
        if self.data2 != other.data2 || self.data3 != other.data3 {
            return false;
        }
        let mut i: usize = 0;
        while i < 8
            invariant
                i <= 8,
                forall|j: int| 0 <= j < i ==> self.data4@[j] == other.data4@[j],
            decreases 8 - i,
        {
            if self.data4[i] != other.data4[i] {
                return false;
            }
            i += 1;
        }
        assert(self.data4@ =~= other.data4@);
        true
    }
}

/// For each row, the size of its hardware group among the rows that pass the
/// filter; zero for a row that does not pass.
pub fn group_sizes(t: &Vec<IfRow>) -> (r: Vec<usize>)
    ensures
        r@.len() == t@.len(),
        forall|i: int|
            0 <= i < t@.len() ==> #[trigger] r@[i] as nat == if passes_filter(t@[i]) {
                group_size(t@, t@[i].interface_guid)
            } else {
                0
            },
{
    let mut sizes: Vec<usize> = Vec::new();
    let mut i: usize = 0;
    while i < t.len()
        invariant
            i <= t@.len(),
            sizes@.len() == i,
            forall|k: int|
                0 <= k < i ==> #[trigger] sizes@[k] as nat == if passes_filter(t@[k]) {
                    group_size(t@, t@[k].interface_guid)
                } else {
                    0
                },
        decreases t@.len() - i,
    {
        let mut count: usize = 0;
        if t[i].passes_filter() {
            let g = t[i].interface_guid;
            let mut j: usize = 0;
            while j < t.len()
                invariant
                    i < t@.len(),
                    j <= t@.len(),
                    g == t@[i as int].interface_guid,
                    count as nat == group_size(t@.take(j as int), g),
                    count <= j,
                decreases t@.len() - j,
            {
                assert(t@.take(j + 1).drop_last() =~= t@.take(j as int));
                if t[j].passes_filter() && t[j].interface_guid.same_group(&g) {
                    count += 1;
                }
                j += 1;
            }
            assert(t@.take(j as int) =~= t@);
        }
        sizes.push(count);
        i += 1;
    }
    sizes
}

} // verus!
