use vstd::prelude::*;
use crate::data::{RecordView, first_seen, observed, with_seen};
use crate::registry::{admitted_name, apply_rows, cleared, evicted, refreshed};
use crate::table::{IfRow, eligible, group_size, packets_in_of, packets_out_of, passes_filter, row_name, same_group};

verus! {

/// No row among the first `n` of `t` is recorded under `k`.
pub open spec fn unnamed_in(t: Seq<IfRow>, n: int, k: Seq<char>) -> bool {
    forall|j: int| 0 <= j < n ==> #[trigger] admitted_name(t, j) != Some(k)
}

/// Row `i` is the only row of `t` recorded under `k`.
pub open spec fn only_named(t: Seq<IfRow>, i: int, k: Seq<char>) -> bool {
    &&& 0 <= i < t.len()
    &&& admitted_name(t, i) == Some(k)
    &&& forall|j: int| 0 <= j < t.len() && j != i ==> #[trigger] admitted_name(t, j) != Some(k)
}

/// Every counter of a record equals its previous value.
pub open spec fn zero_deltas(v: RecordView) -> bool {
    &&& v.bytes_in == v.bytes_in_prev
    &&& v.bytes_out == v.bytes_out_prev
    &&& v.packets_in == v.packets_in_prev
    &&& v.packets_out == v.packets_out_prev
    &&& v.errors_in == v.errors_in_prev
    &&& v.errors_out == v.errors_out_prev
}

/// The current counters of a record are those of row `r`.
pub open spec fn counters_of(v: RecordView, r: IfRow) -> bool {
    &&& v.bytes_in == r.in_octets
    &&& v.bytes_out == r.out_octets
    &&& v.packets_in == packets_in_of(r)
    &&& v.packets_out == packets_out_of(r)
    &&& v.errors_in == r.in_errors
    &&& v.errors_out == r.out_errors
}

/// Two rows report the same raw counters.
pub open spec fn same_counters(a: IfRow, b: IfRow) -> bool {
    &&& a.in_octets == b.in_octets
    &&& a.out_octets == b.out_octets
    &&& packets_in_of(a) == packets_in_of(b)
    &&& packets_out_of(a) == packets_out_of(b)
    &&& a.in_errors == b.in_errors
    &&& a.out_errors == b.out_errors
}

proof fn lemma_untouched(m: Map<Seq<char>, RecordView>, t: Seq<IfRow>, n: nat, k: Seq<char>)
    requires
        n <= t.len(),
        unnamed_in(t, n as int, k),
    ensures
        apply_rows(m, t, n).contains_key(k) == m.contains_key(k),
        m.contains_key(k) ==> apply_rows(m, t, n)[k] == m[k],
    decreases n,
{
    if n > 0 {
        lemma_untouched(m, t, (n - 1) as nat, k);
        assert(admitted_name(t, n - 1) != Some(k));
    }
}

proof fn lemma_seen(m: Map<Seq<char>, RecordView>, t: Seq<IfRow>, n: nat, i: int, k: Seq<char>)
    requires
        n <= t.len(),
        0 <= i < n,
        admitted_name(t, i) == Some(k),
    ensures
        apply_rows(m, t, n).contains_key(k),
        apply_rows(m, t, n)[k].seen,
    decreases n,
{
    if i < n - 1 {
        lemma_seen(m, t, (n - 1) as nat, i, k);
    }
}

proof fn lemma_once(m: Map<Seq<char>, RecordView>, t: Seq<IfRow>, n: nat, i: int, k: Seq<char>)
    requires
        n <= t.len(),
        0 <= i < n,
        only_named(t, i, k),
    ensures
        apply_rows(m, t, n).contains_key(k),
        apply_rows(m, t, n)[k] == if m.contains_key(k) {
            observed(m[k], t[i])
        } else {
            first_seen(t[i])
        },
    decreases n,
{
    if i == n - 1 {
        assert(unnamed_in(t, i, k));
        lemma_untouched(m, t, i as nat, k);
    } else {
        lemma_once(m, t, (n - 1) as nat, i, k);
        assert(admitted_name(t, n - 1) != Some(k));
    }
}

proof fn lemma_kept(u: Map<Seq<char>, RecordView>, k: Seq<char>)
    requires
        u.contains_key(k),
        u[k].seen,
    ensures
        evicted(u).contains_key(k),
        evicted(u)[k] == with_seen(u[k], false),
{
}

/// The record of a row's name after a refresh in which that row alone was
/// recorded under it: present, holding the row's counters, and derived from
/// the earlier record if there was one.
proof fn lemma_refreshed_once(m: Map<Seq<char>, RecordView>, t: Seq<IfRow>, remove_stale: bool, i: int, k: Seq<char>)
    requires
        only_named(t, i, k),
    ensures
        refreshed(m, t, remove_stale).contains_key(k),
        counters_of(refreshed(m, t, remove_stale)[k], t[i]),
        m.contains_key(k) ==> refreshed(m, t, remove_stale)[k] == with_seen(
            observed(with_seen(m[k], false), t[i]),
            !remove_stale,
        ),
        !m.contains_key(k) ==> refreshed(m, t, remove_stale)[k] == with_seen(
            first_seen(t[i]),
            !remove_stale,
        ),
{
    let c = cleared(m);
    assert(c.contains_key(k) == m.contains_key(k));
    lemma_once(c, t, t.len(), i, k);
    let u = apply_rows(c, t, t.len());
    if remove_stale {
        lemma_kept(u, k);
    }
    assert(with_seen(u[k], true) == u[k]);
}

/// An interface observed for the first time, by one row, has every delta
/// zero: each previous counter equals the current one, which is the row's.
pub proof fn law_first_observation(m: Map<Seq<char>, RecordView>, t: Seq<IfRow>, remove_stale: bool, i: int, k: Seq<char>)
    requires
        only_named(t, i, k),
        !m.contains_key(k),
    ensures
        refreshed(m, t, remove_stale).contains_key(k),
        zero_deltas(refreshed(m, t, remove_stale)[k]),
        counters_of(refreshed(m, t, remove_stale)[k], t[i]),
{
    lemma_refreshed_once(m, t, remove_stale, i, k);
}

/// An interface present in two consecutive refreshes whose rows report the
/// same raw counters has every delta zero after the second.
pub proof fn law_unchanged_counters(
    m: Map<Seq<char>, RecordView>,
    t1: Seq<IfRow>,
    i1: int,
    remove1: bool,
    t2: Seq<IfRow>,
    i2: int,
    remove2: bool,
    k: Seq<char>,
)
    requires
        only_named(t1, i1, k),
        only_named(t2, i2, k),
        same_counters(t1[i1], t2[i2]),
    ensures
        refreshed(refreshed(m, t1, remove1), t2, remove2).contains_key(k),
        zero_deltas(refreshed(refreshed(m, t1, remove1), t2, remove2)[k]),
{
    let m1 = refreshed(m, t1, remove1);
    lemma_refreshed_once(m, t1, remove1, i1, k);
    lemma_refreshed_once(m1, t2, remove2, i2, k);
}

proof fn lemma_group_one(t: Seq<IfRow>, g: crate::table::InterfaceGuid, i: int)
    requires
        0 <= i < t.len(),
        passes_filter(t[i]),
        same_group(t[i].interface_guid, g),
    ensures
        group_size(t, g) >= 1,
    decreases t.len(),
{
    if i < t.len() - 1 {
        lemma_group_one(t.drop_last(), g, i);
    }
}

proof fn lemma_group_two(t: Seq<IfRow>, g: crate::table::InterfaceGuid, i: int, j: int)
    requires
        0 <= i < j < t.len(),
        passes_filter(t[i]),
        same_group(t[i].interface_guid, g),
        passes_filter(t[j]),
        same_group(t[j].interface_guid, g),
    ensures
        group_size(t, g) >= 2,
    decreases t.len(),
{
    if j < t.len() - 1 {
        lemma_group_two(t.drop_last(), g, i, j);
    } else {
        lemma_group_one(t.drop_last(), g, i);
    }
}

proof fn lemma_group_alone(t: Seq<IfRow>, g: crate::table::InterfaceGuid, i: int)
    requires
        forall|j: int|
            0 <= j < t.len() && j != i && passes_filter(#[trigger] t[j]) ==> !same_group(
                t[j].interface_guid,
                g,
            ),
    ensures
        group_size(t, g) == if 0 <= i < t.len() && passes_filter(t[i]) && same_group(
            t[i].interface_guid,
            g,
        ) {
            1nat
        } else {
            0nat
        },
    decreases t.len(),
{
    if t.len() > 0 {
        let d = t.drop_last();
        assert forall|j: int|
            0 <= j < d.len() && j != i && passes_filter(#[trigger] d[j]) implies !same_group(
            d[j].interface_guid,
            g,
        ) by {
            assert(d[j] == t[j]);
        }
        lemma_group_alone(d, g, i);
        if 0 <= i < d.len() {
            assert(d[i] == t[i]);
        }
    }
}

/// Two rows that pass the filter and share a hardware group are both left
/// out: neither is recorded.
pub proof fn law_shared_group_excluded(t: Seq<IfRow>, i: int, j: int)
    requires
        0 <= i < t.len(),
        0 <= j < t.len(),
        i != j,
        passes_filter(t[i]),
        passes_filter(t[j]),
        same_group(t[i].interface_guid, t[j].interface_guid),
    ensures
        !eligible(t, i),
        !eligible(t, j),
        admitted_name(t, i) is None,
        admitted_name(t, j) is None,
{
    let (a, b) = if i < j {
        (i, j)
    } else {
        (j, i)
    };
    lemma_group_two(t, t[i].interface_guid, a, b);
    lemma_group_two(t, t[j].interface_guid, a, b);
}

/// A row that passes the filter, is alone in its hardware group and whose
/// alias decodes is present in the registry after the refresh.
pub proof fn law_unique_group_included(m: Map<Seq<char>, RecordView>, t: Seq<IfRow>, remove_stale: bool, i: int, k: Seq<char>)
    requires
        0 <= i < t.len(),
        passes_filter(t[i]),
        forall|j: int|
            0 <= j < t.len() && j != i && passes_filter(#[trigger] t[j]) ==> !same_group(
                t[j].interface_guid,
                t[i].interface_guid,
            ),
        row_name(t[i]) == Some(k),
    ensures
        eligible(t, i),
        refreshed(m, t, remove_stale).contains_key(k),
{
    lemma_group_alone(t, t[i].interface_guid, i);
    let u = apply_rows(cleared(m), t, t.len());
    lemma_seen(cleared(m), t, t.len(), i, k);
    if remove_stale {
        lemma_kept(u, k);
    }
}

/// A row without a hardware address is never recorded; its name is absent
/// after the refresh unless it was present before or another row brought it.
pub proof fn law_no_hardware_address(m: Map<Seq<char>, RecordView>, t: Seq<IfRow>, remove_stale: bool, i: int, k: Seq<char>)
    requires
        0 <= i < t.len(),
        t[i].physical_address_length == 0,
        !m.contains_key(k),
        forall|j: int| 0 <= j < t.len() && j != i ==> #[trigger] admitted_name(t, j) != Some(k),
    ensures
        admitted_name(t, i) is None,
        !refreshed(m, t, remove_stale).contains_key(k),
{
    assert(unnamed_in(t, t.len() as int, k));
    lemma_untouched(cleared(m), t, t.len(), k);
}

/// With stale removal, an interface that no row of the table brings is
/// absent after the refresh.
pub proof fn law_stale_removed(m: Map<Seq<char>, RecordView>, t: Seq<IfRow>, k: Seq<char>)
    requires
        unnamed_in(t, t.len() as int, k),
    ensures
        !refreshed(m, t, true).contains_key(k),
{
    lemma_untouched(cleared(m), t, t.len(), k);
}

/// Without stale removal, an interface that no row of the table brings
/// stays, its counters unchanged.
pub proof fn law_stale_kept(m: Map<Seq<char>, RecordView>, t: Seq<IfRow>, k: Seq<char>)
    requires
        m.contains_key(k),
        unnamed_in(t, t.len() as int, k),
    ensures
        refreshed(m, t, false).contains_key(k),
        refreshed(m, t, false)[k] == with_seen(m[k], false),
{
    lemma_untouched(cleared(m), t, t.len(), k);
}

} // verus!
