use vstd::prelude::*;
use crate::addr::{IpNetwork, MacAddr};
use crate::data::{NetworkDataInner, RecordView, first_seen, observed, with_seen};
use crate::table::{IfRow, eligible, group_sizes, passes_filter, row_name};

verus! {

/// No two entries carry the same name.
pub open spec fn names_unique(s: Seq<(String, NetworkDataInner)>) -> bool {
    forall|i: int, j: int|
        0 <= i < s.len() && 0 <= j < s.len() && i != j ==> #[trigger] s[i].0@ != #[trigger] s[j].0@
}

/// The mapping from name to record that a list of entries stands for.
pub open spec fn entries_map(s: Seq<(String, NetworkDataInner)>) -> Map<Seq<char>, RecordView>
    decreases s.len(),
{
    if s.len() == 0 {
        Map::empty()
    } else {
        entries_map(s.drop_last()).insert(s.last().0@, s.last().1@)
    }
}

/// Every record with its marker cleared.
pub open spec fn cleared(m: Map<Seq<char>, RecordView>) -> Map<Seq<char>, RecordView> {
    m.map_values(|v: RecordView| with_seen(v, false))
}

/// The mapping after row `r` was matched or recorded under `name`.
pub open spec fn upserted(m: Map<Seq<char>, RecordView>, name: Seq<char>, r: IfRow) -> Map<
    Seq<char>,
    RecordView,
> {
    m.insert(
        name,
        if m.contains_key(name) {
            observed(m[name], r)
        } else {
            first_seen(r)
        },
    )
}

/// The name under which row `i` of table `t` is recorded, if it is recorded.
pub open spec fn admitted_name(t: Seq<IfRow>, i: int) -> Option<Seq<char>> {
    if eligible(t, i) {
        row_name(t[i])
    } else {
        None
    }
}

/// The mapping after the first `n` rows of `t` were taken in order.
pub open spec fn apply_rows(m: Map<Seq<char>, RecordView>, t: Seq<IfRow>, n: nat) -> Map<
    Seq<char>,
    RecordView,
>
    decreases n,
{
    if n == 0 {
        m
    } else {
        let p = apply_rows(m, t, (n - 1) as nat);
        match admitted_name(t, n - 1) {
            Some(k) => upserted(p, k, t[n - 1]),
            None => p,
        }
    }
}

/// The records that were matched, with their marker cleared.
pub open spec fn evicted(m: Map<Seq<char>, RecordView>) -> Map<Seq<char>, RecordView> {
    Map::new(|k: Seq<char>| m.contains_key(k) && m[k].seen, |k: Seq<char>| with_seen(m[k], false))
}

/// The mapping after a refresh that read table `t`.
pub open spec fn refreshed(m: Map<Seq<char>, RecordView>, t: Seq<IfRow>, remove_stale: bool) -> Map<
    Seq<char>,
    RecordView,
> {
    let u = apply_rows(cleared(m), t, t.len());
    if remove_stale {
        evicted(u)
    } else {
        u
    }
}

proof fn lemma_entries_dom(s: Seq<(String, NetworkDataInner)>, k: Seq<char>)
    ensures
        entries_map(s).contains_key(k) <==> exists|j: int| 0 <= j < s.len() && s[j].0@ == k,
    decreases s.len(),
{
    if s.len() > 0 {
        let d = s.drop_last();
        lemma_entries_dom(d, k);
        if entries_map(d).contains_key(k) {
            let j = choose|j: int| 0 <= j < d.len() && d[j].0@ == k;
            assert(s[j].0@ == k);
        }
        if exists|j: int| 0 <= j < s.len() && s[j].0@ == k {
            let j = choose|j: int| 0 <= j < s.len() && s[j].0@ == k;
            if j < d.len() {
                assert(d[j].0@ == k);
            }
        }
    }
}

proof fn lemma_entries_update(
    s: Seq<(String, NetworkDataInner)>,
    j: int,
    e: (String, NetworkDataInner),
)
    requires
        names_unique(s),
        0 <= j < s.len(),
        e.0@ == s[j].0@,
    ensures
        entries_map(s.update(j, e)) == entries_map(s).insert(e.0@, e.1@),
        names_unique(s.update(j, e)),
    decreases s.len(),
{
    let u = s.update(j, e);
    assert forall|a: int, b: int|
        0 <= a < u.len() && 0 <= b < u.len() && a != b implies #[trigger] u[a].0@ != #[trigger] u[
        b].0@ by {
        assert(u[a].0@ == s[a].0@);
        assert(u[b].0@ == s[b].0@);
    }
    if j == s.len() - 1 {
        assert(u.drop_last() =~= s.drop_last());
        assert(entries_map(u) =~= entries_map(s).insert(e.0@, e.1@));
    } else {
        let d = s.drop_last();
        assert(u.drop_last() =~= d.update(j, e));
        lemma_entries_update(d, j, e);
        assert(s.last().0@ != e.0@) by {
            assert(s[s.len() - 1].0@ != s[j].0@);
        }
        assert(entries_map(u) =~= entries_map(s).insert(e.0@, e.1@));
    }
}

proof fn lemma_entries_get(s: Seq<(String, NetworkDataInner)>, j: int)
    requires
        names_unique(s),
        0 <= j < s.len(),
    ensures
        entries_map(s).contains_key(s[j].0@),
        entries_map(s)[s[j].0@] == s[j].1@,
{
    lemma_entries_update(s, j, s[j]);
    assert(s.update(j, s[j]) =~= s);
}

proof fn lemma_entries_cleared(o: Seq<(String, NetworkDataInner)>, s: Seq<(String, NetworkDataInner)>)
    requires
        o.len() == s.len(),
        forall|j: int|
            0 <= j < s.len() ==> #[trigger] s[j].0 == o[j].0 && s[j].1@ == with_seen(o[j].1@, false),
    ensures
        entries_map(s) == cleared(entries_map(o)),
    decreases s.len(),
{
    if s.len() == 0 {
        assert(cleared(entries_map(o)) =~= Map::empty());
    } else {
        lemma_entries_cleared(o.drop_last(), s.drop_last());
        assert(s.last() == s[s.len() - 1]);
        assert(entries_map(s) =~= cleared(entries_map(o)));
    }
}

/// The registry of network interfaces, keyed by name.
pub struct NetworksInner {
    interfaces: Vec<(String, NetworkDataInner)>,
}

impl View for NetworksInner {
    type V = Map<Seq<char>, RecordView>;

    closed spec fn view(&self) -> Map<Seq<char>, RecordView> {
        entries_map(self.interfaces@)
    }
}

impl NetworksInner {
    /// Names are unique in the registry.
    pub closed spec fn wf(&self) -> bool {
        names_unique(self.interfaces@)
    }

    /// An empty registry.
    pub fn new() -> (r: Self)
        ensures
            r.wf(),
            r@ == Map::<Seq<char>, RecordView>::empty(),
    {
        NetworksInner { interfaces: Vec::new() }
    }

    /// The interfaces, each with its name.
    pub fn list(&self) -> (r: &Vec<(String, NetworkDataInner)>)
        requires
            self.wf(),
        ensures
            names_unique(r@),
            entries_map(r@) == self@,
    {
        &self.interfaces
    }

    /// The record of the interface named `name`, if there is one.
    pub fn get(&self, name: &String) -> (r: Option<&NetworkDataInner>)
        requires
            self.wf(),
        ensures
            match r {
                Some(d) => self@.contains_key(name@) && d@ == self@[name@],
                None => !self@.contains_key(name@),
            },
    {
        match self.position(name) {
            Some(j) => {
                proof {
                    lemma_entries_get(self.interfaces@, j as int);
                }
                Some(&self.interfaces[j].1)
            },
            None => None,
        }
    }

    fn position(&self, name: &String) -> (r: Option<usize>)
        ensures
            match r {
                Some(j) => j < self.interfaces@.len() && self.interfaces@[j as int].0@ == name@,
                None => !self@.contains_key(name@),
            },
    {
        let mut j: usize = 0;
        while j < self.interfaces.len()
            invariant
                j <= self.interfaces@.len(),
                forall|k: int| 0 <= k < j ==> self.interfaces@[k].0@ != name@,
            decreases self.interfaces@.len() - j,
        {
            if self.interfaces[j].0 == *name {
                return Some(j);
            }
            j += 1;
        }
        proof {
            lemma_entries_dom(self.interfaces@, name@);
        }
        None
    }

    /// Records row `row` under `name`: an existing record takes the row's
    /// counters as current, its current ones becoming previous; otherwise a
    /// new record starts with previous values equal to current ones.
    pub fn upsert(&mut self, name: String, row: &IfRow)
        requires
            old(self).wf(),
        ensures
            final(self).wf(),
            final(self)@ == upserted(old(self)@, name@, *row),
    {
        match self.position(&name) {
            Some(j) => {
                let ghost before = self.interfaces@;
                proof {
                    lemma_entries_get(before, j as int);
                }
                self.interfaces[j].1.observe(row);
                proof {
                    lemma_entries_update(before, j as int, self.interfaces@[j as int]);
                    assert(before.update(j as int, self.interfaces@[j as int]) == self.interfaces@);
                }
            },
            None => {
                let ghost before = self.interfaces@;
                let key = name;
                let d = NetworkDataInner::first_seen(row);
                self.interfaces.push((key, d));
                proof {
                    assert(self.interfaces@.drop_last() =~= before);
                    assert forall|j: int| 0 <= j < before.len() implies before[j].0@ != name@ by {
                        if before[j].0@ == name@ {
                            lemma_entries_dom(before, name@);
                        }
                    }
                    assert(names_unique(self.interfaces@)) by {
                        assert forall|a: int, b: int|
                            0 <= a < self.interfaces@.len() && 0 <= b < self.interfaces@.len()
                                && a != b implies #[trigger] self.interfaces@[a].0@
                            != #[trigger] self.interfaces@[b].0@ by {
                            if a < before.len() && b < before.len() {
                                assert(self.interfaces@[a] == before[a]);
                                assert(self.interfaces@[b] == before[b]);
                            } else if a < before.len() {
                                assert(self.interfaces@[a] == before[a]);
                            } else {
                                assert(self.interfaces@[b] == before[b]);
                            }
                        }
                    }
                }
            },
        }
    }

    /// Stores the addresses resolved for the interface named `name`, and
    /// tells whether there is such an interface.
    pub fn set_addresses(&mut self, name: &String, mac_addr: MacAddr, ip_networks: Vec<IpNetwork>) -> (r: bool)
        requires
            old(self).wf(),
        ensures
            final(self).wf(),
            r == old(self)@.contains_key(name@),
            r ==> final(self)@ == old(self)@.insert(
                name@,
                RecordView { mac_addr: mac_addr.0@, ip_networks: ip_networks@, ..old(self)@[name@] },
            ),
            !r ==> final(self)@ == old(self)@,
    {
        match self.position(name) {
            Some(j) => {
                let ghost before = self.interfaces@;
                proof {
                    lemma_entries_get(before, j as int);
                }
                self.interfaces[j].1.set_addresses(mac_addr, ip_networks);
                proof {
                    lemma_entries_update(before, j as int, self.interfaces@[j as int]);
                    assert(before.update(j as int, self.interfaces@[j as int]) == self.interfaces@);
                }
                true
            },
            None => false,
        }
    }

    /// Clears the marker of every record.
    fn clear_marks(&mut self)
        requires
            old(self).wf(),
        ensures
            final(self).wf(),
            final(self)@ == cleared(old(self)@),
    {
        let ghost orig = self.interfaces@;
        let mut i: usize = 0;
        while i < self.interfaces.len()
            invariant
                self.interfaces@.len() == orig.len(),
                i <= orig.len(),
                forall|j: int|
                    0 <= j < i ==> #[trigger] self.interfaces@[j].0 == orig[j].0
                        && self.interfaces@[j].1@ == with_seen(orig[j].1@, false),
                forall|j: int| i <= j < orig.len() ==> #[trigger] self.interfaces@[j] == orig[j],
            decreases orig.len() - i,
        {
            self.interfaces[i].1.set_seen(false);
            i += 1;
        }
        proof {
            lemma_entries_cleared(orig, self.interfaces@);
            assert forall|a: int, b: int|
                0 <= a < orig.len() && 0 <= b < orig.len() && a != b implies #[trigger] self.interfaces@[a].0@
                != #[trigger] self.interfaces@[b].0@ by {
                assert(orig[a].0@ != orig[b].0@);
            }
        }
    }

    /// Drops every record whose marker is clear and clears the marker of
    /// the others.
    fn evict_unseen(&mut self)
        requires
            old(self).wf(),
        ensures
            final(self).wf(),
            final(self)@ == evicted(old(self)@),
    {
        let ghost orig = self.interfaces@;
        let n: usize = self.interfaces.len();
        let mut rest: Vec<(String, NetworkDataInner)> = Vec::new();
        core::mem::swap(&mut rest, &mut self.interfaces);
        let mut i: usize = 0;
        while rest.len() > 0
            invariant
                n as int == orig.len(),
                names_unique(orig),
                i <= n,
                rest@ == orig.subrange(i as int, n as int),
                names_unique(self.interfaces@),
                entries_map(self.interfaces@) == evicted(entries_map(orig.take(i as int))),
            decreases rest@.len(),
        {
            let ghost kept = self.interfaces@;
            let (key, mut d) = rest.remove(0);
            proof {
                assert(orig[i as int] == (key, d));
                assert(orig.take(i + 1).drop_last() =~= orig.take(i as int));
                assert(orig.take(i + 1).last() == orig[i as int]);
                assert forall|j: int| 0 <= j < i implies orig.take(i as int)[j].0@ != key@ by {
                    assert(orig[j].0@ != orig[i as int].0@);
                }
                lemma_entries_dom(orig.take(i as int), key@);
            }
            if d.is_seen() {
                d.set_seen(false);
                self.interfaces.push((key, d));
                proof {
                    assert(self.interfaces@.drop_last() =~= kept);
                    assert forall|j: int| 0 <= j < kept.len() implies kept[j].0@ != key@ by {
                        lemma_entries_dom(kept, kept[j].0@);
                    }
                    assert forall|a: int, b: int|
                        0 <= a < self.interfaces@.len() && 0 <= b < self.interfaces@.len() && a
                            != b implies #[trigger] self.interfaces@[a].0@
                        != #[trigger] self.interfaces@[b].0@ by {
                        if a < kept.len() && b < kept.len() {
                            assert(self.interfaces@[a] == kept[a]);
                            assert(self.interfaces@[b] == kept[b]);
                        } else if a < kept.len() {
                            assert(self.interfaces@[a] == kept[a]);
                        } else {
                            assert(self.interfaces@[b] == kept[b]);
                        }
                    }
                }
            }
            proof {
                assert(entries_map(self.interfaces@) =~= evicted(entries_map(orig.take(i + 1))));
            }
            i += 1;
        }
        proof {
            assert(orig.take(n as int) =~= orig);
        }
    }

    /// Updates the registry from the interface table `table`, or leaves it
    /// unchanged where the table could not be read (`None`).
    ///
    /// Every record's marker is cleared. Then, in table order, each row that
    /// passes the filter, is alone in its hardware group among the rows that
    /// do, and whose alias decodes, is recorded under its name. With
    /// `remove_not_listed_interfaces`, the records that no row matched are
    /// dropped and the markers of the rest are cleared.
    pub fn refresh(&mut self, table: Option<&Vec<IfRow>>, remove_not_listed_interfaces: bool)
        requires
            old(self).wf(),
        ensures
            final(self).wf(),
            match table {
                None => *final(self) == *old(self),
                Some(t) => final(self)@ == refreshed(old(self)@, t@, remove_not_listed_interfaces),
            },
    {
        let t = match table {
            None => return,
            Some(t) => t,
        };
        self.clear_marks();
        let ghost start = self@;
        let sizes = group_sizes(t);
        let mut i: usize = 0;
        while i < t.len()
            invariant
                self.wf(),
                i <= t@.len(),
                sizes@.len() == t@.len(),
                forall|k: int|
                    0 <= k < t@.len() ==> #[trigger] sizes@[k] as nat == if passes_filter(t@[k]) {
                        crate::table::group_size(t@, t@[k].interface_guid)
                    } else {
                        0
                    },
                self@ == apply_rows(start, t@, i as nat),
            decreases t@.len() - i,
        {
            assert(sizes@[i as int] == 1 <==> eligible(t@, i as int));
            if sizes[i] == 1 {
                match t[i].name() {
                    Some(name) => self.upsert(name, &t[i]),
                    None => {},
                }
            }
            i += 1;
        }
        if remove_not_listed_interfaces {
            self.evict_unseen();
        }
    }
}

} // verus!
