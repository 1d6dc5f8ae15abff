//! Counter snapshots: a point-in-time mapping from interface name to the
//! cumulative (received, transmitted) byte counts of that interface, plus the
//! zero-activity filter over an ordered interface list.

use vstd::prelude::*;

use crate::text::views_of;

verus! {

/// Cumulative byte counters recorded for one interface.
#[derive(Debug, PartialEq, Eq)]
struct IfaceCounters {
    name: String,
    rx: u64,
    tx: u64,
}

/// A snapshot of per-interface counters. Interface names are unique keys;
/// insertion overwrites (last write wins).
#[derive(Debug, PartialEq, Eq)]
pub struct NetStats {
    entries: Vec<IfaceCounters>,
}

/// The mapping held by a list of entries, later entries overriding earlier
/// ones.
spec fn entries_map(s: Seq<IfaceCounters>) -> Map<Seq<char>, (u64, u64)>
    decreases s.len(),
{
    if s.len() == 0 {
        Map::empty()
    } else {
        entries_map(s.drop_last()).insert(s.last().name@, (s.last().rx, s.last().tx))
    }
}

/// No two entries carry the same interface name.
spec fn unique_names(s: Seq<IfaceCounters>) -> bool {
    forall|i: int, j: int| 0 <= i < j < s.len() ==> s[i].name@ != s[j].name@
}

/// A key is in the mapping exactly when some entry carries it.
proof fn lemma_entries_map_dom(s: Seq<IfaceCounters>, k: Seq<char>)
    ensures
        entries_map(s).contains_key(k) <==> exists|i: int|
            0 <= i < s.len() && s[i].name@ == k,
    decreases s.len(),
{
    if s.len() > 0 {
        lemma_entries_map_dom(s.drop_last(), k);
        if entries_map(s).contains_key(k) {
            if s.last().name@ == k {
                assert(s[s.len() - 1].name@ == k);
            } else {
                let i = choose|i: int| 0 <= i < s.len() - 1 && s.drop_last()[i].name@ == k;
                assert(s[i].name@ == k);
            }
        }
        if exists|i: int| 0 <= i < s.len() && s[i].name@ == k {
            let i = choose|i: int| 0 <= i < s.len() && s[i].name@ == k;
            if i < s.len() - 1 {
                assert(s.drop_last()[i].name@ == k);
            }
        }
    }
}

/// With unique names, the mapping sends each entry's name to its counters.
proof fn lemma_entries_map_at(s: Seq<IfaceCounters>, i: int)
    requires
        unique_names(s),
        0 <= i < s.len(),
    ensures
        entries_map(s).contains_key(s[i].name@),
        entries_map(s)[s[i].name@] == (s[i].rx, s[i].tx),
    decreases s.len(),
{
    if i == s.len() - 1 {
        assert(s.last() == s[i]);
    } else {
        assert(unique_names(s.drop_last()));
        assert(s.drop_last()[i] == s[i]);
        lemma_entries_map_at(s.drop_last(), i);
        assert(s.last().name@ != s[i].name@);
    }
}

/// Replacing the entry that carries `e.name` updates just that key.
proof fn lemma_entries_map_update(s: Seq<IfaceCounters>, i: int, e: IfaceCounters)
    requires
        unique_names(s),
        0 <= i < s.len(),
        s[i].name@ == e.name@,
    ensures
        entries_map(s.update(i, e)) =~= entries_map(s).insert(e.name@, (e.rx, e.tx)),
        unique_names(s.update(i, e)),
    decreases s.len(),
{
    if i == s.len() - 1 {
        assert(s.update(i, e).drop_last() =~= s.drop_last());
        assert(s.update(i, e).last() == e);
    } else {
        assert(unique_names(s.drop_last()));
        assert(s.drop_last()[i] == s[i]);
        lemma_entries_map_update(s.drop_last(), i, e);
        assert(s.update(i, e).drop_last() =~= s.drop_last().update(i, e));
        assert(s.update(i, e).last() == s.last());
        assert(s.last().name@ != e.name@);
    }
}

impl View for NetStats {
    type V = Map<Seq<char>, (u64, u64)>;

    closed spec fn view(&self) -> Map<Seq<char>, (u64, u64)> {
        entries_map(self.entries@)
    }
}

impl NetStats {
    /// The snapshot's internal order is consistent: one entry per name.
    pub closed spec fn wf(&self) -> bool {
        unique_names(self.entries@)
    }

    /// An empty snapshot.
    pub fn new() -> (r: NetStats)
        ensures
            r.wf(),
            r@ == Map::<Seq<char>, (u64, u64)>::empty(),
    {
        NetStats { entries: Vec::new() }
    }

    /// Records `(rx, tx)` for `name`, overwriting any earlier record.
    pub fn insert(&mut self, name: String, rx: u64, tx: u64)
        requires
            old(self).wf(),
        ensures
            final(self).wf(),
            final(self)@ == old(self)@.insert(name@, (rx, tx)),
    {
        let n = self.entries.len();
        let mut i: usize = 0;
        while i < n
            invariant
                0 <= i <= n == self.entries.len(),
                *self == *old(self),
                self.wf(),
                forall|j: int| 0 <= j < i ==> self.entries@[j].name@ != name@,
            decreases n - i,
        {
            if self.entries[i].name == name {
                let e = IfaceCounters { name, rx, tx };
                proof {
                    lemma_entries_map_update(self.entries@, i as int, e);
                }
                self.entries.set(i, e);
                return;
            }
            i = i + 1;
        }
        let e = IfaceCounters { name, rx, tx };
        proof {
            assert(self.entries@.push(e).drop_last() =~= self.entries@);
            assert(forall|j: int|
                0 <= j < self.entries@.len() ==> self.entries@.push(e)[j] == self.entries@[j]);
        }
        self.entries.push(e);
    }

    /// Looks `name` up, yielding its counters when the snapshot holds them.
    pub fn get(&self, name: &String) -> (r: Option<(u64, u64)>)
        requires
            self.wf(),
        ensures
            r == (if self@.contains_key(name@) {
                Some(self@[name@])
            } else {
                None
            }),
    {
        let n = self.entries.len();
        let mut i: usize = 0;
        while i < n
            invariant
                0 <= i <= n == self.entries.len(),
                self.wf(),
                forall|j: int| 0 <= j < i ==> self.entries@[j].name@ != name@,
            decreases n - i,
        {
            if self.entries[i].name == *name {
                proof {
                    lemma_entries_map_at(self.entries@, i as int);
                }
                let e = &self.entries[i];
                return Some((e.rx, e.tx));
            }
            i = i + 1;
        }
        proof {
            lemma_entries_map_dom(self.entries@, name@);
        }
        None
    }
}

/// Whether the zero-activity filter retains `n`: the snapshot knows the
/// interface and records activity on it.
pub open spec fn spec_keep(m: Map<Seq<char>, (u64, u64)>, n: Seq<char>) -> bool {
    m.contains_key(n) && (m[n].0 != 0 || m[n].1 != 0)
}

/// The interface names retained by the zero-activity filter, in the order
/// they were given.
pub open spec fn spec_filter(m: Map<Seq<char>, (u64, u64)>, names: Seq<Seq<char>>) -> Seq<
    Seq<char>,
>
    decreases names.len(),
{
    if names.len() == 0 {
        Seq::empty()
    } else {
        (if spec_keep(m, names[0]) {
            seq![names[0]]
        } else {
            Seq::empty()
        }) + spec_filter(m, names.drop_first())
    }
}

/// Retains, in their given order, the interfaces that the snapshot holds
/// with a nonzero received or transmitted count.
pub fn filter_zero_counters(stats: &NetStats, interfaces: &Vec<String>) -> (r: Vec<String>)
    requires
        stats.wf(),
    ensures
        views_of(r@) == spec_filter(stats@, views_of(interfaces@)),
{
    let ghost m = stats@;
    let ghost full = views_of(interfaces@);
    let n = interfaces.len();
    let mut out: Vec<String> = Vec::new();
    let mut i: usize = 0;
    proof {
        assert(full.skip(0) =~= full);
        assert(views_of(out@) =~= Seq::<Seq<char>>::empty());
        assert(views_of(out@) + spec_filter(m, full) =~= spec_filter(m, full));
    }
    while i < n
        invariant
            0 <= i <= n == interfaces@.len(),
            stats.wf(),
            m == stats@,
            full == views_of(interfaces@),
            spec_filter(m, full) == views_of(out@) + spec_filter(m, full.skip(i as int)),
        decreases n - i,
    {
        let keep = match stats.get(&interfaces[i]) {
            Some((rx, tx)) => rx != 0 || tx != 0,
            None => false,
        };
        proof {
            assert(full.skip(i as int)[0] == full[i as int]);
            assert(full.skip(i as int).drop_first() =~= full.skip(i as int + 1));
            assert(keep == spec_keep(m, full[i as int]));
        }
        if keep {
            out.push(interfaces[i].clone());
            proof {
                assert(views_of(out@) =~= views_of(out@.drop_last()) + seq![full[i as int]]);
                assert(views_of(out@.drop_last()) + (seq![full[i as int]] + spec_filter(
                    m,
                    full.skip(i as int + 1),
                )) =~= views_of(out@) + spec_filter(m, full.skip(i as int + 1)));
            }
        }
        i = i + 1;
    }
    proof {
        assert(full.skip(n as int) =~= Seq::empty());
        assert(views_of(out@) + spec_filter(m, full.skip(n as int)) =~= views_of(out@));
    }
    out
}

/// Whether `a` can be had from `b` by deleting elements, keeping order.
pub open spec fn subsequence_of(a: Seq<Seq<char>>, b: Seq<Seq<char>>) -> bool
    decreases a.len() + b.len(),
{
    if a.len() == 0 {
        true
    } else if b.len() == 0 {
        false
    } else {
        (a[0] == b[0] && subsequence_of(a.drop_first(), b.drop_first())) || subsequence_of(
            a,
            b.drop_first(),
        )
    }
}

/// The zero-activity filter yields a subsequence of the requested list, in
/// the original order, holding exactly names the snapshot records nonzero
/// activity for.
pub proof fn lemma_filter_subsequence(m: Map<Seq<char>, (u64, u64)>, names: Seq<Seq<char>>)
    ensures
        subsequence_of(spec_filter(m, names), names),
        forall|j: int|
            0 <= j < spec_filter(m, names).len() ==> spec_keep(m, #[trigger] spec_filter(m, names)[j]),
    decreases names.len(),
{
    if names.len() > 0 {
        lemma_filter_subsequence(m, names.drop_first());
        let rest = spec_filter(m, names.drop_first());
        if spec_keep(m, names[0]) {
            let whole = spec_filter(m, names);
            assert(whole[0] == names[0]);
            assert(whole.drop_first() =~= rest);
        } else {
            assert(spec_filter(m, names) =~= rest);
        }
    }
}

} // verus!
