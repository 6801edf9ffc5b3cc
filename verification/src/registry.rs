//! What the connections share: how many of them each address has open,
//! and which addresses asked for the status a short while ago.

use crate::text::same_text;
use vstd::prelude::*;

verus! {

/// The connections that one address has open.
pub struct RegistryEntry {
    ip: String,
    count: usize,
}

/// The number of open connections of each address that ever connected.
pub struct Registry {
    entries: Vec<RegistryEntry>,
}

spec fn holds(entries: Seq<RegistryEntry>, i: int, ip: Seq<char>) -> bool {
    0 <= i < entries.len() && entries[i].ip@ == ip
}

spec fn distinct(entries: Seq<RegistryEntry>) -> bool {
    forall|i: int, j: int| 0 <= i < j < entries.len() ==> entries[i].ip@ != entries[j].ip@
}

spec fn counts_of(entries: Seq<RegistryEntry>) -> Map<Seq<char>, nat> {
    Map::new(
        |ip: Seq<char>| exists|i: int| holds(entries, i, ip),
        |ip: Seq<char>| entries[choose|i: int| holds(entries, i, ip)].count as nat,
    )
}

proof fn lemma_entry(entries: Seq<RegistryEntry>, i: int)
    requires
        distinct(entries),
        0 <= i < entries.len(),
    ensures
        counts_of(entries).contains_key(entries[i].ip@),
        counts_of(entries)[entries[i].ip@] == entries[i].count,
{
    let ip = entries[i].ip@;
    assert(holds(entries, i, ip));
    let chosen = choose|k: int| holds(entries, k, ip);
    assert(holds(entries, chosen, ip));
    assert(chosen == i);
}

/// Putting another count in the place of the one at `i`, at the end, gives
/// the same counts with that one changed.
proof fn lemma_recount(before: Seq<RegistryEntry>, i: int, after: Seq<RegistryEntry>)
    requires
        distinct(before),
        0 <= i < before.len(),
        after.len() == before.len(),
        after.drop_last() == before.remove(i),
        after.last().ip@ == before[i].ip@,
    ensures
        distinct(after),
        counts_of(after) == counts_of(before).insert(before[i].ip@, after.last().count as nat),
{
    let last = after.len() - 1;
    assert forall|j: int| 0 <= j < last implies #[trigger] after[j] == (if j < i {
        before[j]
    } else {
        before[j + 1]
    }) by {
        assert(after.drop_last()[j] == after[j]);
    }
    assert(distinct(after));
    let want = counts_of(before).insert(before[i].ip@, after.last().count as nat);
    assert forall|k: Seq<char>| #[trigger]
        counts_of(after).contains_key(k) == want.contains_key(k) by {
        if counts_of(before).contains_key(k) {
            let j = choose|j: int| holds(before, j, k);
            assert(holds(before, j, k));
            if j < i {
                assert(holds(after, j, k));
            } else if j == i {
                assert(holds(after, last, k));
            } else {
                assert(holds(after, j - 1, k));
            }
        }
        if k == before[i].ip@ {
            assert(holds(after, last, k));
        }
        if counts_of(after).contains_key(k) {
            let j = choose|j: int| holds(after, j, k);
            assert(holds(after, j, k));
            if j == last {
                assert(holds(before, i, k));
            } else if j < i {
                assert(holds(before, j, k));
            } else {
                assert(holds(before, j + 1, k));
            }
        }
    }
    assert forall|k: Seq<char>| #[trigger] counts_of(after).contains_key(k) implies counts_of(
        after,
    )[k] == want[k] by {
        let j = choose|j: int| holds(after, j, k);
        assert(holds(after, j, k));
        lemma_entry(after, j);
        if j == last {
        } else if j < i {
            lemma_entry(before, j);
        } else {
            lemma_entry(before, j + 1);
        }
    }
    assert(counts_of(after) =~= want);
}

/// One more entry, for an address that has none, adds its count.
proof fn lemma_register(before: Seq<RegistryEntry>, after: Seq<RegistryEntry>)
    requires
        distinct(before),
        after.len() == before.len() + 1,
        after.drop_last() == before,
        !counts_of(before).contains_key(after.last().ip@),
    ensures
        distinct(after),
        counts_of(after) == counts_of(before).insert(after.last().ip@, after.last().count as nat),
{
    let last = after.len() - 1;
    let ip = after.last().ip@;
    assert forall|j: int| 0 <= j < last implies #[trigger] after[j] == before[j] by {
        assert(after.drop_last()[j] == after[j]);
    }
    assert(distinct(after)) by {
        assert forall|a: int, b: int| 0 <= a < b < after.len() implies after[a].ip@
            != after[b].ip@ by {
            if b == last {
                assert(!holds(before, a, ip));
            }
        }
    }
    let want = counts_of(before).insert(ip, after.last().count as nat);
    assert forall|k: Seq<char>| #[trigger]
        counts_of(after).contains_key(k) == want.contains_key(k) by {
        if counts_of(before).contains_key(k) {
            let j = choose|j: int| holds(before, j, k);
            assert(holds(before, j, k));
            assert(holds(after, j, k));
        }
        if k == ip {
            assert(holds(after, last, k));
        }
        if counts_of(after).contains_key(k) {
            let j = choose|j: int| holds(after, j, k);
            assert(holds(after, j, k));
            if j < last {
                assert(holds(before, j, k));
            }
        }
    }
    assert forall|k: Seq<char>| #[trigger] counts_of(after).contains_key(k) implies counts_of(
        after,
    )[k] == want[k] by {
        let j = choose|j: int| holds(after, j, k);
        assert(holds(after, j, k));
        lemma_entry(after, j);
        if j < last {
            lemma_entry(before, j);
        }
    }
    assert(counts_of(after) =~= want);
}

fn find(entries: &Vec<RegistryEntry>, ip: &String) -> (r: Option<usize>)
    ensures
        match r {
            Some(i) => holds(entries@, i as int, ip@),
            None => !counts_of(entries@).contains_key(ip@),
        },
{
    let mut i: usize = 0;
    while i < entries.len()
        invariant
            i <= entries@.len(),
            forall|k: int| 0 <= k < i ==> !holds(entries@, k, ip@),
        decreases entries@.len() - i,
    {
        if same_text(&entries[i].ip, ip) {
            return Some(i);
        }
        i = i + 1;
    }
    None
}

impl View for Registry {
    type V = Map<Seq<char>, nat>;

    closed spec fn view(&self) -> Map<Seq<char>, nat> {
        counts_of(self.entries@)
    }
}

/// The counts after one more connection from `ip`.
pub open spec fn accepted(counts: Map<Seq<char>, nat>, ip: Seq<char>) -> Map<Seq<char>, nat> {
    if counts.contains_key(ip) {
        if counts[ip] < usize::MAX {
            counts.insert(ip, counts[ip] + 1)
        } else {
            counts
        }
    } else {
        counts.insert(ip, 1)
    }
}

/// The counts after one connection of `ip` is closed. An address stays
/// registered when its last connection is closed.
pub open spec fn closed_one(counts: Map<Seq<char>, nat>, ip: Seq<char>) -> Map<Seq<char>, nat> {
    if counts.contains_key(ip) && counts[ip] > 0 {
        counts.insert(ip, (counts[ip] - 1) as nat)
    } else {
        counts
    }
}

impl Registry {
    #[verifier::type_invariant]
    spec fn well_formed(self) -> bool {
        distinct(self.entries@)
    }

    /// A registry in which no address is registered.
    pub fn new() -> (r: Registry)
        ensures
            r@ == Map::<Seq<char>, nat>::empty(),
    {
        let r = Registry { entries: Vec::new() };
        assert(r@ =~= Map::<Seq<char>, nat>::empty());
        r
    }

    /// The number of connections that `ip` has open, where it is
    /// registered.
    pub fn count(&self, ip: &str) -> (r: Option<usize>)
        ensures
            match r {
                Some(n) => self@.contains_key(ip@) && self@[ip@] == n,
                None => !self@.contains_key(ip@),
            },
    {
        proof {
            use_type_invariant(self);
        }
        let key: String = ip.to_owned();
        match find(&self.entries, &key) {
            Some(i) => {
                proof {
                    lemma_entry(self.entries@, i as int);
                }
                Some(self.entries[i].count)
            },
            None => None,
        }
    }

    /// Counts one more connection from `ip`, and registers the address
    /// where it is new.
    pub fn on_accept(&mut self, ip: &str)
        ensures
            final(self)@ == accepted(old(self)@, ip@),
    {
        proof {
            use_type_invariant(&*self);
        }
        let key: String = ip.to_owned();
        let mut entries: Vec<RegistryEntry> = Vec::new();
        std::mem::swap(&mut entries, &mut self.entries);
        let ghost before = entries@;
        match find(&entries, &key) {
            Some(i) => {
                proof {
                    lemma_entry(before, i as int);
                }
                let entry: RegistryEntry = entries.remove(i);
                let count: usize = if entry.count < usize::MAX {
                    entry.count + 1
                } else {
                    entry.count
                };
                entries.push(RegistryEntry { ip: entry.ip, count });
                proof {
                    assert(entries@.drop_last() =~= before.remove(i as int));
                    lemma_recount(before, i as int, entries@);
                    assert(counts_of(entries@) =~= accepted(counts_of(before), ip@));
                }
            },
            None => {
                entries.push(RegistryEntry { ip: key, count: 1 });
                proof {
                    assert(entries@.drop_last() =~= before);
                    lemma_register(before, entries@);
                }
            },
        }
        self.entries = entries;
    }

    /// Counts one connection of `ip` less. The address stays registered.
    pub fn on_close(&mut self, ip: &str)
        ensures
            final(self)@ == closed_one(old(self)@, ip@),
    {
        proof {
            use_type_invariant(&*self);
        }
        let key: String = ip.to_owned();
        let mut entries: Vec<RegistryEntry> = Vec::new();
        std::mem::swap(&mut entries, &mut self.entries);
        let ghost before = entries@;
        match find(&entries, &key) {
            Some(i) => {
                proof {
                    lemma_entry(before, i as int);
                }
                if entries[i].count > 0 {
                    let entry: RegistryEntry = entries.remove(i);
                    entries.push(RegistryEntry { ip: entry.ip, count: entry.count - 1 });
                    proof {
                        assert(entries@.drop_last() =~= before.remove(i as int));
                        lemma_recount(before, i as int, entries@);
                        assert(counts_of(entries@) =~= closed_one(counts_of(before), ip@));
                    }
                }
            },
            None => {},
        }
        self.entries = entries;
    }

    /// Every registered address with the number of connections that it has
    /// open.
    pub fn snapshot(&self) -> (r: Vec<(String, usize)>)
        ensures
            r@.len() == self@.dom().len(),
            forall|i: int|
                0 <= i < r@.len() ==> self@.contains_key((#[trigger] r@[i]).0@) && self@[r@[i].0@]
                    == r@[i].1,
            forall|ip: Seq<char>|
                self@.contains_key(ip) ==> exists|i: int|
                    0 <= i < r@.len() && (#[trigger] r@[i]).0@ == ip,
    {
        proof {
            use_type_invariant(self);
            lemma_domain_len(self.entries@);
        }
        let mut r: Vec<(String, usize)> = Vec::new();
        let mut i: usize = 0;
        while i < self.entries.len()
            invariant
                i <= self.entries@.len(),
                r@.len() == i,
                distinct(self.entries@),
                forall|k: int|
                    0 <= k < i ==> (#[trigger] r@[k]).0@ == self.entries@[k].ip@ && r@[k].1
                        == self.entries@[k].count,
            decreases self.entries@.len() - i,
        {
            r.push((self.entries[i].ip.clone(), self.entries[i].count));
            i = i + 1;
        }
        proof {
            assert forall|k: int| 0 <= k < r@.len() implies self@.contains_key(
                (#[trigger] r@[k]).0@,
            ) && self@[r@[k].0@] == r@[k].1 by {
                lemma_entry(self.entries@, k);
            }
            assert forall|ip: Seq<char>| self@.contains_key(ip) implies exists|i: int|
                0 <= i < r@.len() && (#[trigger] r@[i]).0@ == ip by {
                let j = choose|j: int| holds(self.entries@, j, ip);
                assert(holds(self.entries@, j, ip));
                assert(r@[j].0@ == ip);
            }
        }
        r
    }

    /// The number of addresses that are registered.
    pub fn len(&self) -> (n: usize)
        ensures
            n == self@.dom().len(),
    {
        proof {
            use_type_invariant(self);
            lemma_domain_len(self.entries@);
        }
        self.entries.len()
    }
}

/// As many addresses are registered as there are entries.
proof fn lemma_domain_len(entries: Seq<RegistryEntry>)
    requires
        distinct(entries),
    ensures
        counts_of(entries).dom().finite(),
        counts_of(entries).dom().len() == entries.len(),
    decreases entries.len(),
{
    if entries.len() == 0 {
        assert(counts_of(entries).dom() =~= Set::<Seq<char>>::empty());
    } else {
        let before = entries.drop_last();
        lemma_domain_len(before);
        let ip = entries.last().ip@;
        assert(!counts_of(before).contains_key(ip)) by {
            if counts_of(before).contains_key(ip) {
                let j = choose|j: int| holds(before, j, ip);
                assert(holds(before, j, ip));
                assert(entries[j] == before[j]);
            }
        }
        lemma_register(before, entries);
        assert(counts_of(entries).dom() =~= counts_of(before).dom().insert(ip));
    }
}

/// Other addresses are untouched: a connection from one address changes
/// the count of no other, and an address that was closed as often as it was
/// accepted has the count it had.
pub proof fn lemma_accept_close(counts: Map<Seq<char>, nat>, ip: Seq<char>, other: Seq<char>)
    requires
        other != ip,
        counts.contains_key(ip) ==> counts[ip] < usize::MAX,
    ensures
        accepted(counts, ip).contains_key(other) == counts.contains_key(other),
        counts.contains_key(other) ==> accepted(counts, ip)[other] == counts[other],
        closed_one(counts, ip).contains_key(other) == counts.contains_key(other),
        counts.contains_key(other) ==> closed_one(counts, ip)[other] == counts[other],
        accepted(counts, ip).contains_key(ip),
        accepted(counts, ip)[ip] == (if counts.contains_key(ip) {
            counts[ip] + 1
        } else {
            1
        }),
        closed_one(accepted(counts, ip), ip)[ip] == (if counts.contains_key(ip) {
            counts[ip]
        } else {
            0
        }),
{
}

} // verus!
