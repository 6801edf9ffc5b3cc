//! The addresses that asked for the server's status a short while ago,
//! each with the time at which it asked.

use crate::text::same_text;
use vstd::prelude::*;

verus! {

/// One address, and the time at which it asked for the status.
pub struct PingEntry {
    ip: String,
    since: i64,
}

/// The addresses that asked for the status and were not evicted since.
pub struct PingCache {
    entries: Vec<PingEntry>,
}

spec fn holds(entries: Seq<PingEntry>, i: int, ip: Seq<char>) -> bool {
    0 <= i < entries.len() && entries[i].ip@ == ip
}

spec fn distinct(entries: Seq<PingEntry>) -> bool {
    forall|i: int, j: int| 0 <= i < j < entries.len() ==> entries[i].ip@ != entries[j].ip@
}

spec fn cached(entries: Seq<PingEntry>) -> Map<Seq<char>, i64> {
    Map::new(
        |ip: Seq<char>| exists|i: int| holds(entries, i, ip),
        |ip: Seq<char>| entries[choose|i: int| holds(entries, i, ip)].since,
    )
}

proof fn lemma_entry(entries: Seq<PingEntry>, i: int)
    requires
        distinct(entries),
        0 <= i < entries.len(),
    ensures
        cached(entries).contains_key(entries[i].ip@),
        cached(entries)[entries[i].ip@] == entries[i].since,
{
    let ip = entries[i].ip@;
    assert(holds(entries, i, ip));
    let chosen = choose|k: int| holds(entries, k, ip);
    assert(holds(entries, chosen, ip));
    assert(chosen == i);
}

/// Without the entry at `i`, its address is cached no more and the others
/// stay.
proof fn lemma_drop(before: Seq<PingEntry>, i: int)
    requires
        distinct(before),
        0 <= i < before.len(),
    ensures
        distinct(before.remove(i)),
        cached(before.remove(i)) == cached(before).remove(before[i].ip@),
{
    let after = before.remove(i);
    let want = cached(before).remove(before[i].ip@);
    assert(distinct(after));
    assert forall|k: Seq<char>| #[trigger]
        cached(after).contains_key(k) == want.contains_key(k) by {
        if cached(before).contains_key(k) && k != before[i].ip@ {
            let j = choose|j: int| holds(before, j, k);
            assert(holds(before, j, k));
            if j < i {
                assert(holds(after, j, k));
            } else {
                assert(holds(after, j - 1, k));
            }
        }
        if cached(after).contains_key(k) {
            let j = choose|j: int| holds(after, j, k);
            assert(holds(after, j, k));
            if j < i {
                assert(holds(before, j, k));
            } else {
                assert(holds(before, j + 1, k));
            }
        }
    }
    assert forall|k: Seq<char>| #[trigger] cached(after).contains_key(k) implies cached(after)[k]
        == want[k] by {
        let j = choose|j: int| holds(after, j, k);
        assert(holds(after, j, k));
        lemma_entry(after, j);
        if j < i {
            lemma_entry(before, j);
        } else {
            lemma_entry(before, j + 1);
        }
    }
    assert(cached(after) =~= want);
}

/// One more entry, for an address that has none, adds that address.
proof fn lemma_add(before: Seq<PingEntry>, after: Seq<PingEntry>)
    requires
        distinct(before),
        after.len() == before.len() + 1,
        after.drop_last() == before,
        !cached(before).contains_key(after.last().ip@),
    ensures
        distinct(after),
        cached(after) == cached(before).insert(after.last().ip@, after.last().since),
{
    let last = after.len() - 1;
    let ip = after.last().ip@;
    assert forall|j: int| 0 <= j < last implies #[trigger] after[j] == before[j] by {
        assert(after.drop_last()[j] == after[j]);
    }
    assert(distinct(after)) by {
        assert forall|a: int, b: int| 0 <= a < b < after.len() implies after[a].ip@
            != after[b].ip@ by {
            if b == last {
                assert(!holds(before, a, ip));
            }
        }
    }
    let want = cached(before).insert(ip, after.last().since);
    assert forall|k: Seq<char>| #[trigger]
        cached(after).contains_key(k) == want.contains_key(k) by {
        if cached(before).contains_key(k) {
            let j = choose|j: int| holds(before, j, k);
            assert(holds(before, j, k));
            assert(holds(after, j, k));
        }
        if k == ip {
            assert(holds(after, last, k));
        }
        if cached(after).contains_key(k) {
            let j = choose|j: int| holds(after, j, k);
            assert(holds(after, j, k));
            if j < last {
                assert(holds(before, j, k));
            }
        }
    }
    assert forall|k: Seq<char>| #[trigger] cached(after).contains_key(k) implies cached(after)[k]
        == want[k] by {
        let j = choose|j: int| holds(after, j, k);
        assert(holds(after, j, k));
        lemma_entry(after, j);
        if j < last {
            lemma_entry(before, j);
        }
    }
    assert(cached(after) =~= want);
}

/// As many addresses are cached as there are entries.
proof fn lemma_domain_len(entries: Seq<PingEntry>)
    requires
        distinct(entries),
    ensures
        cached(entries).dom().finite(),
        cached(entries).dom().len() == entries.len(),
    decreases entries.len(),
{
    if entries.len() == 0 {
        assert(cached(entries).dom() =~= Set::<Seq<char>>::empty());
    } else {
        let before = entries.drop_last();
        lemma_domain_len(before);
        let ip = entries.last().ip@;
        assert(!cached(before).contains_key(ip)) by {
            if cached(before).contains_key(ip) {
                let j = choose|j: int| holds(before, j, ip);
                assert(holds(before, j, ip));
                assert(entries[j] == before[j]);
            }
        }
        lemma_add(before, entries);
        assert(cached(entries).dom() =~= cached(before).dom().insert(ip));
    }
}

fn find(entries: &Vec<PingEntry>, ip: &String) -> (r: Option<usize>)
    ensures
        match r {
            Some(i) => holds(entries@, i as int, ip@),
            None => !cached(entries@).contains_key(ip@),
        },
{
    let mut i: usize = 0;
    while i < entries.len()
        invariant
            i <= entries@.len(),
            forall|k: int| 0 <= k < i ==> !holds(entries@, k, ip@),
        decreases entries@.len() - i,
    {
        if same_text(&entries[i].ip, ip) {
            return Some(i);
        }
        i = i + 1;
    }
    None
}

/// Whether `ip` is cached.
pub open spec fn has_ip(cache: Map<Seq<char>, i64>, ip: Seq<char>) -> bool {
    cache.contains_key(ip)
}

/// The cache after `ip` asked for the status at `timestamp`: the address
/// is cached with that time, unless it is cached already. No other address
/// is touched.
pub open spec fn remembered(cache: Map<Seq<char>, i64>, timestamp: i64, ip: Seq<char>) -> Map<
    Seq<char>,
    i64,
> {
    if cache.contains_key(ip) {
        cache
    } else {
        cache.insert(ip, timestamp)
    }
}

impl View for PingCache {
    type V = Map<Seq<char>, i64>;

    closed spec fn view(&self) -> Map<Seq<char>, i64> {
        cached(self.entries@)
    }
}

impl PingCache {
    #[verifier::type_invariant]
    spec fn well_formed(self) -> bool {
        distinct(self.entries@)
    }

    /// A cache that holds no address.
    pub fn new() -> (r: PingCache)
        ensures
            r@ == Map::<Seq<char>, i64>::empty(),
    {
        let r = PingCache { entries: Vec::new() };
        assert(r@ =~= Map::<Seq<char>, i64>::empty());
        r
    }

    /// Whether `ip` is cached.
    pub fn contains_ip(&self, ip: &str) -> (r: bool)
        ensures
            r == has_ip(self@, ip@),
    {
        let wanted: String = ip.to_owned();
        find(&self.entries, &wanted).is_some()
    }

    /// The time at which `ip` asked for the status, where it is cached.
    pub fn since(&self, ip: &str) -> (r: Option<i64>)
        ensures
            match r {
                Some(timestamp) => self@.contains_key(ip@) && self@[ip@] == timestamp,
                None => !self@.contains_key(ip@),
            },
    {
        proof {
            use_type_invariant(self);
        }
        let wanted: String = ip.to_owned();
        match find(&self.entries, &wanted) {
            Some(i) => {
                proof {
                    lemma_entry(self.entries@, i as int);
                }
                Some(self.entries[i].since)
            },
            None => None,
        }
    }

    /// Caches `ip` with `timestamp` unless the address is cached already,
    /// and says whether it did.
    pub fn remember(&mut self, timestamp: i64, ip: &str) -> (added: bool)
        ensures
            added == !has_ip(old(self)@, ip@),
            final(self)@ == remembered(old(self)@, timestamp, ip@),
    {
        proof {
            use_type_invariant(&*self);
        }
        let wanted: String = ip.to_owned();
        if find(&self.entries, &wanted).is_some() {
            return false;
        }
        let mut entries: Vec<PingEntry> = Vec::new();
        std::mem::swap(&mut entries, &mut self.entries);
        let ghost before = entries@;
        entries.push(PingEntry { ip: wanted, since: timestamp });
        proof {
            assert(entries@.drop_last() =~= before);
            lemma_add(before, entries@);
        }
        self.entries = entries;
        true
    }

    /// Evicts `ip`.
    pub fn remove(&mut self, ip: &str)
        ensures
            final(self)@ == old(self)@.remove(ip@),
    {
        proof {
            use_type_invariant(&*self);
        }
        let wanted: String = ip.to_owned();
        let mut entries: Vec<PingEntry> = Vec::new();
        std::mem::swap(&mut entries, &mut self.entries);
        let ghost before = entries@;
        match find(&entries, &wanted) {
            Some(i) => {
                proof {
                    lemma_drop(before, i as int);
                }
                let _ = entries.remove(i);
            },
            None => {
                assert(cached(before).remove(ip@) =~= cached(before));
            },
        }
        self.entries = entries;
    }

    /// The number of addresses that are cached.
    pub fn len(&self) -> (n: usize)
        ensures
            n == self@.dom().len(),
    {
        proof {
            use_type_invariant(self);
            lemma_domain_len(self.entries@);
        }
        self.entries.len()
    }
}

/// An address that asked for the status is cached until it is evicted, and
/// then it is cached no more.
pub proof fn lemma_remember_evict(cache: Map<Seq<char>, i64>, timestamp: i64, ip: Seq<char>)
    ensures
        has_ip(remembered(cache, timestamp, ip), ip),
        !has_ip(remembered(cache, timestamp, ip).remove(ip), ip),
{
}

/// What one address does to the cache shows on no other address: caching
/// it or evicting it leaves every other address cached or not as it was,
/// with the time it had. So addresses that ask in the same second are all
/// cached.
pub proof fn lemma_remember_other(
    cache: Map<Seq<char>, i64>,
    timestamp: i64,
    ip: Seq<char>,
    other: Seq<char>,
)
    requires
        other != ip,
    ensures
        has_ip(remembered(cache, timestamp, ip), other) == has_ip(cache, other),
        has_ip(cache, other) ==> remembered(cache, timestamp, ip)[other] == cache[other],
        has_ip(cache.remove(ip), other) == has_ip(cache, other),
        has_ip(cache, other) ==> cache.remove(ip)[other] == cache[other],
{
}

} // verus!
