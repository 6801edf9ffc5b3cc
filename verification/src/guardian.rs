//! The reputation of addresses: a blacklist, a whitelist, and for an
//! address on neither the risk that a reputation service gives it.

use crate::file::ip_filter_file::{IpFilter, SEPARATOR};
use crate::text::{joined, to_chars};
use vstd::prelude::*;
use vstd::string::StringExecFns;

verus! {

/// The risk from which on an address is blacklisted.
pub const RISK_THRESHOLD: u8 = 50;

/// What is known of an address without asking anybody.
#[derive(Clone, Copy, Debug, PartialEq, Eq)]
pub enum Verdict {
    /// The address is the machine itself, and is never refused.
    Exempt,
    /// The address is on the blacklist.
    Blacklisted,
    /// The address is on the whitelist.
    Whitelisted,
    /// The address is on neither list: the reputation service has to be
    /// asked.
    Unknown,
}

/// Whether `ip` is an address of the machine itself: one that starts with
/// `127.`, or `::1`. Such an address is never refused.
pub open spec fn exempt(ip: Seq<char>) -> bool {
    ||| ip.len() >= 4 && ip[0] == '1' && ip[1] == '2' && ip[2] == '7' && ip[3] == '.'
    ||| ip == seq![':', ':', '1']
}

/// Whether `ip` is an address of the machine itself.
pub fn is_exempt(ip: &str) -> (r: bool)
    ensures
        r == exempt(ip@),
{
    let chars: Vec<char> = to_chars(ip);
    if chars.len() >= 4 && chars[0] == '1' && chars[1] == '2' && chars[2] == '7' && chars[3]
        == '.' {
        return true;
    }
    if chars.len() == 3 && chars[0] == ':' && chars[1] == ':' && chars[2] == '1' {
        assert(chars@ =~= seq![':', ':', '1']);
        return true;
    }
    false
}

/// What the two lists say of `ip`. The blacklist is looked at first.
pub open spec fn verdict_of(
    blacklist: Seq<Seq<char>>,
    whitelist: Seq<Seq<char>>,
    ip: Seq<char>,
) -> Verdict {
    if exempt(ip) {
        Verdict::Exempt
    } else if blacklist.contains(ip) {
        Verdict::Blacklisted
    } else if whitelist.contains(ip) {
        Verdict::Whitelisted
    } else {
        Verdict::Unknown
    }
}

/// The two lists of addresses.
pub struct ReputationStore {
    pub blacklist: IpFilter,
    pub whitelist: IpFilter,
}

/// What came of recording a risk: whether the address is blacklisted now,
/// and what the file of the list that grew has to hold.
#[derive(Clone, Debug, PartialEq, Eq)]
pub struct Recorded {
    pub blacklisted: bool,
    pub written: Option<String>,
}

impl ReputationStore {
    /// What the two lists say of `ip`.
    pub fn lookup(&self, ip: &str) -> (verdict: Verdict)
        ensures
            verdict == verdict_of(self.blacklist@, self.whitelist@, ip@),
    {
        if is_exempt(ip) {
            Verdict::Exempt
        } else if self.blacklist.has(ip) {
            Verdict::Blacklisted
        } else if self.whitelist.has(ip) {
            Verdict::Whitelisted
        } else {
            Verdict::Unknown
        }
    }

    /// Whether `ip` is on the blacklist.
    pub fn is_blacklisted(&self, ip: &str) -> (r: bool)
        ensures
            r == self.blacklist@.contains(ip@),
    {
        self.blacklist.has(ip)
    }

    /// Whether `ip` is on the whitelist.
    pub fn is_whitelisted(&self, ip: &str) -> (r: bool)
        ensures
            r == self.whitelist@.contains(ip@),
    {
        self.whitelist.has(ip)
    }

    /// Records the risk that the reputation service gave `ip`: from the
    /// threshold on the address goes on the blacklist, below it on the
    /// whitelist. The other list stays as it is.
    pub fn record(&mut self, ip: &str, risk: u8) -> (recorded: Recorded)
        ensures
            recorded.blacklisted == (risk >= RISK_THRESHOLD),
            recorded.written is Some <==> !(if risk >= RISK_THRESHOLD {
                old(self).blacklist@
            } else {
                old(self).whitelist@
            }).contains(ip@),
            risk >= RISK_THRESHOLD ==> final(self).whitelist@ == old(self).whitelist@ && final(self).blacklist@ == listed(old(self).blacklist@, ip@),
            risk < RISK_THRESHOLD ==> final(self).blacklist@ == old(self).blacklist@ && final(self).whitelist@ == listed(old(self).whitelist@, ip@),
            match recorded.written {
                Some(contents) => contents@ == joined(
                    if risk >= RISK_THRESHOLD {
                        final(self).blacklist@
                    } else {
                        final(self).whitelist@
                    },
                    SEPARATOR,
                ),
                None => final(self).blacklist@ == old(self).blacklist@ && final(self).whitelist@
                    == old(self).whitelist@,
            },
    {
        if risk >= RISK_THRESHOLD {
            let written: Option<String> = self.blacklist.push(ip);
            Recorded { blacklisted: true, written }
        } else {
            let written: Option<String> = self.whitelist.push(ip);
            Recorded { blacklisted: false, written }
        }
    }
}

/// A list with `ip` on it: at its end, where it was not on it.
pub open spec fn listed(list: Seq<Seq<char>>, ip: Seq<char>) -> Seq<Seq<char>> {
    if list.contains(ip) {
        list
    } else {
        list.push(ip)
    }
}

/// Whether `ip` is refused for its reputation, as far as the lists say:
/// nothing where the reputation service has to be asked first.
pub fn ip_blacklisted(store: &ReputationStore, ip: &str) -> (r: Option<bool>)
    ensures
        r == match verdict_of(store.blacklist@, store.whitelist@, ip@) {
            Verdict::Exempt => Some(false),
            Verdict::Blacklisted => Some(true),
            Verdict::Whitelisted => Some(false),
            Verdict::Unknown => None,
        },
{
    match store.lookup(ip) {
        Verdict::Exempt => Some(false),
        Verdict::Blacklisted => Some(true),
        Verdict::Whitelisted => Some(false),
        Verdict::Unknown => None,
    }
}

/// What `serde_json` reads as the number under two members of a document:
/// nothing where `serde_json::from_str` refuses the document as JSON, where
/// `serde_json::Value::get` finds no member `first` in it or no member
/// `second` in that member, or where `serde_json::Value::as_u64` takes
/// what stands there for no number from 0 on that fits 64 bits.
pub uninterp spec fn json_number(source: Seq<char>, first: Seq<char>, second: Seq<char>) -> Option<
    u64,
>;

/// `serde_json::from_str` to a `serde_json::Value`, `Value::get` for the
/// member `first` and in it for the member `second`, and `Value::as_u64`
/// on what stands there.
#[verifier::external_body]
fn number_at(source: &str, first: &str, second: &str) -> (number: Option<u64>)
    ensures
        number == json_number(source@, first@, second@),
{
    serde_json::from_str::<serde_json::Value>(source).ok()?.get(first)?.get(second)?.as_u64()
}

/// The name of the member that holds the risk in the answer of the
/// reputation service, under the member that is named by the address.
pub open spec fn risk_member() -> Seq<char> {
    "risk"@
}

/// The risk that an answer of the reputation service gives for `ip`: the
/// number of the member `risk` under the member that the address names,
/// where it is at most 255. Any other answer gives no risk.
pub open spec fn risk_in(response: Seq<char>, ip: Seq<char>) -> Option<u8> {
    match json_number(response, ip, risk_member()) {
        Some(number) => if number <= 255 {
            Some(number as u8)
        } else {
            None
        },
        None => None,
    }
}

/// The risk that an answer of the reputation service gives for `ip`.
pub fn risk_of(response: &str, ip: &str) -> (risk: Option<u8>)
    ensures
        risk == risk_in(response@, ip@),
{
    match number_at(response, ip, "risk") {
        Some(number) => if number <= 255 {
            Some(number as u8)
        } else {
            None
        },
        None => None,
    }
}

/// The address at which the reputation service answers for `ip`.
pub open spec fn lookup_url_of(ip: Seq<char>) -> Seq<char> {
    "https://proxycheck.io/v2/"@ + ip + "?vpn=2&asn=0&risk=1"@
}

/// The address at which the reputation service answers for `ip`.
pub fn lookup_url(ip: &str) -> (url: String)
    ensures
        url@ == lookup_url_of(ip@),
{
    let mut url: String = String::from_str("https://proxycheck.io/v2/");
    url.append(ip);
    url.append("?vpn=2&asn=0&risk=1");
    url
}

/// Once a risk is recorded for an address, the lists answer for it: the
/// reputation service is asked at most once for each address, and an
/// address that is on a list is never asked for.
pub proof fn lemma_record_settles(
    blacklist: Seq<Seq<char>>,
    whitelist: Seq<Seq<char>>,
    ip: Seq<char>,
    risk: u8,
)
    requires
        verdict_of(blacklist, whitelist, ip) == Verdict::Unknown,
    ensures
        risk >= RISK_THRESHOLD ==> verdict_of(listed(blacklist, ip), whitelist, ip)
            == Verdict::Blacklisted,
        risk < RISK_THRESHOLD ==> verdict_of(blacklist, listed(whitelist, ip), ip)
            == Verdict::Whitelisted,
{
    assert(listed(blacklist, ip).last() == ip);
    assert(listed(whitelist, ip).last() == ip);
}

/// An address that is recorded changes the verdict on no other address.
pub proof fn lemma_record_other(
    blacklist: Seq<Seq<char>>,
    whitelist: Seq<Seq<char>>,
    ip: Seq<char>,
    other: Seq<char>,
)
    requires
        other != ip,
    ensures
        verdict_of(listed(blacklist, ip), whitelist, other) == verdict_of(
            blacklist,
            whitelist,
            other,
        ),
        verdict_of(blacklist, listed(whitelist, ip), other) == verdict_of(
            blacklist,
            whitelist,
            other,
        ),
{
    lemma_listed_other(blacklist, ip, other);
    lemma_listed_other(whitelist, ip, other);
}

proof fn lemma_listed_other(list: Seq<Seq<char>>, ip: Seq<char>, other: Seq<char>)
    requires
        other != ip,
    ensures
        listed(list, ip).contains(other) == list.contains(other),
{
    let grown = listed(list, ip);
    if list.contains(other) {
        let i = choose|i: int| 0 <= i < list.len() && list[i] == other;
        assert(grown[i] == other);
    }
    if grown.contains(other) {
        let i = choose|i: int| 0 <= i < grown.len() && grown[i] == other;
        assert(list[i] == other);
    }
}

} // verus!
