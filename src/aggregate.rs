//! Counting decoded records by day, client address and system name.
use vstd::prelude::*;

use crate::record::ELBRecord;
use crate::time::{day_text_of, format_day};

verus! {

/// The values of `key` in the query of `url`, in the order in which they
/// appear, if the URL has a query.
pub uninterp spec fn query_values_of(url: Seq<char>, key: Seq<char>) -> Option<Seq<Seq<char>>>;

/// Relies on urlparse's `urlparse` and `Url::get_parsed_query`, which split
/// the query of a URL into a map from each key to its decoded values. A key
/// is present only with at least one value.
#[verifier::external_body]
fn query_values(url: &str, key: &str) -> (r: Option<Vec<String>>)
    ensures
        match (r, query_values_of(url@, key@)) {
            (Some(v), Some(w)) => v@.map_values(|s: String| s@) == w && w.len() > 0,
            (None, None) => true,
            _ => false,
        },
{
    match urlparse::urlparse(url).get_parsed_query() {
        Some(query) => query.get(key).cloned(),
        None => None,
    }
}

/// The first value of the `system` parameter of the query of `url`, if it
/// has one.
pub fn parse_system_name(url: &str) -> (r: Option<String>)
    ensures
        match query_values_of(url@, "system"@) {
            Some(w) => r matches Some(s) && s@ == w[0],
            None => r is None,
        },
{
    match query_values(url, "system") {
        Some(values) => {
            assert(values@.map_values(|s: String| s@)[0] == values@[0]@);
            Some(values[0].clone())
        },
        None => None,
    }
}

/// The system name of a request whose URL names none.
pub const UNDEFINED_SYSTEM: &'static str = "UNDEFINED_SYSTEM";

/// The system name of the request to `url`: the first value of its `system`
/// query parameter, or [`UNDEFINED_SYSTEM`].
pub open spec fn system_name_of(url: Seq<char>) -> Seq<char> {
    match query_values_of(url, "system"@) {
        Some(w) => w[0],
        None => UNDEFINED_SYSTEM@,
    }
}

/// The values by which records are counted.
#[derive(Clone, Debug, PartialEq, Eq, Hash)]
pub struct AggregateELBRecord {
    pub day: String,
    pub client_address: String,
    pub system_name: String,
}

impl View for AggregateELBRecord {
    type V = (Seq<char>, Seq<char>, Seq<char>);

    open spec fn view(&self) -> (Seq<char>, Seq<char>, Seq<char>) {
        (self.day@, self.client_address@, self.system_name@)
    }
}

impl AggregateELBRecord {
    /// Whether `self` and `other` hold the same values.
    pub fn same_as(&self, other: &AggregateELBRecord) -> (r: bool)
        ensures
            r == (self@ == other@),
    {
        self.day == other.day && self.client_address == other.client_address && self.system_name
            == other.system_name
    }
}

/// The key under which a record is counted: its day and client address, as
/// the caller wrote them, and the system that its request URL names.
pub fn aggregate_key(day: String, client_address: String, request_url: &str) -> (r:
    AggregateELBRecord)
    ensures
        r@ == (day@, client_address@, system_name_of(request_url@)),
{
    let system_name = match parse_system_name(request_url) {
        Some(name) => name,
        None => UNDEFINED_SYSTEM.to_owned(),
    };
    AggregateELBRecord { day, client_address, system_name }
}

/// The decimal digit `d`.
pub open spec fn digit_text(d: nat) -> Seq<char> {
    if d == 0 {
        "0"@
    } else if d == 1 {
        "1"@
    } else if d == 2 {
        "2"@
    } else if d == 3 {
        "3"@
    } else if d == 4 {
        "4"@
    } else if d == 5 {
        "5"@
    } else if d == 6 {
        "6"@
    } else if d == 7 {
        "7"@
    } else if d == 8 {
        "8"@
    } else {
        "9"@
    }
}

/// `n` in decimal, without leading zeros.
pub open spec fn decimal_text(n: nat) -> Seq<char>
    decreases n,
{
    if n < 10 {
        digit_text(n)
    } else {
        decimal_text(n / 10) + digit_text(n % 10)
    }
}

/// An IPv4 address in dotted decimal notation.
pub open spec fn ipv4_text_of(o: Seq<u8>) -> Seq<char> {
    decimal_text(o[0] as nat) + "."@ + decimal_text(o[1] as nat) + "."@ + decimal_text(
        o[2] as nat,
    ) + "."@ + decimal_text(o[3] as nat)
}

fn digit_str(d: u8) -> (r: &'static str)
    requires
        d < 10,
    ensures
        r@ == digit_text(d as nat),
{
    if d == 0 {
        "0"
    } else if d == 1 {
        "1"
    } else if d == 2 {
        "2"
    } else if d == 3 {
        "3"
    } else if d == 4 {
        "4"
    } else if d == 5 {
        "5"
    } else if d == 6 {
        "6"
    } else if d == 7 {
        "7"
    } else if d == 8 {
        "8"
    } else {
        "9"
    }
}

/// `n` in decimal.
fn octet_text(n: u8) -> (r: String)
    ensures
        r@ == decimal_text(n as nat),
{
    let mut s = String::new();
    let ghost m = n as nat;
    if n >= 100 {
        s.append(digit_str(n / 100));
        s.append(digit_str((n / 10) % 10));
        s.append(digit_str(n % 10));
        assert(decimal_text(m / 10) == decimal_text(m / 10 / 10) + digit_text((m / 10) % 10));
        assert(m / 10 / 10 == m / 100);
        assert(decimal_text(m / 100) == digit_text(m / 100));
        assert(decimal_text(m) == decimal_text(m / 10) + digit_text(m % 10));
        assert(s@ =~= decimal_text(m));
    } else if n >= 10 {
        s.append(digit_str(n / 10));
        s.append(digit_str(n % 10));
        assert(decimal_text(m / 10) == digit_text(m / 10));
        assert(decimal_text(m) == decimal_text(m / 10) + digit_text(m % 10));
        assert(s@ =~= decimal_text(m));
    } else {
        s.append(digit_str(n));
        assert(decimal_text(m) == digit_text(m));
        assert(s@ =~= decimal_text(m));
    }
    s
}

/// The address `octets` in dotted decimal notation, such as `172.16.1.6`.
pub fn ipv4_text(octets: [u8; 4]) -> (r: String)
    ensures
        r@ == ipv4_text_of(octets@),
{
    let s = octet_text(octets[0]);
    let s = s.concat(".");
    let s = s.concat(octet_text(octets[1]).as_str());
    let s = s.concat(".");
    let s = s.concat(octet_text(octets[2]).as_str());
    let s = s.concat(".");
    s.concat(octet_text(octets[3]).as_str())
}

/// The key under which `record` is counted: its day as `%Y-%m-%d`, its
/// client's IPv4 address and the system that its request URL names. There
/// is none when the record's date is not a calendar date.
pub fn record_key(record: &ELBRecord) -> (r: Option<AggregateELBRecord>)
    ensures
        match day_text_of(
            record.timestamp.year as int,
            record.timestamp.month as nat,
            record.timestamp.day as nat,
        ) {
            Some(d) => r matches Some(k) && k@ == (
                d,
                ipv4_text_of(record.client_address.octets@),
                system_name_of(record.request_url@),
            ),
            None => r is None,
        },
{
    let t = record.timestamp;
    match format_day(t.year, t.month, t.day) {
        Some(day) => Some(
            aggregate_key(day, ipv4_text(record.client_address.octets), record.request_url),
        ),
        None => None,
    }
}

/// How many records were seen for each [`AggregateELBRecord`].
pub struct Aggregation {
    entries: Vec<(AggregateELBRecord, i64)>,
    totals: Ghost<Map<(Seq<char>, Seq<char>, Seq<char>), int>>,
}

impl View for Aggregation {
    type V = Map<(Seq<char>, Seq<char>, Seq<char>), int>;

    closed spec fn view(&self) -> Map<(Seq<char>, Seq<char>, Seq<char>), int> {
        self.totals@
    }
}

impl Aggregation {
    /// Each key is held once, and the totals are those of the entries.
    pub closed spec fn wf(&self) -> bool {
        &&& forall|i: int, j: int|
            0 <= i < j < self.entries@.len() ==> #[trigger] self.entries@[i].0@
                != #[trigger] self.entries@[j].0@
        &&& forall|i: int|
            0 <= i < self.entries@.len() ==> self.totals@.contains_key(#[trigger] self.entries@[i].0@)
                && self.totals@[self.entries@[i].0@] == self.entries@[i].1 as int
        &&& forall|k: (Seq<char>, Seq<char>, Seq<char>)|
            #[trigger] self.totals@.contains_key(k) ==> exists|i: int|
                0 <= i < self.entries@.len() && #[trigger] self.entries@[i].0@ == k
        &&& self.totals@.dom().finite()
        &&& self.totals@.dom().len() == self.entries@.len()
    }

    /// An aggregation that has seen no record.
    pub fn new() -> (r: Aggregation)
        ensures
            r.wf(),
            r@ == Map::<(Seq<char>, Seq<char>, Seq<char>), int>::empty(),
    {
        Aggregation { entries: Vec::new(), totals: Ghost(Map::empty()) }
    }

    /// The number of distinct keys seen.
    pub fn len(&self) -> (r: usize)
        requires
            self.wf(),
        ensures
            r as nat == self@.dom().len(),
    {
        self.entries.len()
    }

    /// The total of `key`, if it was seen.
    pub fn get(&self, key: &AggregateELBRecord) -> (r: Option<i64>)
        requires
            self.wf(),
        ensures
            r == if self@.contains_key(key@) {
                Some(self@[key@] as i64)
            } else {
                None::<i64>
            },
            r matches Some(t) ==> t as int == self@[key@],
    {
        let mut i: usize = 0;
        while i < self.entries.len()
            invariant
                self.wf(),
                i <= self.entries@.len(),
                forall|j: int| 0 <= j < i ==> #[trigger] self.entries@[j].0@ != key@,
            decreases self.entries@.len() - i,
        {
            if self.entries[i].0.same_as(key) {
                return Some(self.entries[i].1);
            }
            i = i + 1;
        }
        None
    }

    /// The keys and their totals, each key once.
    pub fn entries(&self) -> (r: &[(AggregateELBRecord, i64)])
        requires
            self.wf(),
        ensures
            r@.len() == self@.dom().len(),
            forall|i: int| 0 <= i < r@.len() ==> self@.contains_key(#[trigger] r@[i].0@) && self@[r@[i].0@] == r@[i].1 as int,
            forall|i: int, j: int| 0 <= i < j < r@.len() ==> #[trigger] r@[i].0@ != #[trigger] r@[j].0@,
    {
        self.entries.as_slice()
    }
}

/// Counts one more record for `aggregate_record`.
pub fn aggregate_record(aggregate_record: AggregateELBRecord, aggregation: &mut Aggregation)
    requires
        old(aggregation).wf(),
        old(aggregation)@.contains_key(aggregate_record@) ==> old(aggregation)@[aggregate_record@]
            < i64::MAX,
    ensures
        final(aggregation).wf(),
        final(aggregation)@ == old(aggregation)@.insert(
            aggregate_record@,
            if old(aggregation)@.contains_key(aggregate_record@) {
                old(aggregation)@[aggregate_record@] + 1
            } else {
                1
            },
        ),
{
    let ghost k = aggregate_record@;
    let mut i: usize = 0;
    while i < aggregation.entries.len()
        invariant
            aggregation.wf(),
            *aggregation == *old(aggregation),
            k == aggregate_record@,
            aggregation.totals@.contains_key(k) ==> aggregation.totals@[k] < i64::MAX,
            i <= aggregation.entries@.len(),
            forall|j: int| 0 <= j < i ==> #[trigger] aggregation.entries@[j].0@ != k,
        decreases aggregation.entries@.len() - i,
    {
        if aggregation.entries[i].0.same_as(&aggregate_record) {
            let total = aggregation.entries[i].1;
            proof {
                assert(aggregation.entries@[i as int].0@ == k);
                assert(aggregation.totals@.contains_key(k));
                assert(aggregation.totals@[k] == total as int);
            }
            let ghost before = aggregation.entries@;
            aggregation.entries.set(i, (aggregate_record, total + 1));
            proof {
                let old_totals = aggregation.totals@;
                aggregation.totals@ = old_totals.insert(k, total + 1);
                assert(aggregation.totals@.dom() =~= old_totals.dom());
                assert forall|j: int|
                    0 <= j < before.len() implies #[trigger] aggregation.entries@[j].0@
                    == before[j].0@ by {}
                assert forall|k2: (Seq<char>, Seq<char>, Seq<char>)|
                    #[trigger] aggregation.totals@.contains_key(k2) implies exists|j: int|
                        0 <= j < aggregation.entries@.len() && #[trigger] aggregation.entries@[j].0@
                            == k2 by {
                    let j = choose|j: int| 0 <= j < before.len() && #[trigger] before[j].0@ == k2;
                    assert(aggregation.entries@[j].0@ == k2);
                }
            }
            return;
        }
        i = i + 1;
    }
    proof {
        if aggregation.totals@.contains_key(k) {
            let j = choose|j: int|
                0 <= j < aggregation.entries@.len() && #[trigger] aggregation.entries@[j].0@ == k;
            assert(aggregation.entries@[j].0@ == k);
        }
    }
    let ghost before = aggregation.entries@;
    aggregation.entries.push((aggregate_record, 1));
    proof {
        let old_totals = aggregation.totals@;
        aggregation.totals@ = old_totals.insert(k, 1);
        let n = before.len() as int;
        assert(aggregation.entries@[n].0@ == k);
        assert forall|i: int| 0 <= i < n implies #[trigger] aggregation.entries@[i] == before[i] by {}
        assert forall|k2: (Seq<char>, Seq<char>, Seq<char>)|
            #[trigger] aggregation.totals@.contains_key(k2) implies exists|i: int|
                0 <= i < aggregation.entries@.len() && #[trigger] aggregation.entries@[i].0@ == k2 by {
            if k2 != k {
                let j = choose|j: int| 0 <= j < before.len() && #[trigger] before[j].0@ == k2;
                assert(aggregation.entries@[j].0@ == k2);
            }
        }
        assert(aggregation.totals@.dom() == old_totals.dom().insert(k));
    }
}

} // verus!
