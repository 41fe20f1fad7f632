use vstd::multiset::Multiset;
use vstd::prelude::*;
use vstd::relations::{sorted_by, total_ordering};
use vstd::seq_lib::lemma_sorted_unique;

use crate::stripe::{
    lemma_probes_no_duplicates, lemma_stripes_disjoint, stripe, MAX_PORT,
};

verus! {

/// Whether `s` is in ascending order, equal neighbours allowed.
pub open spec fn ascending(s: Seq<u16>) -> bool {
    forall|i: int, j: int| 0 <= i < j < s.len() ==> s[i] <= s[j]
}

/// Whether `s` is in strictly ascending order.
pub open spec fn strictly_ascending(s: Seq<u16>) -> bool {
    forall|i: int, j: int| 0 <= i < j < s.len() ==> s[i] < s[j]
}

/// Relies on slice::sort: the same elements, in ascending order.
#[verifier::external_body]
fn sort_ports(v: &mut Vec<u16>)
    ensures
        final(v)@.to_multiset() == old(v)@.to_multiset(),
        ascending(final(v)@),
{
    v.sort();
}

/// The open ports reported by the workers of one scan, in the order they
/// arrived.
pub struct Collector {
    found: Vec<u16>,
}

impl View for Collector {
    type V = Seq<u16>;

    closed spec fn view(&self) -> Seq<u16> {
        self.found@
    }
}

impl Collector {
    /// A collector that has received nothing yet.
    pub fn new() -> (r: Collector)
        ensures
            r@ == Seq::<u16>::empty(),
    {
        Collector { found: Vec::new() }
    }

    /// Takes one discovery from a worker.
    pub fn record(&mut self, port: u16)
        ensures
            final(self)@ == old(self)@.push(port),
    {
        self.found.push(port);
    }

    /// How many discoveries have arrived.
    pub fn count(&self) -> (r: usize)
        ensures
            r == self@.len(),
    {
        self.found.len()
    }

    /// Ends the collection: every port received, in ascending order.
    pub fn finish(self) -> (r: Vec<u16>)
        ensures
            r@.to_multiset() == self@.to_multiset(),
            r@.len() == self@.len(),
            ascending(r@),
    {
        let mut out = self.found;
        sort_ports(&mut out);
        proof {
            out@.to_multiset_ensures();
            self.found@.to_multiset_ensures();
        }
        out
    }
}

/// Collects `ports`, arriving in the order given, and returns the final
/// report: the same ports in ascending order.
pub fn collect(ports: &Vec<u16>) -> (r: Vec<u16>)
    ensures
        r@.to_multiset() == ports@.to_multiset(),
        ascending(r@),
{
    let mut c = Collector::new();
    let mut i: usize = 0;
    while i < ports.len()
        invariant
            i <= ports.len(),
            c@ == ports@.subrange(0, i as int),
        decreases ports.len() - i,
    {
        c.record(ports[i]);
        i = i + 1;
        assert(c@ =~= ports@.subrange(0, i as int));
    }
    assert(c@ =~= ports@);
    c.finish()
}

/// Whatever the order in which the discoveries arrived, the report holds
/// each of them once and in strictly ascending order, provided no port was
/// reported twice: sorting neither adds, drops nor repeats a port.
pub proof fn lemma_report_order(found: Seq<u16>, report: Seq<u16>)
    requires
        found.no_duplicates(),
        report.to_multiset() == found.to_multiset(),
        ascending(report),
    ensures
        strictly_ascending(report),
        report.len() == found.len(),
        forall|p: u16| report.contains(p) <==> found.contains(p),
{
    found.to_multiset_ensures();
    report.to_multiset_ensures();
    found.lemma_multiset_has_no_duplicates();
    report.lemma_multiset_has_no_duplicates_conv();
    assert(report.no_duplicates());
    assert forall|p: u16| report.contains(p) <==> found.contains(p) by {
        assert(report.to_multiset().count(p) == found.to_multiset().count(p));
        assert(report.contains(p) <==> report.to_multiset().count(p) > 0);
        assert(found.contains(p) <==> found.to_multiset().count(p) > 0);
    }
}

/// What the first `n` of `worker_count` workers send to the collector, taken
/// together and in no particular order, where `open(p)` says whether port `p`
/// accepts a connection: each worker sends each open port of its stripe.
pub open spec fn scan_sends(worker_count: int, n: int, open: spec_fn(u16) -> bool) -> Multiset<u16>
    decreases n,
{
    if n <= 0 {
        Multiset::empty()
    } else {
        scan_sends(worker_count, n - 1, open).add(
            stripe(n - 1, worker_count).to_multiset().filter(open),
        )
    }
}

/// Among the sends of the first `n` workers, a port comes at most once, and
/// it comes exactly when it is open and lies in one of their stripes.
pub proof fn lemma_scan_sends_count(
    worker_count: int,
    n: int,
    open: spec_fn(u16) -> bool,
    p: u16,
)
    requires
        1 <= worker_count <= MAX_PORT,
        0 <= n <= worker_count,
    ensures
        scan_sends(worker_count, n, open).count(p) <= 1,
        scan_sends(worker_count, n, open).count(p) > 0 <==> (open(p) && exists|s: int|
            0 <= s < n && #[trigger] stripe(s, worker_count).contains(p)),
    decreases n,
{
    broadcast use vstd::multiset::group_multiset_axioms;

    if n > 0 {
        lemma_scan_sends_count(worker_count, n - 1, open, p);
        let last = stripe(n - 1, worker_count);
        lemma_probes_no_duplicates(n, worker_count);
        last.to_multiset_ensures();
        last.lemma_multiset_has_no_duplicates();
        let before = scan_sends(worker_count, n - 1, open);
        if before.count(p) > 0 && last.contains(p) {
            let s = choose|s: int| 0 <= s < n - 1 && #[trigger] stripe(s, worker_count).contains(p);
            lemma_stripes_disjoint(worker_count, s, n - 1, p);
        }
        if open(p) && last.contains(p) {
            assert(last.to_multiset().count(p) == 1);
        }
        if open(p) && exists|s: int| 0 <= s < n && #[trigger] stripe(s, worker_count).contains(p) {
            let s = choose|s: int| 0 <= s < n && #[trigger] stripe(s, worker_count).contains(p);
            if s < n - 1 {
                assert(before.count(p) > 0);
            }
        }
    }
}

/// However the discoveries of a whole scan interleave on their way to the
/// collector, the report holds every open port of every stripe exactly once,
/// in strictly ascending order.
pub proof fn lemma_scan_report(
    worker_count: int,
    open: spec_fn(u16) -> bool,
    arrivals: Seq<u16>,
    report: Seq<u16>,
)
    requires
        1 <= worker_count <= MAX_PORT,
        arrivals.to_multiset() == scan_sends(worker_count, worker_count, open),
        report.to_multiset() == arrivals.to_multiset(),
        ascending(report),
    ensures
        strictly_ascending(report),
        report.len() == scan_sends(worker_count, worker_count, open).len(),
        forall|p: u16|
            report.contains(p) <==> (open(p) && exists|s: int|
                0 <= s < worker_count && #[trigger] stripe(s, worker_count).contains(p)),
{
    arrivals.to_multiset_ensures();
    report.to_multiset_ensures();
    assert forall|x: u16| arrivals.to_multiset().contains(x) implies arrivals.to_multiset().count(x)
        == 1 by {
        lemma_scan_sends_count(worker_count, worker_count, open, x);
    }
    arrivals.lemma_multiset_has_no_duplicates_conv();
    lemma_report_order(arrivals, report);
    assert forall|p: u16|
        report.contains(p) <==> (open(p) && exists|s: int|
            0 <= s < worker_count && #[trigger] stripe(s, worker_count).contains(p)) by {
        lemma_scan_sends_count(worker_count, worker_count, open, p);
        assert(report.contains(p) <==> report.to_multiset().count(p) > 0);
    }
}

/// The report does not depend on the order in which the discoveries
/// arrived: two arrival orders of the same discoveries give the same report.
pub proof fn lemma_report_independent_of_order(
    first: Seq<u16>,
    second: Seq<u16>,
    first_report: Seq<u16>,
    second_report: Seq<u16>,
)
    requires
        first.to_multiset() == second.to_multiset(),
        first_report.to_multiset() == first.to_multiset(),
        second_report.to_multiset() == second.to_multiset(),
        ascending(first_report),
        ascending(second_report),
    ensures
        first_report == second_report,
{
    let leq = |a: u16, b: u16| a <= b;
    assert(sorted_by(first_report, leq));
    assert(sorted_by(second_report, leq));
    assert(total_ordering(leq));
    lemma_sorted_unique(first_report, second_report, leq);
}

} // verus!
