use vstd::prelude::*;
use vstd::arithmetic::div_mod::{lemma_mod_add_multiples_vanish, lemma_mod_equivalence, lemma_small_mod};

verus! {

/// The highest TCP port number.
pub const MAX_PORT: u16 = 65535;

/// The ports a worker probes once it has reached `port`, in the order it
/// probes them: `port` itself, then, while the distance left to `MAX_PORT`
/// exceeds `stride`, the ports that follow by steps of `stride`.
pub open spec fn probes_from(port: int, stride: int) -> Seq<u16>
    decreases MAX_PORT - port,
{
    if port > MAX_PORT || stride <= 0 {
        Seq::empty()
    } else if MAX_PORT - port <= stride {
        seq![port as u16]
    } else {
        seq![port as u16] + probes_from(port + stride, stride)
    }
}

/// The stripe of the worker with offset `start_offset` among `stride`
/// workers: the ports it probes, in order, starting one above its offset.
pub open spec fn stripe(start_offset: int, stride: int) -> Seq<u16> {
    probes_from(start_offset + 1, stride)
}

/// The port a worker with offset `start_offset` probes first.
pub fn first_port(start_offset: u16) -> (r: u16)
    requires
        start_offset < MAX_PORT,
    ensures
        r == start_offset + 1,
{
    start_offset + 1
}

/// The port probed after `port` by a worker that advances by `stride`, or
/// `None` where the worker stops: once `MAX_PORT - port <= stride`.
pub fn next_port(port: u16, stride: u16) -> (r: Option<u16>)
    ensures
        r is None <==> MAX_PORT - port <= stride,
        r matches Some(n) ==> n == port + stride,
{
    if MAX_PORT - port <= stride {
        None
    } else {
        Some(port + stride)
    }
}

/// All the ports that the worker with offset `start_offset` probes when the
/// scan runs `stride` workers, in the order it probes them.
pub fn stripe_ports(start_offset: u16, stride: u16) -> (r: Vec<u16>)
    requires
        start_offset < stride,
    ensures
        r@ == stripe(start_offset as int, stride as int),
{
    let mut out: Vec<u16> = Vec::new();
    let mut port: u16 = first_port(start_offset);
    loop
        invariant_except_break
            1 <= port <= MAX_PORT,
            out@ + probes_from(port as int, stride as int) == stripe(start_offset as int, stride as int),
        invariant
            stride > 0,
        ensures
            out@ == stripe(start_offset as int, stride as int),
        decreases MAX_PORT - port,
    {
        out.push(port);
        match next_port(port, stride) {
            None => {
                assert(out@ == stripe(start_offset as int, stride as int));
                break;
            },
            Some(n) => {
                assert(out@ + probes_from(n as int, stride as int) =~= stripe(
                    start_offset as int,
                    stride as int,
                ));
                port = n;
            },
        }
    }
    out
}

/// A port lies among the probes from `port` exactly when it is `port`
/// itself, or lies above it and below `MAX_PORT` at a whole number of
/// strides from it.
pub proof fn lemma_probes_from_contains(port: int, stride: int, p: u16)
    requires
        1 <= port <= MAX_PORT,
        stride > 0,
    ensures
        probes_from(port, stride).contains(p) <==> (p == port || (port < p < MAX_PORT && (p - port)
            % stride == 0)),
    decreases MAX_PORT - port,
{
    let s = probes_from(port, stride);
    if MAX_PORT - port <= stride {
        assert(s =~= seq![port as u16]);
        if port < p < MAX_PORT {
            lemma_small_mod((p - port) as nat, stride as nat);
        }
        if p == port {
            assert(s[0] == p);
        }
        if s.contains(p) {
            let i = choose|i: int| 0 <= i < s.len() && s[i] == p;
            assert(i == 0);
        }
    } else {
        let rest = probes_from(port + stride, stride);
        lemma_probes_from_contains(port + stride, stride, p);
        assert(s =~= seq![port as u16] + rest);
        lemma_mod_add_multiples_vanish(p - port - stride, stride);
        assert(stride + (p - port - stride) == p - port);
        assert((p - port) % stride == (p - (port + stride)) % stride);
        if p == port + stride {
            lemma_small_mod(0, stride as nat);
            assert((p - port) % stride == 0);
        }
        if port < p < port + stride {
            lemma_small_mod((p - port) as nat, stride as nat);
        }
        if p == port {
            assert(s[0] == p);
        }
        if rest.contains(p) {
            let i = choose|i: int| 0 <= i < rest.len() && rest[i] == p;
            assert(s[i + 1] == p);
        }
        if s.contains(p) && p != port {
            let i = choose|i: int| 0 <= i < s.len() && s[i] == p;
            assert(rest[i - 1] == p);
        }
        assert(s.contains(p) <==> (p == port || rest.contains(p)));
        assert(p != port ==> ((port < p < MAX_PORT && (p - port) % stride == 0) <==> (p == port
            + stride || (port + stride < p < MAX_PORT && (p - (port + stride)) % stride == 0))));
    }
}

/// Every port below `MAX_PORT` is probed by exactly one of `worker_count`
/// workers: the one whose offset is `(port - 1) % worker_count`. So no port
/// is probed twice and none of them is left out.
pub proof fn lemma_stripes_cover(worker_count: int, port: u16)
    requires
        1 <= worker_count <= MAX_PORT,
        1 <= port < MAX_PORT,
    ensures
        forall|s: int|
            0 <= s < worker_count ==> (#[trigger] stripe(s, worker_count).contains(port) <==> s == (
            port - 1) % worker_count),
{
    assert forall|s: int| 0 <= s < worker_count implies (#[trigger] stripe(
        s,
        worker_count,
    ).contains(port) <==> s == (port - 1) % worker_count) by {
        lemma_probes_from_contains(s + 1, worker_count, port);
        lemma_small_mod(s as nat, worker_count as nat);
        lemma_mod_equivalence(port - 1, s, worker_count);
        if port < s + 1 {
            lemma_mod_add_multiples_vanish(port - 1 - s, worker_count);
            lemma_small_mod((worker_count + (port - 1 - s)) as nat, worker_count as nat);
        }
        if port == s + 1 {
            lemma_small_mod(0, worker_count as nat);
        }
    }
}

/// `MAX_PORT` itself is probed only by a worker whose first port it is,
/// which takes `MAX_PORT` workers.
pub proof fn lemma_top_port(worker_count: int, start_offset: int)
    requires
        0 <= start_offset < worker_count <= MAX_PORT,
    ensures
        stripe(start_offset, worker_count).contains(MAX_PORT) <==> start_offset + 1 == MAX_PORT,
{
    lemma_probes_from_contains(start_offset + 1, worker_count, MAX_PORT);
}

/// No port is probed by two different workers of one scan.
pub proof fn lemma_stripes_disjoint(worker_count: int, s1: int, s2: int, port: u16)
    requires
        0 <= s1 < worker_count <= MAX_PORT,
        0 <= s2 < worker_count,
        stripe(s1, worker_count).contains(port),
        stripe(s2, worker_count).contains(port),
    ensures
        s1 == s2,
{
    if port == MAX_PORT {
        lemma_top_port(worker_count, s1);
        lemma_top_port(worker_count, s2);
    } else {
        lemma_probes_from_contains(s1 + 1, worker_count, port);
        lemma_stripes_cover(worker_count, port);
    }
}

/// The probes from `port` start there, advance by `stride` while the
/// distance left to `MAX_PORT` exceeds `stride`, and end at the first port
/// from which it does not.
pub proof fn lemma_probes_boundary(port: int, stride: int)
    requires
        1 <= port <= MAX_PORT,
        stride > 0,
    ensures
        ({
            let ports = probes_from(port, stride);
            &&& ports.len() > 0
            &&& ports[0] == port
            &&& MAX_PORT - ports.last() <= stride
            &&& forall|i: int|
                0 <= i < ports.len() - 1 ==> MAX_PORT - #[trigger] ports[i] > stride && ports[i + 1]
                    == ports[i] + stride
        }),
    decreases MAX_PORT - port,
{
    if MAX_PORT - port > stride {
        lemma_probes_boundary(port + stride, stride);
        let ports = probes_from(port, stride);
        let rest = probes_from(port + stride, stride);
        assert(ports =~= seq![port as u16] + rest);
        assert forall|i: int| 0 <= i < ports.len() - 1 implies MAX_PORT - #[trigger] ports[i] > stride
            && ports[i + 1] == ports[i] + stride by {
            if i > 0 {
                assert(ports[i] == rest[i - 1]);
            }
        }
    }
}

/// A worker with offset `start_offset` among `stride` workers probes
/// `start_offset + 1` first, keeps advancing by `stride` while
/// `MAX_PORT - port > stride`, and stops at the first port where
/// `MAX_PORT - port <= stride`: the next candidate is never probed.
pub proof fn lemma_stripe_boundary(start_offset: int, stride: int)
    requires
        0 <= start_offset < stride <= MAX_PORT,
    ensures
        ({
            let ports = stripe(start_offset, stride);
            &&& ports.len() > 0
            &&& ports[0] == start_offset + 1
            &&& MAX_PORT - ports.last() <= stride
            &&& forall|i: int|
                0 <= i < ports.len() - 1 ==> MAX_PORT - #[trigger] ports[i] > stride && ports[i + 1]
                    == ports[i] + stride
        }),
{
    lemma_probes_boundary(start_offset + 1, stride);
}

/// A worker never probes the same port twice.
pub proof fn lemma_probes_no_duplicates(port: int, stride: int)
    requires
        1 <= port <= MAX_PORT,
        stride > 0,
    ensures
        probes_from(port, stride).no_duplicates(),
    decreases MAX_PORT - port,
{
    if MAX_PORT - port > stride {
        let rest = probes_from(port + stride, stride);
        lemma_probes_no_duplicates(port + stride, stride);
        lemma_probes_from_contains(port + stride, stride, port as u16);
        assert(probes_from(port, stride) =~= seq![port as u16] + rest);
        let s = probes_from(port, stride);
        assert forall|i: int, j: int| 0 <= i < s.len() && 0 <= j < s.len() && i != j implies s[i]
            != s[j] by {
            if i == 0 {
                assert(rest[j - 1] == s[j]);
            } else if j == 0 {
                assert(rest[i - 1] == s[i]);
            } else {
                assert(rest[i - 1] == s[i] && rest[j - 1] == s[j]);
            }
        }
    }
}

} // verus!
