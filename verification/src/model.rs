use vstd::prelude::*;
use crate::errors::Error;
use crate::topology::{Location, Topology};

verus! {

/// Strategy-tagged record threaded through a composite candidate so that an
/// acknowledgment can be forwarded to the inner strategy that produced it.
/// `values` is a stack, one entry per composition level, outermost last; an
/// empty stack marks a candidate that no strategy needs to hear about.
#[derive(Debug)]
pub struct RoutingAnnotation {
    pub values: Vec<i32>,
}

impl RoutingAnnotation {
    pub fn empty() -> (r: RoutingAnnotation)
        ensures
            r.values@.len() == 0,
    {
        RoutingAnnotation { values: Vec::new() }
    }

    /// The same annotation with `value` pushed on top.
    pub fn pushed(&self, value: i32) -> (r: RoutingAnnotation)
        ensures
            r.values@ == self.values@.push(value),
    {
        let mut values = self.values.clone();
        proof {
            assert(values@ =~= self.values@);
        }
        values.push(value);
        RoutingAnnotation { values }
    }

    /// The top entry and the annotation below it.
    pub fn popped(&self) -> (r: (i32, RoutingAnnotation))
        requires
            self.values@.len() > 0,
        ensures
            r.0 == self.values@.last(),
            r.1.values@ == self.values@.drop_last(),
    {
        let mut values = self.values.clone();
        proof {
            assert(values@ =~= self.values@);
        }
        let top = values.pop().unwrap();
        (top, RoutingAnnotation { values })
    }
}

/// One admissible next step for a packet: leave through `port` on
/// `virtual_channel`.  `label` is a signed preference, lower preferred once a
/// strategy has normalized its set.
#[derive(Debug)]
pub struct CandidateEgress {
    pub port: usize,
    pub virtual_channel: usize,
    pub label: i32,
    pub estimated_remaining_hops: Option<usize>,
    pub router_allows: Option<bool>,
    pub annotation: RoutingAnnotation,
}

/// `c` is exactly the candidate `(port, virtual_channel)` with label 0 and
/// nothing else attached.
pub open spec fn is_plain_candidate(c: CandidateEgress, port: usize, virtual_channel: usize) -> bool {
    &&& c.port == port
    &&& c.virtual_channel == virtual_channel
    &&& c.label == 0
    &&& c.estimated_remaining_hops is None
    &&& c.router_allows is None
    &&& c.annotation.values@.len() == 0
}

impl CandidateEgress {
    pub fn new(port: usize, virtual_channel: usize) -> (r: CandidateEgress)
        ensures
            is_plain_candidate(r, port, virtual_channel),
    {
        CandidateEgress {
            port,
            virtual_channel,
            label: 0,
            estimated_remaining_hops: None,
            router_allows: None,
            annotation: RoutingAnnotation::empty(),
        }
    }
}

/// The outcome of one routing decision.  `idempotent` promises that asking
/// again at the same router, in the same packet state, yields the same set.
#[derive(Debug)]
pub struct RoutingNextCandidates {
    pub candidates: Vec<CandidateEgress>,
    pub idempotent: bool,
}

/// The strategy-defined part of the per-packet state, one tagged shape per
/// strategy instead of an arity-overloaded integer vector.
#[derive(Debug)]
pub enum Selections {
    /// Nothing recorded yet.
    Unset,
    /// A blend of two routings committed irrevocably to side `0` or `1`.
    Pinned(i32),
    /// Both sides of a blend are still open.
    Open(i32, i32),
    /// Both sides open, with the side of the last requested (not yet
    /// committed) candidate recorded third.
    OpenWithRequest(i32, i32, i32),
    /// The exact candidate a stubborn router repeats until the packet moves.
    Committed { port: usize, virtual_channel: usize, label: i32 },
    /// Indices of the precomputed paths the packet still follows.
    PathIndices(Vec<usize>),
    /// The legal intermediate routers still to be visited.
    IntermediateSet(Vec<usize>),
    /// Heading straight for the target router.
    Direct,
}

/// The per-packet mutable record: created at admission, updated at every
/// hop, dropped at delivery.  `meta` holds one independently owned sub-state
/// per wrapped or combined inner routing.
#[derive(Debug)]
pub struct RoutingInfo {
    /// Router-to-router hops taken so far.
    pub hops: usize,
    /// The originating server, fixed at creation.
    pub source_server: Option<usize>,
    /// Ordered log of the routers traversed; empty when the strategy keeps
    /// none.
    pub visited_routers: Vec<usize>,
    /// Strategy-defined selection state.
    pub selections: Selections,
    /// Nested sub-states, one per inner routing; empty when there are none.
    pub meta: Vec<RoutingInfo>,
}

impl RoutingInfo {
    pub fn new() -> (r: RoutingInfo)
        ensures
            r.hops == 0,
            r.source_server is None,
            r.visited_routers@.len() == 0,
            r.selections is Unset,
            r.meta@.len() == 0,
    {
        RoutingInfo {
            hops: 0,
            source_server: None,
            visited_routers: Vec::new(),
            selections: Selections::Unset,
            meta: Vec::new(),
        }
    }
}

/// Port `p` is the first port of router `r` that connects to `server`.
pub open spec fn first_server_port_at(top: &Topology, r: int, server: usize, p: int) -> bool {
    &&& 0 <= p < top.ports_of(r).len()
    &&& top.ports_of(r)[p] == Location::ServerPort(server)
    &&& forall|q: int| 0 <= q < p ==> (#[trigger] top.ports_of(r)[q]) != Location::ServerPort(server)
}

/// Some port of router `r` connects to `server`.
pub open spec fn has_server_port(top: &Topology, r: int, server: usize) -> bool {
    exists|p: int|
        0 <= p < top.ports_of(r).len() && (#[trigger] top.ports_of(r)[p]) == Location::ServerPort(
            server,
        )
}

/// The universal arrival rule: when the packet stands at its target router,
/// the only legal candidates are the port to the target server, one plain
/// candidate per virtual channel, and the set is idempotent.
pub open spec fn server_arrival_candidates(
    top: &Topology,
    r: usize,
    server: usize,
    num_vc: usize,
    rc: RoutingNextCandidates,
) -> bool {
    &&& rc.idempotent
    &&& rc.candidates@.len() == num_vc
    &&& exists|p: int|
        #[trigger] first_server_port_at(top, r as int, server, p) && (forall|vc: int|
            0 <= vc < num_vc ==> is_plain_candidate(
                #[trigger] rc.candidates@[vc],
                p as usize,
                vc as usize,
            ))
}

/// Shared arrival handling for every strategy: the packet is at its target
/// router and leaves to the attached target server.
pub fn candidates_to_server(top: &Topology, current_router: usize, target_server: usize, num_virtual_channels: usize) -> (r: Result<
    RoutingNextCandidates,
    Error,
>)
    requires
        top.wf(),
        current_router < top.n(),
        has_server_port(top, current_router as int, target_server),
    ensures
        r matches Ok(rc) ==> server_arrival_candidates(
            top,
            current_router,
            target_server,
            num_virtual_channels,
            rc,
        ),
        r is Ok,
{
    let num_ports = top.ports(current_router);
    let mut port: usize = 0;
    while port < num_ports
        invariant
            top.wf(),
            current_router < top.n(),
            num_ports == top.ports_of(current_router as int).len(),
            port <= num_ports,
            has_server_port(top, current_router as int, target_server),
            forall|q: int|
                0 <= q < port ==> (#[trigger] top.ports_of(current_router as int)[q])
                    != Location::ServerPort(target_server),
        decreases num_ports - port,
    {
        match top.neighbour(current_router, port) {
            Location::ServerPort(server) if server == target_server => {
                let mut candidates: Vec<CandidateEgress> = Vec::new();
                let mut vc: usize = 0;
                while vc < num_virtual_channels
                    invariant
                        vc <= num_virtual_channels,
                        candidates@.len() == vc,
                        forall|k: int|
                            0 <= k < vc ==> is_plain_candidate(
                                #[trigger] candidates@[k],
                                port,
                                k as usize,
                            ),
                    decreases num_virtual_channels - vc,
                {
                    candidates.push(CandidateEgress::new(port, vc));
                    vc += 1;
                }
                let rc = RoutingNextCandidates { candidates, idempotent: true };
                proof {
                    assert(first_server_port_at(
                        top,
                        current_router as int,
                        target_server,
                        port as int,
                    ));
                }
                return Ok(rc);
            },
            _ => {},
        }
        port += 1;
    }
    proof {
        assert(!has_server_port(top, current_router as int, target_server));
    }
    Err(Error::NoCandidates { current_router, target_router: current_router })
}

/// Whether `x` occurs in `v`.
#[verifier::loop_isolation(false)]
pub fn vec_contains(v: &Vec<usize>, x: usize) -> (r: bool)
    ensures
        r == v@.contains(x),
{
    let mut i: usize = 0;
    while i < v.len()
        invariant
            i <= v@.len(),
            forall|k: int| 0 <= k < i ==> v@[k] != x,
        decreases v@.len() - i,
    {
        if v[i] == x {
            return true;
        }
        i += 1;
    }
    false
}

/// `x` clamped to the signed 32-bit range.
pub open spec fn clamp_label(x: int) -> int {
    if x < -0x8000_0000 {
        -0x8000_0000
    } else if x > 0x7fff_ffff {
        0x7fff_ffff
    } else {
        x
    }
}

/// Adds a strategy offset to a candidate label, saturating at the label
/// range's ends.
pub fn add_label(a: i32, b: i32) -> (r: i32)
    ensures
        r as int == clamp_label(a as int + b as int),
{
    let s: i64 = a as i64 + b as i64;
    if s < -0x8000_0000i64 {
        -0x8000_0000i32
    } else if s > 0x7fff_ffffi64 {
        0x7fff_ffffi32
    } else {
        s as i32
    }
}

/// Every candidate leaves through an existing port on an allowed virtual
/// channel.
pub open spec fn candidates_in_range(
    top: &Topology,
    r: usize,
    num_vc: usize,
    candidates: Seq<CandidateEgress>,
) -> bool {
    forall|k: int|
        0 <= k < candidates.len() ==> (#[trigger] candidates[k]).port < top.ports_of(
            r as int,
        ).len() && candidates[k].virtual_channel < num_vc
}

} // verus!
