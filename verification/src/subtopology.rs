use vstd::prelude::*;
use rand::rngs::StdRng;
use crate::config::{ConfigurationValue, Time};
use crate::errors::Error;
use crate::general_pattern::GeneralPattern;
use crate::model::{
    candidates_to_server, CandidateEgress, RoutingInfo, RoutingNextCandidates,
};
use crate::routing::Routing;
use crate::topology::{Location, Topology};

verus! {

/// Every logical adjacency is realized physically: whenever a logical port
/// of `li` leads to logical router `lj`, some physical port of the image of
/// `li` leads to the image of `lj`.
pub open spec fn embedding_ok(ltop: Topology, ptop: Topology, l2p: Seq<usize>) -> bool {
    forall|li: int, q: int|
        (0 <= li < ltop.n() && 0 <= q < ltop.ports_of(li).len() && ((#[trigger] ltop.ports_of(
            li,
        )[q]) matches Location::RouterPort { .. })) ==> physical_edge(
            ptop,
            l2p[li] as int,
            l2p[ltop.ports_of(li)[q]->RouterPort_router_index as int] as int,
        )
}

/// Among the logical ports before row `arow`, column `acol` (in row-major
/// order), some edge maps onto the physical pair `(p, q)`.
pub open spec fn logical_edge_mapped_upto(
    ltop: Topology,
    l2p: Seq<usize>,
    p: int,
    q: int,
    arow: int,
    acol: int,
) -> bool {
    exists|li: int, lq: int|
        #![trigger ltop.ports_of(li)[lq]]
        0 <= li < ltop.n() && 0 <= lq < ltop.ports_of(li).len() && (li < arow || (li == arow && lq
            < acol)) && (ltop.ports_of(li)[lq] matches Location::RouterPort { router_index, .. }
            && l2p[li] == p && l2p[router_index as int] == q)
}

/// The mapping the configured pattern yields sends the logical edge
/// `(lo, ln)` onto physically non-adjacent routers: the embedding is
/// unrealizable and initialization must fail.
pub open spec fn embedding_failure_witnessed<L: Routing, M: GeneralPattern<usize, usize>>(
    routing: SubTopologyRouting<L, M>,
    top: Topology,
    lo: usize,
    ln: usize,
) -> bool {
    &&& lo < top.n() && ln < top.n()
    &&& exists|lq: int|
        0 <= lq < routing.ltop().ports_of(lo as int).len() && ((
        #[trigger] routing.ltop().ports_of(lo as int)[lq]) matches Location::RouterPort {
            router_index,
            ..
        } && router_index == ln)
    &&& exists|pi: usize, pn: usize|
        #![trigger routing.map_of().ens(lo, pi), routing.map_of().ens(ln, pn)]
        pi < top.n() && pn < top.n() && routing.map_of().ens(lo, pi) && routing.map_of().ens(
            ln,
            pn,
        ) && !physical_edge(top, pi as int, pn as int)
}

/// `s` assigns each of `n` logical routers a distinct physical router and
/// covers all of them.
pub open spec fn permutation_assignment(s: Seq<usize>, n: int) -> bool {
    &&& s.len() == n
    &&& forall|a: int| 0 <= a < n ==> (#[trigger] s[a]) < n
    &&& forall|a: int, b: int| 0 <= a < b < n ==> s[a] != s[b]
    &&& forall|x: int|
        #![trigger covered_by(s, x)]
        0 <= x < n ==> covered_by(s, x)
}

/// Some entry of `s` equals `x`.
pub open spec fn covered_by(s: Seq<usize>, x: int) -> bool {
    exists|a: int| 0 <= a < s.len() && (#[trigger] s[a]) as int == x
}

/// One of the reasons `initialize` rejects a configuration with
/// `MismatchedSizes`: the logical size disagrees with the physical one, the
/// map pattern failed its own initialization, a queried image falls outside
/// the router range, or the realized assignment is no permutation.
pub open spec fn sizes_failure_witnessed<L: Routing, M: GeneralPattern<usize, usize>>(
    routing: SubTopologyRouting<L, M>,
    prev: SubTopologyRouting<L, M>,
    top: Topology,
) -> bool {
    ||| routing.ltop().n() != top.n()
    ||| exists|me: Error|
        routing.map_of().init_ens(
            prev.map_of(),
            (top.n() as usize),
            (top.n() as usize),
            Err(me),
        )
    ||| exists|x: usize, v: usize|
        #[trigger] routing.map_of().ens(x, v) && (x as int) < top.n() && (v as int) >= top.n()
    ||| exists|assignment: Seq<usize>|
        (forall|a: int|
            0 <= a < top.n() ==> routing.map_of().ens(a as usize, #[trigger] assignment[a]))
            && assignment.len() == top.n() && !permutation_assignment(
            assignment,
            top.n() as int,
        )
}

/// A successful initialization certifies the embedding: for every logical
/// edge, the recorded images satisfy the mapping pattern's own contract and
/// are physically adjacent.  A pattern that can only send some logical edge
/// onto non-adjacent routers therefore never initializes successfully.
pub proof fn lemma_initialize_certifies_embedding<
    L: Routing,
    M: GeneralPattern<usize, usize>,
>(
    prev: SubTopologyRouting<L, M>,
    routing: SubTopologyRouting<L, M>,
    top: Topology,
    lo: usize,
    ln: usize,
    lq: int,
)
    requires
        routing.init_ens(prev, top, Ok(())),
        lo < top.n(),
        0 <= lq < routing.ltop().ports_of(lo as int).len(),
        (routing.ltop().ports_of(lo as int)[lq] matches Location::RouterPort {
            router_index,
            ..
        } && router_index == ln),
    ensures
        routing.map_of().ens(lo, routing.l2p()[lo as int]),
        routing.map_of().ens(ln, routing.l2p()[ln as int]),
        physical_edge(
            top,
            routing.l2p()[lo as int] as int,
            routing.l2p()[ln as int] as int,
        ),
{
    assert(routing.tables_ok(top));
    routing.ltop().lemma_wf_location(lo as int, lq);
    assert(routing.map_of().ens(lo, routing.l2p()[lo as int]));
    assert(routing.map_of().ens(ln, routing.l2p()[ln as int]));
    assert(physical_edge(
        top,
        routing.l2p()[lo as int] as int,
        routing.l2p()[ln as int] as int,
    ));
}

/// Some logical edge maps onto the physical pair `(p, q)`.
pub open spec fn logical_edge_mapped(ltop: Topology, l2p: Seq<usize>, p: int, q: int) -> bool {
    logical_edge_mapped_upto(ltop, l2p, p, q, ltop.n() as int, 0)
}

/// Some port of physical router `a` leads to physical router `b`.
pub open spec fn physical_edge(ptop: Topology, a: int, b: int) -> bool {
    exists|p: int|
        0 <= p < ptop.ports_of(a).len() && ((#[trigger] ptop.ports_of(a)[p])
            matches Location::RouterPort { router_index, .. } && router_index == b)
}

/// How much a hop to router `r` changes the packet's weight
/// `distance(r, target) - distance(source, r)`, relative to standing still.
pub open spec fn weight_delta(top: Topology, source: usize, current: usize, target: usize, r: int) -> int {
    (top.dist_of(r, target as int) - top.dist_of(source as int, r)) - (top.dist_of(
        current as int,
        target as int,
    ) - top.dist_of(source as int, current as int))
}

/// `e` realizes the logical candidate `cin` physically: the port leads to
/// the image of `cin`'s logical neighbour, channel and annotation are kept,
/// and `d` is the weight change of that hop (the label before the shift).
pub open spec fn translated_raw(
    ltop: Topology,
    top: Topology,
    l2p: Seq<usize>,
    lc: usize,
    source: usize,
    current: usize,
    target: usize,
    cin: CandidateEgress,
    e: CandidateEgress,
    d: int,
) -> bool {
    &&& (cin.port as int) < ltop.ports_of(lc as int).len()
    &&& (ltop.ports_of(lc as int)[cin.port as int] matches Location::RouterPort {
        router_index,
        ..
    } && {
        let pn = l2p[router_index as int];
        &&& (e.port as int) < top.ports_of(current as int).len()
        &&& (top.ports_of(current as int)[e.port as int] matches Location::RouterPort {
            router_index: pr,
            ..
        } && pr == pn)
        &&& e.virtual_channel == cin.virtual_channel
        &&& e.annotation.values@ == cin.annotation.values@
        &&& e.estimated_remaining_hops is None
        &&& e.router_allows is None
        &&& d == weight_delta(top, source, current, target, pn as int)
    })
}

/// `cout` realizes the logical candidate `cin`, its label the weight change
/// shifted by the common constant (saturating at the label range's ends).
pub open spec fn translated_candidate(
    ltop: Topology,
    top: Topology,
    l2p: Seq<usize>,
    lc: usize,
    source: usize,
    current: usize,
    target: usize,
    cin: CandidateEgress,
    cout: CandidateEgress,
    shift: int,
) -> bool {
    &&& (cin.port as int) < ltop.ports_of(lc as int).len()
    &&& (ltop.ports_of(lc as int)[cin.port as int] matches Location::RouterPort {
        router_index,
        ..
    } && {
        let pn = l2p[router_index as int];
        &&& translated_raw(
            ltop,
            top,
            l2p,
            lc,
            source,
            current,
            target,
            cin,
            cout,
            weight_delta(top, source, current, target, pn as int),
        )
        &&& (cout.label as int) == crate::model::clamp_label(
            weight_delta(top, source, current, target, pn as int) - shift,
        )
    })
}

/// The admission rule for a hop over a physical link outside the logical
/// adjacency: the weight must fall, or stay while the tie-break makes
/// progress; and past the diameter the livelock guard forbids hops that do
/// not near the target.
pub open spec fn opportunistic_admitted(
    top: Topology,
    source: usize,
    current: usize,
    target: usize,
    hops: nat,
    livelock: bool,
    r: int,
) -> bool {
    let a = top.dist_of(source as int, current as int);
    let b = top.dist_of(current as int, target as int);
    let na = top.dist_of(source as int, r);
    let nb = top.dist_of(r, target as int);
    &&& !(livelock && hops >= top.diameter_of() && nb >= b)
    &&& ((nb - na) < (b - a) || ((nb - na) == (b - a) && if a < b {
        a < na
    } else {
        nb < b
    }))
}

/// `e` is an opportunistic candidate: a plain candidate over a physical
/// link outside the logical adjacency, admitted by the rule above, with `d`
/// the weight change of the hop.
pub open spec fn opportunistic_raw(
    top: Topology,
    conn: Seq<Vec<u8>>,
    source: usize,
    current: usize,
    target: usize,
    hops: nat,
    livelock: bool,
    num_vc: usize,
    e: CandidateEgress,
    d: int,
) -> bool {
    &&& (e.port as int) < top.ports_of(current as int).len()
    &&& (top.ports_of(current as int)[e.port as int] matches Location::RouterPort {
        router_index,
        ..
    } && {
        &&& conn[current as int]@[router_index as int] == 0
        &&& opportunistic_admitted(top, source, current, target, hops, livelock, router_index as int)
        &&& e.virtual_channel < num_vc
        &&& e.annotation.values@.len() == 0
        &&& e.estimated_remaining_hops is None
        &&& e.router_allows is None
        &&& d == weight_delta(top, source, current, target, router_index as int)
    })
}

/// Port `p` of `current` is an admissible opportunistic hop: a physical link
/// outside the logical adjacency whose weight rule admits it.
pub open spec fn opportunistic_admissible(
    top: Topology,
    conn: Seq<Vec<u8>>,
    source: usize,
    current: usize,
    target: usize,
    hops: nat,
    livelock: bool,
    p: int,
) -> bool {
    &&& 0 <= p < top.ports_of(current as int).len()
    &&& (top.ports_of(current as int)[p] matches Location::RouterPort { router_index, .. } && {
        &&& conn[current as int]@[router_index as int] == 0
        &&& opportunistic_admitted(
            top,
            source,
            current,
            target,
            hops,
            livelock,
            router_index as int,
        )
    })
}

/// Some candidate at or after `lo` offers port `p` with channel `vc`.
pub open spec fn opportunistic_slot_filled(
    cands: Seq<CandidateEgress>,
    lo: int,
    p: int,
    vc: int,
) -> bool {
    exists|k: int|
        lo <= k < cands.len() && (#[trigger] cands[k]).port as int == p
            && cands[k].virtual_channel as int == vc
}

/// Some raw pair at or after `lo` offers port `p` with channel `vc`.
pub open spec fn raw_slot_filled(
    raw: Seq<(CandidateEgress, i64)>,
    lo: int,
    p: int,
    vc: int,
) -> bool {
    exists|k: int|
        lo <= k < raw.len() && (#[trigger] raw[k]).0.port as int == p
            && raw[k].0.virtual_channel as int == vc
}

/// Every admissible opportunistic hop is offered on every virtual channel,
/// by candidates beyond the first `lo` (translated) ones.
pub open spec fn opportunistic_complete(
    top: Topology,
    conn: Seq<Vec<u8>>,
    source: usize,
    current: usize,
    target: usize,
    hops: nat,
    livelock: bool,
    num_vc: usize,
    lo: int,
    cands: Seq<CandidateEgress>,
) -> bool {
    forall|p: int, vc: int|
        opportunistic_admissible(top, conn, source, current, target, hops, livelock, p) && 0 <= vc
            < num_vc ==> #[trigger] opportunistic_slot_filled(cands, lo, p, vc)
}

/// The opportunistic candidate with its label shifted by the common
/// constant.
pub open spec fn opportunistic_candidate(
    top: Topology,
    conn: Seq<Vec<u8>>,
    source: usize,
    current: usize,
    target: usize,
    hops: nat,
    livelock: bool,
    num_vc: usize,
    cout: CandidateEgress,
    shift: int,
) -> bool {
    &&& (cout.port as int) < top.ports_of(current as int).len()
    &&& (top.ports_of(current as int)[cout.port as int] matches Location::RouterPort {
        router_index,
        ..
    } && {
        &&& opportunistic_raw(
            top,
            conn,
            source,
            current,
            target,
            hops,
            livelock,
            num_vc,
            cout,
            weight_delta(top, source, current, target, router_index as int),
        )
        &&& (cout.label as int) == crate::model::clamp_label(
            weight_delta(top, source, current, target, router_index as int) - shift,
        )
    })
}

/// All labels of the set have been shifted so that the least is zero.
pub open spec fn labels_normalized(cands: Seq<CandidateEgress>) -> bool {
    &&& forall|k: int| 0 <= k < cands.len() ==> (#[trigger] cands[k]).label >= 0
    &&& cands.len() > 0 ==> exists|k: int| 0 <= k < cands.len() && (#[trigger] cands[k]).label == 0
}

/// Routes a smaller logical topology embedded in the physical one: each
/// router has a logical image, the logical routing decides between the
/// images, and each logical candidate is translated back to the physical
/// port that realizes it.  Remaining physical links can be offered
/// opportunistically when they provably near the target.
pub struct SubTopologyRouting<L: Routing, M: GeneralPattern<usize, usize>> {
    logical_topology: Topology,
    map: M,
    physical_to_logical: Vec<usize>,
    logical_to_physical: Vec<usize>,
    logical_topology_connections: Vec<Vec<u8>>,
    logical_routing: L,
    opportunistic_hops: bool,
    livelock_avoidance: bool,
}

impl<L: Routing, M: GeneralPattern<usize, usize>> SubTopologyRouting<L, M> {
    pub fn new(
        logical_topology: Topology,
        map: M,
        logical_routing: L,
        opportunistic_hops: bool,
        livelock_avoidance: bool,
    ) -> (r: SubTopologyRouting<L, M>)
        ensures
            r.ltop() == logical_topology,
            r.inner() == logical_routing,
            r.map_of() == map,
    {
        SubTopologyRouting {
            logical_topology,
            map,
            physical_to_logical: Vec::new(),
            logical_to_physical: Vec::new(),
            logical_topology_connections: Vec::new(),
            logical_routing,
            opportunistic_hops,
            livelock_avoidance,
        }
    }

    pub closed spec fn ltop(&self) -> Topology {
        self.logical_topology
    }

    pub closed spec fn inner(&self) -> L {
        self.logical_routing
    }

    pub closed spec fn p2l(&self) -> Seq<usize> {
        self.physical_to_logical@
    }

    pub closed spec fn l2p(&self) -> Seq<usize> {
        self.logical_to_physical@
    }

    pub closed spec fn map_of(&self) -> M {
        self.map
    }

    pub closed spec fn conn(&self) -> Seq<Vec<u8>> {
        self.logical_topology_connections@
    }

    pub closed spec fn opportunistic(&self) -> bool {
        self.opportunistic_hops
    }

    pub closed spec fn livelock(&self) -> bool {
        self.livelock_avoidance
    }

    /// The embedding tables form mutually inverse maps between routers of
    /// the two topologies, and every logical edge is physically realized.
    pub open spec fn tables_ok(&self, top: Topology) -> bool {
        &&& self.ltop().wf()
        &&& self.ltop().n() == top.n()
        &&& self.p2l().len() == top.n()
        &&& self.l2p().len() == top.n()
        &&& forall|i: int| 0 <= i < top.n() ==> (#[trigger] self.l2p()[i]) < top.n()
        &&& forall|i: int| 0 <= i < top.n() ==> (#[trigger] self.p2l()[i]) < top.n()
        &&& forall|i: int| 0 <= i < top.n() ==> self.p2l()[(#[trigger] self.l2p()[i]) as int] == i
        &&& forall|i: int| 0 <= i < top.n() ==> self.l2p()[(#[trigger] self.p2l()[i]) as int] == i
        &&& self.conn().len() == top.n()
        &&& forall|i: int| 0 <= i < top.n() ==> (#[trigger] self.conn()[i])@.len() == top.n()
        &&& forall|i: int|
            0 <= i < top.n() ==> self.map_of().ens(i as usize, #[trigger] self.l2p()[i])
        &&& forall|p: int, q: int|
            #![trigger self.conn()[p]@[q]]
            0 <= p < top.n() && 0 <= q < top.n() ==> ((self.conn()[p]@[q] != 0)
                <==> logical_edge_mapped(self.ltop(), self.l2p(), p, q))
        &&& embedding_ok(self.ltop(), top, self.l2p())
    }
}

impl<L: Routing, M: GeneralPattern<usize, usize>> Routing for SubTopologyRouting<L, M> {
    open spec fn wf(&self) -> bool {
        &&& self.inner().wf()
        &&& self.ltop().wf()
        &&& forall|i: usize| #[trigger] self.map_of().req(i)
    }

    open spec fn initialized(&self, top: Topology) -> bool {
        &&& self.tables_ok(top)
        &&& self.inner().initialized(self.ltop())
    }

    open spec fn info_ok(
        &self,
        top: Topology,
        info: RoutingInfo,
        current: usize,
        target: usize,
        num_vc: usize,
    ) -> bool {
        &&& info.visited_routers@.len() >= 1
        &&& info.visited_routers@[0] < top.n()
        &&& info.meta@.len() == 1
        &&& self.inner().info_ok(
            self.ltop(),
            info.meta@[0],
            self.p2l()[current as int],
            self.p2l()[target as int],
            num_vc,
        )
    }

    open spec fn next_req(&self, top: Topology, num_vc: usize) -> bool {
        self.inner().next_req(self.ltop(), num_vc)
    }

    open spec fn next_ens(
        &self,
        top: Topology,
        info: RoutingInfo,
        current: usize,
        target: usize,
        num_vc: usize,
        r: Result<RoutingNextCandidates, Error>,
    ) -> bool {
        match r {
            Ok(rc) => {
                &&& labels_normalized(rc.candidates@)
                &&& exists|irc: RoutingNextCandidates, shift: int|
                    #![trigger self.inner().next_ens(self.ltop(), info.meta@[0], self.p2l()[current as int], self.p2l()[target as int], num_vc, Ok(irc)), crate::model::clamp_label(shift)]
                    {
                        &&& self.inner().next_ens(
                            self.ltop(),
                            info.meta@[0],
                            self.p2l()[current as int],
                            self.p2l()[target as int],
                            num_vc,
                            Ok(irc),
                        )
                        &&& rc.idempotent == irc.idempotent
                        &&& rc.candidates@.len() >= irc.candidates@.len()
                        &&& (!self.opportunistic() ==> rc.candidates@.len()
                            == irc.candidates@.len())
                        &&& forall|k: int|
                            0 <= k < irc.candidates@.len() ==> translated_candidate(
                                self.ltop(),
                                top,
                                self.l2p(),
                                self.p2l()[current as int],
                                info.visited_routers@[0],
                                current,
                                target,
                                irc.candidates@[k],
                                #[trigger] rc.candidates@[k],
                                shift,
                            )
                        &&& forall|k: int|
                            irc.candidates@.len() <= k < rc.candidates@.len()
                                ==> opportunistic_candidate(
                                top,
                                self.conn(),
                                info.visited_routers@[0],
                                current,
                                target,
                                info.hops as nat,
                                self.livelock(),
                                num_vc,
                                #[trigger] rc.candidates@[k],
                                shift,
                            )
                        &&& (self.opportunistic() ==> opportunistic_complete(
                            top,
                            self.conn(),
                            info.visited_routers@[0],
                            current,
                            target,
                            info.hops as nat,
                            self.livelock(),
                            num_vc,
                            irc.candidates@.len() as int,
                            rc.candidates@,
                        ))
                    }
            },
            Err(e) => {
                ||| self.inner().next_ens(
                    self.ltop(),
                    info.meta@[0],
                    self.p2l()[current as int],
                    self.p2l()[target as int],
                    num_vc,
                    Err(e),
                )
                ||| (e is LogicalEdgeNotPhysical && exists|irc: RoutingNextCandidates|
                    {
                        &&& #[trigger] self.inner().next_ens(
                            self.ltop(),
                            info.meta@[0],
                            self.p2l()[current as int],
                            self.p2l()[target as int],
                            num_vc,
                            Ok(irc),
                        )
                        &&& exists|k: int|
                            0 <= k < irc.candidates@.len() && (self.ltop().ports_of(
                                self.p2l()[current as int] as int,
                            )[(#[trigger] irc.candidates@[k]).port as int]) is ServerPort
                    })
            },
        }
    }

    open spec fn init_info_ens(
        &self,
        top: Topology,
        prev: RoutingInfo,
        info: RoutingInfo,
        current: usize,
        target: usize,
        r: Result<(), Error>,
    ) -> bool {
        &&& info.hops == prev.hops
        &&& info.source_server == prev.source_server
        &&& info.selections == prev.selections
        &&& info.visited_routers@ == prev.visited_routers@.push(current)
        &&& r is Ok ==> {
            &&& info.meta@.len() == 1
            &&& exists|fresh: RoutingInfo|
                #[trigger] crate::stubborn::is_fresh_info(fresh) && self.inner().init_info_ens(
                    self.ltop(),
                    fresh,
                    info.meta@[0],
                    self.p2l()[current as int],
                    self.p2l()[target as int],
                    Ok(()),
                )
        }
        &&& (r matches Err(e) ==> {
            &&& info.meta@ == prev.meta@
            &&& exists|fresh: RoutingInfo|
                #[trigger] crate::stubborn::is_fresh_info(fresh) && exists|after: RoutingInfo|
                    self.inner().init_info_ens(
                        self.ltop(),
                        fresh,
                        after,
                        self.p2l()[current as int],
                        self.p2l()[target as int],
                        Err(e),
                    )
        })
    }

    open spec fn update_req(
        &self,
        top: Topology,
        info: RoutingInfo,
        current: usize,
        port: usize,
        target: usize,
    ) -> bool {
        &&& info.meta@.len() == 1
        &&& info.meta@[0].hops < usize::MAX
        &&& info.visited_routers@.len() >= 1
        &&& info.visited_routers@[0] < top.n()
        &&& forall|lport: usize, prev_child: RoutingInfo|
            #![trigger self.inner().update_req(self.ltop(), prev_child, self.p2l()[current as int], lport, self.p2l()[target as int])]
            lport < self.ltop().ports_of(self.p2l()[current as int] as int).len() && prev_child
                == (RoutingInfo { hops: (info.meta@[0].hops + 1) as usize, ..info.meta@[0] })
                ==> self.inner().update_req(
                self.ltop(),
                prev_child,
                self.p2l()[current as int],
                lport,
                self.p2l()[target as int],
            )
    }

    open spec fn update_ens(
        &self,
        top: Topology,
        prev: RoutingInfo,
        info: RoutingInfo,
        current: usize,
        port: usize,
        target: usize,
        r: Result<(), Error>,
    ) -> bool {
        &&& info.hops == prev.hops
        &&& info.source_server == prev.source_server
        &&& info.selections == prev.selections
        &&& info.visited_routers@ == prev.visited_routers@.push(current)
        &&& (r is Ok ==> {
            &&& info.meta@.len() == 1
            &&& ({
                ||| exists|lport: usize|
                    #![trigger self.ltop().ports_of(self.p2l()[current as int] as int)[lport as int]]
                    {
                        &&& (lport as int) < self.ltop().ports_of(
                            self.p2l()[current as int] as int,
                        ).len()
                        &&& self.inner().update_ens(
                            self.ltop(),
                            RoutingInfo { hops: (prev.meta@[0].hops + 1) as usize, ..prev.meta@[0] },
                            info.meta@[0],
                            self.p2l()[current as int],
                            lport,
                            self.p2l()[target as int],
                            Ok(()),
                        )
                    }
                ||| exists|fresh: RoutingInfo|
                    #[trigger] crate::sum::is_fresh_with_source(fresh, None)
                        && self.inner().init_info_ens(
                        self.ltop(),
                        fresh,
                        info.meta@[0],
                        self.p2l()[current as int],
                        self.p2l()[target as int],
                        Ok(()),
                    )
            })
        })
        &&& (r matches Err(e) ==> {
            ||| (e is SelectionMismatch && info.meta@ == prev.meta@)
            ||| exists|lport: usize|
                #![trigger self.ltop().ports_of(self.p2l()[current as int] as int)[lport as int]]
                {
                    &&& (lport as int) < self.ltop().ports_of(
                        self.p2l()[current as int] as int,
                    ).len()
                    &&& self.inner().update_ens(
                        self.ltop(),
                        RoutingInfo { hops: (prev.meta@[0].hops + 1) as usize, ..prev.meta@[0] },
                        info.meta@[0],
                        self.p2l()[current as int],
                        lport,
                        self.p2l()[target as int],
                        Err(e),
                    )
                }
            ||| (info.meta@ == prev.meta@ && exists|fresh: RoutingInfo|
                #[trigger] crate::stubborn::is_fresh_info(fresh) && exists|after: RoutingInfo|
                    self.inner().init_info_ens(
                        self.ltop(),
                        fresh,
                        after,
                        self.p2l()[current as int],
                        self.p2l()[target as int],
                        Err(e),
                    ))
        })
    }

    open spec fn performed_req(
        &self,
        top: Topology,
        info: RoutingInfo,
        requested: CandidateEgress,
        current: usize,
        target: usize,
        num_vc: usize,
    ) -> bool {
        true
    }

    open spec fn performed_ens(
        &self,
        top: Topology,
        prev: RoutingInfo,
        info: RoutingInfo,
        requested: CandidateEgress,
        current: usize,
        target: usize,
        num_vc: usize,
    ) -> bool {
        info == prev
    }

    open spec fn init_ens(&self, prev: Self, top: Topology, r: Result<(), Error>) -> bool {
        &&& self.ltop() == prev.ltop()
        &&& r is Ok ==> self.tables_ok(top)
        &&& (r matches Err(e) ==> {
            ||| (e is MismatchedSizes && sizes_failure_witnessed(*self, prev, top))
            ||| (e is LogicalEdgeNotPhysical && (embedding_failure_witnessed(
                *self,
                top,
                e->LogicalEdgeNotPhysical_logical_origin,
                e->LogicalEdgeNotPhysical_logical_neighbour,
            ) || self.inner().init_ens(prev.inner(), self.ltop(), Err(e))))
            ||| self.inner().init_ens(prev.inner(), self.ltop(), Err(e))
        })
    }

    #[verifier::loop_isolation(false)]
    fn next(
        &self,
        info: &RoutingInfo,
        top: &Topology,
        current_router: usize,
        target_router: usize,
        target_server: Option<usize>,
        num_virtual_channels: usize,
        rng: &mut StdRng,
    ) -> (r: Result<RoutingNextCandidates, Error>) {
        if target_router == current_router {
            return candidates_to_server(
                top,
                current_router,
                target_server.unwrap(),
                num_virtual_channels,
            );
        }
        let source_router = info.visited_routers[0];
        proof {
            top.lemma_wf_dist_bound(source_router as int, current_router as int);
            top.lemma_wf_dist_bound(current_router as int, target_router as int);
        }
        let a = top.distance(source_router, current_router);
        let b = top.distance(current_router, target_router);
        let weight: i64 = b as i64 - a as i64;

        let logical_current = self.physical_to_logical[current_router];
        let logical_target = self.physical_to_logical[target_router];
        proof {
            assert(self.l2p()[self.p2l()[current_router as int] as int] == current_router);
            assert(self.l2p()[self.p2l()[target_router as int] as int] == target_router);
        }
        let logical_rc = match self.logical_routing.next(
            &info.meta[0],
            &self.logical_topology,
            logical_current,
            logical_target,
            None,
            num_virtual_channels,
            rng,
        ) {
            Ok(rc) => rc,
            Err(e) => {
                return Err(e);
            },
        };
        let ghost logical_snapshot = logical_rc;
        let mut raw: Vec<(CandidateEgress, i64)> = Vec::new();
        let logical_candidates = logical_rc.candidates;
        let mut k: usize = 0;
        while k < logical_candidates.len()
            invariant
                k <= logical_candidates@.len(),
                raw@.len() == k,
                current_router < top.n(),
                target_router < top.n(),
                source_router < top.n(),
                forall|m: int|
                    0 <= m < raw@.len() ==> (#[trigger] raw@[m]).0.port < top.ports_of(
                        current_router as int,
                    ).len() && raw@[m].0.virtual_channel < num_virtual_channels
                        && -0x1_0000_0000 <= raw@[m].1 <= 0x1_0000_0000,
                forall|m: int|
                    0 <= m < raw@.len() ==> translated_raw(
                        self.ltop(),
                        *top,
                        self.l2p(),
                        logical_current,
                        source_router,
                        current_router,
                        target_router,
                        logical_candidates@[m],
                        (#[trigger] raw@[m]).0,
                        raw@[m].1 as int,
                    ),
                forall|m: int|
                    0 <= m < logical_candidates@.len()
                        ==> (#[trigger] logical_candidates@[m]).port < self.ltop().ports_of(
                        logical_current as int,
                    ).len() && logical_candidates@[m].virtual_channel < num_virtual_channels,
            decreases logical_candidates@.len() - k,
        {
            let c = &logical_candidates[k];
            let loc = self.logical_topology.neighbour(logical_current, c.port);
            let next_logical_router = match loc {
                Location::RouterPort { router_index, router_port: _ } => router_index,
                Location::ServerPort(_) => {
                    proof {
                        assert(self.inner().next_ens(
                            self.ltop(),
                            info.meta@[0],
                            logical_current,
                            logical_target,
                            num_virtual_channels,
                            Ok(logical_snapshot),
                        ));
                        assert((self.ltop().ports_of(logical_current as int)[(
                        logical_snapshot.candidates@[k as int]).port as int]) is ServerPort);
                    }
                    return Err(
                        Error::LogicalEdgeNotPhysical {
                            logical_origin: logical_current,
                            logical_neighbour: logical_current,
                        },
                    );
                },
            };
            proof {
                self.ltop().lemma_wf_location(logical_current as int, c.port as int);
                assert(physical_edge(
                    *top,
                    self.l2p()[logical_current as int] as int,
                    self.l2p()[next_logical_router as int] as int,
                ));
                assert(self.l2p()[self.p2l()[current_router as int] as int] == current_router);
            }
            let next_physical_router = self.logical_to_physical[next_logical_router];
            let num_ports = top.ports(current_router);
            let mut physical_port: usize = 0;
            let mut found = false;
            let mut p: usize = 0;
            while p < num_ports
                invariant
                    p <= num_ports,
                    num_ports == top.ports_of(current_router as int).len(),
                    found ==> physical_port < num_ports,
                    found ==> (top.ports_of(current_router as int)[physical_port as int]
                        matches Location::RouterPort { router_index, .. } && router_index
                        == next_physical_router),
                    !found ==> forall|q: int|
                        0 <= q < p ==> !((#[trigger] top.ports_of(current_router as int)[q])
                            matches Location::RouterPort { router_index, .. } && router_index
                            == next_physical_router),
                decreases num_ports - p,
            {
                if !found {
                    match top.neighbour(current_router, p) {
                        Location::RouterPort { router_index, router_port: _ } => {
                            if router_index == next_physical_router {
                                physical_port = p;
                                found = true;
                            }
                        },
                        Location::ServerPort(_) => {},
                    }
                }
                p += 1;
            }
            if !found {
                // After a successful initialization the embedding invariant
                // makes this unreachable: every logical edge has a physical
                // counterpart at the image router.
                proof {
                    assert(!physical_edge(
                        *top,
                        current_router as int,
                        next_physical_router as int,
                    ));
                    assert(false);
                }
                return Err(
                    Error::LogicalEdgeNotPhysical {
                        logical_origin: logical_current,
                        logical_neighbour: next_logical_router,
                    },
                );
            }
            proof {
                top.lemma_wf_dist_bound(source_router as int, next_physical_router as int);
                top.lemma_wf_dist_bound(next_physical_router as int, target_router as int);
            }
            let new_a = top.distance(source_router, next_physical_router);
            let new_b = top.distance(next_physical_router, target_router);
            let new_weight: i64 = new_b as i64 - new_a as i64;
            let label64: i64 = new_weight - weight;
            let mut values = c.annotation.values.clone();
            proof {
                assert(values@ =~= c.annotation.values@);
            }
            let egress = CandidateEgress {
                port: physical_port,
                virtual_channel: c.virtual_channel,
                label: 0,
                estimated_remaining_hops: None,
                router_allows: None,
                annotation: crate::model::RoutingAnnotation { values },
            };
            proof {
                assert(label64 as int == weight_delta(
                    *top,
                    source_router,
                    current_router,
                    target_router,
                    next_physical_router as int,
                ));
                assert(translated_raw(
                    self.ltop(),
                    *top,
                    self.l2p(),
                    logical_current,
                    source_router,
                    current_router,
                    target_router,
                    logical_candidates@[k as int],
                    egress,
                    label64 as int,
                ));
            }
            raw.push((egress, label64));
            k += 1;
        }
        let ghost lcl0: int = logical_candidates@.len() as int;
        if self.opportunistic_hops {
            let num_ports = top.ports(current_router);
            let diameter = top.diameter();
            let mut p: usize = 0;
            while p < num_ports
                invariant
                    p <= num_ports,
                    num_ports == top.ports_of(current_router as int).len(),
                    current_router < top.n(),
                    target_router < top.n(),
                    source_router < top.n(),
                    raw@.len() >= logical_candidates@.len(),
                    forall|m: int|
                        0 <= m < raw@.len() ==> (#[trigger] raw@[m]).0.port < top.ports_of(
                            current_router as int,
                        ).len() && raw@[m].0.virtual_channel < num_virtual_channels
                            && -0x1_0000_0000 <= raw@[m].1 <= 0x1_0000_0000,
                    forall|m: int|
                        0 <= m < logical_candidates@.len() ==> translated_raw(
                            self.ltop(),
                            *top,
                            self.l2p(),
                            logical_current,
                            source_router,
                            current_router,
                            target_router,
                            logical_candidates@[m],
                            (#[trigger] raw@[m]).0,
                            raw@[m].1 as int,
                        ),
                    forall|m: int|
                        logical_candidates@.len() <= m < raw@.len() ==> opportunistic_raw(
                            *top,
                            self.conn(),
                            source_router,
                            current_router,
                            target_router,
                            info.hops as nat,
                            self.livelock(),
                            num_virtual_channels,
                            (#[trigger] raw@[m]).0,
                            raw@[m].1 as int,
                        ),
                    weight == b as i64 - a as i64,
                    forall|pp: int, vc: int|
                        0 <= pp < p && opportunistic_admissible(
                            *top,
                            self.conn(),
                            source_router,
                            current_router,
                            target_router,
                            info.hops as nat,
                            self.livelock(),
                            pp,
                        ) && 0 <= vc < num_virtual_channels ==> #[trigger] raw_slot_filled(
                            raw@,
                            lcl0,
                            pp,
                            vc,
                        ),
                decreases num_ports - p,
            {
                let ghost raw_at_p = raw@;
                match top.neighbour(current_router, p) {
                    Location::RouterPort { router_index: physical_neighbour, router_port: _ } => {
                        proof {
                            top.lemma_wf_location(current_router as int, p as int);
                        }
                        let is_logical = self.logical_topology_connections[current_router][physical_neighbour]
                            != 0;
                        if !is_logical {
                            proof {
                                top.lemma_wf_dist_bound(
                                    source_router as int,
                                    physical_neighbour as int,
                                );
                                top.lemma_wf_dist_bound(
                                    physical_neighbour as int,
                                    target_router as int,
                                );
                            }
                            let new_a = top.distance(source_router, physical_neighbour);
                            let new_b = top.distance(physical_neighbour, target_router);
                            let new_weight: i64 = new_b as i64 - new_a as i64;
                            let livelock_blocked = self.livelock_avoidance && info.hops >= diameter
                                && new_b >= b;
                            if !livelock_blocked {
                                let minimal = new_weight < weight && new_b < b;
                                let non_minimal = new_weight < weight || (new_weight == weight
                                    && if a < b {
                                    a < new_a
                                } else {
                                    new_b < b
                                });
                                if minimal || non_minimal {
                                    let label64: i64 = new_weight - weight;
                                    proof {
                                        assert(label64 as int == weight_delta(
                                            *top,
                                            source_router,
                                            current_router,
                                            target_router,
                                            physical_neighbour as int,
                                        ));
                                        assert(opportunistic_admitted(
                                            *top,
                                            source_router,
                                            current_router,
                                            target_router,
                                            info.hops as nat,
                                            self.livelock(),
                                            physical_neighbour as int,
                                        ));
                                        assert(self.conn()[current_router as int]@[physical_neighbour as int]
                                            == 0);
                                    }
                                    let mut vc: usize = 0;
                                    while vc < num_virtual_channels
                                        invariant
                                            vc <= num_virtual_channels,
                                            p < num_ports,
                                            raw@.len() >= logical_candidates@.len(),
                                            num_ports == top.ports_of(
                                                current_router as int,
                                            ).len(),
                                            forall|m: int|
                                                0 <= m < raw@.len() ==> (#[trigger] raw@[m]).0.port
                                                    < top.ports_of(current_router as int).len()
                                                    && raw@[m].0.virtual_channel
                                                    < num_virtual_channels && -0x1_0000_0000 <= raw@[m].1
                                                    <= 0x1_0000_0000,
                                            forall|m: int|
                                                0 <= m < logical_candidates@.len()
                                                    ==> translated_raw(
                                                    self.ltop(),
                                                    *top,
                                                    self.l2p(),
                                                    logical_current,
                                                    source_router,
                                                    current_router,
                                                    target_router,
                                                    logical_candidates@[m],
                                                    (#[trigger] raw@[m]).0,
                                                    raw@[m].1 as int,
                                                ),
                                            forall|m: int|
                                                logical_candidates@.len() <= m < raw@.len()
                                                    ==> opportunistic_raw(
                                                    *top,
                                                    self.conn(),
                                                    source_router,
                                                    current_router,
                                                    target_router,
                                                    info.hops as nat,
                                                    self.livelock(),
                                                    num_virtual_channels,
                                                    (#[trigger] raw@[m]).0,
                                                    raw@[m].1 as int,
                                                ),
                                            weight == b as i64 - a as i64,
                                            -0x1_0000_0000 <= label64 <= 0x1_0000_0000,
                                            label64 as int == weight_delta(
                                                *top,
                                                source_router,
                                                current_router,
                                                target_router,
                                                physical_neighbour as int,
                                            ),
                                            top.ports_of(current_router as int)[p as int]
                                                matches Location::RouterPort { router_index, .. }
                                                && router_index == physical_neighbour,
                                            opportunistic_admitted(
                                                *top,
                                                source_router,
                                                current_router,
                                                target_router,
                                                info.hops as nat,
                                                self.livelock(),
                                                physical_neighbour as int,
                                            ),
                                            self.conn()[current_router as int]@[physical_neighbour as int]
                                                == 0,
                                            forall|vcc: int|
                                                0 <= vcc < vc ==> #[trigger] raw_slot_filled(
                                                    raw@,
                                                    lcl0,
                                                    p as int,
                                                    vcc,
                                                ),
                                            forall|pp: int, vcx: int|
                                                0 <= pp < p && opportunistic_admissible(
                                                    *top,
                                                    self.conn(),
                                                    source_router,
                                                    current_router,
                                                    target_router,
                                                    info.hops as nat,
                                                    self.livelock(),
                                                    pp,
                                                ) && 0 <= vcx < num_virtual_channels
                                                    ==> #[trigger] raw_slot_filled(
                                                    raw@,
                                                    lcl0,
                                                    pp,
                                                    vcx,
                                                ),
                                        decreases num_virtual_channels - vc,
                                    {
                                        let egress = CandidateEgress::new(p, vc);
                                        proof {
                                            assert(opportunistic_raw(
                                                *top,
                                                self.conn(),
                                                source_router,
                                                current_router,
                                                target_router,
                                                info.hops as nat,
                                                self.livelock(),
                                                num_virtual_channels,
                                                egress,
                                                label64 as int,
                                            ));
                                        }
                                        let ghost prev_raw = raw@;
                                        raw.push((egress, label64));
                                        proof {
                                            assert(raw@[prev_raw.len() as int].0 == egress);
                                            assert(raw_slot_filled(raw@, lcl0, p as int, vc as int));
                                            assert forall|vcc: int|
                                                0 <= vcc < vc + 1 implies #[trigger] raw_slot_filled(
                                                raw@,
                                                lcl0,
                                                p as int,
                                                vcc,
                                            ) by {
                                                if vcc < vc {
                                                    assert(raw_slot_filled(
                                                        prev_raw,
                                                        lcl0,
                                                        p as int,
                                                        vcc,
                                                    ));
                                                    let k0 = choose|k: int|
                                                        lcl0 <= k < prev_raw.len() && (
                                                        #[trigger] prev_raw[k]).0.port as int
                                                            == p as int
                                                            && prev_raw[k].0.virtual_channel as int
                                                            == vcc;
                                                    assert(raw@[k0] == prev_raw[k0]);
                                                }
                                            }
                                            assert forall|pp: int, vcx: int|
                                                0 <= pp < p && opportunistic_admissible(
                                                    *top,
                                                    self.conn(),
                                                    source_router,
                                                    current_router,
                                                    target_router,
                                                    info.hops as nat,
                                                    self.livelock(),
                                                    pp,
                                                ) && 0 <= vcx < num_virtual_channels implies #[trigger] raw_slot_filled(
                                                raw@,
                                                lcl0,
                                                pp,
                                                vcx,
                                            ) by {
                                                assert(raw_slot_filled(prev_raw, lcl0, pp, vcx));
                                                let k0 = choose|k: int|
                                                    lcl0 <= k < prev_raw.len() && (
                                                    #[trigger] prev_raw[k]).0.port as int == pp
                                                        && prev_raw[k].0.virtual_channel as int
                                                        == vcx;
                                                assert(raw@[k0] == prev_raw[k0]);
                                            }
                                        }
                                        vc += 1;
                                    }
                                    proof {
                                        assert forall|pp: int, vcx: int|
                                            0 <= pp < p + 1 && opportunistic_admissible(
                                                *top,
                                                self.conn(),
                                                source_router,
                                                current_router,
                                                target_router,
                                                info.hops as nat,
                                                self.livelock(),
                                                pp,
                                            ) && 0 <= vcx < num_virtual_channels implies #[trigger] raw_slot_filled(
                                            raw@,
                                            lcl0,
                                            pp,
                                            vcx,
                                        ) by {}
                                    }
                                } else {
                                    proof {
                                        assert forall|pp: int, vcx: int|
                                            0 <= pp < p + 1 && opportunistic_admissible(
                                                *top,
                                                self.conn(),
                                                source_router,
                                                current_router,
                                                target_router,
                                                info.hops as nat,
                                                self.livelock(),
                                                pp,
                                            ) && 0 <= vcx < num_virtual_channels implies #[trigger] raw_slot_filled(
                                            raw@,
                                            lcl0,
                                            pp,
                                            vcx,
                                        ) by {
                                            if pp == p as int {
                                                assert(!opportunistic_admitted(
                                                    *top,
                                                    source_router,
                                                    current_router,
                                                    target_router,
                                                    info.hops as nat,
                                                    self.livelock(),
                                                    physical_neighbour as int,
                                                ));
                                                assert(false);
                                            }
                                        }
                                    }
                                }
                            } else {
                                proof {
                                    assert forall|pp: int, vcx: int|
                                        0 <= pp < p + 1 && opportunistic_admissible(
                                            *top,
                                            self.conn(),
                                            source_router,
                                            current_router,
                                            target_router,
                                            info.hops as nat,
                                            self.livelock(),
                                            pp,
                                        ) && 0 <= vcx < num_virtual_channels implies #[trigger] raw_slot_filled(
                                        raw@,
                                        lcl0,
                                        pp,
                                        vcx,
                                    ) by {
                                        if pp == p as int {
                                            assert(!opportunistic_admitted(
                                                *top,
                                                source_router,
                                                current_router,
                                                target_router,
                                                info.hops as nat,
                                                self.livelock(),
                                                physical_neighbour as int,
                                            ));
                                            assert(false);
                                        }
                                    }
                                }
                            }
                        } else {
                            proof {
                                assert forall|pp: int, vcx: int|
                                    0 <= pp < p + 1 && opportunistic_admissible(
                                        *top,
                                        self.conn(),
                                        source_router,
                                        current_router,
                                        target_router,
                                        info.hops as nat,
                                        self.livelock(),
                                        pp,
                                    ) && 0 <= vcx < num_virtual_channels implies #[trigger] raw_slot_filled(
                                    raw@,
                                    lcl0,
                                    pp,
                                    vcx,
                                ) by {
                                    if pp == p as int {
                                        assert(self.conn()[current_router as int]@[physical_neighbour as int]
                                            != 0);
                                        assert(false);
                                    }
                                }
                            }
                        }
                    },
                    Location::ServerPort(_) => {
                        proof {
                            assert forall|pp: int, vcx: int|
                                0 <= pp < p + 1 && opportunistic_admissible(
                                    *top,
                                    self.conn(),
                                    source_router,
                                    current_router,
                                    target_router,
                                    info.hops as nat,
                                    self.livelock(),
                                    pp,
                                ) && 0 <= vcx < num_virtual_channels implies #[trigger] raw_slot_filled(
                                raw@,
                                lcl0,
                                pp,
                                vcx,
                            ) by {
                                if pp == p as int {
                                    assert(false);
                                }
                            }
                        }
                    },
                }
                p += 1;
            }
        }
        let mut min_label: i64 = 0;
        let mut have_min = false;
        let mut k: usize = 0;
        while k < raw.len()
            invariant
                k <= raw@.len(),
                have_min <==> (k > 0 && raw@.len() > 0),
                have_min ==> (exists|m: int| 0 <= m < k && (#[trigger] raw@[m]).1 == min_label),
                have_min ==> forall|m: int| 0 <= m < k ==> min_label <= (#[trigger] raw@[m]).1,
                have_min ==> -0x1_0000_0000 <= min_label <= 0x1_0000_0000,
                forall|m: int|
                    0 <= m < raw@.len() ==> (#[trigger] raw@[m]).0.port < top.ports_of(
                        current_router as int,
                    ).len() && raw@[m].0.virtual_channel < num_virtual_channels
                        && -0x1_0000_0000 <= raw@[m].1 <= 0x1_0000_0000,
            decreases raw@.len() - k,
        {
            let v = raw[k].1;
            if !have_min || v < min_label {
                min_label = v;
                have_min = true;
            }
            k += 1;
        }
        let mut candidates: Vec<CandidateEgress> = Vec::new();
        let ghost raw_snapshot = raw@;
        let mut k: usize = 0;
        let raw_len = raw.len();
        while k < raw_len
            invariant
                k <= raw_len,
                raw_len == raw@.len(),
                raw@ == raw_snapshot,
                candidates@.len() == k,
                raw@.len() > 0 ==> have_min,
                have_min ==> forall|m: int|
                    0 <= m < raw@.len() ==> min_label <= (#[trigger] raw@[m]).1,
                have_min ==> exists|m: int|
                    0 <= m < raw@.len() && (#[trigger] raw@[m]).1 == min_label,
                have_min ==> -0x1_0000_0000 <= min_label <= 0x1_0000_0000,
                forall|m: int| 0 <= m < k ==> (#[trigger] candidates@[m]).label >= 0,
                forall|m: int|
                    0 <= m < k ==> (#[trigger] candidates@[m]).label as int == if raw@[m].1
                        - min_label > 0x7fff_ffff {
                        0x7fff_ffff as int
                    } else {
                        raw@[m].1 - min_label
                    },
                forall|m: int|
                    0 <= m < k ==> (#[trigger] candidates@[m]).port < top.ports_of(
                        current_router as int,
                    ).len() && candidates@[m].virtual_channel < num_virtual_channels,
                forall|m: int|
                    0 <= m < k ==> {
                        &&& (#[trigger] candidates@[m]).port == raw@[m].0.port
                        &&& candidates@[m].virtual_channel == raw@[m].0.virtual_channel
                        &&& candidates@[m].estimated_remaining_hops
                            == raw@[m].0.estimated_remaining_hops
                        &&& candidates@[m].router_allows == raw@[m].0.router_allows
                        &&& candidates@[m].annotation.values@ == raw@[m].0.annotation.values@
                    },
                forall|m: int|
                    0 <= m < raw@.len() ==> (#[trigger] raw@[m]).0.port < top.ports_of(
                        current_router as int,
                    ).len() && raw@[m].0.virtual_channel < num_virtual_channels
                        && -0x1_0000_0000 <= raw@[m].1 <= 0x1_0000_0000,
            decreases raw_len - k,
        {
            let pair = &raw[k];
            let shifted: i64 = pair.1 - min_label;
            let label: i32 = if shifted > 0x7fff_ffffi64 {
                0x7fff_ffffi32
            } else {
                shifted as i32
            };
            let mut values = pair.0.annotation.values.clone();
            proof {
                assert(values@ =~= raw@[k as int].0.annotation.values@);
            }
            candidates.push(
                CandidateEgress {
                    port: pair.0.port,
                    virtual_channel: pair.0.virtual_channel,
                    label,
                    estimated_remaining_hops: pair.0.estimated_remaining_hops,
                    router_allows: pair.0.router_allows,
                    annotation: crate::model::RoutingAnnotation { values },
                },
            );
            k += 1;
        }
        proof {
            if candidates@.len() > 0 {
                let m = choose|m: int| 0 <= m < raw@.len() && (#[trigger] raw@[m]).1 == min_label;
                assert(candidates@[m].label == 0);
            }
            assert(self.inner().next_ens(
                self.ltop(),
                info.meta@[0],
                self.p2l()[current_router as int],
                self.p2l()[target_router as int],
                num_virtual_channels,
                Ok(logical_snapshot),
            ));
            let shift = min_label as int;
            assert(crate::model::clamp_label(shift) >= -0x8000_0000);
            assert(logical_snapshot.candidates@ == logical_candidates@);
            let lcl = logical_candidates@.len() as int;
            assert(raw@.len() >= lcl);
            assert(!self.opportunistic() ==> raw@.len() == lcl);
            assert forall|m: int| 0 <= m < lcl implies translated_candidate(
                self.ltop(),
                *top,
                self.l2p(),
                self.p2l()[current_router as int],
                info.visited_routers@[0],
                current_router,
                target_router,
                logical_snapshot.candidates@[m],
                #[trigger] candidates@[m],
                shift,
            ) by {
                assert(translated_raw(
                    self.ltop(),
                    *top,
                    self.l2p(),
                    logical_current,
                    source_router,
                    current_router,
                    target_router,
                    logical_candidates@[m],
                    raw@[m].0,
                    raw@[m].1 as int,
                ));
                assert(raw@[m].1 - min_label >= 0);
            };
            assert forall|m: int| lcl <= m < candidates@.len() implies opportunistic_candidate(
                *top,
                self.conn(),
                info.visited_routers@[0],
                current_router,
                target_router,
                info.hops as nat,
                self.livelock(),
                num_virtual_channels,
                #[trigger] candidates@[m],
                shift,
            ) by {
                assert(opportunistic_raw(
                    *top,
                    self.conn(),
                    source_router,
                    current_router,
                    target_router,
                    info.hops as nat,
                    self.livelock(),
                    num_virtual_channels,
                    raw@[m].0,
                    raw@[m].1 as int,
                ));
                assert(raw@[m].1 - min_label >= 0);
            };
            if self.opportunistic_hops {
                assert forall|pq: int, vcq: int|
                    opportunistic_admissible(
                        *top,
                        self.conn(),
                        source_router,
                        current_router,
                        target_router,
                        info.hops as nat,
                        self.livelock(),
                        pq,
                    ) && 0 <= vcq < num_virtual_channels implies #[trigger] opportunistic_slot_filled(
                    candidates@,
                    lcl0,
                    pq,
                    vcq,
                ) by {
                    assert(raw_slot_filled(raw@, lcl0, pq, vcq));
                    let k0 = choose|k: int|
                        lcl0 <= k < raw@.len() && (#[trigger] raw@[k]).0.port as int == pq
                            && raw@[k].0.virtual_channel as int == vcq;
                    assert(candidates@[k0].port == raw@[k0].0.port);
                    assert(candidates@[k0].virtual_channel == raw@[k0].0.virtual_channel);
                }
                assert(opportunistic_complete(
                    *top,
                    self.conn(),
                    source_router,
                    current_router,
                    target_router,
                    info.hops as nat,
                    self.livelock(),
                    num_virtual_channels,
                    lcl0,
                    candidates@,
                ));
            }
        }
        Ok(RoutingNextCandidates { candidates, idempotent: logical_rc.idempotent })
    }

    fn initialize_routing_info(
        &self,
        info: &mut RoutingInfo,
        top: &Topology,
        current_router: usize,
        target_router: usize,
        target_server: Option<usize>,
        rng: &mut StdRng,
    ) -> (r: Result<(), Error>) {
        info.visited_routers.push(current_router);
        let logical_current = self.physical_to_logical[current_router];
        let logical_target = self.physical_to_logical[target_router];
        let mut child = RoutingInfo::new();
        let ghost fresh = child;
        match self.logical_routing.initialize_routing_info(
            &mut child,
            &self.logical_topology,
            logical_current,
            logical_target,
            None,
            rng,
        ) {
            Ok(u) => {
                info.meta.push(child);
                proof {
                    assert(crate::stubborn::is_fresh_info(fresh));
                    assert(info.meta@[0] == child);
                    assert(Ok::<(), Error>(u) == Ok::<(), Error>(()));
                }
                Ok(())
            },
            Err(e) => {
                proof {
                    assert(crate::stubborn::is_fresh_info(fresh));
                    assert(self.inner().init_info_ens(
                        self.ltop(),
                        fresh,
                        child,
                        self.p2l()[current_router as int],
                        self.p2l()[target_router as int],
                        Err(e),
                    ));
                }
                Err(e)
            },
        }
    }

    #[verifier::loop_isolation(false)]
    fn update_routing_info(
        &self,
        info: &mut RoutingInfo,
        top: &Topology,
        current_router: usize,
        current_port: usize,
        target_router: usize,
        target_server: Option<usize>,
        rng: &mut StdRng,
    ) -> (r: Result<(), Error>) {
        info.visited_routers.push(current_router);
        let logical_current = self.physical_to_logical[current_router];
        let logical_target = self.physical_to_logical[target_router];
        proof {
            assert(self.l2p()[self.p2l()[current_router as int] as int] == current_router);
            assert(self.l2p()[self.p2l()[target_router as int] as int] == target_router);
            assert(self.p2l()[current_router as int] < top.n());
            assert(self.p2l()[target_router as int] < top.n());
        }
        let previous_location = top.neighbour(current_router, current_port);
        let previous_physical_router = match previous_location {
            Location::RouterPort { router_index, router_port: _ } => router_index,
            Location::ServerPort(_) => {
                return Err(Error::SelectionMismatch { current_router });
            },
        };
        proof {
            top.lemma_wf_location(current_router as int, current_port as int);
        }
        let prev_logical_router = self.physical_to_logical[previous_physical_router];
        let lports = self.logical_topology.ports(logical_current);
        let mut logical_port: usize = 0;
        let mut found = false;
        let mut q: usize = 0;
        while q < lports
            invariant
                q <= lports,
                lports == self.ltop().ports_of(logical_current as int).len(),
                found ==> logical_port < lports,
            decreases lports - q,
        {
            if !found {
                match self.logical_topology.neighbour(logical_current, q) {
                    Location::RouterPort { router_index, router_port: _ } => {
                        if router_index == prev_logical_router {
                            logical_port = q;
                            found = true;
                        }
                    },
                    Location::ServerPort(_) => {},
                }
            }
            q += 1;
        }
        if found {
            let mut child = info.meta.remove(0);
            child.hops = child.hops + 1;
            let cr = self.logical_routing.update_routing_info(
                &mut child,
                &self.logical_topology,
                logical_current,
                logical_port,
                logical_target,
                None,
                rng,
            );
            info.meta.insert(0, child);
            match cr {
                Ok(u) => {
                    proof {
                        assert(Ok::<(), Error>(u) == Ok::<(), Error>(()));
                        assert(info.meta@[0] == child);
                        assert((logical_port as int) < self.ltop().ports_of(
                            self.p2l()[current_router as int] as int,
                        ).len());
                        let lpt = self.ltop().ports_of(
                            self.p2l()[current_router as int] as int,
                        )[logical_port as int];
                        assert(self.ltop().ports_of(self.p2l()[current_router as int] as int)[logical_port as int]
                            == lpt);
                        assert(self.inner().update_ens(
                            self.ltop(),
                            RoutingInfo {
                                hops: (old(info).meta@[0].hops + 1) as usize,
                                ..old(info).meta@[0]
                            },
                            info.meta@[0],
                            self.p2l()[current_router as int],
                            logical_port,
                            self.p2l()[target_router as int],
                            Ok(()),
                        ));
                    }
                    Ok(())
                },
                Err(e) => {
                    proof {
                        assert(info.meta@[0] == child);
                        assert((logical_port as int) < self.ltop().ports_of(
                            self.p2l()[current_router as int] as int,
                        ).len());
                        let lpt = self.ltop().ports_of(
                            self.p2l()[current_router as int] as int,
                        )[logical_port as int];
                        assert(self.ltop().ports_of(self.p2l()[current_router as int] as int)[logical_port as int]
                            == lpt);
                        assert(self.inner().update_ens(
                            self.ltop(),
                            RoutingInfo {
                                hops: (old(info).meta@[0].hops + 1) as usize,
                                ..old(info).meta@[0]
                            },
                            info.meta@[0],
                            self.p2l()[current_router as int],
                            logical_port,
                            self.p2l()[target_router as int],
                            Err(e),
                        ));
                    }
                    Err(e)
                },
            }
        } else {
            let mut child = RoutingInfo::new();
            let ghost fresh = child;
            match self.logical_routing.initialize_routing_info(
                &mut child,
                &self.logical_topology,
                logical_current,
                logical_target,
                None,
                rng,
            ) {
                Ok(u) => {
                    let replaced = info.meta.remove(0);
                    info.meta.insert(0, child);
                    let _ = replaced;
                    proof {
                        assert(Ok::<(), Error>(u) == Ok::<(), Error>(()));
                        assert(crate::sum::is_fresh_with_source(fresh, None));
                        assert(info.meta@[0] == child);
                        assert(self.inner().init_info_ens(
                            self.ltop(),
                            fresh,
                            info.meta@[0],
                            self.p2l()[current_router as int],
                            self.p2l()[target_router as int],
                            Ok(()),
                        ));
                    }
                    Ok(())
                },
                Err(e) => {
                    proof {
                        assert(crate::stubborn::is_fresh_info(fresh));
                        assert(info.meta@ == old(info).meta@);
                        assert(self.inner().init_info_ens(
                            self.ltop(),
                            fresh,
                            child,
                            self.p2l()[current_router as int],
                            self.p2l()[target_router as int],
                            Err(e),
                        ));
                    }
                    Err(e)
                },
            }
        }
    }

    fn performed_request(
        &self,
        requested: &CandidateEgress,
        info: &mut RoutingInfo,
        top: &Topology,
        current_router: usize,
        target_router: usize,
        target_server: Option<usize>,
        num_virtual_channels: usize,
        rng: &mut StdRng,
    ) {
    }

    #[verifier::loop_isolation(false)]
    fn initialize(&mut self, top: &Topology, rng: &mut StdRng) -> (r: Result<(), Error>) {
        let n = top.num_routers();
        if self.logical_topology.num_routers() != n {
            proof {
                assert(self.ltop().n() != top.n());
                assert(sizes_failure_witnessed(*self, *old(self), *top));
            }
            return Err(Error::MismatchedSizes);
        }
        let ghost map_before = self.map;
        match self.map.initialize(n, n, Some(&self.logical_topology), rng) {
            Ok(_) => {},
            Err(me) => {
                proof {
                    assert forall|i2: usize| #[trigger] self.map_of().req(i2) by {
                        assert(old(self).map_of().req(i2));
                    }
                    assert(self.map_of().init_ens(old(self).map_of(), n, n, Err(me)));
                    assert(n == (top.n() as usize));
                    assert(sizes_failure_witnessed(*self, *old(self), *top));
                }
                return Err(Error::MismatchedSizes);
            },
        }
        proof {
            assert forall|i2: usize| #[trigger] self.map_of().req(i2) by {
                assert(old(self).map_of().req(i2));
            }
        }
        let mut logical_to_physical: Vec<usize> = Vec::new();
        let mut physical_to_logical: Vec<usize> = vec![0; n];
        let mut i: usize = 0;
        while i < n
            invariant
                i <= n,
                n == top.n(),
                logical_to_physical@.len() == i,
                physical_to_logical@.len() == n,
                forall|a: int| 0 <= a < i ==> (#[trigger] logical_to_physical@[a]) < n,
                forall|a: int|
                    0 <= a < i ==> self.map_of().ens(
                        a as usize,
                        #[trigger] logical_to_physical@[a],
                    ),
                forall|x: int| 0 <= x < n ==> (#[trigger] physical_to_logical@[x]) < n,
                forall|a: int|
                    0 <= a < i ==> (physical_to_logical@[(#[trigger] logical_to_physical@[a]) as int]
                        as int) < i && logical_to_physical@[physical_to_logical@[logical_to_physical@[a] as int] as int]
                        == logical_to_physical@[a],
                forall|i2: usize| #[trigger] self.map_of().req(i2),
            decreases n - i,
        {
            proof {
                assert(self.map_of().req(i));
            }
            let physical = self.map.get_destination(i, Some(top), rng);
            if physical >= n {
                proof {
                    assert(self.map_of().ens(i, physical));
                    assert(sizes_failure_witnessed(*self, *old(self), *top));
                }
                return Err(Error::MismatchedSizes);
            }
            let ghost l2p_before = logical_to_physical@;
            logical_to_physical.push(physical);
            physical_to_logical[physical] = i;
            proof {
                assert forall|a: int|
                    0 <= a < i + 1 implies (physical_to_logical@[(
                #[trigger] logical_to_physical@[a]) as int] as int) < i + 1
                    && logical_to_physical@[physical_to_logical@[logical_to_physical@[a] as int] as int]
                    == logical_to_physical@[a] by {
                    if a < i {
                        assert(logical_to_physical@[a] == l2p_before[a]);
                        if l2p_before[a] == physical {
                        } else {
                        }
                    } else {
                        assert(logical_to_physical@[a] == physical);
                    }
                }
            }
            i += 1;
        }
        // A repeated image would leave the inverse inconsistent; demand a
        // true bijection.
        let mut i: usize = 0;
        while i < n
            invariant
                i <= n,
                n == top.n(),
                logical_to_physical@.len() == n,
                physical_to_logical@.len() == n,
                forall|a: int| 0 <= a < n ==> (#[trigger] logical_to_physical@[a]) < n,
                forall|a: int|
                    0 <= a < i ==> physical_to_logical@[(#[trigger] logical_to_physical@[a]) as int]
                        == a && (#[trigger] logical_to_physical@[a]) < n,
                forall|a: int|
                    0 <= a < i ==> logical_to_physical@[(#[trigger] physical_to_logical@[a]) as int]
                        == a && physical_to_logical@[a] < n,
            decreases n - i,
        {
            let li = physical_to_logical[i];
            if li >= n {
                proof {
                    assert(false);
                }
                return Err(Error::MismatchedSizes);
            }
            if logical_to_physical[li] != i {
                proof {
                    assert forall|a: int|
                        0 <= a < n implies ((#[trigger] logical_to_physical@[a]) as int)
                        != i as int by {
                        if logical_to_physical@[a] == i {
                            assert(logical_to_physical@[physical_to_logical@[logical_to_physical@[a] as int] as int]
                                == logical_to_physical@[a]);
                        }
                    }
                    assert(!covered_by(logical_to_physical@, i as int));
                    assert(!permutation_assignment(logical_to_physical@, n as int));
                    assert(sizes_failure_witnessed(*self, *old(self), *top));
                }
                return Err(Error::MismatchedSizes);
            }
            let pi = logical_to_physical[i];
            if physical_to_logical[pi] != i {
                proof {
                    let j = physical_to_logical@[pi as int];
                    assert(logical_to_physical@[physical_to_logical@[logical_to_physical@[i as int] as int] as int]
                        == logical_to_physical@[i as int]);
                    assert(logical_to_physical@[j as int] == pi);
                    assert(j != i);
                    assert(logical_to_physical@[i as int] == logical_to_physical@[j as int]);
                    assert(!permutation_assignment(logical_to_physical@, n as int));
                    assert(sizes_failure_witnessed(*self, *old(self), *top));
                }
                return Err(Error::MismatchedSizes);
            }
            i += 1;
        }
        // Check that logical neighbours are physical neighbours, recording
        // the realized logical connections.
        let mut connections: Vec<Vec<u8>> = vec![vec![0u8; n]; n];
        let mut li: usize = 0;
        while li < n
            invariant
                li <= n,
                n == top.n(),
                n == self.ltop().n(),
                self.ltop().wf(),
                top.wf(),
                connections@.len() == n,
                forall|a: int| 0 <= a < n ==> (#[trigger] connections@[a])@.len() == n,
                logical_to_physical@.len() == n,
                forall|a: int| 0 <= a < n ==> (#[trigger] logical_to_physical@[a]) < n,
                forall|a: int, q: int|
                    (0 <= a < li && 0 <= q < self.ltop().ports_of(a).len() && ((
                    #[trigger] self.ltop().ports_of(a)[q]) matches Location::RouterPort { .. }))
                        ==> physical_edge(
                        *top,
                        logical_to_physical@[a] as int,
                        logical_to_physical@[self.ltop().ports_of(a)[q]->RouterPort_router_index as int] as int,
                    ),
                forall|p: int, q: int|
                    #![trigger connections@[p]@[q]]
                    0 <= p < n && 0 <= q < n ==> ((connections@[p]@[q] != 0)
                        <==> logical_edge_mapped_upto(
                        self.ltop(),
                        logical_to_physical@,
                        p,
                        q,
                        li as int,
                        0,
                    )),
            decreases n - li,
        {
            let physical_i = logical_to_physical[li];
            let lports = self.logical_topology.ports(li);
            let mut q: usize = 0;
            while q < lports
                invariant
                    li < n,
                    q <= lports,
                    n == top.n(),
                    n == self.ltop().n(),
                    self.ltop().wf(),
                    top.wf(),
                    lports == self.ltop().ports_of(li as int).len(),
                    physical_i == logical_to_physical@[li as int],
                    connections@.len() == n,
                    forall|a: int| 0 <= a < n ==> (#[trigger] connections@[a])@.len() == n,
                    logical_to_physical@.len() == n,
                    forall|a: int| 0 <= a < n ==> (#[trigger] logical_to_physical@[a]) < n,
                    forall|a: int, qq: int|
                        (0 <= a < li && 0 <= qq < self.ltop().ports_of(a).len() && ((
                        #[trigger] self.ltop().ports_of(a)[qq]) matches Location::RouterPort {
                            ..
                        })) ==> physical_edge(
                            *top,
                            logical_to_physical@[a] as int,
                            logical_to_physical@[self.ltop().ports_of(a)[qq]->RouterPort_router_index as int] as int,
                        ),
                    forall|qq: int|
                        (0 <= qq < q && ((#[trigger] self.ltop().ports_of(li as int)[qq])
                            matches Location::RouterPort { .. })) ==> physical_edge(
                            *top,
                            logical_to_physical@[li as int] as int,
                            logical_to_physical@[self.ltop().ports_of(li as int)[qq]->RouterPort_router_index as int] as int,
                        ),
                    forall|p: int, qv: int|
                        #![trigger connections@[p]@[qv]]
                        0 <= p < n && 0 <= qv < n ==> ((connections@[p]@[qv] != 0)
                            <==> logical_edge_mapped_upto(
                            self.ltop(),
                            logical_to_physical@,
                            p,
                            qv,
                            li as int,
                            q as int,
                        )),
                decreases lports - q,
            {
                let ghost conn_before = connections@;
                match self.logical_topology.neighbour(li, q) {
                    Location::RouterPort { router_index: lneighbour, router_port: _ } => {
                        proof {
                            self.ltop().lemma_wf_location(li as int, q as int);
                        }
                        let physical_neighbour = logical_to_physical[lneighbour];
                        let pports = top.ports(physical_i);
                        let mut found = false;
                        let mut p: usize = 0;
                        while p < pports
                            invariant
                                p <= pports,
                                physical_i < n,
                                n == top.n(),
                                pports == top.ports_of(physical_i as int).len(),
                                found ==> physical_edge(
                                    *top,
                                    physical_i as int,
                                    physical_neighbour as int,
                                ),
                                !found ==> forall|pp: int|
                                    0 <= pp < p ==> !((#[trigger] top.ports_of(
                                        physical_i as int,
                                    )[pp]) matches Location::RouterPort { router_index, .. }
                                        && router_index == physical_neighbour),
                            decreases pports - p,
                        {
                            match top.neighbour(physical_i, p) {
                                Location::RouterPort { router_index, router_port: _ } => {
                                    if router_index == physical_neighbour {
                                        found = true;
                                    }
                                },
                                Location::ServerPort(_) => {},
                            }
                            p += 1;
                        }
                        if !found {
                            proof {
                                assert(!physical_edge(
                                    *top,
                                    physical_i as int,
                                    physical_neighbour as int,
                                ));
                                assert(self.map_of().ens(li, physical_i));
                                assert(self.map_of().ens(lneighbour, physical_neighbour));
                                assert(self.ltop().ports_of(li as int)[q as int]
                                    matches Location::RouterPort { router_index, .. }
                                    && router_index == lneighbour);
                                assert(exists|lq: int|
                                    0 <= lq < self.ltop().ports_of(li as int).len() && ((
                                    #[trigger] self.ltop().ports_of(li as int)[lq])
                                        matches Location::RouterPort { router_index, .. }
                                        && router_index == lneighbour));
                                assert(physical_i < n && physical_neighbour < n);
                                assert(self.ltop() == old(self).ltop());
                                assert(exists|pi: usize, pn: usize|
                                    #![trigger self.map_of().ens(li, pi), self.map_of().ens(lneighbour, pn)]
                                    pi < top.n() && pn < top.n() && self.map_of().ens(li, pi)
                                        && self.map_of().ens(lneighbour, pn) && !physical_edge(
                                        *top,
                                        pi as int,
                                        pn as int,
                                    ));
                                assert(embedding_failure_witnessed(
                                    *self,
                                    *top,
                                    li,
                                    lneighbour,
                                ));
                            }
                            return Err(
                                Error::LogicalEdgeNotPhysical {
                                    logical_origin: li,
                                    logical_neighbour: lneighbour,
                                },
                            );
                        }
                        let row = &mut connections[physical_i];
                        row[physical_neighbour] = 1;
                        proof {
                            assert(connections@[physical_i as int]@[physical_neighbour as int]
                                != 0);
                            assert forall|p: int, qv: int|
                                #![trigger connections@[p]@[qv]]
                                0 <= p < n && 0 <= qv < n implies ((connections@[p]@[qv] != 0)
                                <==> logical_edge_mapped_upto(
                                self.ltop(),
                                logical_to_physical@,
                                p,
                                qv,
                                li as int,
                                q + 1,
                            )) by {
                                if p == physical_i as int && qv == physical_neighbour as int {
                                    assert(self.ltop().ports_of(li as int)[q as int]
                                        matches Location::RouterPort { router_index, .. }
                                        && router_index == lneighbour);
                                    assert(logical_edge_mapped_upto(
                                        self.ltop(),
                                        logical_to_physical@,
                                        p,
                                        qv,
                                        li as int,
                                        q + 1,
                                    ));
                                } else {
                                    assert(connections@[p]@[qv] == conn_before[p]@[qv]);
                                    if conn_before[p]@[qv] != 0 {
                                        let (wi, wq) = choose|wi: int, wq: int|
                                            0 <= wi < self.ltop().n() && 0 <= wq
                                                < self.ltop().ports_of(wi).len() && (wi < li as int
                                                || (wi == li as int && wq < q as int)) && ((
                                            #[trigger] self.ltop().ports_of(wi)[wq])
                                                matches Location::RouterPort {
                                                router_index,
                                                ..
                                            } && logical_to_physical@[wi] == p
                                                && logical_to_physical@[router_index as int]
                                                == qv);
                                        assert(logical_edge_mapped_upto(
                                            self.ltop(),
                                            logical_to_physical@,
                                            p,
                                            qv,
                                            li as int,
                                            q + 1,
                                        ));
                                    } else {
                                        if logical_edge_mapped_upto(
                                            self.ltop(),
                                            logical_to_physical@,
                                            p,
                                            qv,
                                            li as int,
                                            q + 1,
                                        ) {
                                            let (wi, wq) = choose|wi: int, wq: int|
                                                0 <= wi < self.ltop().n() && 0 <= wq
                                                    < self.ltop().ports_of(wi).len() && (wi
                                                    < li as int || (wi == li as int && wq < q
                                                    + 1)) && ((
                                                #[trigger] self.ltop().ports_of(wi)[wq])
                                                    matches Location::RouterPort {
                                                    router_index,
                                                    ..
                                                } && logical_to_physical@[wi] == p
                                                    && logical_to_physical@[router_index as int]
                                                    == qv);
                                            if wi == li as int && wq == q as int {
                                                assert(p == physical_i as int && qv
                                                    == physical_neighbour as int);
                                            } else {
                                                assert(logical_edge_mapped_upto(
                                                    self.ltop(),
                                                    logical_to_physical@,
                                                    p,
                                                    qv,
                                                    li as int,
                                                    q as int,
                                                ));
                                            }
                                        }
                                    }
                                }
                            }
                        }
                    },
                    Location::ServerPort(_) => {
                        proof {
                            assert forall|p: int, qv: int|
                                #![trigger connections@[p]@[qv]]
                                0 <= p < n && 0 <= qv < n implies ((connections@[p]@[qv] != 0)
                                <==> logical_edge_mapped_upto(
                                self.ltop(),
                                logical_to_physical@,
                                p,
                                qv,
                                li as int,
                                q + 1,
                            )) by {
                                if connections@[p]@[qv] != 0 {
                                    let (wi, wq) = choose|wi: int, wq: int|
                                        0 <= wi < self.ltop().n() && 0 <= wq < self.ltop().ports_of(
                                            wi,
                                        ).len() && (wi < li as int || (wi == li as int && wq
                                            < q as int)) && ((
                                        #[trigger] self.ltop().ports_of(wi)[wq])
                                            matches Location::RouterPort { router_index, .. }
                                            && logical_to_physical@[wi] == p
                                            && logical_to_physical@[router_index as int] == qv);
                                    assert(logical_edge_mapped_upto(
                                        self.ltop(),
                                        logical_to_physical@,
                                        p,
                                        qv,
                                        li as int,
                                        q + 1,
                                    ));
                                } else {
                                    if logical_edge_mapped_upto(
                                        self.ltop(),
                                        logical_to_physical@,
                                        p,
                                        qv,
                                        li as int,
                                        q + 1,
                                    ) {
                                        let (wi, wq) = choose|wi: int, wq: int|
                                            0 <= wi < self.ltop().n() && 0 <= wq
                                                < self.ltop().ports_of(wi).len() && (wi < li as int
                                                || (wi == li as int && wq < q + 1)) && ((
                                            #[trigger] self.ltop().ports_of(wi)[wq])
                                                matches Location::RouterPort {
                                                router_index,
                                                ..
                                            } && logical_to_physical@[wi] == p
                                                && logical_to_physical@[router_index as int]
                                                == qv);
                                        assert(!(wi == li as int && wq == q as int));
                                        assert(logical_edge_mapped_upto(
                                            self.ltop(),
                                            logical_to_physical@,
                                            p,
                                            qv,
                                            li as int,
                                            q as int,
                                        ));
                                    }
                                }
                            }
                        }
                    },
                }
                q += 1;
            }
            li += 1;
        }
        self.physical_to_logical = physical_to_logical;
        self.logical_to_physical = logical_to_physical;
        self.logical_topology_connections = connections;
        let r = self.logical_routing.initialize(&self.logical_topology, rng);
        proof {
            assert(self.ltop() == old(self).ltop());
            assert forall|i2: usize| #[trigger] self.map_of().req(i2) by {
                assert(old(self).map_of().req(i2));
            }
            assert forall|i: int|
                0 <= i < top.n() implies self.map_of().ens(
                i as usize,
                #[trigger] self.l2p()[i],
            ) by {
                assert(self.l2p()[i] == logical_to_physical@[i]);
                assert(self.map_of().ens(i as usize, logical_to_physical@[i]));
            }
            assert forall|p: int, q: int|
                #![trigger self.conn()[p]@[q]]
                0 <= p < top.n() && 0 <= q < top.n() implies ((self.conn()[p]@[q] != 0)
                <==> logical_edge_mapped(self.ltop(), self.l2p(), p, q)) by {
                assert(self.conn()[p]@[q] == connections@[p]@[q]);
                assert((connections@[p]@[q] != 0) <==> logical_edge_mapped_upto(
                    self.ltop(),
                    logical_to_physical@,
                    p,
                    q,
                    top.n() as int,
                    0,
                ));
            }
        }
        match r {
            Ok(_) => Ok(()),
            Err(e) => {
                proof {
                    assert(self.inner().init_ens(old(self).inner(), self.ltop(), Err(e)));
                }
                Err(e)
            },
        }
    }

    fn statistics(&self, cycle: Time) -> Option<ConfigurationValue> {
        None
    }
}

} // verus!
