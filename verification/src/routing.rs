use vstd::prelude::*;
use rand::rngs::StdRng;
use crate::config::{ConfigurationValue, Time};
use crate::errors::Error;
use crate::model::{
    candidates_in_range, candidates_to_server, has_server_port, is_plain_candidate,
    CandidateEgress, RoutingInfo, RoutingNextCandidates, Selections,
};
use crate::topology::{Location, Topology};

verus! {

/// The contract every routing strategy implements.
///
/// A strategy decides, for a packet standing at `current_router` and bound
/// for `target_router`, which egress ports and virtual channels are
/// admissible.  The per-packet state lives in a `RoutingInfo` owned by the
/// packet; the strategy initializes it at admission, is told of every
/// realized hop, and may be told which offered candidate was performed.
///
/// The universal rule: at the target router the only candidates are the port
/// to the target server, one per virtual channel, and the set is idempotent.
pub trait Routing: Sized {
    /// Configuration invariant of the strategy itself.
    spec fn wf(&self) -> bool;

    /// Topology-wide setup has been carried out for `top`.
    spec fn initialized(&self, top: Topology) -> bool;

    /// The per-packet states this strategy accepts when asked for candidates
    /// away from the target router, for `num_vc` virtual channels.
    spec fn info_ok(
        &self,
        top: Topology,
        info: RoutingInfo,
        current: usize,
        target: usize,
        num_vc: usize,
    ) -> bool;

    /// Strategy-specific demand on the arguments of `next`.
    spec fn next_req(&self, top: Topology, num_vc: usize) -> bool;

    /// What the result of `next` satisfies away from the target router.
    spec fn next_ens(
        &self,
        top: Topology,
        info: RoutingInfo,
        current: usize,
        target: usize,
        num_vc: usize,
        r: Result<RoutingNextCandidates, Error>,
    ) -> bool;

    /// How `initialize_routing_info` fills a fresh state.
    spec fn init_info_ens(
        &self,
        top: Topology,
        prev: RoutingInfo,
        info: RoutingInfo,
        current: usize,
        target: usize,
        r: Result<(), Error>,
    ) -> bool;

    /// Strategy-specific demand on the state handed to `update_routing_info`.
    spec fn update_req(
        &self,
        top: Topology,
        info: RoutingInfo,
        current: usize,
        port: usize,
        target: usize,
    ) -> bool;

    /// How `update_routing_info` transforms the state.
    spec fn update_ens(
        &self,
        top: Topology,
        prev: RoutingInfo,
        info: RoutingInfo,
        current: usize,
        port: usize,
        target: usize,
        r: Result<(), Error>,
    ) -> bool;

    /// Strategy-specific demand on a confirmed candidate.
    spec fn performed_req(
        &self,
        top: Topology,
        info: RoutingInfo,
        requested: CandidateEgress,
        current: usize,
        target: usize,
        num_vc: usize,
    ) -> bool;

    /// How a confirmed candidate transforms the state.
    spec fn performed_ens(
        &self,
        top: Topology,
        prev: RoutingInfo,
        info: RoutingInfo,
        requested: CandidateEgress,
        current: usize,
        target: usize,
        num_vc: usize,
    ) -> bool;

    /// What `initialize` establishes, beyond `initialized`.
    spec fn init_ens(&self, prev: Self, top: Topology, r: Result<(), Error>) -> bool;

    /// Decide the admissible next hops.
    fn next(
        &self,
        info: &RoutingInfo,
        top: &Topology,
        current_router: usize,
        target_router: usize,
        target_server: Option<usize>,
        num_virtual_channels: usize,
        rng: &mut StdRng,
    ) -> (r: Result<RoutingNextCandidates, Error>)
        requires
            top.wf(),
            self.wf(),
            self.initialized(*top),
            current_router < top.n(),
            target_router < top.n(),
            self.next_req(*top, num_virtual_channels),
            current_router == target_router ==> target_server is Some && has_server_port(
                top,
                current_router as int,
                target_server->0,
            ),
            current_router != target_router ==> self.info_ok(
                *top,
                *info,
                current_router,
                target_router,
                num_virtual_channels,
            ),
        ensures
            current_router == target_router ==> r is Ok,
            current_router == target_router ==> (r matches Ok(rc)
                ==> crate::model::server_arrival_candidates(
                top,
                current_router,
                target_server->0,
                num_virtual_channels,
                rc,
            )),
            current_router != target_router ==> self.next_ens(
                *top,
                *info,
                current_router,
                target_router,
                num_virtual_channels,
                r,
            ),
            r matches Ok(rc) ==> candidates_in_range(
                top,
                current_router,
                num_virtual_channels,
                rc.candidates@,
            ),
    ;

    /// Fill the per-packet state of a packet admitted at `current_router`.
    fn initialize_routing_info(
        &self,
        info: &mut RoutingInfo,
        top: &Topology,
        current_router: usize,
        target_router: usize,
        target_server: Option<usize>,
        rng: &mut StdRng,
    ) -> (r: Result<(), Error>)
        requires
            top.wf(),
            self.wf(),
            self.initialized(*top),
            current_router < top.n(),
            target_router < top.n(),
            old(info).hops == 0,
            old(info).visited_routers@.len() == 0,
            old(info).selections is Unset,
            old(info).meta@.len() == 0,
        ensures
            final(info).hops == old(info).hops,
            final(info).source_server == old(info).source_server,
            (r is Ok && current_router != target_router) ==> forall|nvc: usize|
                self.info_ok(*top, *final(info), current_router, target_router, nvc),
            self.init_info_ens(
                *top,
                *old(info),
                *final(info),
                current_router,
                target_router,
                r,
            ),
    ;

    /// Told after the simulator realized a hop: the packet arrived at
    /// `current_router` through its port `current_port`.  The caller has
    /// already incremented `info.hops`.
    fn update_routing_info(
        &self,
        info: &mut RoutingInfo,
        top: &Topology,
        current_router: usize,
        current_port: usize,
        target_router: usize,
        target_server: Option<usize>,
        rng: &mut StdRng,
    ) -> (r: Result<(), Error>)
        requires
            top.wf(),
            self.wf(),
            self.initialized(*top),
            current_router < top.n(),
            target_router < top.n(),
            current_port < top.ports_of(current_router as int).len(),
            self.update_req(*top, *old(info), current_router, current_port, target_router),
        ensures
            (r is Ok && current_router != target_router) ==> forall|nvc: usize|
                self.info_ok(*top, *final(info), current_router, target_router, nvc),
            self.update_ens(
                *top,
                *old(info),
                *final(info),
                current_router,
                current_port,
                target_router,
                r,
            ),
    ;

    /// Told which of the candidates returned by `next` was performed.
    fn performed_request(
        &self,
        requested: &CandidateEgress,
        info: &mut RoutingInfo,
        top: &Topology,
        current_router: usize,
        target_router: usize,
        target_server: Option<usize>,
        num_virtual_channels: usize,
        rng: &mut StdRng,
    )
        requires
            top.wf(),
            self.wf(),
            self.initialized(*top),
            current_router < top.n(),
            target_router < top.n(),
            self.performed_req(
                *top,
                *old(info),
                *requested,
                current_router,
                target_router,
                num_virtual_channels,
            ),
        ensures
            self.performed_ens(
                *top,
                *old(info),
                *final(info),
                *requested,
                current_router,
                target_router,
                num_virtual_channels,
            ),
    ;

    /// One-time, whole-topology setup.
    fn initialize(&mut self, top: &Topology, rng: &mut StdRng) -> (r: Result<(), Error>)
        requires
            top.wf(),
            old(self).wf(),
        ensures
            final(self).wf(),
            r is Ok ==> final(self).initialized(*top),
            final(self).init_ens(*old(self), *top, r),
    ;

    /// Routing-local statistics, as a nested report.
    fn statistics(&self, cycle: Time) -> Option<ConfigurationValue>;
}

/// Port `p` of `current` leads to a router one hop nearer to `target`.
pub open spec fn decreasing_port(top: Topology, current: usize, target: usize, p: int) -> bool {
    &&& 0 <= p < top.ports_of(current as int).len()
    &&& top.ports_of(current as int)[p] matches Location::RouterPort { router_index, .. }
        && top.dist_of(router_index as int, target as int) + 1 == top.dist_of(
        current as int,
        target as int,
    )
}

/// `c` is the candidate `(port, virtual_channel)` with the given label and
/// nothing else attached.
pub open spec fn is_labeled_candidate(
    c: CandidateEgress,
    port: usize,
    virtual_channel: usize,
    label: i32,
) -> bool {
    &&& c.port == port
    &&& c.virtual_channel == virtual_channel
    &&& c.label == label
    &&& c.estimated_remaining_hops is None
    &&& c.router_allows is None
    &&& c.annotation.values@.len() == 0
}

/// `s` is the block of candidates `(port, 0) .. (port, num_vc - 1)`, all with
/// the same label.
pub open spec fn is_labeled_block(
    s: Seq<CandidateEgress>,
    port: usize,
    num_vc: usize,
    label: i32,
) -> bool {
    &&& s.len() == num_vc
    &&& forall|vc: int|
        0 <= vc < s.len() ==> is_labeled_candidate(#[trigger] s[vc], port, vc as usize, label)
}

/// Somewhere in `candidates` stands the whole block of same-label candidates
/// for `port` on every virtual channel.
pub open spec fn contains_labeled_block(
    candidates: Seq<CandidateEgress>,
    port: usize,
    num_vc: usize,
    label: i32,
) -> bool {
    exists|k0: int|
        0 <= k0 && k0 + num_vc <= candidates.len() && is_labeled_block(
            #[trigger] candidates.subrange(k0, k0 + num_vc),
            port,
            num_vc,
            label,
        )
}

/// Port `p` of router `current` leads to another router.
pub open spec fn router_port_at(top: Topology, current: usize, p: int) -> bool {
    &&& 0 <= p < top.ports_of(current as int).len()
    &&& top.ports_of(current as int)[p] matches Location::RouterPort { .. }
}

/// `s` is the block of plain candidates `(port, 0) .. (port, num_vc - 1)`.
pub open spec fn is_plain_block(s: Seq<CandidateEgress>, port: usize, num_vc: usize) -> bool {
    &&& s.len() == num_vc
    &&& forall|vc: int| 0 <= vc < s.len() ==> is_plain_candidate(#[trigger] s[vc], port, vc as usize)
}

/// Somewhere in `candidates` stands the whole block of plain candidates for
/// `port` on every virtual channel.
pub open spec fn contains_plain_block(
    candidates: Seq<CandidateEgress>,
    port: usize,
    num_vc: usize,
) -> bool {
    exists|k0: int|
        0 <= k0 && k0 + num_vc <= candidates.len() && is_plain_block(
            #[trigger] candidates.subrange(k0, k0 + num_vc),
            port,
            num_vc,
        )
}

/// Every candidate in `cands` is a plain `(port, vc)` through a
/// distance-decreasing port.
pub open spec fn all_shortest_candidates(
    top: Topology,
    current: usize,
    target: usize,
    num_vc: usize,
    cands: Seq<CandidateEgress>,
) -> bool {
    forall|k: int|
        0 <= k < cands.len() ==> {
            &&& is_plain_candidate(#[trigger] cands[k], cands[k].port, cands[k].virtual_channel)
            &&& decreasing_port(top, current, target, cands[k].port as int)
            &&& cands[k].virtual_channel < num_vc
        }
}

/// The candidate set of minimal routing: every distance-decreasing port,
/// every virtual channel, plain labels.
pub open spec fn shortest_next_ens(
    top: Topology,
    current: usize,
    target: usize,
    num_vc: usize,
    r: Result<RoutingNextCandidates, Error>,
) -> bool {
    match r {
        Ok(rc) => {
            &&& rc.idempotent
            &&& all_shortest_candidates(top, current, target, num_vc, rc.candidates@)
            &&& forall|p: int|
                #[trigger] decreasing_port(top, current, target, p) ==> contains_plain_block(
                    rc.candidates@,
                    p as usize,
                    num_vc,
                )
            &&& rc.candidates@.len() > 0
        },
        Err(e) => {
            &&& e == (Error::NoCandidates { current_router: current, target_router: target })
            &&& (num_vc == 0 || !(exists|p: int| decreasing_port(top, current, target, p)))
        },
    }
}

/// Minimal routing: offer every port that strictly decreases the distance to
/// the target router, on every virtual channel.  Keeps no per-packet state.
pub struct Shortest {}

impl Shortest {
    pub fn new() -> Shortest {
        Shortest {  }
    }
}

impl Routing for Shortest {
    open spec fn wf(&self) -> bool {
        true
    }

    open spec fn initialized(&self, top: Topology) -> bool {
        true
    }

    open spec fn info_ok(
        &self,
        top: Topology,
        info: RoutingInfo,
        current: usize,
        target: usize,
        num_vc: usize,
    ) -> bool {
        true
    }

    open spec fn next_req(&self, top: Topology, num_vc: usize) -> bool {
        true
    }

    open spec fn next_ens(
        &self,
        top: Topology,
        info: RoutingInfo,
        current: usize,
        target: usize,
        num_vc: usize,
        r: Result<RoutingNextCandidates, Error>,
    ) -> bool {
        shortest_next_ens(top, current, target, num_vc, r)
    }

    open spec fn init_info_ens(
        &self,
        top: Topology,
        prev: RoutingInfo,
        info: RoutingInfo,
        current: usize,
        target: usize,
        r: Result<(), Error>,
    ) -> bool {
        info == prev && r is Ok
    }

    open spec fn update_req(
        &self,
        top: Topology,
        info: RoutingInfo,
        current: usize,
        port: usize,
        target: usize,
    ) -> bool {
        true
    }

    open spec fn update_ens(
        &self,
        top: Topology,
        prev: RoutingInfo,
        info: RoutingInfo,
        current: usize,
        port: usize,
        target: usize,
        r: Result<(), Error>,
    ) -> bool {
        info == prev && r is Ok
    }

    open spec fn performed_req(
        &self,
        top: Topology,
        info: RoutingInfo,
        requested: CandidateEgress,
        current: usize,
        target: usize,
        num_vc: usize,
    ) -> bool {
        true
    }

    open spec fn performed_ens(
        &self,
        top: Topology,
        prev: RoutingInfo,
        info: RoutingInfo,
        requested: CandidateEgress,
        current: usize,
        target: usize,
        num_vc: usize,
    ) -> bool {
        info == prev
    }

    open spec fn init_ens(&self, prev: Self, top: Topology, r: Result<(), Error>) -> bool {
        r is Ok
    }

    #[verifier::loop_isolation(false)]
    fn next(
        &self,
        info: &RoutingInfo,
        top: &Topology,
        current_router: usize,
        target_router: usize,
        target_server: Option<usize>,
        num_virtual_channels: usize,
        rng: &mut StdRng,
    ) -> (r: Result<RoutingNextCandidates, Error>) {
        if current_router == target_router {
            return candidates_to_server(
                top,
                current_router,
                target_server.unwrap(),
                num_virtual_channels,
            );
        }
        let num_ports = top.ports(current_router);
        let mut candidates: Vec<CandidateEgress> = Vec::new();
        let mut p: usize = 0;
        while p < num_ports
            invariant
                p <= num_ports,
                all_shortest_candidates(
                    *top,
                    current_router,
                    target_router,
                    num_virtual_channels,
                    candidates@,
                ),
                forall|q: int|
                    (#[trigger] decreasing_port(*top, current_router, target_router, q) && q < p)
                        ==> contains_plain_block(candidates@, q as usize, num_virtual_channels),
            decreases num_ports - p,
        {
            let dist_here = top.distance(current_router, target_router);
            proof {
                top.lemma_wf_dist_zero(current_router as int, target_router as int);
                top.lemma_wf_location(current_router as int, p as int);
            }
            let ghost before = candidates@;
            match top.neighbour(current_router, p) {
                Location::RouterPort { router_index, router_port: _ } => {
                    if top.distance(router_index, target_router) == dist_here - 1 {
                        proof {
                            assert(decreasing_port(*top, current_router, target_router, p as int));
                        }
                        let mut vc: usize = 0;
                        while vc < num_virtual_channels
                            invariant
                                vc <= num_virtual_channels,
                                all_shortest_candidates(
                                    *top,
                                    current_router,
                                    target_router,
                                    num_virtual_channels,
                                    before,
                                ),
                                candidates@.len() == before.len() + vc,
                                forall|k: int| 0 <= k < before.len() ==> candidates@[k] == before[k],
                                forall|k: int|
                                    before.len() <= k < candidates@.len() ==> is_plain_candidate(
                                        #[trigger] candidates@[k],
                                        p,
                                        (k - before.len()) as usize,
                                    ),
                            decreases num_virtual_channels - vc,
                        {
                            candidates.push(CandidateEgress::new(p, vc));
                            vc += 1;
                        }
                        proof {
                            assert(is_plain_block(
                                candidates@.subrange(
                                    before.len() as int,
                                    before.len() + num_virtual_channels,
                                ),
                                p,
                                num_virtual_channels,
                            ));
                            assert forall|k: int| 0 <= k < candidates@.len() implies {
                                &&& is_plain_candidate(
                                    #[trigger] candidates@[k],
                                    candidates@[k].port,
                                    candidates@[k].virtual_channel,
                                )
                                &&& decreasing_port(
                                    *top,
                                    current_router,
                                    target_router,
                                    candidates@[k].port as int,
                                )
                                &&& candidates@[k].virtual_channel < num_virtual_channels
                            } by {
                                if k < before.len() {
                                    assert(candidates@[k] == before[k]);
                                    assert(is_plain_candidate(
                                        before[k],
                                        before[k].port,
                                        before[k].virtual_channel,
                                    ));
                                } else {
                                    assert(is_plain_candidate(
                                        candidates@[k],
                                        p,
                                        (k - before.len()) as usize,
                                    ));
                                }
                            }
                        }
                    }
                },
                Location::ServerPort(_) => {},
            }
            proof {
                assert forall|q: int|
                    (#[trigger] decreasing_port(*top, current_router, target_router, q) && q < p
                        + 1) implies contains_plain_block(
                    candidates@,
                    q as usize,
                    num_virtual_channels,
                ) by {
                    if q < p as int {
                        let k0 = choose|k0: int|
                            0 <= k0 && k0 + num_virtual_channels <= before.len() && is_plain_block(
                                #[trigger] before.subrange(k0, k0 + num_virtual_channels),
                                q as usize,
                                num_virtual_channels,
                            );
                        assert(candidates@.subrange(k0, k0 + num_virtual_channels) =~= before
                            .subrange(k0, k0 + num_virtual_channels));
                    } else {
                        assert(contains_plain_block(candidates@, q as usize, num_virtual_channels));
                    }
                }
            }
            p += 1;
        }
        if candidates.len() == 0 {
            proof {
                assert forall|q: int|
                    !(#[trigger] decreasing_port(*top, current_router, target_router, q))
                        || num_virtual_channels == 0 by {
                    if decreasing_port(*top, current_router, target_router, q)
                        && num_virtual_channels > 0 {
                        assert(contains_plain_block(candidates@, q as usize, num_virtual_channels));
                    }
                }
            }
            Err(Error::NoCandidates { current_router, target_router })
        } else {
            Ok(RoutingNextCandidates { candidates, idempotent: true })
        }
    }

    fn initialize_routing_info(
        &self,
        info: &mut RoutingInfo,
        top: &Topology,
        current_router: usize,
        target_router: usize,
        target_server: Option<usize>,
        rng: &mut StdRng,
    ) -> (r: Result<(), Error>) {
        Ok(())
    }

    fn update_routing_info(
        &self,
        info: &mut RoutingInfo,
        top: &Topology,
        current_router: usize,
        current_port: usize,
        target_router: usize,
        target_server: Option<usize>,
        rng: &mut StdRng,
    ) -> (r: Result<(), Error>) {
        Ok(())
    }

    fn performed_request(
        &self,
        requested: &CandidateEgress,
        info: &mut RoutingInfo,
        top: &Topology,
        current_router: usize,
        target_router: usize,
        target_server: Option<usize>,
        num_virtual_channels: usize,
        rng: &mut StdRng,
    ) {
    }

    fn initialize(&mut self, top: &Topology, rng: &mut StdRng) -> (r: Result<(), Error>) {
        Ok(())
    }

    fn statistics(&self, cycle: Time) -> Option<ConfigurationValue> {
        None
    }
}

} // verus!
