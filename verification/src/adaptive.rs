use vstd::prelude::*;
use rand::rngs::StdRng;
use crate::config::{ConfigurationValue, Time};
use crate::errors::Error;
use crate::model::{
    candidates_to_server, CandidateEgress, RoutingInfo, RoutingNextCandidates,
};
use crate::routing::{
    contains_labeled_block, is_labeled_block, is_labeled_candidate, router_port_at, Routing,
};
use crate::stubborn::is_fresh_info;
use crate::topology::{Location, Topology};

verus! {

/// Every candidate in `cands` is a same-label candidate through some port of
/// `current` that leads to a router, on an allowed virtual channel.
pub open spec fn all_adaptive_candidates(
    top: Topology,
    current: usize,
    num_vc: usize,
    label: i32,
    cands: Seq<CandidateEgress>,
) -> bool {
    forall|k: int|
        0 <= k < cands.len() ==> {
            &&& is_labeled_candidate(
                #[trigger] cands[k],
                cands[k].port,
                cands[k].virtual_channel,
                label,
            )
            &&& router_port_at(top, current, cands[k].port as int)
            &&& cands[k].virtual_channel < num_vc
        }
}

/// The free adaptive candidate set: every neighbouring router port, every
/// virtual channel, one uniform label.
pub open spec fn adaptive_phase_ens(
    top: Topology,
    current: usize,
    num_vc: usize,
    label: i32,
    r: Result<RoutingNextCandidates, Error>,
) -> bool {
    &&& r matches Ok(rc)
    &&& r->Ok_0.idempotent
    &&& all_adaptive_candidates(top, current, num_vc, label, r->Ok_0.candidates@)
    &&& forall|p: int|
        #[trigger] router_port_at(top, current, p) ==> contains_labeled_block(
            r->Ok_0.candidates@,
            p as usize,
            num_vc,
            label,
        )
}

/// Offers every neighbouring router port, with one uniform label, for the
/// first `adaptive_hops` hops; once the packet has taken that many hops, the
/// inner routing's state is allocated, initialized at the router the packet
/// then stands on, and everything is delegated to it from there.
pub struct AdaptiveStart<R: Routing> {
    adaptive_hops: usize,
    routing: R,
    adaptive_label: i32,
}

impl<R: Routing> AdaptiveStart<R> {
    /// Builds the decorator; the free phase must last at least one hop.
    pub fn new(adaptive_hops: usize, routing: R, adaptive_label: i32) -> (r: Result<
        AdaptiveStart<R>,
        Error,
    >)
        ensures
            r matches Ok(a) ==> {
                &&& a.hops_bound() == adaptive_hops
                &&& a.inner() == routing
                &&& a.label() == adaptive_label
                &&& adaptive_hops > 0
            },
            r is Err <==> adaptive_hops == 0,
    {
        if adaptive_hops == 0 {
            return Err(Error::MismatchedSizes);
        }
        Ok(AdaptiveStart { adaptive_hops, routing, adaptive_label })
    }

    /// Hops routed freely before the inner routing takes over.
    pub closed spec fn hops_bound(&self) -> usize {
        self.adaptive_hops
    }

    /// The inner routing.
    pub closed spec fn inner(&self) -> R {
        self.routing
    }

    /// The uniform label of the free phase.
    pub closed spec fn label(&self) -> i32 {
        self.adaptive_label
    }
}

impl<R: Routing> Routing for AdaptiveStart<R> {
    open spec fn wf(&self) -> bool {
        &&& self.hops_bound() > 0
        &&& self.inner().wf()
    }

    open spec fn initialized(&self, top: Topology) -> bool {
        self.inner().initialized(top)
    }

    open spec fn info_ok(
        &self,
        top: Topology,
        info: RoutingInfo,
        current: usize,
        target: usize,
        num_vc: usize,
    ) -> bool {
        &&& (info.meta@.len() == 0 ==> info.hops < self.hops_bound())
        &&& (info.meta@.len() != 0 ==> {
            &&& info.meta@.len() == 1
            &&& info.hops >= self.hops_bound()
            &&& self.inner().info_ok(top, info.meta@[0], current, target, num_vc)
        })
    }

    open spec fn next_req(&self, top: Topology, num_vc: usize) -> bool {
        self.inner().next_req(top, num_vc)
    }

    open spec fn next_ens(
        &self,
        top: Topology,
        info: RoutingInfo,
        current: usize,
        target: usize,
        num_vc: usize,
        r: Result<RoutingNextCandidates, Error>,
    ) -> bool {
        if info.meta@.len() == 0 {
            adaptive_phase_ens(top, current, num_vc, self.label(), r)
        } else {
            self.inner().next_ens(top, info.meta@[0], current, target, num_vc, r)
        }
    }

    open spec fn init_info_ens(
        &self,
        top: Topology,
        prev: RoutingInfo,
        info: RoutingInfo,
        current: usize,
        target: usize,
        r: Result<(), Error>,
    ) -> bool {
        info == prev && r is Ok
    }

    open spec fn update_req(
        &self,
        top: Topology,
        info: RoutingInfo,
        current: usize,
        port: usize,
        target: usize,
    ) -> bool {
        &&& (info.meta@.len() == 0 ==> info.hops <= self.hops_bound())
        &&& (info.meta@.len() != 0 ==> {
            &&& info.meta@.len() == 1
            &&& info.hops >= self.hops_bound()
            &&& info.meta@[0].hops < usize::MAX
            &&& self.inner().update_req(
                top,
                RoutingInfo { hops: (info.meta@[0].hops + 1) as usize, ..info.meta@[0] },
                current,
                port,
                target,
            )
        })
    }

    open spec fn update_ens(
        &self,
        top: Topology,
        prev: RoutingInfo,
        info: RoutingInfo,
        current: usize,
        port: usize,
        target: usize,
        r: Result<(), Error>,
    ) -> bool {
        &&& info.hops == prev.hops
        &&& info.source_server == prev.source_server
        &&& info.visited_routers == prev.visited_routers
        &&& info.selections == prev.selections
        &&& (prev.meta@.len() == 0 && prev.hops < self.hops_bound()) ==> (info.meta@.len() == 0
            && r is Ok)
        &&& (prev.meta@.len() == 0 && prev.hops >= self.hops_bound() && r is Ok) ==> {
            &&& info.meta@.len() == 1
            &&& exists|fresh: RoutingInfo|
                #[trigger] is_fresh_info(fresh) && self.inner().init_info_ens(
                    top,
                    fresh,
                    info.meta@[0],
                    current,
                    target,
                    Ok(()),
                )
        }
        &&& (r matches Err(e) ==> ((prev.meta@.len() == 0 && prev.hops >= self.hops_bound())
            ==> {
            &&& info == prev
            &&& exists|fresh: RoutingInfo|
                #[trigger] is_fresh_info(fresh) && exists|after: RoutingInfo|
                    self.inner().init_info_ens(top, fresh, after, current, target, Err(e))
        }))
        &&& (prev.meta@.len() != 0) ==> {
            &&& info.meta@.len() == 1
            &&& self.inner().update_ens(
                top,
                RoutingInfo { hops: (prev.meta@[0].hops + 1) as usize, ..prev.meta@[0] },
                info.meta@[0],
                current,
                port,
                target,
                r,
            )
        }
    }

    open spec fn performed_req(
        &self,
        top: Topology,
        info: RoutingInfo,
        requested: CandidateEgress,
        current: usize,
        target: usize,
        num_vc: usize,
    ) -> bool {
        true
    }

    open spec fn performed_ens(
        &self,
        top: Topology,
        prev: RoutingInfo,
        info: RoutingInfo,
        requested: CandidateEgress,
        current: usize,
        target: usize,
        num_vc: usize,
    ) -> bool {
        info == prev
    }

    open spec fn init_ens(&self, prev: Self, top: Topology, r: Result<(), Error>) -> bool {
        self.inner().init_ens(prev.inner(), top, r)
    }

    #[verifier::loop_isolation(false)]
    fn next(
        &self,
        info: &RoutingInfo,
        top: &Topology,
        current_router: usize,
        target_router: usize,
        target_server: Option<usize>,
        num_virtual_channels: usize,
        rng: &mut StdRng,
    ) -> (r: Result<RoutingNextCandidates, Error>) {
        if target_router == current_router {
            return candidates_to_server(
                top,
                current_router,
                target_server.unwrap(),
                num_virtual_channels,
            );
        }
        if info.meta.len() != 0 {
            return self.routing.next(
                &info.meta[0],
                top,
                current_router,
                target_router,
                target_server,
                num_virtual_channels,
                rng,
            );
        }
        let num_ports = top.ports(current_router);
        let mut candidates: Vec<CandidateEgress> = Vec::new();
        let mut p: usize = 0;
        while p < num_ports
            invariant
                p <= num_ports,
                all_adaptive_candidates(
                    *top,
                    current_router,
                    num_virtual_channels,
                    self.label(),
                    candidates@,
                ),
                forall|q: int|
                    (#[trigger] router_port_at(*top, current_router, q) && q < p)
                        ==> contains_labeled_block(
                        candidates@,
                        q as usize,
                        num_virtual_channels,
                        self.label(),
                    ),
            decreases num_ports - p,
        {
            let ghost before = candidates@;
            match top.neighbour(current_router, p) {
                Location::RouterPort { router_index, router_port: _ } => {
                    proof {
                        assert(router_port_at(*top, current_router, p as int));
                    }
                    let mut vc: usize = 0;
                    while vc < num_virtual_channels
                        invariant
                            vc <= num_virtual_channels,
                            all_adaptive_candidates(
                                *top,
                                current_router,
                                num_virtual_channels,
                                self.label(),
                                before,
                            ),
                            candidates@.len() == before.len() + vc,
                            forall|k: int| 0 <= k < before.len() ==> candidates@[k] == before[k],
                            forall|k: int|
                                before.len() <= k < candidates@.len() ==> is_labeled_candidate(
                                    #[trigger] candidates@[k],
                                    p,
                                    (k - before.len()) as usize,
                                    self.label(),
                                ),
                        decreases num_virtual_channels - vc,
                    {
                        let mut egress = CandidateEgress::new(p, vc);
                        egress.label = self.adaptive_label;
                        candidates.push(egress);
                        vc += 1;
                    }
                    proof {
                        assert(is_labeled_block(
                            candidates@.subrange(
                                before.len() as int,
                                before.len() + num_virtual_channels,
                            ),
                            p,
                            num_virtual_channels,
                            self.label(),
                        ));
                        assert forall|k: int| 0 <= k < candidates@.len() implies {
                            &&& is_labeled_candidate(
                                #[trigger] candidates@[k],
                                candidates@[k].port,
                                candidates@[k].virtual_channel,
                                self.label(),
                            )
                            &&& router_port_at(*top, current_router, candidates@[k].port as int)
                            &&& candidates@[k].virtual_channel < num_virtual_channels
                        } by {
                            if k < before.len() {
                                assert(candidates@[k] == before[k]);
                                assert(is_labeled_candidate(
                                    before[k],
                                    before[k].port,
                                    before[k].virtual_channel,
                                    self.label(),
                                ));
                            } else {
                                assert(is_labeled_candidate(
                                    candidates@[k],
                                    p,
                                    (k - before.len()) as usize,
                                    self.label(),
                                ));
                            }
                        }
                    }
                },
                Location::ServerPort(_) => {},
            }
            proof {
                assert forall|q: int|
                    (#[trigger] router_port_at(*top, current_router, q) && q < p
                        + 1) implies contains_labeled_block(
                    candidates@,
                    q as usize,
                    num_virtual_channels,
                    self.label(),
                ) by {
                    if q < p as int {
                        let k0 = choose|k0: int|
                            0 <= k0 && k0 + num_virtual_channels <= before.len()
                                && is_labeled_block(
                                #[trigger] before.subrange(k0, k0 + num_virtual_channels),
                                q as usize,
                                num_virtual_channels,
                                self.label(),
                            );
                        assert(candidates@.subrange(k0, k0 + num_virtual_channels) =~= before
                            .subrange(k0, k0 + num_virtual_channels));
                    } else {
                        assert(contains_labeled_block(
                            candidates@,
                            q as usize,
                            num_virtual_channels,
                            self.label(),
                        ));
                    }
                }
            }
            p += 1;
        }
        Ok(RoutingNextCandidates { candidates, idempotent: true })
    }

    fn initialize_routing_info(
        &self,
        info: &mut RoutingInfo,
        top: &Topology,
        current_router: usize,
        target_router: usize,
        target_server: Option<usize>,
        rng: &mut StdRng,
    ) -> (r: Result<(), Error>) {
        Ok(())
    }

    fn update_routing_info(
        &self,
        info: &mut RoutingInfo,
        top: &Topology,
        current_router: usize,
        current_port: usize,
        target_router: usize,
        target_server: Option<usize>,
        rng: &mut StdRng,
    ) -> (r: Result<(), Error>) {
        if info.meta.len() == 0 {
            if info.hops >= self.adaptive_hops {
                let mut child = RoutingInfo::new();
                let ghost fresh = child;
                match self.routing.initialize_routing_info(
                    &mut child,
                    top,
                    current_router,
                    target_router,
                    target_server,
                    rng,
                ) {
                    Ok(u) => {
                        info.meta.push(child);
                        proof {
                            assert(is_fresh_info(fresh));
                            assert(info.meta@[0] == child);
                            assert(Ok::<(), Error>(u) == Ok::<(), Error>(()));
                        }
                        Ok(())
                    },
                    Err(e) => {
                        proof {
                            assert(is_fresh_info(fresh));
                            assert(self.inner().init_info_ens(
                                *top,
                                fresh,
                                child,
                                current_router,
                                target_router,
                                Err(e),
                            ));
                        }
                        Err(e)
                    },
                }
            } else {
                Ok(())
            }
        } else {
            let ghost prev = *info;
            let mut child = info.meta.remove(0);
            proof {
                assert(child == prev.meta@[0]);
            }
            child.hops = child.hops + 1;
            proof {
                assert(child == (RoutingInfo {
                    hops: (prev.meta@[0].hops + 1) as usize,
                    ..prev.meta@[0]
                }));
            }
            let ghost incremented = child;
            let r = self.routing.update_routing_info(
                &mut child,
                top,
                current_router,
                current_port,
                target_router,
                target_server,
                rng,
            );
            info.meta.insert(0, child);
            proof {
                assert(info.meta@.len() == 1);
                assert(info.meta@[0] == child);
                assert(info.hops == prev.hops);
                assert(info.visited_routers == prev.visited_routers);
                assert(info.selections == prev.selections);
                assert(self.inner().update_ens(
                    *top,
                    incremented,
                    child,
                    current_router,
                    current_port,
                    target_router,
                    r,
                ));
            }
            r
        }
    }

    fn performed_request(
        &self,
        requested: &CandidateEgress,
        info: &mut RoutingInfo,
        top: &Topology,
        current_router: usize,
        target_router: usize,
        target_server: Option<usize>,
        num_virtual_channels: usize,
        rng: &mut StdRng,
    ) {
    }

    fn initialize(&mut self, top: &Topology, rng: &mut StdRng) -> (r: Result<(), Error>) {
        self.routing.initialize(top, rng)
    }

    fn statistics(&self, cycle: Time) -> Option<ConfigurationValue> {
        self.routing.statistics(cycle)
    }
}

} // verus!
