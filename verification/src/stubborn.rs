use vstd::prelude::*;
use rand::rngs::StdRng;
use crate::config::{ConfigurationValue, Time};
use crate::errors::Error;
use crate::model::{
    candidates_to_server, CandidateEgress, RoutingAnnotation, RoutingInfo, RoutingNextCandidates,
    Selections,
};
use crate::routing::Routing;
use crate::topology::Topology;

verus! {

/// `sub` is `c` with the top entry of its annotation stack removed and
/// everything else equal.
pub open spec fn is_popped_of(c: CandidateEgress, sub: CandidateEgress) -> bool {
    &&& sub.port == c.port
    &&& sub.virtual_channel == c.virtual_channel
    &&& sub.label == c.label
    &&& sub.estimated_remaining_hops == c.estimated_remaining_hops
    &&& sub.router_allows == c.router_allows
    &&& sub.annotation.values@ == c.annotation.values@.drop_last()
}

/// `cout` is `cin` with `cin`'s own label pushed onto the annotation stack.
pub open spec fn label_wrapped_candidate(cin: CandidateEgress, cout: CandidateEgress) -> bool {
    &&& cout.port == cin.port
    &&& cout.virtual_channel == cin.virtual_channel
    &&& cout.label == cin.label
    &&& cout.estimated_remaining_hops == cin.estimated_remaining_hops
    &&& cout.router_allows == cin.router_allows
    &&& cout.annotation.values@ == cin.annotation.values@.push(cin.label)
}

/// `outer` wraps `inner` candidate by candidate.
pub open spec fn label_wrapped_candidates(
    inner: Seq<CandidateEgress>,
    outer: Seq<CandidateEgress>,
) -> bool {
    &&& outer.len() == inner.len()
    &&& forall|k: int| 0 <= k < inner.len() ==> label_wrapped_candidate(inner[k], #[trigger] outer[k])
}

/// The exact candidate a stubborn router repeats: the committed port,
/// virtual channel and label, with nothing else attached.
pub open spec fn is_committed_candidate(
    c: CandidateEgress,
    port: usize,
    virtual_channel: usize,
    label: i32,
) -> bool {
    &&& c.port == port
    &&& c.virtual_channel == virtual_channel
    &&& c.label == label
    &&& c.estimated_remaining_hops is None
    &&& c.router_allows is None
    &&& c.annotation.values@.len() == 0
}

/// A fresh per-packet record, as handed to `initialize_routing_info`.
pub open spec fn is_fresh_info(info: RoutingInfo) -> bool {
    &&& info.hops == 0
    &&& info.visited_routers@.len() == 0
    &&& info.selections is Unset
    &&& info.meta@.len() == 0
}

/// Wraps one routing so that a router commits to exactly one
/// `(port, virtual channel, label)` the first time a request is performed
/// there, and repeats that exact candidate on every later call of `next` at
/// the same router.  Reports `idempotent = false`: the value is only fixed
/// retroactively, once the inner routing's choice has been observed.
pub struct Stubborn<R: Routing> {
    routing: R,
}

impl<R: Routing> Stubborn<R> {
    pub fn new(routing: R) -> (r: Stubborn<R>)
        ensures
            r.inner() == routing,
    {
        Stubborn { routing }
    }

    /// The wrapped routing.
    pub closed spec fn inner(&self) -> R {
        self.routing
    }
}

impl<R: Routing> Routing for Stubborn<R> {
    open spec fn wf(&self) -> bool {
        self.inner().wf()
    }

    open spec fn initialized(&self, top: Topology) -> bool {
        self.inner().initialized(top)
    }

    open spec fn info_ok(
        &self,
        top: Topology,
        info: RoutingInfo,
        current: usize,
        target: usize,
        num_vc: usize,
    ) -> bool {
        &&& info.meta@.len() == 1
        &&& match info.selections {
            Selections::Unset => self.inner().info_ok(top, info.meta@[0], current, target, num_vc),
            Selections::Committed { port, virtual_channel, label } => port < top.ports_of(
                current as int,
            ).len() && virtual_channel < num_vc,
            _ => false,
        }
    }

    open spec fn next_req(&self, top: Topology, num_vc: usize) -> bool {
        self.inner().next_req(top, num_vc)
    }

    open spec fn next_ens(
        &self,
        top: Topology,
        info: RoutingInfo,
        current: usize,
        target: usize,
        num_vc: usize,
        r: Result<RoutingNextCandidates, Error>,
    ) -> bool {
        match info.selections {
            Selections::Committed { port, virtual_channel, label } => {
                &&& r matches Ok(rc)
                &&& !r->Ok_0.idempotent
                &&& r->Ok_0.candidates@.len() == 1
                &&& is_committed_candidate(r->Ok_0.candidates@[0], port, virtual_channel, label)
            },
            _ => match r {
                Ok(rc) => {
                    &&& !rc.idempotent
                    &&& exists|inner_rc: RoutingNextCandidates|
                        {
                            &&& #[trigger] self.inner().next_ens(
                                top,
                                info.meta@[0],
                                current,
                                target,
                                num_vc,
                                Ok(inner_rc),
                            )
                            &&& label_wrapped_candidates(inner_rc.candidates@, rc.candidates@)
                        }
                },
                Err(e) => self.inner().next_ens(
                    top,
                    info.meta@[0],
                    current,
                    target,
                    num_vc,
                    Err(e),
                ),
            },
        }
    }

    open spec fn init_info_ens(
        &self,
        top: Topology,
        prev: RoutingInfo,
        info: RoutingInfo,
        current: usize,
        target: usize,
        r: Result<(), Error>,
    ) -> bool {
        match r {
            Ok(_) => {
                &&& info.hops == prev.hops
                &&& info.source_server == prev.source_server
                &&& info.visited_routers == prev.visited_routers
                &&& info.selections is Unset
                &&& info.meta@.len() == 1
                &&& exists|fresh: RoutingInfo|
                    #[trigger] is_fresh_info(fresh) && self.inner().init_info_ens(
                        top,
                        fresh,
                        info.meta@[0],
                        current,
                        target,
                        Ok(()),
                    )
            },
            Err(e) => {
                &&& info == prev
                &&& exists|fresh: RoutingInfo|
                    #[trigger] is_fresh_info(fresh) && exists|after: RoutingInfo|
                        self.inner().init_info_ens(top, fresh, after, current, target, Err(e))
            },
        }
    }

    open spec fn update_req(
        &self,
        top: Topology,
        info: RoutingInfo,
        current: usize,
        port: usize,
        target: usize,
    ) -> bool {
        &&& info.meta@.len() == 1
        &&& self.inner().update_req(top, info.meta@[0], current, port, target)
    }

    open spec fn update_ens(
        &self,
        top: Topology,
        prev: RoutingInfo,
        info: RoutingInfo,
        current: usize,
        port: usize,
        target: usize,
        r: Result<(), Error>,
    ) -> bool {
        &&& info.hops == prev.hops
        &&& info.source_server == prev.source_server
        &&& info.visited_routers == prev.visited_routers
        &&& info.selections is Unset
        &&& info.meta@.len() == 1
        &&& self.inner().update_ens(top, prev.meta@[0], info.meta@[0], current, port, target, r)
    }

    open spec fn performed_req(
        &self,
        top: Topology,
        info: RoutingInfo,
        requested: CandidateEgress,
        current: usize,
        target: usize,
        num_vc: usize,
    ) -> bool {
        &&& info.meta@.len() == 1
        &&& requested.annotation.values@.len() > 0 ==> {
            &&& requested.port < top.ports_of(current as int).len()
            &&& requested.virtual_channel < num_vc
            &&& forall|sub: CandidateEgress|
                #[trigger] is_popped_of(requested, sub) ==> self.inner().performed_req(
                    top,
                    info.meta@[0],
                    sub,
                    current,
                    target,
                    num_vc,
                )
        }
    }

    open spec fn performed_ens(
        &self,
        top: Topology,
        prev: RoutingInfo,
        info: RoutingInfo,
        requested: CandidateEgress,
        current: usize,
        target: usize,
        num_vc: usize,
    ) -> bool {
        if requested.annotation.values@.len() == 0 {
            info == prev
        } else {
            &&& info.hops == prev.hops
            &&& info.source_server == prev.source_server
            &&& info.visited_routers == prev.visited_routers
            &&& info.selections == (Selections::Committed {
                port: requested.port,
                virtual_channel: requested.virtual_channel,
                label: requested.annotation.values@.last(),
            })
            &&& info.meta@.len() == 1
            &&& self.info_ok(top, info, current, target, num_vc)
            &&& exists|sub: CandidateEgress|
                #[trigger] is_popped_of(requested, sub) && self.inner().performed_ens(
                    top,
                    prev.meta@[0],
                    info.meta@[0],
                    sub,
                    current,
                    target,
                    num_vc,
                )
        }
    }

    open spec fn init_ens(&self, prev: Self, top: Topology, r: Result<(), Error>) -> bool {
        self.inner().init_ens(prev.inner(), top, r)
    }

    fn next(
        &self,
        info: &RoutingInfo,
        top: &Topology,
        current_router: usize,
        target_router: usize,
        target_server: Option<usize>,
        num_virtual_channels: usize,
        rng: &mut StdRng,
    ) -> (r: Result<RoutingNextCandidates, Error>) {
        if target_router == current_router {
            return candidates_to_server(
                top,
                current_router,
                target_server.unwrap(),
                num_virtual_channels,
            );
        }
        if let Selections::Committed { port, virtual_channel, label } = info.selections {
            let mut candidates: Vec<CandidateEgress> = Vec::new();
            candidates.push(CandidateEgress {
                port,
                virtual_channel,
                label,
                estimated_remaining_hops: None,
                router_allows: None,
                annotation: RoutingAnnotation::empty(),
            });
            return Ok(RoutingNextCandidates { candidates, idempotent: false });
        }
        let inner_rc = match self.routing.next(
            &info.meta[0],
            top,
            current_router,
            target_router,
            target_server,
            num_virtual_channels,
            rng,
        ) {
            Ok(rc) => rc,
            Err(e) => {
                return Err(e);
            },
        };
        let ghost inner_snapshot = inner_rc;
        let mut candidates: Vec<CandidateEgress> = Vec::new();
        let mut inner_candidates = inner_rc.candidates;
        let ghost inner_seq = inner_candidates@;
        let mut k: usize = 0;
        let len = inner_candidates.len();
        #[verifier::loop_isolation(false)]
        while k < len
            invariant
                len == inner_seq.len(),
                k <= len,
                inner_candidates@ == inner_seq,
                candidates@.len() == k,
                forall|j: int|
                    0 <= j < k ==> label_wrapped_candidate(inner_seq[j], #[trigger] candidates@[j]),
            decreases len - k,
        {
            let c = &inner_candidates[k];
            let annotation = c.annotation.pushed(c.label);
            candidates.push(CandidateEgress {
                port: c.port,
                virtual_channel: c.virtual_channel,
                label: c.label,
                estimated_remaining_hops: c.estimated_remaining_hops,
                router_allows: c.router_allows,
                annotation,
            });
            k += 1;
        }
        proof {
            assert(label_wrapped_candidates(inner_snapshot.candidates@, candidates@));
            assert(self.inner().next_ens(
                *top,
                info.meta@[0],
                current_router,
                target_router,
                num_virtual_channels,
                Ok(inner_snapshot),
            ));
        }
        Ok(RoutingNextCandidates { candidates, idempotent: false })
    }

    fn initialize_routing_info(
        &self,
        info: &mut RoutingInfo,
        top: &Topology,
        current_router: usize,
        target_router: usize,
        target_server: Option<usize>,
        rng: &mut StdRng,
    ) -> (r: Result<(), Error>) {
        let mut child = RoutingInfo::new();
        let ghost fresh = child;
        match self.routing.initialize_routing_info(
            &mut child,
            top,
            current_router,
            target_router,
            target_server,
            rng,
        ) {
            Ok(u) => {
                info.meta.push(child);
                proof {
                    assert(is_fresh_info(fresh));
                    assert(info.meta@[0] == child);
                    assert(self.inner().init_info_ens(
                        *top,
                        fresh,
                        child,
                        current_router,
                        target_router,
                        Ok(u),
                    ));
                    assert(Ok::<(), Error>(u) == Ok::<(), Error>(()));
                }
                Ok(())
            },
            Err(e) => {
                proof {
                    assert(is_fresh_info(fresh));
                    assert(self.inner().init_info_ens(
                        *top,
                        fresh,
                        child,
                        current_router,
                        target_router,
                        Err(e),
                    ));
                }
                Err(e)
            },
        }
    }

    fn update_routing_info(
        &self,
        info: &mut RoutingInfo,
        top: &Topology,
        current_router: usize,
        current_port: usize,
        target_router: usize,
        target_server: Option<usize>,
        rng: &mut StdRng,
    ) -> (r: Result<(), Error>) {
        info.selections = Selections::Unset;
        let mut child = info.meta.remove(0);
        let r = self.routing.update_routing_info(
            &mut child,
            top,
            current_router,
            current_port,
            target_router,
            target_server,
            rng,
        );
        info.meta.insert(0, child);
        r
    }

    fn performed_request(
        &self,
        requested: &CandidateEgress,
        info: &mut RoutingInfo,
        top: &Topology,
        current_router: usize,
        target_router: usize,
        target_server: Option<usize>,
        num_virtual_channels: usize,
        rng: &mut StdRng,
    ) {
        if requested.annotation.values.len() == 0 {
            return ;
        }
        let (label, sub_annotation) = requested.annotation.popped();
        info.selections = Selections::Committed {
            port: requested.port,
            virtual_channel: requested.virtual_channel,
            label,
        };
        let sub_requested = CandidateEgress {
            port: requested.port,
            virtual_channel: requested.virtual_channel,
            label: requested.label,
            estimated_remaining_hops: requested.estimated_remaining_hops,
            router_allows: requested.router_allows,
            annotation: sub_annotation,
        };
        proof {
            assert(is_popped_of(*requested, sub_requested));
        }
        let mut child = info.meta.remove(0);
        self.routing.performed_request(
            &sub_requested,
            &mut child,
            top,
            current_router,
            target_router,
            target_server,
            num_virtual_channels,
            rng,
        );
        info.meta.insert(0, child);
    }

    fn initialize(&mut self, top: &Topology, rng: &mut StdRng) -> (r: Result<(), Error>) {
        self.routing.initialize(top, rng)
    }

    fn statistics(&self, cycle: Time) -> Option<ConfigurationValue> {
        self.routing.statistics(cycle)
    }
}

} // verus!
