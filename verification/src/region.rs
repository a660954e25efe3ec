use vstd::prelude::*;
use rand::rngs::StdRng;
use crate::config::{ConfigurationValue, Time};
use crate::errors::Error;
use crate::general_pattern::GeneralPattern;
use crate::model::{
    add_label, candidates_to_server, CandidateEgress, RoutingInfo, RoutingNextCandidates,
};
use crate::routing::Routing;
use crate::stubborn::is_fresh_info;
use crate::topology::{Location, Topology};

verus! {

/// `c` carries exactly the same decision as `d`: port, channel, label and
/// every attachment.
pub open spec fn carried_candidate(c: CandidateEgress, d: CandidateEgress) -> bool {
    &&& c.port == d.port
    &&& c.virtual_channel == d.virtual_channel
    &&& c.label == d.label
    &&& c.estimated_remaining_hops == d.estimated_remaining_hops
    &&& c.router_allows == d.router_allows
    &&& c.annotation.values@ == d.annotation.values@
}


/// Joining the kept default candidates with the appended region candidates
/// preserves both directions of the accounting: every candidate is one or the
/// other, and every default candidate whose hop leaves all regions is still
/// carried.
proof fn lemma_region_next_assembly<
    D: Routing,
    R: Routing,
    P: GeneralPattern<usize, usize>,
    Q: GeneralPattern<usize, usize>,
>(
    routing: &RegionRouting<D, R, P, Q>,
    top: Topology,
    info: RoutingInfo,
    current: usize,
    target: usize,
    num_vc: usize,
    dcands: Seq<CandidateEgress>,
    kept: Seq<CandidateEgress>,
    cands: Seq<CandidateEgress>,
)
    requires
        forall|m: int|
            0 <= m < kept.len() ==> routing.kept_default_candidate(
                top,
                current,
                dcands,
                #[trigger] kept[m],
            ),
        forall|kk: int|
            0 <= kk < dcands.len() && routing.hop_outside_regions(
                top,
                current,
                (#[trigger] dcands[kk]).port,
            ) ==> exists|m: int|
                0 <= m < kept.len() && carried_candidate(#[trigger] kept[m], dcands[kk]),
        cands.len() >= kept.len(),
        forall|m: int| 0 <= m < kept.len() ==> #[trigger] cands[m] == kept[m],
        forall|m: int|
            kept.len() <= m < cands.len() ==> routing.region_candidate(
                top,
                info,
                current,
                target,
                num_vc,
                dcands,
                #[trigger] cands[m],
            ),
    ensures
        routing.accounted_candidates(top, info, current, target, num_vc, dcands, cands),
        routing.keeps_outside_defaults(top, current, dcands, cands),
{
    assert forall|m: int| 0 <= m < cands.len() implies (routing.kept_default_candidate(
        top,
        current,
        dcands,
        #[trigger] cands[m],
    ) || routing.region_candidate(top, info, current, target, num_vc, dcands, cands[m])) by {
        if m < kept.len() {
            assert(cands[m] == kept[m]);
        }
    }
    assert forall|kk: int|
        0 <= kk < dcands.len() && routing.hop_outside_regions(
            top,
            current,
            (#[trigger] dcands[kk]).port,
        ) implies exists|m: int|
        0 <= m < cands.len() && carried_candidate(#[trigger] cands[m], dcands[kk]) by {
        let m0 = choose|m: int|
            0 <= m < kept.len() && carried_candidate(#[trigger] kept[m], dcands[kk]);
        assert(cands[m0] == kept[m0]);
    }
}

/// A region that is fully offered in a candidate set stays fully offered in
/// any extension of it.
proof fn lemma_offered_monotone<
    D: Routing,
    R: Routing,
    P: GeneralPattern<usize, usize>,
    Q: GeneralPattern<usize, usize>,
>(
    routing: &RegionRouting<D, R, P, Q>,
    top: Topology,
    info: RoutingInfo,
    current: usize,
    target: usize,
    num_vc: usize,
    i: int,
    cands1: Seq<CandidateEgress>,
    cands2: Seq<CandidateEgress>,
)
    requires
        cands1.len() <= cands2.len(),
        forall|m: int| 0 <= m < cands1.len() ==> #[trigger] cands2[m] == cands1[m],
        routing.region_offered(top, info, current, target, num_vc, i, cands1),
    ensures
        routing.region_offered(top, info, current, target, num_vc, i, cands2),
{
    let rrc = choose|rrc: RoutingNextCandidates|
        #[trigger] routing.region_offered_by(top, info, current, target, num_vc, i, rrc, cands1);
    assert(routing.region_offered_by(top, info, current, target, num_vc, i, rrc, cands1));
    assert forall|q: int|
        #![trigger rrc.candidates@[q]]
        0 <= q < rrc.candidates@.len() implies routing.translated_into(
        top,
        current,
        i,
        rrc.candidates@[q],
        cands2,
    ) by {
        assert(routing.translated_into(top, current, i, rrc.candidates@[q], cands1));
        let m0 = choose|m: int|
            0 <= m < cands1.len() && routing.region_translation(
                top,
                current,
                i,
                rrc.candidates@[q],
                #[trigger] cands1[m],
            );
        assert(cands2[m0] == cands1[m0]);
        assert(routing.region_translation(top, current, i, rrc.candidates@[q], cands2[m0]));
    }
    assert(routing.routings_of()[i].next_ens(
        routing.rtops()[i],
        info.meta@[i + 1],
        routing.ptlv()[i]@[current as int],
        routing.ptlv()[i]@[target as int],
        num_vc,
        Ok(rrc),
    ));
    assert(routing.region_offered_by(top, info, current, target, num_vc, i, rrc, cands2));
}

/// Overrides a default routing inside designated sub-regions: a candidate
/// whose hop stays inside a region is replaced by that region's own
/// routing's candidates, translated between the region's logical topology
/// and the physical one; hops that leave every region keep the default
/// routing's candidates.
pub struct RegionRouting<D: Routing, R: Routing, P: GeneralPattern<usize, usize>, Q: GeneralPattern<
    usize,
    usize,
>> {
    physical_to_logical: Vec<P>,
    logical_to_physical: Vec<Q>,
    selected_region_size: Vec<usize>,
    physical_to_logical_vector: Vec<Vec<usize>>,
    logical_to_physical_vector: Vec<Vec<usize>>,
    region_logical_topology: Vec<Topology>,
    routings: Vec<R>,
    extra_label_selection: i32,
    default_routing: D,
}

impl<D: Routing, R: Routing, P: GeneralPattern<usize, usize>, Q: GeneralPattern<usize, usize>> RegionRouting<
    D,
    R,
    P,
    Q,
> {
    /// Builds the combinator; the paired region lists must all have the same
    /// length.
    pub fn new(
        physical_to_logical: Vec<P>,
        logical_to_physical: Vec<Q>,
        selected_region_size: Vec<usize>,
        region_logical_topology: Vec<Topology>,
        routings: Vec<R>,
        extra_label_selection: i32,
        default_routing: D,
    ) -> (r: Result<RegionRouting<D, R, P, Q>, Error>)
        ensures
            r matches Ok(rr) ==> {
                &&& rr.regions() == routings@.len()
                &&& rr.default() == default_routing
                &&& rr.routings_of() == routings@
                &&& rr.rtops() == region_logical_topology@
                &&& rr.p2l_pats() == physical_to_logical@
                &&& rr.l2p_pats() == logical_to_physical@
                &&& rr.region_sizes() == selected_region_size@
            },
            r is Err <==> !(physical_to_logical@.len() == selected_region_size@.len()
                && physical_to_logical@.len() == routings@.len() && logical_to_physical@.len()
                == physical_to_logical@.len() && region_logical_topology@.len()
                == logical_to_physical@.len()),
    {
        if physical_to_logical.len() != selected_region_size.len() {
            return Err(Error::MismatchedSizes);
        }
        if physical_to_logical.len() != routings.len() {
            return Err(Error::MismatchedSizes);
        }
        if logical_to_physical.len() != physical_to_logical.len() {
            return Err(Error::MismatchedSizes);
        }
        if region_logical_topology.len() != logical_to_physical.len() {
            return Err(Error::MismatchedSizes);
        }
        Ok(
            RegionRouting {
                physical_to_logical,
                logical_to_physical,
                selected_region_size,
                physical_to_logical_vector: Vec::new(),
                logical_to_physical_vector: Vec::new(),
                region_logical_topology,
                routings,
                extra_label_selection,
                default_routing,
            },
        )
    }

    pub closed spec fn regions(&self) -> nat {
        self.routings@.len()
    }

    pub closed spec fn default(&self) -> D {
        self.default_routing
    }

    pub closed spec fn routings_of(&self) -> Seq<R> {
        self.routings@
    }

    pub closed spec fn rtops(&self) -> Seq<Topology> {
        self.region_logical_topology@
    }

    pub closed spec fn p2l_pats(&self) -> Seq<P> {
        self.physical_to_logical@
    }

    pub closed spec fn l2p_pats(&self) -> Seq<Q> {
        self.logical_to_physical@
    }

    pub closed spec fn region_sizes(&self) -> Seq<usize> {
        self.selected_region_size@
    }

    pub closed spec fn ptlv(&self) -> Seq<Vec<usize>> {
        self.physical_to_logical_vector@
    }

    pub closed spec fn ltpv(&self) -> Seq<Vec<usize>> {
        self.logical_to_physical_vector@
    }

    /// The translation tables built at initialization are consistent: for
    /// each region, physical routers map into the region's logical space and
    /// back into the physical one, and the region's topology is well formed
    /// with one router per logical element.
    pub open spec fn tables_ok(&self, top: Topology) -> bool {
        &&& self.p2l_pats().len() == self.regions()
        &&& self.l2p_pats().len() == self.regions()
        &&& self.region_sizes().len() == self.regions()
        &&& self.rtops().len() == self.regions()
        &&& self.ptlv().len() == self.regions()
        &&& self.ltpv().len() == self.regions()
        &&& forall|i: int|
            0 <= i < self.regions() ==> {
                &&& (#[trigger] self.ptlv()[i])@.len() == top.n()
                &&& self.ltpv()[i]@.len() == self.region_sizes()[i]
                &&& self.rtops()[i].wf()
                &&& self.rtops()[i].n() == self.region_sizes()[i]
                &&& forall|x: int|
                    0 <= x < top.n() ==> (#[trigger] self.ptlv()[i]@[x]) < self.region_sizes()[i]
                &&& forall|x: int|
                    0 <= x < self.region_sizes()[i] ==> (#[trigger] self.ltpv()[i]@[x]) < top.n()
            }
    }

    pub closed spec fn extra_label(&self) -> i32 {
        self.extra_label_selection
    }

    /// The hop from `current` through `port` stays inside region `i`: both
    /// endpoints are fixed points of the region's round trip between the
    /// physical and the logical space.
    pub open spec fn hop_inside_region(&self, top: Topology, current: usize, port: usize, i: int) -> bool {
        &&& (port as int) < top.ports_of(current as int).len()
        &&& (top.ports_of(current as int)[port as int] matches Location::RouterPort {
            router_index,
            ..
        } && {
            &&& self.ltpv()[i]@[self.ptlv()[i]@[current as int] as int] == current
            &&& self.ltpv()[i]@[self.ptlv()[i]@[router_index as int] as int] == router_index
        })
    }

    /// The hop from `current` through `port` leaves every region (a hop to a
    /// server trivially does).
    pub open spec fn hop_outside_regions(&self, top: Topology, current: usize, port: usize) -> bool {
        forall|i: int| 0 <= i < self.regions() ==> !self.hop_inside_region(top, current, port, i)
    }

    /// `c` carries, unchanged, some default candidate whose hop leaves every
    /// region.
    pub open spec fn kept_default_candidate(
        &self,
        top: Topology,
        current: usize,
        dcands: Seq<CandidateEgress>,
        c: CandidateEgress,
    ) -> bool {
        exists|k: int|
            0 <= k < dcands.len() && carried_candidate(c, #[trigger] dcands[k])
                && self.hop_outside_regions(top, current, dcands[k].port)
    }

    /// `cout` realizes region `i`'s logical candidate `cin` physically: the
    /// port leads to the physical image of `cin`'s logical neighbour, channel
    /// and attachments are kept, and the label is offset by the configured
    /// selection bonus (saturating at the label range's ends).
    pub open spec fn region_translation(
        &self,
        top: Topology,
        current: usize,
        i: int,
        cin: CandidateEgress,
        cout: CandidateEgress,
    ) -> bool {
        let lc = self.ptlv()[i]@[current as int];
        &&& (cin.port as int) < self.rtops()[i].ports_of(lc as int).len()
        &&& (self.rtops()[i].ports_of(lc as int)[cin.port as int] matches Location::RouterPort {
            router_index,
            ..
        } && {
            let np = self.ltpv()[i]@[router_index as int];
            &&& (router_index as int) < self.ltpv()[i]@.len()
            &&& (cout.port as int) < top.ports_of(current as int).len()
            &&& (top.ports_of(current as int)[cout.port as int] matches Location::RouterPort {
                router_index: pr,
                ..
            } && pr == np)
            &&& cout.virtual_channel == cin.virtual_channel
            &&& cout.label as int == crate::model::clamp_label(
                cin.label as int + self.extra_label() as int,
            )
            &&& cout.estimated_remaining_hops == cin.estimated_remaining_hops
            &&& cout.router_allows == cin.router_allows
            &&& cout.annotation.values@ == cin.annotation.values@
        })
    }

    /// Some default candidate's hop is attributed to region `i`: it lies
    /// inside it and inside no earlier region.
    pub open spec fn region_matched(
        &self,
        top: Topology,
        current: usize,
        dcands: Seq<CandidateEgress>,
        i: int,
    ) -> bool {
        exists|k: int|
            0 <= k < dcands.len() && self.first_matching_region(
                top,
                current,
                (#[trigger] dcands[k]).port,
                i,
            )
    }

    /// `c` translates a candidate that some matched region's own routing,
    /// asked between the logical images of `current` and `target`, returned.
    pub open spec fn region_candidate(
        &self,
        top: Topology,
        info: RoutingInfo,
        current: usize,
        target: usize,
        num_vc: usize,
        dcands: Seq<CandidateEgress>,
        c: CandidateEgress,
    ) -> bool {
        exists|i: int, rrc: RoutingNextCandidates, q: int|
            #![trigger self.rtops()[i], rrc.candidates@[q]]
            {
                &&& 0 <= i < self.regions()
                &&& self.region_matched(top, current, dcands, i)
                &&& self.ptlv()[i]@[current as int] != self.ptlv()[i]@[target as int]
                &&& self.routings_of()[i].next_ens(
                    self.rtops()[i],
                    info.meta@[i + 1],
                    self.ptlv()[i]@[current as int],
                    self.ptlv()[i]@[target as int],
                    num_vc,
                    Ok(rrc),
                )
                &&& 0 <= q < rrc.candidates@.len()
                &&& self.region_translation(top, current, i, rrc.candidates@[q], c)
            }
    }

    /// Some candidate of `cands` translates region `i`'s logical candidate
    /// `cin`.
    pub open spec fn translated_into(
        &self,
        top: Topology,
        current: usize,
        i: int,
        cin: CandidateEgress,
        cands: Seq<CandidateEgress>,
    ) -> bool {
        exists|m: int|
            0 <= m < cands.len() && self.region_translation(
                top,
                current,
                i,
                cin,
                #[trigger] cands[m],
            )
    }

    /// `rrc` is region `i`'s own decision and all its candidates appear
    /// translated in `cands`.
    pub open spec fn region_offered_by(
        &self,
        top: Topology,
        info: RoutingInfo,
        current: usize,
        target: usize,
        num_vc: usize,
        i: int,
        rrc: RoutingNextCandidates,
        cands: Seq<CandidateEgress>,
    ) -> bool {
        &&& self.routings_of()[i].next_ens(
            self.rtops()[i],
            info.meta@[i + 1],
            self.ptlv()[i]@[current as int],
            self.ptlv()[i]@[target as int],
            num_vc,
            Ok(rrc),
        )
        &&& forall|q: int|
            #![trigger rrc.candidates@[q]]
            0 <= q < rrc.candidates@.len() ==> self.translated_into(
                top,
                current,
                i,
                rrc.candidates@[q],
                cands,
            )
    }

    /// All candidates of region `i`'s own decision appear translated in
    /// `cands`.
    pub open spec fn region_offered(
        &self,
        top: Topology,
        info: RoutingInfo,
        current: usize,
        target: usize,
        num_vc: usize,
        i: int,
        cands: Seq<CandidateEgress>,
    ) -> bool {
        exists|rrc: RoutingNextCandidates|
            #[trigger] self.region_offered_by(top, info, current, target, num_vc, i, rrc, cands)
    }

    /// Every region matched by some default candidate, whose logical
    /// endpoints differ, contributes all its own candidates to `cands`.
    pub open spec fn matched_regions_offered(
        &self,
        top: Topology,
        info: RoutingInfo,
        current: usize,
        target: usize,
        num_vc: usize,
        dcands: Seq<CandidateEgress>,
        cands: Seq<CandidateEgress>,
    ) -> bool {
        forall|i: int|
            0 <= i < self.regions() && #[trigger] self.region_matched(top, current, dcands, i)
                && self.ptlv()[i]@[current as int] != self.ptlv()[i]@[target as int]
                ==> self.region_offered(top, info, current, target, num_vc, i, cands)
    }

    /// Some matched region's own decision yields a candidate whose hop the
    /// physical topology cannot realize: the logical port leads to a server,
    /// or the images of its endpoints are not physically adjacent.
    pub open spec fn region_translation_failure(
        &self,
        top: Topology,
        info: RoutingInfo,
        current: usize,
        target: usize,
        num_vc: usize,
    ) -> bool {
        exists|i: int, rrc: RoutingNextCandidates, q: int|
            #![trigger self.rtops()[i], rrc.candidates@[q]]
            {
                &&& 0 <= i < self.regions()
                &&& self.ptlv()[i]@[current as int] != self.ptlv()[i]@[target as int]
                &&& self.routings_of()[i].next_ens(
                    self.rtops()[i],
                    info.meta@[i + 1],
                    self.ptlv()[i]@[current as int],
                    self.ptlv()[i]@[target as int],
                    num_vc,
                    Ok(rrc),
                )
                &&& 0 <= q < rrc.candidates@.len()
                &&& (rrc.candidates@[q].port as int) < self.rtops()[i].ports_of(
                    self.ptlv()[i]@[current as int] as int,
                ).len()
                &&& ({
                    ||| self.rtops()[i].ports_of(self.ptlv()[i]@[current as int] as int)[rrc.candidates@[q].port as int] is ServerPort
                    ||| (self.rtops()[i].ports_of(self.ptlv()[i]@[current as int] as int)[rrc.candidates@[q].port as int]
                        matches Location::RouterPort { router_index, .. }
                        && !crate::subtopology::physical_edge(
                        top,
                        current as int,
                        self.ltpv()[i]@[router_index as int] as int,
                    ))
                })
            }
    }

    /// Every candidate of `cands` is accounted for: it either carries a
    /// default candidate whose hop leaves all regions, or translates a
    /// region routing's candidate.
    pub open spec fn accounted_candidates(
        &self,
        top: Topology,
        info: RoutingInfo,
        current: usize,
        target: usize,
        num_vc: usize,
        dcands: Seq<CandidateEgress>,
        cands: Seq<CandidateEgress>,
    ) -> bool {
        forall|m: int|
            0 <= m < cands.len() ==> (self.kept_default_candidate(
                top,
                current,
                dcands,
                #[trigger] cands[m],
            ) || self.region_candidate(top, info, current, target, num_vc, dcands, cands[m]))
    }

    /// Every default candidate of `dcands` whose hop leaves all regions is
    /// carried, unchanged, into `cands`.
    pub open spec fn keeps_outside_defaults(
        &self,
        top: Topology,
        current: usize,
        dcands: Seq<CandidateEgress>,
        cands: Seq<CandidateEgress>,
    ) -> bool {
        forall|k: int|
            0 <= k < dcands.len() && self.hop_outside_regions(
                top,
                current,
                (#[trigger] dcands[k]).port,
            ) ==> exists|m: int|
                0 <= m < cands.len() && carried_candidate(#[trigger] cands[m], dcands[k])
    }

    /// Region `i` contains the hop through `port` and no earlier region does:
    /// it is the region the hop is attributed to.
    pub open spec fn first_matching_region(
        &self,
        top: Topology,
        current: usize,
        port: usize,
        i: int,
    ) -> bool {
        &&& self.hop_inside_region(top, current, port, i)
        &&& forall|j: int| 0 <= j < i ==> !self.hop_inside_region(top, current, port, j)
    }

    /// Region `i`'s state went from `prev_child` to `child` by one realized
    /// hop through some logical port of the image of `current`.
    pub open spec fn region_child_advanced(
        &self,
        top: Topology,
        prev_child: RoutingInfo,
        child: RoutingInfo,
        current: usize,
        target: usize,
        i: int,
    ) -> bool {
        exists|lport: usize|
            #![trigger self.rtops()[i].ports_of(self.ptlv()[i]@[current as int] as int)[lport as int]]
            {
                &&& (lport as int) < self.rtops()[i].ports_of(
                    self.ptlv()[i]@[current as int] as int,
                ).len()
                &&& self.routings_of()[i].update_ens(
                    self.rtops()[i],
                    RoutingInfo { hops: (prev_child.hops + 1) as usize, ..prev_child },
                    child,
                    self.ptlv()[i]@[current as int],
                    lport,
                    self.ptlv()[i]@[target as int],
                    Ok(()),
                )
            }
    }

    /// Region `i`'s state was reset to `child`: re-initialized from a fresh
    /// state between the logical images of `current` and `target`.
    pub open spec fn region_child_reset(
        &self,
        top: Topology,
        child: RoutingInfo,
        current: usize,
        target: usize,
        i: int,
    ) -> bool {
        exists|fresh: RoutingInfo|
            #[trigger] crate::stubborn::is_fresh_info(fresh) && self.routings_of()[i].init_info_ens(
                self.rtops()[i],
                fresh,
                child,
                self.ptlv()[i]@[current as int],
                self.ptlv()[i]@[target as int],
                Ok(()),
            )
    }

    /// Keeps the default candidates whose hop leaves every region and
    /// collects the regions the remaining hops fall in.
    #[verifier::loop_isolation(false)]
    #[verifier::rlimit(100)]
    fn keep_defaults(
        &self,
        top: &Topology,
        current_router: usize,
        num_virtual_channels: usize,
        default_candidates: &Vec<CandidateEgress>,
    ) -> (r: (Vec<CandidateEgress>, Vec<usize>))
        requires
            top.wf(),
            self.tables_ok(*top),
            current_router < top.n(),
            forall|m: int|
                0 <= m < default_candidates@.len() ==> (#[trigger] default_candidates@[m]).port
                    < top.ports_of(current_router as int).len()
                    && default_candidates@[m].virtual_channel < num_virtual_channels,
        ensures
            forall|m: int| 0 <= m < r.1@.len() ==> (#[trigger] r.1@[m]) < self.regions(),
            forall|m: int|
                0 <= m < r.0@.len() ==> (#[trigger] r.0@[m]).port < top.ports_of(
                    current_router as int,
                ).len() && r.0@[m].virtual_channel < num_virtual_channels,
            forall|m: int|
                0 <= m < r.0@.len() ==> self.kept_default_candidate(
                    *top,
                    current_router,
                    default_candidates@,
                    #[trigger] r.0@[m],
                ),
            forall|kk: int|
                0 <= kk < default_candidates@.len() && self.hop_outside_regions(
                    *top,
                    current_router,
                    (#[trigger] default_candidates@[kk]).port,
                ) ==> exists|m: int|
                    0 <= m < r.0@.len() && carried_candidate(
                        #[trigger] r.0@[m],
                        default_candidates@[kk],
                    ),
            forall|m: int|
                0 <= m < r.1@.len() ==> self.region_matched(
                    *top,
                    current_router,
                    default_candidates@,
                    (#[trigger] r.1@[m]) as int,
                ),
            forall|ii: int, kk: int|
                #![trigger self.first_matching_region(*top, current_router, default_candidates@[kk].port, ii)]
                0 <= kk < default_candidates@.len() && 0 <= ii < self.regions()
                    && self.first_matching_region(
                    *top,
                    current_router,
                    default_candidates@[kk].port,
                    ii,
                ) ==> r.1@.contains(ii as usize),
    {
        let regions = self.routings.len();
        let mut candidates: Vec<CandidateEgress> = Vec::new();
        let mut selected_regions: Vec<usize> = Vec::new();
        let mut k: usize = 0;
        while k < default_candidates.len()
            invariant
                k <= default_candidates@.len(),
                regions == self.regions(),
                forall|m: int|
                    0 <= m < default_candidates@.len() ==> (#[trigger] default_candidates@[m]).port
                        < top.ports_of(current_router as int).len()
                        && default_candidates@[m].virtual_channel < num_virtual_channels,
                forall|m: int|
                    0 <= m < candidates@.len() ==> (#[trigger] candidates@[m]).port < top.ports_of(
                        current_router as int,
                    ).len() && candidates@[m].virtual_channel < num_virtual_channels,
                forall|m: int| 0 <= m < selected_regions@.len() ==> (#[trigger] selected_regions@[m]) < regions,
                forall|m: int|
                    0 <= m < selected_regions@.len() ==> self.region_matched(
                        *top,
                        current_router,
                        default_candidates@,
                        (#[trigger] selected_regions@[m]) as int,
                    ),
                forall|ii: int, kk: int|
                    #![trigger self.first_matching_region(*top, current_router, default_candidates@[kk].port, ii)]
                    0 <= kk < k && 0 <= ii < regions && self.first_matching_region(
                        *top,
                        current_router,
                        default_candidates@[kk].port,
                        ii,
                    ) ==> selected_regions@.contains(ii as usize),
                forall|m: int|
                    0 <= m < candidates@.len() ==> self.kept_default_candidate(
                        *top,
                        current_router,
                        default_candidates@,
                        #[trigger] candidates@[m],
                    ),
                forall|kk: int|
                    0 <= kk < k && self.hop_outside_regions(
                        *top,
                        current_router,
                        (#[trigger] default_candidates@[kk]).port,
                    ) ==> exists|m: int|
                        0 <= m < candidates@.len() && carried_candidate(
                            #[trigger] candidates@[m],
                            default_candidates@[kk],
                        ),
            decreases default_candidates@.len() - k,
        {
            let c = &default_candidates[k];
            let next_router = match top.neighbour(current_router, c.port) {
                Location::RouterPort { router_index, router_port: _ } => router_index,
                Location::ServerPort(_) => {
                    // A server port never lies inside a region; keep the
                    // default candidate.
                    let mut values = c.annotation.values.clone();
                    proof {
                        assert(values@ =~= c.annotation.values@);
                    }
                    let ghost prev_cands = candidates@;
                    let pushed = CandidateEgress {
                        port: c.port,
                        virtual_channel: c.virtual_channel,
                        label: c.label,
                        estimated_remaining_hops: c.estimated_remaining_hops,
                        router_allows: c.router_allows,
                        annotation: crate::model::RoutingAnnotation { values },
                    };
                    candidates.push(pushed);
                    proof {
                        assert(carried_candidate(pushed, default_candidates@[k as int]));
                        assert(self.hop_outside_regions(*top, current_router, c.port));
                        assert(self.kept_default_candidate(
                            *top,
                            current_router,
                            default_candidates@,
                            pushed,
                        ));
                        assert forall|kk: int|
                            0 <= kk < k + 1 && self.hop_outside_regions(
                                *top,
                                current_router,
                                (#[trigger] default_candidates@[kk]).port,
                            ) implies exists|m: int|
                            0 <= m < candidates@.len() && carried_candidate(
                                #[trigger] candidates@[m],
                                default_candidates@[kk],
                            ) by {
                            if kk < k {
                                let m0 = choose|m: int|
                                    0 <= m < prev_cands.len() && carried_candidate(
                                        #[trigger] prev_cands[m],
                                        default_candidates@[kk],
                                    );
                                assert(candidates@[m0] == prev_cands[m0]);
                            } else {
                                assert(candidates@[prev_cands.len() as int] == pushed);
                            }
                        }
                        assert forall|ii: int, kk: int|
                            #![trigger self.first_matching_region(*top, current_router, default_candidates@[kk].port, ii)]
                            0 <= kk < k + 1 && 0 <= ii < regions && self.first_matching_region(
                                *top,
                                current_router,
                                default_candidates@[kk].port,
                                ii,
                            ) implies selected_regions@.contains(ii as usize) by {
                            if kk == k {
                                assert(!self.hop_inside_region(
                                    *top,
                                    current_router,
                                    c.port,
                                    ii,
                                ));
                                assert(false);
                            }
                        }
                    }
                    k += 1;
                    continue ;
                },
            };
            proof {
                top.lemma_wf_location(current_router as int, c.port as int);
            }
            let mut inside: Option<usize> = None;
            let mut i: usize = 0;
            while i < regions
                invariant
                    i <= regions,
                    regions == self.regions(),
                    current_router < top.n(),
                    next_router < top.n(),
                    k < default_candidates@.len(),
                    c == default_candidates@[k as int],
                    top.ports_of(current_router as int)[c.port as int]
                        matches Location::RouterPort { router_index, .. } && router_index
                        == next_router,
                    inside matches Some(ri) ==> ri < regions && self.first_matching_region(
                        *top,
                        current_router,
                        c.port,
                        ri as int,
                    ),
                    inside is None ==> forall|j: int|
                        0 <= j < i ==> !self.hop_inside_region(*top, current_router, c.port, j),
                decreases regions - i,
            {
                if inside.is_none() {
                    let ptlv = &self.physical_to_logical_vector[i];
                    let ltpv = &self.logical_to_physical_vector[i];
                    if ltpv[ptlv[current_router]] == current_router && ltpv[ptlv[next_router]]
                        == next_router {
                        proof {
                            assert(self.hop_inside_region(
                                *top,
                                current_router,
                                c.port,
                                i as int,
                            ));
                            assert(self.first_matching_region(
                                *top,
                                current_router,
                                c.port,
                                i as int,
                            ));
                        }
                        inside = Some(i);
                    }
                }
                i += 1;
            }
            match inside {
                Some(region) => {
                    let ghost prev_sel = selected_regions@;
                    if !crate::model::vec_contains(&selected_regions, region) {
                        selected_regions.push(region);
                        proof {
                            assert(selected_regions@[prev_sel.len() as int] == region);
                            assert(selected_regions@.contains(region));
                        }
                    }
                    proof {
                        assert(selected_regions@.contains(region));
                        assert(self.first_matching_region(
                            *top,
                            current_router,
                            c.port,
                            region as int,
                        ));
                        assert(self.region_matched(
                            *top,
                            current_router,
                            default_candidates@,
                            region as int,
                        ));
                        assert forall|m: int|
                            0 <= m < selected_regions@.len() implies self.region_matched(
                            *top,
                            current_router,
                            default_candidates@,
                            (#[trigger] selected_regions@[m]) as int,
                        ) by {
                            if m < prev_sel.len() {
                                assert(selected_regions@[m] == prev_sel[m]);
                            } else {
                                assert(selected_regions@[m] == region);
                            }
                        }
                        assert forall|ii: int, kk: int|
                            #![trigger self.first_matching_region(*top, current_router, default_candidates@[kk].port, ii)]
                            0 <= kk < k + 1 && 0 <= ii < regions && self.first_matching_region(
                                *top,
                                current_router,
                                default_candidates@[kk].port,
                                ii,
                            ) implies selected_regions@.contains(ii as usize) by {
                            if kk < k {
                                assert(prev_sel.contains(ii as usize));
                                let idx = choose|idx: int|
                                    0 <= idx < prev_sel.len() && prev_sel[idx] == ii as usize;
                                assert(selected_regions@[idx] == prev_sel[idx]);
                            } else {
                                if ii != region as int {
                                    if ii < region as int {
                                        assert(!self.hop_inside_region(
                                            *top,
                                            current_router,
                                            c.port,
                                            ii,
                                        ));
                                    } else {
                                        assert(!self.hop_inside_region(
                                            *top,
                                            current_router,
                                            c.port,
                                            region as int,
                                        ));
                                    }
                                    assert(false);
                                }
                            }
                        }
                        assert forall|kk: int|
                            0 <= kk < k + 1 && self.hop_outside_regions(
                                *top,
                                current_router,
                                (#[trigger] default_candidates@[kk]).port,
                            ) implies exists|m: int|
                            0 <= m < candidates@.len() && carried_candidate(
                                #[trigger] candidates@[m],
                                default_candidates@[kk],
                            ) by {
                            if kk < k {
                            } else {
                                assert(self.hop_inside_region(
                                    *top,
                                    current_router,
                                    c.port,
                                    region as int,
                                ));
                                assert(false);
                            }
                        }
                    }
                },
                None => {
                    let mut values = c.annotation.values.clone();
                    proof {
                        assert(values@ =~= c.annotation.values@);
                    }
                    let ghost prev_cands = candidates@;
                    let pushed = CandidateEgress {
                        port: c.port,
                        virtual_channel: c.virtual_channel,
                        label: c.label,
                        estimated_remaining_hops: c.estimated_remaining_hops,
                        router_allows: c.router_allows,
                        annotation: crate::model::RoutingAnnotation { values },
                    };
                    candidates.push(pushed);
                    proof {
                        assert(carried_candidate(pushed, default_candidates@[k as int]));
                        assert(self.hop_outside_regions(*top, current_router, c.port));
                        assert(self.kept_default_candidate(
                            *top,
                            current_router,
                            default_candidates@,
                            pushed,
                        ));
                        assert forall|kk: int|
                            0 <= kk < k + 1 && self.hop_outside_regions(
                                *top,
                                current_router,
                                (#[trigger] default_candidates@[kk]).port,
                            ) implies exists|m: int|
                            0 <= m < candidates@.len() && carried_candidate(
                                #[trigger] candidates@[m],
                                default_candidates@[kk],
                            ) by {
                            if kk < k {
                                let m0 = choose|m: int|
                                    0 <= m < prev_cands.len() && carried_candidate(
                                        #[trigger] prev_cands[m],
                                        default_candidates@[kk],
                                    );
                                assert(candidates@[m0] == prev_cands[m0]);
                            } else {
                                assert(candidates@[prev_cands.len() as int] == pushed);
                            }
                        }
                        assert forall|ii: int, kk: int|
                            #![trigger self.first_matching_region(*top, current_router, default_candidates@[kk].port, ii)]
                            0 <= kk < k + 1 && 0 <= ii < regions && self.first_matching_region(
                                *top,
                                current_router,
                                default_candidates@[kk].port,
                                ii,
                            ) implies selected_regions@.contains(ii as usize) by {
                            if kk == k {
                                assert(!self.hop_inside_region(
                                    *top,
                                    current_router,
                                    c.port,
                                    ii,
                                ));
                                assert(false);
                            }
                        }
                    }
                },
            }
            k += 1;
        }
        (candidates, selected_regions)
    }

    /// Translates one candidate of region `i`'s routing onto the physical
    /// port realizing its hop, offsetting the label by the selection bonus.
    #[verifier::loop_isolation(false)]
    fn translate_region_candidate(
        &self,
        top: &Topology,
        current_router: usize,
        i: usize,
        current_logical: usize,
        c: &CandidateEgress,
    ) -> (r: Result<CandidateEgress, Error>)
        requires
            top.wf(),
            self.tables_ok(*top),
            i < self.regions(),
            current_router < top.n(),
            current_logical == self.ptlv()[i as int]@[current_router as int],
            (c.port as int) < self.rtops()[i as int].ports_of(current_logical as int).len(),
        ensures
            r matches Ok(cout) ==> ({
                &&& self.region_translation(*top, current_router, i as int, *c, cout)
                &&& (cout.port as int) < top.ports_of(current_router as int).len()
                &&& cout.virtual_channel == c.virtual_channel
            }),
            r matches Err(e) ==> ({
                &&& e is LogicalEdgeNotPhysical
                &&& ({
                    ||| self.rtops()[i as int].ports_of(current_logical as int)[c.port as int] is ServerPort
                    ||| (self.rtops()[i as int].ports_of(current_logical as int)[c.port as int]
                        matches Location::RouterPort { router_index, .. }
                        && !crate::subtopology::physical_edge(
                        *top,
                        current_router as int,
                        self.ltpv()[i as int]@[router_index as int] as int,
                    ))
                })
            }),
    {
        let next_logical = match self.region_logical_topology[i].neighbour(
            current_logical,
            c.port,
        ) {
            Location::RouterPort { router_index, router_port: _ } => router_index,
            Location::ServerPort(_) => {
                return Err(
                    Error::LogicalEdgeNotPhysical {
                        logical_origin: current_logical,
                        logical_neighbour: current_logical,
                    },
                );
            },
        };
        proof {
            self.rtops()[i as int].lemma_wf_location(current_logical as int, c.port as int);
            assert(self.ltpv()[i as int]@.len() == self.region_sizes()[i as int]);
        }
        let next_physical = self.logical_to_physical_vector[i][next_logical];
        let num_ports = top.ports(current_router);
        let mut found = false;
        let mut physical_port: usize = 0;
        let mut p: usize = 0;
        while p < num_ports
            invariant
                p <= num_ports,
                num_ports == top.ports_of(current_router as int).len(),
                found ==> physical_port < num_ports,
                found ==> (top.ports_of(current_router as int)[physical_port as int]
                    matches Location::RouterPort { router_index, .. } && router_index
                    == next_physical),
                !found ==> forall|pp: int|
                    0 <= pp < p ==> !((#[trigger] top.ports_of(current_router as int)[pp])
                        matches Location::RouterPort { router_index, .. } && router_index
                        == next_physical),
            decreases num_ports - p,
        {
            if !found {
                match top.neighbour(current_router, p) {
                    Location::RouterPort { router_index, router_port: _ } => {
                        if router_index == next_physical {
                            physical_port = p;
                            found = true;
                        }
                    },
                    Location::ServerPort(_) => {},
                }
            }
            p += 1;
        }
        if !found {
            proof {
                assert(!crate::subtopology::physical_edge(
                    *top,
                    current_router as int,
                    next_physical as int,
                ));
            }
            return Err(
                Error::LogicalEdgeNotPhysical {
                    logical_origin: current_logical,
                    logical_neighbour: next_logical,
                },
            );
        }
        let mut values = c.annotation.values.clone();
        proof {
            assert(values@ =~= c.annotation.values@);
        }
        let cout = CandidateEgress {
            port: physical_port,
            virtual_channel: c.virtual_channel,
            label: add_label(c.label, self.extra_label_selection),
            estimated_remaining_hops: c.estimated_remaining_hops,
            router_allows: c.router_allows,
            annotation: crate::model::RoutingAnnotation { values },
        };
        Ok(cout)
    }
    /// Appends, for every selected region whose logical endpoints differ, the
    /// translations of that region's own candidates; the candidates already
    /// collected stay untouched.
    #[verifier::loop_isolation(false)]
    #[verifier::rlimit(100)]
    fn append_region_candidates(
        &self,
        candidates: &mut Vec<CandidateEgress>,
        selected_regions: &Vec<usize>,
        default_candidates: &Vec<CandidateEgress>,
        info: &RoutingInfo,
        top: &Topology,
        current_router: usize,
        target_router: usize,
        num_virtual_channels: usize,
        rng: &mut StdRng,
    ) -> (r: Result<(), Error>)
        requires
            top.wf(),
            self.wf(),
            self.initialized(*top),
            self.next_req(*top, num_virtual_channels),
            current_router < top.n(),
            target_router < top.n(),
            current_router != target_router,
            self.info_ok(*top, *info, current_router, target_router, num_virtual_channels),
            forall|m: int|
                0 <= m < selected_regions@.len() ==> (#[trigger] selected_regions@[m])
                    < self.regions(),
            forall|m: int|
                0 <= m < selected_regions@.len() ==> self.region_matched(
                    *top,
                    current_router,
                    default_candidates@,
                    (#[trigger] selected_regions@[m]) as int,
                ),
            forall|m: int|
                0 <= m < old(candidates)@.len() ==> (#[trigger] old(candidates)@[m]).port
                    < top.ports_of(current_router as int).len() && old(
                    candidates,
                )@[m].virtual_channel < num_virtual_channels,
        ensures
            r is Ok ==> {
                &&& final(candidates)@.len() >= old(candidates)@.len()
                &&& forall|m: int|
                    0 <= m < old(candidates)@.len() ==> #[trigger] final(candidates)@[m] == old(candidates)@[m]
                &&& forall|m: int|
                    old(candidates)@.len() <= m < final(candidates)@.len() ==> self.region_candidate(
                        *top,
                        *info,
                        current_router,
                        target_router,
                        num_virtual_channels,
                        default_candidates@,
                        #[trigger] final(candidates)@[m],
                    )
                &&& forall|sp: int|
                    0 <= sp < selected_regions@.len()
                        ==> (self.ptlv()[selected_regions@[sp] as int]@[current_router as int]
                        == self.ptlv()[selected_regions@[sp] as int]@[target_router as int]
                        || self.region_offered(
                        *top,
                        *info,
                        current_router,
                        target_router,
                        num_virtual_channels,
                        (#[trigger] selected_regions@[sp]) as int,
                        final(candidates)@,
                    ))
                &&& forall|m: int|
                    0 <= m < final(candidates)@.len() ==> (#[trigger] final(candidates)@[m]).port < top.ports_of(
                        current_router as int,
                    ).len() && final(candidates)@[m].virtual_channel < num_virtual_channels
            },
            r matches Err(e) ==> {
                ||| exists|i: int|
                    #![trigger self.routings_of()[i]]
                    {
                        &&& 0 <= i < self.regions()
                        &&& self.ptlv()[i]@[current_router as int] != self.ptlv()[i]@[target_router as int]
                        &&& self.routings_of()[i].next_ens(
                            self.rtops()[i],
                            info.meta@[i + 1],
                            self.ptlv()[i]@[current_router as int],
                            self.ptlv()[i]@[target_router as int],
                            num_virtual_channels,
                            Err(e),
                        )
                    }
                ||| (e is LogicalEdgeNotPhysical && self.region_translation_failure(
                    *top,
                    *info,
                    current_router,
                    target_router,
                    num_virtual_channels,
                ))
            },
    {
        let regions = self.routings.len();
        let mut s: usize = 0;
        while s < selected_regions.len()
            invariant
                s <= selected_regions@.len(),
                regions == self.regions(),
                current_router < top.n(),
                target_router < top.n(),
                forall|m: int| 0 <= m < selected_regions@.len() ==> (#[trigger] selected_regions@[m]) < regions,
                forall|m: int|
                    0 <= m < candidates@.len() ==> (#[trigger] candidates@[m]).port < top.ports_of(
                        current_router as int,
                    ).len() && candidates@[m].virtual_channel < num_virtual_channels,
                candidates@.len() >= old(candidates)@.len(),
                forall|m: int|
                    0 <= m < old(candidates)@.len() ==> #[trigger] candidates@[m] == old(
                        candidates,
                    )@[m],
                forall|m: int|
                    old(candidates)@.len() <= m < candidates@.len() ==> self.region_candidate(
                        *top,
                        *info,
                        current_router,
                        target_router,
                        num_virtual_channels,
                        default_candidates@,
                        #[trigger] candidates@[m],
                    ),
                forall|sp: int|
                    0 <= sp < s ==> (self.ptlv()[selected_regions@[sp] as int]@[current_router as int]
                        == self.ptlv()[selected_regions@[sp] as int]@[target_router as int]
                        || self.region_offered(
                        *top,
                        *info,
                        current_router,
                        target_router,
                        num_virtual_channels,
                        (#[trigger] selected_regions@[sp]) as int,
                        candidates@,
                    )),
            decreases selected_regions@.len() - s,
        {
            let ghost cands_at_s = candidates@;
            let i = selected_regions[s];
            let current_logical = self.physical_to_logical_vector[i][current_router];
            let target_logical = self.physical_to_logical_vector[i][target_router];
            if current_logical != target_logical {
                let region_rc = match self.routings[i].next(
                    &info.meta[1 + i],
                    &self.region_logical_topology[i],
                    current_logical,
                    target_logical,
                    None,
                    num_virtual_channels,
                    rng,
                ) {
                    Ok(rc) => rc,
                    Err(e) => {
                        proof {
                            assert(self.routings_of()[i as int].next_ens(
                                self.rtops()[i as int],
                                info.meta@[i as int + 1],
                                self.ptlv()[i as int]@[current_router as int],
                                self.ptlv()[i as int]@[target_router as int],
                                num_virtual_channels,
                                Err(e),
                            ));
                        }
                        return Err(e);
                    },
                };
                let ghost region_snapshot = region_rc;
                let region_candidates = region_rc.candidates;
                let mut m: usize = 0;
                while m < region_candidates.len()
                    invariant
                        m <= region_candidates@.len(),
                        regions == self.regions(),
                        i < regions,
                        current_router < top.n(),
                        target_router < top.n(),
                        current_logical == self.ptlv()[i as int]@[current_router as int],
                        target_logical == self.ptlv()[i as int]@[target_router as int],
                        current_logical != target_logical,
                        region_snapshot.candidates@ == region_candidates@,
                        self.routings_of()[i as int].next_ens(
                            self.rtops()[i as int],
                            info.meta@[i as int + 1],
                            current_logical,
                            target_logical,
                            num_virtual_channels,
                            Ok(region_snapshot),
                        ),
                        forall|q: int|
                            0 <= q < region_candidates@.len() ==> (
                            #[trigger] region_candidates@[q]).port < self.rtops()[i as int].ports_of(
                                current_logical as int,
                            ).len() && region_candidates@[q].virtual_channel
                                < num_virtual_channels,
                        forall|q: int|
                            0 <= q < candidates@.len() ==> (#[trigger] candidates@[q]).port
                                < top.ports_of(current_router as int).len()
                                && candidates@[q].virtual_channel < num_virtual_channels,
                        candidates@.len() >= old(candidates)@.len(),
                        candidates@.len() >= cands_at_s.len(),
                        forall|q: int|
                            0 <= q < cands_at_s.len() ==> #[trigger] candidates@[q]
                                == cands_at_s[q],
                        forall|q: int|
                            0 <= q < old(candidates)@.len() ==> #[trigger] candidates@[q] == old(
                                candidates,
                            )@[q],
                        forall|q: int|
                            old(candidates)@.len() <= q < candidates@.len()
                                ==> self.region_candidate(
                                *top,
                                *info,
                                current_router,
                                target_router,
                                num_virtual_channels,
                                default_candidates@,
                                #[trigger] candidates@[q],
                            ),
                        forall|qq: int|
                            #![trigger region_candidates@[qq]]
                            0 <= qq < m ==> self.translated_into(
                                *top,
                                current_router,
                                i as int,
                                region_candidates@[qq],
                                candidates@,
                            ),
                        self.region_matched(
                            *top,
                            current_router,
                            default_candidates@,
                            i as int,
                        ),
                    decreases region_candidates@.len() - m,
                {
                    let c = &region_candidates[m];
                    let pushed = match self.translate_region_candidate(
                        top,
                        current_router,
                        i,
                        current_logical,
                        c,
                    ) {
                        Ok(cout) => cout,
                        Err(e) => {
                            proof {
                                assert(self.region_translation_failure(
                                    *top,
                                    *info,
                                    current_router,
                                    target_router,
                                    num_virtual_channels,
                                ));
                            }
                            return Err(e);
                        },
                    };
                    let ghost prev_cands = candidates@;
                    candidates.push(pushed);
                    proof {
                        assert(self.region_translation(
                            *top,
                            current_router,
                            i as int,
                            region_candidates@[m as int],
                            pushed,
                        ));
                        assert(self.region_candidate(
                            *top,
                            *info,
                            current_router,
                            target_router,
                            num_virtual_channels,
                            default_candidates@,
                            pushed,
                        ));
                        assert(candidates@[prev_cands.len() as int] == pushed);
                        assert forall|qq: int|
                            #![trigger region_candidates@[qq]]
                            0 <= qq < m + 1 implies self.translated_into(
                            *top,
                            current_router,
                            i as int,
                            region_candidates@[qq],
                            candidates@,
                        ) by {
                            if qq < m {
                                assert(self.translated_into(
                                    *top,
                                    current_router,
                                    i as int,
                                    region_candidates@[qq],
                                    prev_cands,
                                ));
                                let m0 = choose|mm: int|
                                    0 <= mm < prev_cands.len() && self.region_translation(
                                        *top,
                                        current_router,
                                        i as int,
                                        region_candidates@[qq],
                                        #[trigger] prev_cands[mm],
                                    );
                                assert(candidates@[m0] == prev_cands[m0]);
                                assert(self.region_translation(
                                    *top,
                                    current_router,
                                    i as int,
                                    region_candidates@[qq],
                                    candidates@[m0],
                                ));
                            } else {
                                assert(self.region_translation(
                                    *top,
                                    current_router,
                                    i as int,
                                    region_candidates@[qq],
                                    candidates@[prev_cands.len() as int],
                                ));
                            }
                        }
                    }
                    m += 1;
                }
                proof {
                    assert forall|q: int|
                        #![trigger region_snapshot.candidates@[q]]
                        0 <= q < region_snapshot.candidates@.len() implies self.translated_into(
                        *top,
                        current_router,
                        i as int,
                        region_snapshot.candidates@[q],
                        candidates@,
                    ) by {
                        assert(region_snapshot.candidates@[q] == region_candidates@[q]);
                        assert(self.translated_into(
                            *top,
                            current_router,
                            i as int,
                            region_candidates@[q],
                            candidates@,
                        ));
                    }
                    assert(self.region_offered_by(
                        *top,
                        *info,
                        current_router,
                        target_router,
                        num_virtual_channels,
                        i as int,
                        region_snapshot,
                        candidates@,
                    ));
                    assert(self.region_offered(
                        *top,
                        *info,
                        current_router,
                        target_router,
                        num_virtual_channels,
                        i as int,
                        candidates@,
                    ));
                }
            }
            proof {
                assert forall|sp: int|
                    0 <= sp < s + 1 implies (self.ptlv()[selected_regions@[sp] as int]@[current_router as int]
                    == self.ptlv()[selected_regions@[sp] as int]@[target_router as int]
                    || self.region_offered(
                    *top,
                    *info,
                    current_router,
                    target_router,
                    num_virtual_channels,
                    (#[trigger] selected_regions@[sp]) as int,
                    candidates@,
                )) by {
                    if sp < s {
                        if self.ptlv()[selected_regions@[sp] as int]@[current_router as int]
                            != self.ptlv()[selected_regions@[sp] as int]@[target_router as int] {
                            lemma_offered_monotone(
                                self,
                                *top,
                                *info,
                                current_router,
                                target_router,
                                num_virtual_channels,
                                selected_regions@[sp] as int,
                                cands_at_s,
                                candidates@,
                            );
                        }
                    }
                }
            }
            s += 1;
        }
        Ok(())
    }

}

impl<D: Routing, R: Routing, P: GeneralPattern<usize, usize>, Q: GeneralPattern<usize, usize>> Routing for RegionRouting<
    D,
    R,
    P,
    Q,
> {
    open spec fn wf(&self) -> bool {
        &&& self.default().wf()
        &&& forall|i: int| 0 <= i < self.regions() ==> (#[trigger] self.routings_of()[i]).wf()
        &&& forall|pat: P, x: usize| #[trigger] pat.req(x)
        &&& forall|pat: Q, x: usize| #[trigger] pat.req(x)
        &&& self.p2l_pats().len() == self.regions()
        &&& self.l2p_pats().len() == self.regions()
        &&& self.region_sizes().len() == self.regions()
        &&& self.rtops().len() == self.regions()
    }

    open spec fn initialized(&self, top: Topology) -> bool {
        &&& self.tables_ok(top)
        &&& self.default().initialized(top)
        &&& forall|i: int|
            0 <= i < self.regions() ==> (#[trigger] self.routings_of()[i]).initialized(
                self.rtops()[i],
            )
    }

    open spec fn info_ok(
        &self,
        top: Topology,
        info: RoutingInfo,
        current: usize,
        target: usize,
        num_vc: usize,
    ) -> bool {
        &&& info.meta@.len() == 1 + self.regions()
        &&& self.default().info_ok(top, info.meta@[0], current, target, num_vc)
        &&& forall|i: int|
            0 <= i < self.regions() ==> ((#[trigger] self.ptlv()[i])@[current as int]
                != self.ptlv()[i]@[target as int] ==> self.routings_of()[i].info_ok(
                self.rtops()[i],
                info.meta@[i + 1],
                self.ptlv()[i]@[current as int],
                self.ptlv()[i]@[target as int],
                num_vc,
            ))
    }

    open spec fn next_req(&self, top: Topology, num_vc: usize) -> bool {
        &&& self.default().next_req(top, num_vc)
        &&& forall|i: int|
            0 <= i < self.regions() ==> (#[trigger] self.routings_of()[i]).next_req(
                self.rtops()[i],
                num_vc,
            )
    }

    open spec fn next_ens(
        &self,
        top: Topology,
        info: RoutingInfo,
        current: usize,
        target: usize,
        num_vc: usize,
        r: Result<RoutingNextCandidates, Error>,
    ) -> bool {
        match r {
            Ok(rc) => {
                &&& !rc.idempotent
                &&& exists|drc: RoutingNextCandidates|
                    #[trigger] self.default().next_ens(
                        top,
                        info.meta@[0],
                        current,
                        target,
                        num_vc,
                        Ok(drc),
                    ) && {
                        &&& self.keeps_outside_defaults(
                            top,
                            current,
                            drc.candidates@,
                            rc.candidates@,
                        )
                        &&& self.accounted_candidates(
                            top,
                            info,
                            current,
                            target,
                            num_vc,
                            drc.candidates@,
                            rc.candidates@,
                        )
                        &&& self.matched_regions_offered(
                            top,
                            info,
                            current,
                            target,
                            num_vc,
                            drc.candidates@,
                            rc.candidates@,
                        )
                    }
            },
            Err(e) => {
                ||| self.default().next_ens(top, info.meta@[0], current, target, num_vc, Err(e))
                ||| exists|i: int|
                    #![trigger self.routings_of()[i]]
                    {
                        &&& 0 <= i < self.regions()
                        &&& self.ptlv()[i]@[current as int] != self.ptlv()[i]@[target as int]
                        &&& self.routings_of()[i].next_ens(
                            self.rtops()[i],
                            info.meta@[i + 1],
                            self.ptlv()[i]@[current as int],
                            self.ptlv()[i]@[target as int],
                            num_vc,
                            Err(e),
                        )
                    }
                ||| (e is LogicalEdgeNotPhysical && self.region_translation_failure(
                    top,
                    info,
                    current,
                    target,
                    num_vc,
                ))
            },
        }
    }

    open spec fn init_info_ens(
        &self,
        top: Topology,
        prev: RoutingInfo,
        info: RoutingInfo,
        current: usize,
        target: usize,
        r: Result<(), Error>,
    ) -> bool {
        &&& info.hops == prev.hops
        &&& info.source_server == prev.source_server
        &&& info.selections == prev.selections
        &&& info.visited_routers == prev.visited_routers
        &&& r is Ok ==> info.meta@.len() == 1 + self.regions()
        &&& (r matches Err(e) ==> {
            ||| (info.meta@ == prev.meta@ && exists|fresh: RoutingInfo|
                #[trigger] crate::stubborn::is_fresh_info(fresh) && exists|after: RoutingInfo|
                    self.default().init_info_ens(top, fresh, after, current, target, Err(e)))
            ||| exists|i: int|
                #![trigger self.routings_of()[i]]
                0 <= i < self.regions() && exists|fresh: RoutingInfo|
                    #[trigger] crate::stubborn::is_fresh_info(fresh) && exists|after: RoutingInfo|
                        self.routings_of()[i].init_info_ens(
                            self.rtops()[i],
                            fresh,
                            after,
                            self.ptlv()[i]@[current as int],
                            self.ptlv()[i]@[target as int],
                            Err(e),
                        )
        })
    }

    open spec fn update_req(
        &self,
        top: Topology,
        info: RoutingInfo,
        current: usize,
        port: usize,
        target: usize,
    ) -> bool {
        &&& info.meta@.len() == 1 + self.regions()
        &&& info.meta@[0].hops < usize::MAX
        &&& self.default().update_req(
            top,
            RoutingInfo { hops: (info.meta@[0].hops + 1) as usize, ..info.meta@[0] },
            current,
            port,
            target,
        )
        &&& forall|i: int|
            0 <= i < self.regions() ==> (#[trigger] info.meta@[i + 1]).hops < usize::MAX
        &&& forall|i: int, lport: usize, prev_child: RoutingInfo|
            #![trigger self.routings_of()[i].update_req(self.rtops()[i], prev_child, self.ptlv()[i]@[current as int], lport, self.ptlv()[i]@[target as int])]
            0 <= i < self.regions() && lport < self.rtops()[i].ports_of(
                self.ptlv()[i]@[current as int] as int,
            ).len() && prev_child == (RoutingInfo {
                hops: (info.meta@[i + 1].hops + 1) as usize,
                ..info.meta@[i + 1]
            }) ==> self.routings_of()[i].update_req(
                self.rtops()[i],
                prev_child,
                self.ptlv()[i]@[current as int],
                lport,
                self.ptlv()[i]@[target as int],
            )
    }

    open spec fn update_ens(
        &self,
        top: Topology,
        prev: RoutingInfo,
        info: RoutingInfo,
        current: usize,
        port: usize,
        target: usize,
        r: Result<(), Error>,
    ) -> bool {
        &&& info.hops == prev.hops
        &&& info.source_server == prev.source_server
        &&& info.selections == prev.selections
        &&& info.visited_routers == prev.visited_routers
        &&& (r is Ok ==> {
            &&& info.meta@.len() == 1 + self.regions()
            &&& self.default().update_ens(
                top,
                RoutingInfo { hops: (prev.meta@[0].hops + 1) as usize, ..prev.meta@[0] },
                info.meta@[0],
                current,
                port,
                target,
                Ok(()),
            )
            &&& forall|i: int|
                0 <= i < self.regions() && #[trigger] self.first_matching_region(
                    top,
                    current,
                    port,
                    i,
                ) ==> self.region_child_advanced(
                    top,
                    prev.meta@[i + 1],
                    info.meta@[i + 1],
                    current,
                    target,
                    i,
                )
            &&& forall|i: int|
                0 <= i < self.regions() && !(#[trigger] self.first_matching_region(
                    top,
                    current,
                    port,
                    i,
                )) ==> self.region_child_reset(top, info.meta@[i + 1], current, target, i)
        })
        &&& (r matches Err(e) ==> {
            ||| (e is SelectionMismatch && info.meta@ == prev.meta@)
            ||| self.default().update_ens(
                top,
                RoutingInfo { hops: (prev.meta@[0].hops + 1) as usize, ..prev.meta@[0] },
                info.meta@[0],
                current,
                port,
                target,
                Err(e),
            )
            ||| e is LogicalEdgeNotPhysical
            ||| exists|i: int|
                #![trigger self.routings_of()[i]]
                0 <= i < self.regions() && ({
                    ||| exists|lport: usize|
                        #![trigger self.rtops()[i].ports_of(self.ptlv()[i]@[current as int] as int)[lport as int]]
                        {
                            &&& (lport as int) < self.rtops()[i].ports_of(
                                self.ptlv()[i]@[current as int] as int,
                            ).len()
                            &&& self.routings_of()[i].update_ens(
                                self.rtops()[i],
                                RoutingInfo {
                                    hops: (prev.meta@[i + 1].hops + 1) as usize,
                                    ..prev.meta@[i + 1]
                                },
                                info.meta@[i + 1],
                                self.ptlv()[i]@[current as int],
                                lport,
                                self.ptlv()[i]@[target as int],
                                Err(e),
                            )
                        }
                    ||| exists|fresh: RoutingInfo|
                        #[trigger] crate::stubborn::is_fresh_info(fresh) && exists|
                            after: RoutingInfo,
                        |
                            self.routings_of()[i].init_info_ens(
                                self.rtops()[i],
                                fresh,
                                after,
                                self.ptlv()[i]@[current as int],
                                self.ptlv()[i]@[target as int],
                                Err(e),
                            )
                })
        })
    }

    open spec fn performed_req(
        &self,
        top: Topology,
        info: RoutingInfo,
        requested: CandidateEgress,
        current: usize,
        target: usize,
        num_vc: usize,
    ) -> bool {
        true
    }

    open spec fn performed_ens(
        &self,
        top: Topology,
        prev: RoutingInfo,
        info: RoutingInfo,
        requested: CandidateEgress,
        current: usize,
        target: usize,
        num_vc: usize,
    ) -> bool {
        info == prev
    }

    open spec fn init_ens(&self, prev: Self, top: Topology, r: Result<(), Error>) -> bool {
        &&& self.regions() == prev.regions()
        &&& r is Ok ==> self.tables_ok(top)
        &&& (r matches Err(e) ==> {
            ||| (e is MismatchedSizes && ({
                ||| exists|i: int, x: usize, v: usize|
                    #![trigger self.p2l_pats()[i].ens(x, v)]
                    0 <= i < self.regions() && self.p2l_pats()[i].ens(x, v) && (v as int)
                        >= self.region_sizes()[i]
                ||| exists|i: int, x: usize, v: usize|
                    #![trigger self.l2p_pats()[i].ens(x, v)]
                    0 <= i < self.regions() && self.l2p_pats()[i].ens(x, v) && (v as int)
                        >= top.n()
                ||| exists|i: int|
                    0 <= i < self.regions() && (#[trigger] self.rtops()[i]).n()
                        != self.region_sizes()[i]
            }))
            ||| (e is MalformedTopology && exists|i: int|
                0 <= i < self.regions() && !(#[trigger] self.rtops()[i]).wf())
            ||| self.default().init_ens(prev.default(), top, Err(e))
            ||| exists|i: int|
                #![trigger self.routings_of()[i]]
                0 <= i < self.regions() && self.routings_of()[i].init_ens(
                    prev.routings_of()[i],
                    self.rtops()[i],
                    Err(e),
                )
        })
    }

    #[verifier::loop_isolation(false)]
    #[verifier::rlimit(100)]
    fn next(
        &self,
        info: &RoutingInfo,
        top: &Topology,
        current_router: usize,
        target_router: usize,
        target_server: Option<usize>,
        num_virtual_channels: usize,
        rng: &mut StdRng,
    ) -> (r: Result<RoutingNextCandidates, Error>) {
        if current_router == target_router {
            return candidates_to_server(
                top,
                current_router,
                target_server.unwrap(),
                num_virtual_channels,
            );
        }
        let default_rc = match self.default_routing.next(
            &info.meta[0],
            top,
            current_router,
            target_router,
            target_server,
            num_virtual_channels,
            rng,
        ) {
            Ok(rc) => rc,
            Err(e) => {
                return Err(e);
            },
        };
        let ghost default_snapshot = default_rc;
        let regions = self.routings.len();
        let default_candidates = default_rc.candidates;
        let (mut candidates, selected_regions) = self.keep_defaults(
            top,
            current_router,
            num_virtual_channels,
            &default_candidates,
        );
        let ghost kept = candidates@;
        match self.append_region_candidates(
            &mut candidates,
            &selected_regions,
            &default_candidates,
            info,
            top,
            current_router,
            target_router,
            num_virtual_channels,
            rng,
        ) {
            Ok(_) => {},
            Err(e) => {
                return Err(e);
            },
        }
        proof {
            assert(self.default().next_ens(
                *top,
                info.meta@[0],
                current_router,
                target_router,
                num_virtual_channels,
                Ok(default_snapshot),
            ));
            assert(default_snapshot.candidates@ =~= default_candidates@);
            lemma_region_next_assembly(
                self,
                *top,
                *info,
                current_router,
                target_router,
                num_virtual_channels,
                default_candidates@,
                kept,
                candidates@,
            );
        }
        Ok(RoutingNextCandidates { candidates, idempotent: false })
    }

    #[verifier::loop_isolation(false)]
    fn initialize_routing_info(
        &self,
        info: &mut RoutingInfo,
        top: &Topology,
        current_router: usize,
        target_router: usize,
        target_server: Option<usize>,
        rng: &mut StdRng,
    ) -> (r: Result<(), Error>) {
        let mut default_info = RoutingInfo::new();
        let ghost dfresh = default_info;
        match self.default_routing.initialize_routing_info(
            &mut default_info,
            top,
            current_router,
            target_router,
            target_server,
            rng,
        ) {
            Ok(_) => {},
            Err(e) => {
                proof {
                    assert(crate::stubborn::is_fresh_info(dfresh));
                    assert(self.default().init_info_ens(
                        *top,
                        dfresh,
                        default_info,
                        current_router,
                        target_router,
                        Err(e),
                    ));
                }
                return Err(e);
            },
        }
        info.meta.push(default_info);
        let regions = self.routings.len();
        let mut i: usize = 0;
        while i < regions
            invariant
                i <= regions,
                regions == self.regions(),
                current_router < top.n(),
                target_router < top.n(),
                info.meta@.len() == 1 + i,
                info.hops == old(info).hops,
                info.source_server == old(info).source_server,
                info.selections == old(info).selections,
                info.visited_routers == old(info).visited_routers,
                self.default().info_ok(
                    *top,
                    info.meta@[0],
                    current_router,
                    target_router,
                    0,
                ) || true,
                forall|nvc: usize|
                    current_router != target_router ==> #[trigger] self.default().info_ok(
                        *top,
                        info.meta@[0],
                        current_router,
                        target_router,
                        nvc,
                    ),
                forall|j: int, nvc: usize, child: RoutingInfo|
                    #![trigger self.routings_of()[j].info_ok(self.rtops()[j], child, self.ptlv()[j]@[current_router as int], self.ptlv()[j]@[target_router as int], nvc)]
                    (0 <= j < i && child == info.meta@[j + 1] && self.ptlv()[j]@[current_router as int]
                        != self.ptlv()[j]@[target_router as int]) ==> self.routings_of()[j].info_ok(
                        self.rtops()[j],
                        child,
                        self.ptlv()[j]@[current_router as int],
                        self.ptlv()[j]@[target_router as int],
                        nvc,
                    ),
            decreases regions - i,
        {
            let mut child = RoutingInfo::new();
            let ghost cfresh = child;
            let current_logical = self.physical_to_logical_vector[i][current_router];
            let target_logical = self.physical_to_logical_vector[i][target_router];
            proof {
                assert(self.ptlv()[i as int]@[current_router as int]
                    < self.region_sizes()[i as int]);
                assert(self.ptlv()[i as int]@[target_router as int]
                    < self.region_sizes()[i as int]);
                assert(self.rtops()[i as int].n() == self.region_sizes()[i as int]);
                assert(self.routings_of()[i as int].wf());
                assert(self.routings_of()[i as int].initialized(self.rtops()[i as int]));
                assert(self.rtops()[i as int].wf());
            }
            match self.routings[i].initialize_routing_info(
                &mut child,
                &self.region_logical_topology[i],
                current_logical,
                target_logical,
                target_server,
                rng,
            ) {
                Ok(_) => {},
                Err(e) => {
                    proof {
                        assert(crate::stubborn::is_fresh_info(cfresh));
                        assert(self.routings_of()[i as int].init_info_ens(
                            self.rtops()[i as int],
                            cfresh,
                            child,
                            self.ptlv()[i as int]@[current_router as int],
                            self.ptlv()[i as int]@[target_router as int],
                            Err(e),
                        ));
                    }
                    return Err(e);
                },
            }
            info.meta.push(child);
            i += 1;
        }
        Ok(())
    }

    #[verifier::loop_isolation(false)]
    fn update_routing_info(
        &self,
        info: &mut RoutingInfo,
        top: &Topology,
        current_router: usize,
        current_port: usize,
        target_router: usize,
        target_server: Option<usize>,
        rng: &mut StdRng,
    ) -> (r: Result<(), Error>) {
        let previous_router = match top.neighbour(current_router, current_port) {
            Location::RouterPort { router_index, router_port: _ } => router_index,
            Location::ServerPort(_) => {
                return Err(Error::SelectionMismatch { current_router });
            },
        };
        proof {
            top.lemma_wf_location(current_router as int, current_port as int);
        }
        let regions = self.routings.len();
        let mut matching: Option<usize> = None;
        let mut i: usize = 0;
        while i < regions
            invariant
                i <= regions,
                regions == self.regions(),
                current_router < top.n(),
                previous_router < top.n(),
                matching matches Some(mi) ==> mi < regions && self.first_matching_region(
                    *top,
                    current_router,
                    current_port,
                    mi as int,
                ),
                matching is None ==> forall|j: int|
                    0 <= j < i ==> !self.hop_inside_region(
                        *top,
                        current_router,
                        current_port,
                        j,
                    ),
                top.ports_of(current_router as int)[current_port as int]
                    matches Location::RouterPort { router_index, .. } && router_index
                    == previous_router,
            decreases regions - i,
        {
            if matching.is_none() {
                let ptlv = &self.physical_to_logical_vector[i];
                let ltpv = &self.logical_to_physical_vector[i];
                if ltpv[ptlv[current_router]] == current_router && ltpv[ptlv[previous_router]]
                    == previous_router {
                    proof {
                        assert(self.hop_inside_region(
                            *top,
                            current_router,
                            current_port,
                            i as int,
                        ));
                    }
                    matching = Some(i);
                }
            }
            i += 1;
        }
        // The default routing always follows the realized hop.
        let mut default_info = info.meta.remove(0);
        default_info.hops = default_info.hops + 1;
        let dr = self.default_routing.update_routing_info(
            &mut default_info,
            top,
            current_router,
            current_port,
            target_router,
            target_server,
            rng,
        );
        info.meta.insert(0, default_info);
        proof {
            assert(info.meta@ =~= old(info).meta@.update(0, default_info));
        }
        match dr {
            Ok(u) => {
                proof {
                    assert(Ok::<(), Error>(u) == Ok::<(), Error>(()));
                    assert(info.meta@[0] == default_info);
                }
            },
            Err(e) => {
                proof {
                    assert(self.default().update_ens(
                        *top,
                        RoutingInfo {
                            hops: (old(info).meta@[0].hops + 1) as usize,
                            ..old(info).meta@[0]
                        },
                        info.meta@[0],
                        current_router,
                        current_port,
                        target_router,
                        Err(e),
                    ));
                }
                return Err(e);
            },
        }
        let ghost default_after = default_info;
        let mut i: usize = 0;
        while i < regions
            invariant
                i <= regions,
                regions == self.regions(),
                current_router < top.n(),
                target_router < top.n(),
                previous_router < top.n(),
                matching matches Some(mi) ==> mi < regions && self.first_matching_region(
                    *top,
                    current_router,
                    current_port,
                    mi as int,
                ),
                matching is None ==> forall|j: int|
                    0 <= j < regions ==> !self.hop_inside_region(
                        *top,
                        current_router,
                        current_port,
                        j,
                    ),
                forall|j: int|
                    0 <= j < i && #[trigger] self.first_matching_region(
                        *top,
                        current_router,
                        current_port,
                        j,
                    ) ==> self.region_child_advanced(
                        *top,
                        old(info).meta@[j + 1],
                        info.meta@[j + 1],
                        current_router,
                        target_router,
                        j,
                    ),
                forall|j: int|
                    0 <= j < i && !(#[trigger] self.first_matching_region(
                        *top,
                        current_router,
                        current_port,
                        j,
                    )) ==> self.region_child_reset(
                        *top,
                        info.meta@[j + 1],
                        current_router,
                        target_router,
                        j,
                    ),
                info.meta@.len() == 1 + regions,
                info.hops == old(info).hops,
                info.source_server == old(info).source_server,
                info.selections == old(info).selections,
                info.visited_routers == old(info).visited_routers,
                info.meta@[0] == default_after,
                self.default().update_ens(
                    *top,
                    RoutingInfo {
                        hops: (old(info).meta@[0].hops + 1) as usize,
                        ..old(info).meta@[0]
                    },
                    default_after,
                    current_router,
                    current_port,
                    target_router,
                    Ok(()),
                ),
                forall|nvc: usize|
                    current_router != target_router ==> #[trigger] self.default().info_ok(
                        *top,
                        info.meta@[0],
                        current_router,
                        target_router,
                        nvc,
                    ),
                forall|j: int|
                    #![trigger info.meta@[j + 1]]
                    i <= j < regions ==> info.meta@[j + 1] == old(info).meta@[j + 1],
                forall|j: int, nvc: usize, child: RoutingInfo|
                    #![trigger self.routings_of()[j].info_ok(self.rtops()[j], child, self.ptlv()[j]@[current_router as int], self.ptlv()[j]@[target_router as int], nvc)]
                    (0 <= j < i && child == info.meta@[j + 1] && self.ptlv()[j]@[current_router as int]
                        != self.ptlv()[j]@[target_router as int]) ==> self.routings_of()[j].info_ok(
                        self.rtops()[j],
                        child,
                        self.ptlv()[j]@[current_router as int],
                        self.ptlv()[j]@[target_router as int],
                        nvc,
                    ),
            decreases regions - i,
        {
            let ghost meta_at_entry = info.meta@;
            let is_matching = match matching {
                Some(mi) => mi == i,
                None => false,
            };
            let current_logical = self.physical_to_logical_vector[i][current_router];
            let target_logical = self.physical_to_logical_vector[i][target_router];
            if is_matching {
                // Advance the matching region's state through the logical
                // image of the realized hop.
                let prev_logical = self.physical_to_logical_vector[i][previous_router];
                let lports = self.region_logical_topology[i].ports(current_logical);
                let mut found = false;
                let mut logical_port: usize = 0;
                let mut q: usize = 0;
                while q < lports
                    invariant
                        q <= lports,
                        i < regions,
                        lports == self.rtops()[i as int].ports_of(current_logical as int).len(),
                        found ==> logical_port < lports,
                    decreases lports - q,
                {
                    if !found {
                        match self.region_logical_topology[i].neighbour(current_logical, q) {
                            Location::RouterPort { router_index, router_port: _ } => {
                                if router_index == prev_logical {
                                    logical_port = q;
                                    found = true;
                                }
                            },
                            Location::ServerPort(_) => {},
                        }
                    }
                    q += 1;
                }
                if !found {
                    return Err(
                        Error::LogicalEdgeNotPhysical {
                            logical_origin: current_logical,
                            logical_neighbour: prev_logical,
                        },
                    );
                }
                proof {
                    assert(info.meta@[1 + i as int] == old(info).meta@[1 + i as int]);
                    assert(old(info).meta@[i + 1].hops < usize::MAX);
                }
                let mut child = info.meta.remove(1 + i);
                let ghost child_before = child;
                child.hops = child.hops + 1;
                proof {
                    assert(child == (RoutingInfo {
                        hops: (old(info).meta@[i + 1].hops + 1) as usize,
                        ..old(info).meta@[i + 1]
                    }));
                    assert(self.ptlv()[i as int]@[current_router as int]
                        < self.region_sizes()[i as int]);
                    assert(self.ptlv()[i as int]@[target_router as int]
                        < self.region_sizes()[i as int]);
                    assert(self.routings_of()[i as int].update_req(
                        self.rtops()[i as int],
                        child,
                        current_logical,
                        logical_port,
                        target_logical,
                    ));
                    assert(self.routings_of()[i as int].wf());
                    assert(self.routings_of()[i as int].initialized(self.rtops()[i as int]));
                }
                let cr = self.routings[i].update_routing_info(
                    &mut child,
                    &self.region_logical_topology[i],
                    current_logical,
                    logical_port,
                    target_logical,
                    target_server,
                    rng,
                );
                info.meta.insert(1 + i, child);
                proof {
                    assert(info.meta@ =~= meta_at_entry.update(1 + i as int, child));
                }
                match cr {
                    Ok(u) => {
                        proof {
                            assert(Ok::<(), Error>(u) == Ok::<(), Error>(()));
                            assert(info.meta@[1 + i as int] == child);
                            let lpt = self.rtops()[i as int].ports_of(
                                self.ptlv()[i as int]@[current_router as int] as int,
                            )[logical_port as int];
                            assert(self.rtops()[i as int].ports_of(
                                self.ptlv()[i as int]@[current_router as int] as int,
                            )[logical_port as int] == lpt);
                            assert(self.routings_of()[i as int].update_ens(
                                self.rtops()[i as int],
                                RoutingInfo {
                                    hops: (old(info).meta@[i + 1].hops + 1) as usize,
                                    ..old(info).meta@[i + 1]
                                },
                                info.meta@[i + 1],
                                self.ptlv()[i as int]@[current_router as int],
                                logical_port,
                                self.ptlv()[i as int]@[target_router as int],
                                Ok(()),
                            ));
                            assert(self.region_child_advanced(
                                *top,
                                old(info).meta@[i + 1],
                                info.meta@[i + 1],
                                current_router,
                                target_router,
                                i as int,
                            ));
                            assert(self.first_matching_region(
                                *top,
                                current_router,
                                current_port,
                                i as int,
                            ));
                        }
                    },
                    Err(e) => {
                        proof {
                            assert(info.meta@[1 + i as int] == child);
                            let lpt = self.rtops()[i as int].ports_of(
                                self.ptlv()[i as int]@[current_router as int] as int,
                            )[logical_port as int];
                            assert(self.rtops()[i as int].ports_of(
                                self.ptlv()[i as int]@[current_router as int] as int,
                            )[logical_port as int] == lpt);
                            assert(self.routings_of()[i as int].update_ens(
                                self.rtops()[i as int],
                                RoutingInfo {
                                    hops: (old(info).meta@[i + 1].hops + 1) as usize,
                                    ..old(info).meta@[i + 1]
                                },
                                info.meta@[i + 1],
                                self.ptlv()[i as int]@[current_router as int],
                                logical_port,
                                self.ptlv()[i as int]@[target_router as int],
                                Err(e),
                            ));
                        }
                        return Err(e);
                    },
                }
            } else {
                // Reset and re-initialize every non-matching region.
                let mut child = RoutingInfo::new();
                let ghost fresh = child;
                proof {
                    assert(self.ptlv()[i as int]@[current_router as int]
                        < self.region_sizes()[i as int]);
                    assert(self.ptlv()[i as int]@[target_router as int]
                        < self.region_sizes()[i as int]);
                    assert(self.routings_of()[i as int].wf());
                    assert(self.routings_of()[i as int].initialized(self.rtops()[i as int]));
                }
                match self.routings[i].initialize_routing_info(
                    &mut child,
                    &self.region_logical_topology[i],
                    current_logical,
                    target_logical,
                    target_server,
                    rng,
                ) {
                    Ok(u) => {
                        proof {
                            assert(Ok::<(), Error>(u) == Ok::<(), Error>(()));
                            assert(crate::stubborn::is_fresh_info(fresh));
                        }
                    },
                    Err(e) => {
                        proof {
                            assert(crate::stubborn::is_fresh_info(fresh));
                            assert(self.routings_of()[i as int].init_info_ens(
                                self.rtops()[i as int],
                                fresh,
                                child,
                                self.ptlv()[i as int]@[current_router as int],
                                self.ptlv()[i as int]@[target_router as int],
                                Err(e),
                            ));
                        }
                        return Err(e);
                    },
                }
                let replaced = info.meta.remove(1 + i);
                info.meta.insert(1 + i, child);
                let _ = replaced;
                proof {
                    assert(info.meta@ =~= meta_at_entry.update(1 + i as int, child));
                    assert(info.meta@[1 + i as int] == child);
                    assert(self.routings_of()[i as int].init_info_ens(
                        self.rtops()[i as int],
                        fresh,
                        info.meta@[i + 1],
                        self.ptlv()[i as int]@[current_router as int],
                        self.ptlv()[i as int]@[target_router as int],
                        Ok(()),
                    ));
                    assert(self.region_child_reset(
                        *top,
                        info.meta@[i + 1],
                        current_router,
                        target_router,
                        i as int,
                    ));
                    assert(!self.first_matching_region(
                        *top,
                        current_router,
                        current_port,
                        i as int,
                    ));
                }
            }
            i += 1;
        }
        Ok(())
    }

    fn performed_request(
        &self,
        requested: &CandidateEgress,
        info: &mut RoutingInfo,
        top: &Topology,
        current_router: usize,
        target_router: usize,
        target_server: Option<usize>,
        num_virtual_channels: usize,
        rng: &mut StdRng,
    ) {
    }

    #[verifier::loop_isolation(false)]
    fn initialize(&mut self, top: &Topology, rng: &mut StdRng) -> (r: Result<(), Error>) {
        let n = top.num_routers();
        let regions = self.routings.len();
        let mut ptlv: Vec<Vec<usize>> = Vec::new();
        let mut i: usize = 0;
        while i < regions
            invariant
                i <= regions,
                regions == self.regions(),
                n == top.n(),
                self.regions() == old(self).regions(),
                self.region_sizes() == old(self).region_sizes(),
                self.rtops() == old(self).rtops(),
                self.routings@ == old(self).routings@,
                self.default_routing == old(self).default_routing,
                self.physical_to_logical_vector@ == old(self).physical_to_logical_vector@,
                self.logical_to_physical_vector@ == old(self).logical_to_physical_vector@,
                self.p2l_pats().len() == self.regions(),
                self.l2p_pats().len() == self.regions(),
                self.extra_label_selection == old(self).extra_label_selection,
                forall|j: int| 0 <= j < self.regions() ==> (#[trigger] self.routings_of()[j]).wf(),
                ptlv@.len() == i,
                forall|j: int| 0 <= j < i ==> (#[trigger] ptlv@[j])@.len() == n,
                forall|j: int, x: int|
                    #![trigger ptlv@[j]@[x]]
                    0 <= j < i && 0 <= x < n ==> ptlv@[j]@[x] < self.region_sizes()[j],
            decreases regions - i,
        {
            let size = self.selected_region_size[i];
            let mut row: Vec<usize> = Vec::new();
            let mut x: usize = 0;
            while x < n
                invariant
                    x <= n,
                    i < regions,
                    row@.len() == x,
                    forall|y: int| 0 <= y < x ==> (#[trigger] row@[y]) < self.region_sizes()[i as int],
                decreases n - x,
            {
                let v = self.physical_to_logical[i].get_destination(x, Some(top), rng);
                if v >= self.selected_region_size[i] {
                    proof {
                        assert(self.p2l_pats()[i as int].ens(x, v));
                    }
                    return Err(Error::MismatchedSizes);
                }
                row.push(v);
                x += 1;
            }
            ptlv.push(row);
            i += 1;
        }
        let mut ltpv: Vec<Vec<usize>> = Vec::new();
        let mut i: usize = 0;
        while i < regions
            invariant
                i <= regions,
                regions == self.regions(),
                n == top.n(),
                self.regions() == old(self).regions(),
                self.region_sizes() == old(self).region_sizes(),
                self.rtops() == old(self).rtops(),
                self.routings@ == old(self).routings@,
                self.default_routing == old(self).default_routing,
                self.physical_to_logical_vector@ == old(self).physical_to_logical_vector@,
                self.logical_to_physical_vector@ == old(self).logical_to_physical_vector@,
                self.p2l_pats().len() == self.regions(),
                self.l2p_pats().len() == self.regions(),
                self.extra_label_selection == old(self).extra_label_selection,
                forall|j: int| 0 <= j < self.regions() ==> (#[trigger] self.routings_of()[j]).wf(),
                ptlv@.len() == regions,
                forall|j: int| 0 <= j < regions ==> (#[trigger] ptlv@[j])@.len() == n,
                forall|j: int, x: int|
                    #![trigger ptlv@[j]@[x]]
                    0 <= j < regions && 0 <= x < n ==> ptlv@[j]@[x] < self.region_sizes()[j],
                ltpv@.len() == i,
                forall|j: int| 0 <= j < i ==> (#[trigger] ltpv@[j])@.len() == self.region_sizes()[j],
                forall|j: int, x: int|
                    #![trigger ltpv@[j]@[x]]
                    0 <= j < i && 0 <= x < self.region_sizes()[j] ==> ltpv@[j]@[x] < n,
            decreases regions - i,
        {
            let size = self.selected_region_size[i];
            let mut row: Vec<usize> = Vec::new();
            let mut x: usize = 0;
            while x < size
                invariant
                    x <= size,
                    i < regions,
                    size == self.region_sizes()[i as int],
                    row@.len() == x,
                    forall|y: int| 0 <= y < x ==> (#[trigger] row@[y]) < n,
                decreases size - x,
            {
                let v = self.logical_to_physical[i].get_destination(x, Some(top), rng);
                if v >= n {
                    proof {
                        assert(self.l2p_pats()[i as int].ens(x, v));
                    }
                    return Err(Error::MismatchedSizes);
                }
                row.push(v);
                x += 1;
            }
            ltpv.push(row);
            i += 1;
        }
        // The region topologies must be well formed and as large as
        // configured.
        let mut i: usize = 0;
        while i < regions
            invariant
                i <= regions,
                regions == self.regions(),
                self.regions() == old(self).regions(),
                self.region_sizes() == old(self).region_sizes(),
                self.rtops() == old(self).rtops(),
                self.routings@ == old(self).routings@,
                self.default_routing == old(self).default_routing,
                self.p2l_pats().len() == self.regions(),
                self.l2p_pats().len() == self.regions(),
                forall|j: int| 0 <= j < self.regions() ==> (#[trigger] self.routings_of()[j]).wf(),
                forall|j: int|
                    0 <= j < i ==> (#[trigger] self.rtops()[j]).wf() && self.rtops()[j].n()
                        == self.region_sizes()[j],
            decreases regions - i,
        {
            let ok = self.region_logical_topology[i].num_routers() == self.selected_region_size[i];
            if !ok {
                proof {
                    assert(self.rtops()[i as int].n() != self.region_sizes()[i as int]);
                }
                return Err(Error::MismatchedSizes);
            }
            let wf_ok = self.region_logical_topology[i].check_wf();
            if !wf_ok {
                proof {
                    assert(!self.rtops()[i as int].wf());
                }
                return Err(Error::MalformedTopology);
            }
            i += 1;
        }
        self.physical_to_logical_vector = ptlv;
        self.logical_to_physical_vector = ltpv;
        match self.default_routing.initialize(top, rng) {
            Ok(_) => {},
            Err(e) => {
                proof {
                    assert(self.routings@ == old(self).routings@);
                    assert forall|j: int|
                        0 <= j < self.regions() implies (#[trigger] self.routings_of()[j]).wf() by {
                        assert(self.routings_of()[j] == old(self).routings_of()[j]);
                        assert(old(self).routings_of()[j].wf());
                    }
                    assert(self.default().init_ens(old(self).default(), *top, Err(e)));
                }
                return Err(e);
            },
        }
        proof {
            assert(self.routings@ == old(self).routings@);
            assert forall|j: int|
                0 <= j < self.regions() implies (#[trigger] self.routings_of()[j]).wf() by {
                assert(self.routings_of()[j] == old(self).routings_of()[j]);
                assert(old(self).routings_of()[j].wf());
            }
        }
        let mut i: usize = 0;
        while i < regions
            invariant
                i <= regions,
                regions == self.regions(),
                self.regions() == old(self).regions(),
                self.rtops() == old(self).rtops(),
                self.tables_ok(*top),
                self.default().initialized(*top),
                self.default().wf(),
                self.p2l_pats().len() == self.regions(),
                self.l2p_pats().len() == self.regions(),
                self.region_sizes().len() == self.regions(),
                forall|j: int| 0 <= j < self.regions() ==> (#[trigger] self.routings_of()[j]).wf(),
                forall|j: int|
                    0 <= j < i ==> (#[trigger] self.routings_of()[j]).initialized(self.rtops()[j]),
                forall|j: int|
                    i <= j < regions ==> (#[trigger] self.routings_of()[j]) == old(
                        self,
                    ).routings_of()[j],
            decreases regions - i,
        {
            let ghost self0 = *self;
            proof {
                assert(self.routings_of()[i as int].wf());
            }
            let mut routing = self.routings.remove(i);
            proof {
                assert(routing == self0.routings_of()[i as int]);
                assert(routing.wf());
            }
            let rr = routing.initialize(&self.region_logical_topology[i], rng);
            self.routings.insert(i, routing);
            proof {
                assert(self.routings@ =~= self0.routings_of().update(i as int, routing));
                assert(self.ptlv() == self0.ptlv());
                assert(self.rtops() == self0.rtops());
                assert(self.regions() == self0.regions());
                assert forall|j: int|
                    0 <= j < self.regions() implies (#[trigger] self.routings_of()[j]).wf() by {
                    if j != i as int {
                        assert(self.routings_of()[j] == self0.routings_of()[j]);
                        assert(self0.routings_of()[j].wf());
                    }
                }
                assert(self.tables_ok(*top));
            }
            match rr {
                Ok(_) => {
                    proof {
                        assert forall|j: int|
                            0 <= j < i + 1 implies (#[trigger] self.routings_of()[j]).initialized(
                            self.rtops()[j],
                        ) by {
                            if j != i as int {
                                assert(self.routings_of()[j] == self0.routings_of()[j]);
                                assert(self0.routings_of()[j].initialized(self0.rtops()[j]));
                            }
                        }
                    }
                },
                Err(e) => {
                    proof {
                        assert(self0.routings_of()[i as int] == old(self).routings_of()[i as int]);
                        assert(self.routings_of()[i as int] == routing);
                        assert(self.routings_of()[i as int].init_ens(
                            old(self).routings_of()[i as int],
                            self.rtops()[i as int],
                            Err(e),
                        ));
                    }
                    return Err(e);
                },
            }
            i += 1;
        }
        Ok(())
    }

    fn statistics(&self, cycle: Time) -> Option<ConfigurationValue> {
        self.default_routing.statistics(cycle)
    }
}

} // verus!
