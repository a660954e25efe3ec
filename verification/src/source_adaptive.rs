use vstd::prelude::*;
use rand::rngs::StdRng;
use crate::config::{ConfigurationValue, Time};
use crate::errors::Error;
use crate::model::{
    candidates_to_server, CandidateEgress, RoutingAnnotation, RoutingInfo, RoutingNextCandidates,
    Selections,
};
use crate::rng::rng_range;
use crate::routing::Routing;
use crate::topology::{Location, Topology};

verus! {

/// The shape of one valid recorded path from `source` to `target`: it
/// starts at the source, ends at the target, visits only existing routers,
/// and from any position the remaining length suffices to reach the target.
pub open spec fn path_shape_ok(top: Topology, path: Seq<usize>, source: usize, target: usize) -> bool {
    &&& 1 <= path.len() <= 0x7fff_ffff
    &&& path[0] == source
    &&& path.last() == target
    &&& forall|m: int|
        0 <= m < path.len() ==> (#[trigger] path[m]) < top.n() && top.dist_of(
            path[m] as int,
            target as int,
        ) <= path.len() - 1 - m
}

/// The path-table collaborator: for any pair of routers it exposes the full
/// set of precomputed simple paths between them.
pub trait SourcePathTable: Sized {
    /// The paths recorded for the pair, as sequences of routers.
    spec fn paths_of(&self, source: usize, target: usize) -> Seq<Seq<usize>>;

    /// The table has been validated against `top`: it covers every router
    /// pair and every recorded path is well shaped.
    spec fn paths_ok(&self, top: Topology) -> bool;

    proof fn lemma_paths_ok(&self, top: Topology, source: usize, target: usize, k: int)
        requires
            self.paths_ok(top),
            source < top.n(),
            target < top.n(),
            0 <= k < self.paths_of(source, target).len(),
        ensures
            path_shape_ok(top, self.paths_of(source, target)[k], source, target),
    ;

    /// Checks the recorded paths against the topology; a malformed path is a
    /// configuration error.
    fn initialize(&mut self, top: &Topology, rng: &mut StdRng) -> (r: Result<(), Error>)
        requires
            top.wf(),
        ensures
            r is Ok <==> final(self).paths_ok(*top),
            *final(self) == *old(self),
    ;

    /// The recorded paths for the pair.
    fn get_paths(&self, source: usize, target: usize) -> (r: &Vec<Vec<usize>>)
        requires
            self.covers(source, target),
        ensures
            r@.len() == self.paths_of(source, target).len(),
            forall|k: int|
                0 <= k < r@.len() ==> (#[trigger] r@[k])@ == self.paths_of(source, target)[k],
    ;

    /// The table has entries for this pair.
    spec fn covers(&self, source: usize, target: usize) -> bool;

    proof fn lemma_covers(&self, top: Topology, source: usize, target: usize)
        requires
            self.paths_ok(top),
            source < top.n(),
            target < top.n(),
        ensures
            self.covers(source, target),
    ;
}

/// A path table held as explicit per-pair lists of paths.
pub struct PathTable {
    paths: Vec<Vec<Vec<Vec<usize>>>>,
}

impl PathTable {
    pub fn new(paths: Vec<Vec<Vec<Vec<usize>>>>) -> (r: PathTable)
        ensures
            r.table()@ == paths@,
    {
        PathTable { paths }
    }

    pub closed spec fn table(&self) -> Vec<Vec<Vec<Vec<usize>>>> {
        self.paths
    }
}

impl SourcePathTable for PathTable {
    closed spec fn paths_of(&self, source: usize, target: usize) -> Seq<Seq<usize>> {
        Seq::new(
            self.paths@[source as int]@[target as int]@.len(),
            |k: int| self.paths@[source as int]@[target as int]@[k]@,
        )
    }

    closed spec fn paths_ok(&self, top: Topology) -> bool {
        &&& self.paths@.len() >= top.n()
        &&& forall|s: int| 0 <= s < top.n() ==> (#[trigger] self.paths@[s])@.len() >= top.n()
        &&& forall|s: int, d: int, k: int|
            #![trigger self.paths@[s]@[d]@[k]]
            0 <= s < top.n() && 0 <= d < top.n() && 0 <= k < self.paths@[s]@[d]@.len()
                ==> path_shape_ok(top, self.paths@[s]@[d]@[k]@, s as usize, d as usize)
    }

    proof fn lemma_paths_ok(&self, top: Topology, source: usize, target: usize, k: int) {
        assert(self.paths@[source as int]@[target as int]@[k]@ == self.paths_of(source, target)[k]);
    }

    #[verifier::loop_isolation(false)]
    fn initialize(&mut self, top: &Topology, rng: &mut StdRng) -> (r: Result<(), Error>) {
        let n = top.num_routers();
        if self.paths.len() < n {
            proof {
                assert(!self.paths_ok(*top));
            }
            return Err(Error::MismatchedSizes);
        }
        let mut s: usize = 0;
        while s < n
            invariant
                n == top.n(),
                s <= n,
                forall|a: int| 0 <= a < s ==> (#[trigger] self.paths@[a])@.len() >= n,
                forall|a: int, d: int, k: int|
                    #![trigger self.paths@[a]@[d]@[k]]
                    0 <= a < s && 0 <= d < n && 0 <= k < self.paths@[a]@[d]@.len()
                        ==> path_shape_ok(*top, self.paths@[a]@[d]@[k]@, a as usize, d as usize),
            decreases n - s,
        {
            if self.paths[s].len() < n {
                proof {
                    assert((self.paths@[s as int])@.len() < n);
                    assert(!self.paths_ok(*top));
                }
                return Err(Error::MismatchedSizes);
            }
            let mut d: usize = 0;
            while d < n
                invariant
                    s < n,
                    d <= n,
                    self.paths@[s as int]@.len() >= n,
                    forall|dd: int, k: int|
                        #![trigger self.paths@[s as int]@[dd]@[k]]
                        0 <= dd < d && 0 <= k < self.paths@[s as int]@[dd]@.len()
                            ==> path_shape_ok(
                            *top,
                            self.paths@[s as int]@[dd]@[k]@,
                            s,
                            dd as usize,
                        ),
                decreases n - d,
            {
                let group = &self.paths[s][d];
                let mut k: usize = 0;
                while k < group.len()
                    invariant
                        s < n,
                        d < n,
                        group == &self.paths[s as int][d as int],
                        k <= group@.len(),
                        forall|kk: int|
                            0 <= kk < k ==> path_shape_ok(*top, (#[trigger] group@[kk])@, s, d),
                    decreases group@.len() - k,
                {
                    let path = &group[k];
                    if path.len() < 1 || path.len() > 0x7fff_ffff {
                        proof {
                            assert(self.paths@[s as int]@[d as int]@[k as int] == *path);
                            assert(!path_shape_ok(*top, path@, s, d));
                            assert(!self.paths_ok(*top));
                        }
                        return Err(Error::NoPathFound { source_router: s, target_router: d });
                    }
                    if path[0] != s || path[path.len() - 1] != d {
                        proof {
                            assert(self.paths@[s as int]@[d as int]@[k as int] == *path);
                            assert(!path_shape_ok(*top, path@, s, d));
                            assert(!self.paths_ok(*top));
                        }
                        return Err(Error::NoPathFound { source_router: s, target_router: d });
                    }
                    let mut m: usize = 0;
                    while m < path.len()
                        invariant
                            s < n,
                            d < n,
                            path == &self.paths[s as int][d as int][k as int],
                            m <= path@.len(),
                            1 <= path@.len() <= 0x7fff_ffff,
                            path@[0] == s,
                            path@.last() == d,
                            forall|mm: int|
                                0 <= mm < m ==> (#[trigger] path@[mm]) < n && top.dist_of(
                                    path@[mm] as int,
                                    d as int,
                                ) <= path@.len() - 1 - mm,
                        decreases path@.len() - m,
                    {
                        if path[m] >= n {
                            proof {
                                assert(self.paths@[s as int]@[d as int]@[k as int] == *path);
                                assert(!path_shape_ok(*top, path@, s, d));
                                assert(!self.paths_ok(*top));
                            }
                            return Err(Error::NoPathFound { source_router: s, target_router: d });
                        }
                        if top.distance(path[m], d) > path.len() - 1 - m {
                            proof {
                                assert(self.paths@[s as int]@[d as int]@[k as int] == *path);
                                assert(!path_shape_ok(*top, path@, s, d));
                                assert(!self.paths_ok(*top));
                            }
                            return Err(Error::NoPathFound { source_router: s, target_router: d });
                        }
                        m += 1;
                    }
                    proof {
                        assert(path_shape_ok(*top, path@, s, d));
                    }
                    k += 1;
                }
                d += 1;
            }
            s += 1;
        }
        Ok(())
    }

    fn get_paths(&self, source: usize, target: usize) -> (r: &Vec<Vec<usize>>) {
        &self.paths[source][target]
    }

    closed spec fn covers(&self, source: usize, target: usize) -> bool {
        source < self.paths@.len() && target < self.paths@[source as int]@.len()
    }

    proof fn lemma_covers(&self, top: Topology, source: usize, target: usize) {
    }
}

/// One path index of the selection is consistent with what the packet has
/// walked: its path's prefix is exactly the visited log and it still ends at
/// the target.
pub open spec fn selected_path_ok(
    paths: Seq<Seq<usize>>,
    idx: usize,
    visited: Seq<usize>,
    target: usize,
) -> bool {
    &&& (idx as int) < paths.len()
    &&& visited.len() <= paths[idx as int].len()
    &&& paths[idx as int].take(visited.len() as int) == visited
}

/// The whole selection is consistent with the visited log.
pub open spec fn selection_ok(
    paths: Seq<Seq<usize>>,
    sel: Seq<usize>,
    visited: Seq<usize>,
    target: usize,
) -> bool {
    forall|m: int|
        0 <= m < sel.len() ==> selected_path_ok(paths, #[trigger] sel[m], visited, target)
}

/// There is a recorded path of length `len` routers for the pair.
pub open spec fn has_path_with_routers(paths: Seq<Seq<usize>>, len: nat) -> bool {
    exists|k: int| 0 <= k < paths.len() && (#[trigger] paths[k]).len() == len
}

/// How many distinct path lengths in `[lo, hi)` occur among the recorded
/// paths.
pub open spec fn distinct_length_count(paths: Seq<Seq<usize>>, lo: nat, hi: nat) -> nat
    decreases hi - lo when lo <= hi
{
    if lo >= hi {
        0
    } else {
        distinct_length_count(paths, lo, (hi - 1) as nat) + if has_path_with_routers(
            paths,
            (hi - 1) as nat,
        ) {
            1nat
        } else {
            0nat
        }
    }
}

/// A range without any occurring path length contributes nothing to the
/// count.
pub proof fn lemma_count_empty_range(paths: Seq<Seq<usize>>, lo: nat, hi: nat)
    requires
        lo <= hi,
        forall|len: nat| lo <= len < hi ==> !has_path_with_routers(paths, len),
    ensures
        distinct_length_count(paths, lo, hi) == 0,
    decreases hi - lo,
{
    if lo < hi {
        lemma_count_empty_range(paths, lo, (hi - 1) as nat);
    }
}

/// The count over a range splits at any midpoint.
pub proof fn lemma_count_split(paths: Seq<Seq<usize>>, lo: nat, mid: nat, hi: nat)
    requires
        lo <= mid <= hi,
    ensures
        distinct_length_count(paths, lo, hi) == distinct_length_count(paths, lo, mid)
            + distinct_length_count(paths, mid, hi),
    decreases hi - mid,
{
    if mid < hi {
        lemma_count_split(paths, lo, mid, (hi - 1) as nat);
    }
}

/// The number of distinct path lengths among the recorded paths.
pub open spec fn distinct_path_length_count(paths: Seq<Seq<usize>>) -> nat {
    distinct_length_count(paths, 0, 0x8000_0000)
}

/// `c` is the candidate `(port, vc)` of a surviving path with `remain` hops
/// left on it.
pub open spec fn is_path_candidate(
    c: CandidateEgress,
    port: usize,
    virtual_channel: usize,
    label: i32,
    remain: usize,
) -> bool {
    &&& c.port == port
    &&& c.virtual_channel == virtual_channel
    &&& c.label == label
    &&& c.estimated_remaining_hops == Some(remain)
    &&& c.router_allows is None
    &&& c.annotation.values@.len() == 0
}

/// The label and remaining-hop estimate a surviving path of `len` routers
/// contributes at hop `hops`, at distance `dist` from the target.
pub open spec fn path_remain(len: nat, hops: nat) -> nat {
    (len - 1 - hops) as nat
}

/// One candidate follows one of the selected paths, with the exact label
/// `remaining hops on that path - distance to target`.
pub open spec fn each_length_candidate_ok(
    top: Topology,
    paths: Seq<Seq<usize>>,
    sel: Seq<usize>,
    hops: nat,
    current: usize,
    target: usize,
    num_vc: usize,
    c: CandidateEgress,
) -> bool {
    exists|m: int|
        #![trigger sel[m]]
        {
            &&& 0 <= m < sel.len()
            &&& c.virtual_channel < num_vc
            &&& c.port < top.ports_of(current as int).len()
            &&& {
                let path = paths[sel[m] as int];
                &&& hops + 1 < path.len()
                &&& (top.ports_of(current as int)[c.port as int] matches Location::RouterPort {
                    router_index,
                    ..
                } && router_index == path[(hops + 1) as int])
                &&& is_path_candidate(
                    c,
                    c.port,
                    c.virtual_channel,
                    ((path.len() - 1 - hops) - top.dist_of(current as int, target as int)) as i32,
                    (path.len() - 1 - hops) as usize,
                )
            }
        }
}

/// Every candidate follows one of the selected paths.
pub open spec fn each_length_sound(
    top: Topology,
    paths: Seq<Seq<usize>>,
    sel: Seq<usize>,
    hops: nat,
    current: usize,
    target: usize,
    num_vc: usize,
    cands: Seq<CandidateEgress>,
) -> bool {
    forall|k: int|
        0 <= k < cands.len() ==> each_length_candidate_ok(
            top,
            paths,
            sel,
            hops,
            current,
            target,
            num_vc,
            #[trigger] cands[k],
        )
}

/// `s` is the block of path candidates `(port, 0) .. (port, num_vc - 1)`,
/// all with the same label and remaining-hop estimate.
pub open spec fn is_path_block(
    s: Seq<CandidateEgress>,
    port: usize,
    num_vc: usize,
    label: i32,
    remain: usize,
) -> bool {
    &&& s.len() == num_vc
    &&& forall|vc: int|
        0 <= vc < s.len() ==> is_path_candidate(#[trigger] s[vc], port, vc as usize, label, remain)
}

/// Somewhere in `cands` stands the whole block of candidates for `port` on
/// every virtual channel, labelled for one surviving path.
pub open spec fn contains_path_block(
    cands: Seq<CandidateEgress>,
    port: usize,
    num_vc: usize,
    label: i32,
    remain: usize,
) -> bool {
    exists|k0: int|
        0 <= k0 && k0 + num_vc <= cands.len() && is_path_block(
            #[trigger] cands.subrange(k0, k0 + num_vc),
            port,
            num_vc,
            label,
            remain,
        )
}

/// Every selected surviving path contributes, for every port that reaches
/// its next router, the full block of virtual channels.
pub open spec fn each_length_complete(
    top: Topology,
    paths: Seq<Seq<usize>>,
    sel: Seq<usize>,
    hops: nat,
    current: usize,
    target: usize,
    num_vc: usize,
    cands: Seq<CandidateEgress>,
) -> bool {
    forall|m: int, p: int|
        #![trigger sel[m], top.ports_of(current as int)[p]]
        (0 <= m < sel.len() && 0 <= p < top.ports_of(current as int).len() && hops + 1 < paths[
            sel[m] as int
        ].len() && (top.ports_of(current as int)[p] matches Location::RouterPort {
            router_index,
            ..
        } && router_index == paths[sel[m] as int][(hops + 1) as int])) ==> contains_path_block(
            cands,
            p as usize,
            num_vc,
            ((paths[sel[m] as int].len() - 1 - hops) - top.dist_of(
                current as int,
                target as int,
            )) as i32,
            (paths[sel[m] as int].len() - 1 - hops) as usize,
        )
}

/// The chosen path indices realize one path of each distinct length: their
/// lengths rise strictly, and every length some recorded path has is
/// realized by exactly one chosen path.
pub open spec fn one_path_per_length(paths: Seq<Seq<usize>>, sel: Seq<usize>) -> bool {
    &&& forall|m1: int, m2: int|
        #![trigger sel[m1], sel[m2]]
        0 <= m1 < m2 < sel.len() ==> paths[sel[m1] as int].len() < paths[sel[m2] as int].len()
    &&& forall|len: nat|
        #[trigger] has_path_with_routers(paths, len) ==> exists|m: int|
            0 <= m < sel.len() && paths[(#[trigger] sel[m]) as int].len() == len
}

/// Keeps, in the packet, one randomly chosen precomputed path of each
/// distinct length from its source to its target; at every hop each
/// surviving path whose next router is reachable contributes candidates, and
/// paths that no longer match the walked prefix are abandoned for good.
pub struct EachLengthSourceAdaptiveRouting<R: SourcePathTable> {
    /// The base path table.
    pub routing: R,
}

impl<R: SourcePathTable> EachLengthSourceAdaptiveRouting<R> {
    pub fn new(routing: R) -> (r: EachLengthSourceAdaptiveRouting<R>)
        ensures
            r.routing == routing,
    {
        EachLengthSourceAdaptiveRouting { routing }
    }
}

impl<R: SourcePathTable> Routing for EachLengthSourceAdaptiveRouting<R> {
    open spec fn wf(&self) -> bool {
        true
    }

    open spec fn initialized(&self, top: Topology) -> bool {
        self.routing.paths_ok(top)
    }

    open spec fn info_ok(
        &self,
        top: Topology,
        info: RoutingInfo,
        current: usize,
        target: usize,
        num_vc: usize,
    ) -> bool {
        &&& info.visited_routers@.len() == info.hops + 1
        &&& info.visited_routers@[0] < top.n()
        &&& info.visited_routers@.last() == current
        &&& info.selections matches Selections::PathIndices(sel) && selection_ok(
            self.routing.paths_of(info.visited_routers@[0], target),
            sel@,
            info.visited_routers@,
            target,
        )
    }

    open spec fn next_req(&self, top: Topology, num_vc: usize) -> bool {
        true
    }

    open spec fn next_ens(
        &self,
        top: Topology,
        info: RoutingInfo,
        current: usize,
        target: usize,
        num_vc: usize,
        r: Result<RoutingNextCandidates, Error>,
    ) -> bool {
        match info.selections {
            Selections::PathIndices(sel) => {
                &&& r matches Ok(rc)
                &&& r->Ok_0.idempotent
                &&& each_length_sound(
                    top,
                    self.routing.paths_of(info.visited_routers@[0], target),
                    sel@,
                    info.hops as nat,
                    current,
                    target,
                    num_vc,
                    r->Ok_0.candidates@,
                )
                &&& each_length_complete(
                    top,
                    self.routing.paths_of(info.visited_routers@[0], target),
                    sel@,
                    info.hops as nat,
                    current,
                    target,
                    num_vc,
                    r->Ok_0.candidates@,
                )
            },
            _ => true,
        }
    }

    open spec fn init_info_ens(
        &self,
        top: Topology,
        prev: RoutingInfo,
        info: RoutingInfo,
        current: usize,
        target: usize,
        r: Result<(), Error>,
    ) -> bool {
        &&& info.hops == prev.hops
        &&& info.source_server == prev.source_server
        &&& info.meta == prev.meta
        &&& info.visited_routers@ == prev.visited_routers@.push(current)
        &&& (current == target ==> r is Ok && info.selections == prev.selections)
        &&& (current != target ==> {
            let paths = self.routing.paths_of(current, target);
            if paths.len() == 0 {
                r == Err::<(), Error>(
                    Error::NoPathFound { source_router: current, target_router: target },
                )
            } else {
                &&& r is Ok
                &&& (info.selections matches Selections::PathIndices(sel) && {
                    &&& sel@.len() == distinct_path_length_count(paths)
                    &&& selection_ok(paths, sel@, seq![current], target)
                    &&& one_path_per_length(paths, sel@)
                })
            }
        })
    }

    open spec fn update_req(
        &self,
        top: Topology,
        info: RoutingInfo,
        current: usize,
        port: usize,
        target: usize,
    ) -> bool {
        &&& info.hops >= 1
        &&& info.visited_routers@.len() == info.hops
        &&& info.visited_routers@[0] < top.n()
        &&& target < top.n()
        &&& info.selections matches Selections::PathIndices(sel) && selection_ok(
            self.routing.paths_of(info.visited_routers@[0], target),
            sel@,
            info.visited_routers@,
            target,
        )
    }

    open spec fn update_ens(
        &self,
        top: Topology,
        prev: RoutingInfo,
        info: RoutingInfo,
        current: usize,
        port: usize,
        target: usize,
        r: Result<(), Error>,
    ) -> bool {
        &&& info.hops == prev.hops
        &&& info.source_server == prev.source_server
        &&& info.meta == prev.meta
        &&& info.visited_routers@ == prev.visited_routers@.push(current)
        &&& {
            let paths = self.routing.paths_of(prev.visited_routers@[0], target);
            let prev_sel = prev.selections->PathIndices_0;
            &&& (info.selections matches Selections::PathIndices(sel) && {
                &&& forall|m: int|
                    0 <= m < sel@.len() ==> prev_sel@.contains(#[trigger] sel@[m]) && prev.hops
                        < (#[trigger] paths[sel@[m] as int]).len() && paths[sel@[m] as int][prev.hops as int]
                        == current
                &&& forall|m: int|
                    0 <= m < prev_sel@.len() && prev.hops < (#[trigger] paths[prev_sel@[m] as int]).len()
                        && paths[prev_sel@[m] as int][prev.hops as int] == current ==> sel@.contains(
                        prev_sel@[m],
                    )
                &&& (r is Ok <==> sel@.len() > 0)
                &&& (r is Err ==> r == Err::<(), Error>(
                    Error::SelectionsExhausted { current_router: current, target_router: target },
                ))
            })
        }
    }

    open spec fn performed_req(
        &self,
        top: Topology,
        info: RoutingInfo,
        requested: CandidateEgress,
        current: usize,
        target: usize,
        num_vc: usize,
    ) -> bool {
        true
    }

    open spec fn performed_ens(
        &self,
        top: Topology,
        prev: RoutingInfo,
        info: RoutingInfo,
        requested: CandidateEgress,
        current: usize,
        target: usize,
        num_vc: usize,
    ) -> bool {
        info == prev
    }

    open spec fn init_ens(&self, prev: Self, top: Topology, r: Result<(), Error>) -> bool {
        &&& self.routing == prev.routing
        &&& (r is Ok <==> self.routing.paths_ok(top))
    }

    #[verifier::loop_isolation(false)]
    fn next(
        &self,
        info: &RoutingInfo,
        top: &Topology,
        current_router: usize,
        target_router: usize,
        target_server: Option<usize>,
        num_virtual_channels: usize,
        rng: &mut StdRng,
    ) -> (r: Result<RoutingNextCandidates, Error>) {
        if top.distance(current_router, target_router) == 0 {
            proof {
                top.lemma_wf_dist_zero(current_router as int, target_router as int);
            }
            return candidates_to_server(
                top,
                current_router,
                target_server.unwrap(),
                num_virtual_channels,
            );
        }
        proof {
            top.lemma_wf_dist_zero(current_router as int, target_router as int);
        }
        let source_router = info.visited_routers[0];
        let ghost paths_spec = self.routing.paths_of(source_router, target_router);
        proof {
            self.routing.lemma_covers(*top, source_router, target_router);
        }
        let paths = self.routing.get_paths(source_router, target_router);
        let hops = info.hops;
        let distance = top.distance(current_router, target_router);
        let num_ports = top.ports(current_router);
        let mut candidates: Vec<CandidateEgress> = Vec::new();
        let sel = match &info.selections {
            Selections::PathIndices(sel) => sel,
            _ => {
                return Ok(RoutingNextCandidates { candidates, idempotent: true });
            },
        };
        let mut m: usize = 0;
        while m < sel.len()
            invariant
                m <= sel@.len(),
                each_length_sound(
                    *top,
                    paths_spec,
                    sel@,
                    hops as nat,
                    current_router,
                    target_router,
                    num_virtual_channels,
                    candidates@,
                ),
                forall|mm: int, pp: int|
                    #![trigger sel@[mm], top.ports_of(current_router as int)[pp]]
                    (0 <= mm < m && 0 <= pp < top.ports_of(current_router as int).len() && hops + 1
                        < paths_spec[sel@[mm] as int].len() && (top.ports_of(
                        current_router as int,
                    )[pp] matches Location::RouterPort { router_index, .. } && router_index
                        == paths_spec[sel@[mm] as int][(hops + 1) as int]))
                        ==> contains_path_block(
                        candidates@,
                        pp as usize,
                        num_virtual_channels,
                        ((paths_spec[sel@[mm] as int].len() - 1 - hops) - top.dist_of(
                            current_router as int,
                            target_router as int,
                        )) as i32,
                        (paths_spec[sel@[mm] as int].len() - 1 - hops) as usize,
                    ),
            decreases sel@.len() - m,
        {
            let path_index = sel[m];
            proof {
                assert(selected_path_ok(
                    paths_spec,
                    sel@[m as int],
                    info.visited_routers@,
                    target_router,
                ));
                self.routing.lemma_paths_ok(
                    *top,
                    source_router,
                    target_router,
                    path_index as int,
                );
                assert(paths_spec[path_index as int].take(info.visited_routers@.len() as int)
                    == info.visited_routers@);
                assert(paths_spec[path_index as int][hops as int] == info.visited_routers@.last());
                if paths_spec[path_index as int].len() == hops + 1 {
                    assert(paths_spec[path_index as int].last() == current_router);
                    assert(current_router == target_router);
                }
                assert(hops + 1 < paths_spec[path_index as int].len());
            }
            let path = &paths[path_index];
            let next_router = path[hops + 1];
            let length = path.len() - 1;
            let remain = length - hops;
            proof {
                assert(top.dist_of(current_router as int, target_router as int) <= paths_spec[
                    path_index as int
                ].len() - 1 - hops);
            }
            let label_value: i32 = (remain - distance) as i32;
            let ghost mid = candidates@;
            let mut p: usize = 0;
            while p < num_ports
                invariant
                    m < sel@.len(),
                    p <= num_ports,
                    each_length_sound(
                        *top,
                        paths_spec,
                        sel@,
                        hops as nat,
                        current_router,
                        target_router,
                        num_virtual_channels,
                        candidates@,
                    ),
                    hops + 1 < paths_spec[sel@[m as int] as int].len(),
                    next_router == paths_spec[sel@[m as int] as int][hops + 1],
                    remain == paths_spec[sel@[m as int] as int].len() - 1 - hops,
                    label_value as int == remain - top.dist_of(
                        current_router as int,
                        target_router as int,
                    ),
                    forall|mm: int, pp: int|
                        #![trigger sel@[mm], top.ports_of(current_router as int)[pp]]
                        (0 <= mm <= m && 0 <= pp < top.ports_of(current_router as int).len() && (mm
                            < m || pp < p) && hops + 1 < paths_spec[sel@[mm] as int].len() && (
                        top.ports_of(current_router as int)[pp] matches Location::RouterPort {
                            router_index,
                            ..
                        } && router_index == paths_spec[sel@[mm] as int][(hops + 1) as int]))
                            ==> contains_path_block(
                            candidates@,
                            pp as usize,
                            num_virtual_channels,
                            ((paths_spec[sel@[mm] as int].len() - 1 - hops) - top.dist_of(
                                current_router as int,
                                target_router as int,
                            )) as i32,
                            (paths_spec[sel@[mm] as int].len() - 1 - hops) as usize,
                        ),
                decreases num_ports - p,
            {
                let ghost cands_at_port = candidates@;
                match top.neighbour(current_router, p) {
                    Location::RouterPort { router_index, router_port: _ } => {
                        if router_index == next_router {
                            let mut vc: usize = 0;
                            while vc < num_virtual_channels
                                invariant
                                    vc <= num_virtual_channels,
                                    m < sel@.len(),
                                    p < num_ports,
                                    candidates@.len() == cands_at_port.len() + vc,
                                    forall|k: int|
                                        0 <= k < cands_at_port.len() ==> candidates@[k]
                                            == cands_at_port[k],
                                    forall|k: int|
                                        cands_at_port.len() <= k < candidates@.len()
                                            ==> is_path_candidate(
                                            #[trigger] candidates@[k],
                                            p,
                                            (k - cands_at_port.len()) as usize,
                                            label_value,
                                            remain,
                                        ),
                                    top.ports_of(current_router as int)[p as int]
                                        matches Location::RouterPort { router_index, .. }
                                        && router_index == paths_spec[sel@[m as int] as int][hops
                                        + 1],
                                    hops + 1 < paths_spec[sel@[m as int] as int].len(),
                                    remain == paths_spec[sel@[m as int] as int].len() - 1 - hops,
                                    label_value as int == remain - top.dist_of(
                                        current_router as int,
                                        target_router as int,
                                    ),
                                    each_length_sound(
                                        *top,
                                        paths_spec,
                                        sel@,
                                        hops as nat,
                                        current_router,
                                        target_router,
                                        num_virtual_channels,
                                        candidates@,
                                    ),
                                decreases num_virtual_channels - vc,
                            {
                                let egress = CandidateEgress {
                                    port: p,
                                    virtual_channel: vc,
                                    label: label_value,
                                    estimated_remaining_hops: Some(remain),
                                    router_allows: None,
                                    annotation: RoutingAnnotation::empty(),
                                };
                                let ghost before_push = candidates@;
                                candidates.push(egress);
                                proof {
                                    assert forall|k: int|
                                        0 <= k < candidates@.len() implies each_length_candidate_ok(
                                        *top,
                                        paths_spec,
                                        sel@,
                                        hops as nat,
                                        current_router,
                                        target_router,
                                        num_virtual_channels,
                                        #[trigger] candidates@[k],
                                    ) by {
                                        if k < before_push.len() {
                                            assert(candidates@[k] == before_push[k]);
                                        } else {
                                            assert(candidates@[k] == egress);
                                            assert(is_path_candidate(
                                                egress,
                                                p,
                                                vc,
                                                label_value,
                                                remain,
                                            ));
                                            assert(sel@[m as int] == sel@[m as int]);
                                        }
                                    }
                                }
                                vc += 1;
                            }
                        }
                    },
                    Location::ServerPort(_) => {},
                }
                proof {
                    assert forall|mm: int, pp: int|
                        #![trigger sel@[mm], top.ports_of(current_router as int)[pp]]
                        (0 <= mm <= m && 0 <= pp < top.ports_of(current_router as int).len() && (mm
                            < m || pp < p + 1) && hops + 1 < paths_spec[sel@[mm] as int].len() && (
                        top.ports_of(current_router as int)[pp] matches Location::RouterPort {
                            router_index,
                            ..
                        } && router_index == paths_spec[sel@[mm] as int][(hops + 1) as int]))
                            implies contains_path_block(
                        candidates@,
                        pp as usize,
                        num_virtual_channels,
                        ((paths_spec[sel@[mm] as int].len() - 1 - hops) - top.dist_of(
                            current_router as int,
                            target_router as int,
                        )) as i32,
                        (paths_spec[sel@[mm] as int].len() - 1 - hops) as usize,
                    ) by {
                        let lab = ((paths_spec[sel@[mm] as int].len() - 1 - hops) - top.dist_of(
                            current_router as int,
                            target_router as int,
                        )) as i32;
                        let rem = (paths_spec[sel@[mm] as int].len() - 1 - hops) as usize;
                        if mm < m || pp < p as int {
                            let k0 = choose|k0: int|
                                0 <= k0 && k0 + num_virtual_channels <= cands_at_port.len()
                                    && is_path_block(
                                    #[trigger] cands_at_port.subrange(
                                        k0,
                                        k0 + num_virtual_channels,
                                    ),
                                    pp as usize,
                                    num_virtual_channels,
                                    lab,
                                    rem,
                                );
                            assert(candidates@.subrange(k0, k0 + num_virtual_channels)
                                =~= cands_at_port.subrange(k0, k0 + num_virtual_channels));
                        } else {
                            assert(is_path_block(
                                candidates@.subrange(
                                    cands_at_port.len() as int,
                                    cands_at_port.len() + num_virtual_channels,
                                ),
                                p,
                                num_virtual_channels,
                                label_value,
                                remain,
                            ));
                        }
                    }
                }
                p += 1;
            }
            m += 1;
        }
        Ok(RoutingNextCandidates { candidates, idempotent: true })
    }

    #[verifier::loop_isolation(false)]
    fn initialize_routing_info(
        &self,
        info: &mut RoutingInfo,
        top: &Topology,
        current_router: usize,
        target_router: usize,
        target_server: Option<usize>,
        rng: &mut StdRng,
    ) -> (r: Result<(), Error>) {
        info.visited_routers.push(current_router);
        if current_router == target_router {
            return Ok(());
        }
        proof {
            self.routing.lemma_covers(*top, current_router, target_router);
        }
        let ghost paths_spec = self.routing.paths_of(current_router, target_router);
        let paths = self.routing.get_paths(current_router, target_router);
        if paths.len() == 0 {
            proof {
                assert(info.visited_routers@ =~= old(info).visited_routers@.push(current_router));
            }
            return Err(
                Error::NoPathFound {
                    source_router: current_router,
                    target_router: target_router,
                },
            );
        }
        let mut min_length: usize = paths[0].len();
        let mut max_length: usize = paths[0].len();
        let mut k: usize = 1;
        proof {
            self.routing.lemma_paths_ok(*top, current_router, target_router, 0);
        }
        while k < paths.len()
            invariant
                k <= paths@.len(),
                paths@.len() > 0,
                1 <= min_length <= max_length <= 0x7fff_ffff,
                forall|kk: int|
                    0 <= kk < k ==> min_length <= (#[trigger] paths_spec[kk]).len() <= max_length,
            decreases paths@.len() - k,
        {
            proof {
                self.routing.lemma_paths_ok(*top, current_router, target_router, k as int);
            }
            let len = paths[k].len();
            if len < min_length {
                min_length = len;
            }
            if len > max_length {
                max_length = len;
            }
            k += 1;
        }
        let mut selected: Vec<usize> = Vec::new();
        let mut length: usize = min_length;
        while length <= max_length
            invariant
                min_length <= length <= max_length + 1,
                max_length <= 0x7fff_ffff,
                selected@.len() == distinct_length_count(
                    paths_spec,
                    min_length as nat,
                    length as nat,
                ),
                forall|m: int|
                    0 <= m < selected@.len() ==> selected_path_ok(
                        paths_spec,
                        #[trigger] selected@[m],
                        seq![current_router],
                        target_router,
                    ),
                forall|m: int|
                    0 <= m < selected@.len() ==> paths_spec[(#[trigger] selected@[m]) as int].len()
                        < length,
                forall|m1: int, m2: int|
                    #![trigger selected@[m1], selected@[m2]]
                    0 <= m1 < m2 < selected@.len() ==> paths_spec[selected@[m1] as int].len()
                        < paths_spec[selected@[m2] as int].len(),
                forall|len: nat|
                    min_length <= len < length && #[trigger] has_path_with_routers(
                        paths_spec,
                        len,
                    ) ==> exists|m: int|
                        0 <= m < selected@.len() && paths_spec[(#[trigger] selected@[m]) as int].len()
                            == len,
            decreases max_length + 1 - length,
        {
            let mut length_candidates: Vec<usize> = Vec::new();
            let mut idx: usize = 0;
            while idx < paths.len()
                invariant
                    idx <= paths@.len(),
                    forall|q: int|
                        0 <= q < length_candidates@.len() ==> (#[trigger] length_candidates@[q])
                            < paths_spec.len() && paths_spec[length_candidates@[q] as int].len()
                            == length,
                    (length_candidates@.len() > 0) <==> (exists|kk: int|
                        0 <= kk < idx && (#[trigger] paths_spec[kk]).len() == length),
                decreases paths@.len() - idx,
            {
                if paths[idx].len() == length {
                    length_candidates.push(idx);
                }
                idx += 1;
            }
            if length_candidates.len() > 0 {
                let pick = rng_range(rng, 0, length_candidates.len());
                let chosen = length_candidates[pick];
                proof {
                    self.routing.lemma_paths_ok(*top, current_router, target_router, chosen as int);
                    assert(paths_spec[chosen as int].take(1) =~= seq![current_router]);
                    assert(has_path_with_routers(paths_spec, length as nat));
                }
                let ghost selected_before = selected@;
                selected.push(chosen);
                proof {
                    assert(selected@[selected_before.len() as int] == chosen);
                    assert(paths_spec[chosen as int].len() == length);
                    assert forall|len: nat|
                        min_length <= len < length + 1 && #[trigger] has_path_with_routers(
                            paths_spec,
                            len,
                        ) implies exists|m: int|
                        0 <= m < selected@.len() && paths_spec[(
                        #[trigger] selected@[m]) as int].len() == len by {
                        if len < length {
                            let m = choose|m: int|
                                0 <= m < selected_before.len() && paths_spec[(
                                #[trigger] selected_before[m]) as int].len() == len;
                            assert(selected@[m] == selected_before[m]);
                        } else {
                            assert(paths_spec[(selected@[selected_before.len() as int]) as int].len()
                                == len);
                        }
                    }
                }
            } else {
                proof {
                    assert(!has_path_with_routers(paths_spec, length as nat));
                }
            }
            length += 1;
        }
        proof {
            assert forall|len: nat| 0 <= len < min_length implies !has_path_with_routers(
                paths_spec,
                len,
            ) by {
                if has_path_with_routers(paths_spec, len) {
                    let kk = choose|kk: int|
                        0 <= kk < paths_spec.len() && (#[trigger] paths_spec[kk]).len() == len;
                }
            }
            assert forall|len: nat|
                max_length + 1 <= len < 0x8000_0000 implies !has_path_with_routers(
                paths_spec,
                len,
            ) by {
                if has_path_with_routers(paths_spec, len) {
                    let kk = choose|kk: int|
                        0 <= kk < paths_spec.len() && (#[trigger] paths_spec[kk]).len() == len;
                }
            }
            lemma_count_empty_range(paths_spec, 0, min_length as nat);
            lemma_count_empty_range(paths_spec, (max_length + 1) as nat, 0x8000_0000);
            lemma_count_split(paths_spec, 0, min_length as nat, (max_length + 1) as nat);
            lemma_count_split(paths_spec, 0, (max_length + 1) as nat, 0x8000_0000);
            assert(info.visited_routers@ =~= old(info).visited_routers@.push(current_router));
            assert(info.visited_routers@ =~= seq![current_router]);
            assert forall|len: nat| #[trigger] has_path_with_routers(paths_spec, len) implies exists|
                m: int,
            |
                0 <= m < selected@.len() && paths_spec[(#[trigger] selected@[m]) as int].len()
                    == len by {
                if len < min_length || len > max_length {
                    let kk = choose|kk: int|
                        0 <= kk < paths_spec.len() && (#[trigger] paths_spec[kk]).len() == len;
                }
            }
            assert(one_path_per_length(paths_spec, selected@));
        }
        info.selections = Selections::PathIndices(selected);
        Ok(())
    }

    #[verifier::loop_isolation(false)]
    fn update_routing_info(
        &self,
        info: &mut RoutingInfo,
        top: &Topology,
        current_router: usize,
        current_port: usize,
        target_router: usize,
        target_server: Option<usize>,
        rng: &mut StdRng,
    ) -> (r: Result<(), Error>) {
        let ghost prev = *info;
        let source_router = info.visited_routers[0];
        let hops = info.hops;
        info.visited_routers.push(current_router);
        proof {
            self.routing.lemma_covers(*top, source_router, target_router);
        }
        let ghost paths_spec = self.routing.paths_of(source_router, target_router);
        let paths = self.routing.get_paths(source_router, target_router);
        let mut kept: Vec<usize> = Vec::new();
        let sel = match &info.selections {
            Selections::PathIndices(sel) => sel,
            _ => {
                return Err(
                    Error::SelectionsExhausted {
                        current_router,
                        target_router,
                    },
                );
            },
        };
        let mut m: usize = 0;
        while m < sel.len()
            invariant
                m <= sel@.len(),
                hops >= 1,
                hops == prev.hops,
                forall|q: int|
                    0 <= q < sel@.len() ==> selected_path_ok(
                        paths_spec,
                        #[trigger] sel@[q],
                        prev.visited_routers@,
                        target_router,
                    ),
                prev.visited_routers@.len() == hops,
                forall|q: int|
                    0 <= q < kept@.len() ==> sel@.contains(#[trigger] kept@[q]) && (hops as int)
                        < paths_spec[kept@[q] as int].len() && paths_spec[kept@[q] as int][hops as int]
                        == current_router,
                forall|q: int|
                    0 <= q < m && (hops as int) < (#[trigger] paths_spec[sel@[q] as int]).len()
                        && paths_spec[sel@[q] as int][hops as int] == current_router
                        ==> kept@.contains(sel@[q]),
            decreases sel@.len() - m,
        {
            let ghost kept_before = kept@;
            let idx = sel[m];
            proof {
                assert(selected_path_ok(paths_spec, sel@[m as int], prev.visited_routers@, target_router));
                self.routing.lemma_paths_ok(*top, source_router, target_router, idx as int);
            }
            if hops < paths[idx].len() && paths[idx][hops] == current_router {
                kept.push(idx);
                proof {
                    assert(kept@.last() == idx);
                }
            }
            proof {
                assert forall|q: int|
                    0 <= q < m + 1 && (hops as int) < (#[trigger] paths_spec[sel@[q] as int]).len()
                        && paths_spec[sel@[q] as int][hops as int] == current_router implies kept@.contains(
                    sel@[q],
                ) by {
                    if q < m as int {
                        let w = choose|w: int|
                            0 <= w < kept_before.len() && kept_before[w] == sel@[q];
                        assert(kept@[w] == sel@[q]);
                    } else {
                        assert(kept@.last() == sel@[q]);
                    }
                }
            }
            m += 1;
        }
        let empty = kept.len() == 0;
        info.selections = Selections::PathIndices(kept);
        if empty {
            Err(Error::SelectionsExhausted { current_router, target_router })
        } else {
            proof {
                let new_visited = prev.visited_routers@.push(current_router);
                assert(info.visited_routers@ == new_visited);
                assert forall|q: int|
                    0 <= q < info.selections->PathIndices_0@.len() implies selected_path_ok(
                    paths_spec,
                    #[trigger] info.selections->PathIndices_0@[q],
                    new_visited,
                    target_router,
                ) by {
                    let idx = info.selections->PathIndices_0@[q];
                    let w = choose|w: int| 0 <= w < sel@.len() && sel@[w] == idx;
                    assert(selected_path_ok(paths_spec, idx, prev.visited_routers@, target_router));
                    assert(paths_spec[idx as int][hops as int] == current_router);
                    assert(hops < paths_spec[idx as int].len());
                    assert(paths_spec[idx as int].take(hops + 1) =~= prev.visited_routers@.push(
                        current_router,
                    ));
                }
            }
            Ok(())
        }
    }

    fn performed_request(
        &self,
        requested: &CandidateEgress,
        info: &mut RoutingInfo,
        top: &Topology,
        current_router: usize,
        target_router: usize,
        target_server: Option<usize>,
        num_virtual_channels: usize,
        rng: &mut StdRng,
    ) {
    }

    fn initialize(&mut self, top: &Topology, rng: &mut StdRng) -> (r: Result<(), Error>) {
        self.routing.initialize(top, rng)
    }

    fn statistics(&self, cycle: Time) -> Option<ConfigurationValue> {
        None
    }
}

} // verus!
