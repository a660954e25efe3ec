use vstd::prelude::*;
use rand::rngs::StdRng;
use crate::config::{str_eq, ConfigurationValue, Time};
use crate::errors::Error;
use crate::model::{
    add_label, candidates_to_server, clamp_label, CandidateEgress, RoutingInfo,
    RoutingNextCandidates, Selections,
};
use crate::rng::rng_range;
use crate::routing::Routing;
use crate::stubborn::is_popped_of;
use crate::topology::Topology;

verus! {

/// How `SumRouting` selects between its two inner routings.
#[derive(Clone, Copy, PartialEq, Eq, Structural, Debug)]
pub enum SumRoutingPolicy {
    /// Fix one routing at initialization, irrevocably.
    Random,
    /// Keep both options open at every hop.
    TryBoth,
    /// Keep both options as long as possible; once a request is performed,
    /// pin to the side that produced it.
    Stubborn,
    /// Pin only when the second routing is chosen; otherwise keep recording
    /// the requested side without discarding the other option.
    StubbornWhenSecond,
    /// Offer the first routing's candidates; fall back to the second only
    /// when the first offers none.
    SecondWhenFirstEmpty,
    /// Stay on the first routing, refreshing an escape option through the
    /// second from every router; once a hop of the second is taken, continue
    /// that way permanently.
    EscapeToSecond,
}

/// The policy a configuration object of the given name denotes.
pub open spec fn policy_of_name(name: Seq<char>) -> Option<SumRoutingPolicy> {
    if name == "Random"@ {
        Some(SumRoutingPolicy::Random)
    } else if name == "TryBoth"@ {
        Some(SumRoutingPolicy::TryBoth)
    } else if name == "Stubborn"@ {
        Some(SumRoutingPolicy::Stubborn)
    } else if name == "StubbornWhenSecond"@ {
        Some(SumRoutingPolicy::StubbornWhenSecond)
    } else if name == "SecondWhenFirstEmpty"@ {
        Some(SumRoutingPolicy::SecondWhenFirstEmpty)
    } else if name == "EscapeToSecond"@ {
        Some(SumRoutingPolicy::EscapeToSecond)
    } else {
        None
    }
}

/// Reads a `SumRouting` policy from a configuration object; an unknown name
/// or a non-object is a configuration error.
pub fn new_sum_routing_policy(cv: &ConfigurationValue) -> (r: Result<SumRoutingPolicy, Error>)
    ensures
        match *cv {
            ConfigurationValue::Object(ref name, _) => r == match policy_of_name(name@) {
                Some(p) => Ok::<SumRoutingPolicy, Error>(p),
                None => Err::<SumRoutingPolicy, Error>(Error::UnknownName),
            },
            _ => r is Err,
        },
{
    if let ConfigurationValue::Object(name, _) = cv {
        let n = name.as_str();
        if str_eq(n, "Random") {
            Ok(SumRoutingPolicy::Random)
        } else if str_eq(n, "TryBoth") {
            Ok(SumRoutingPolicy::TryBoth)
        } else if str_eq(n, "Stubborn") {
            Ok(SumRoutingPolicy::Stubborn)
        } else if str_eq(n, "StubbornWhenSecond") {
            Ok(SumRoutingPolicy::StubbornWhenSecond)
        } else if str_eq(n, "SecondWhenFirstEmpty") {
            Ok(SumRoutingPolicy::SecondWhenFirstEmpty)
        } else if str_eq(n, "EscapeToSecond") {
            Ok(SumRoutingPolicy::EscapeToSecond)
        } else {
            Err(Error::UnknownName)
        }
    } else {
        Err(Error::UnknownName)
    }
}

/// The shape a blend's selection state can have: one side pinned, or both
/// still open.
#[derive(Clone, Copy, PartialEq, Eq, Structural, Debug)]
pub enum SumRoutingCase {
    SingleChoice(i32),
    DoubleChoice(i32, i32),
}

/// The view of a selection state as a blend sees it, and the two updates a
/// blend performs on it.
pub trait SumRoutingSelection: Sized {
    /// The selection states that have a blend shape at all.
    spec fn sum_shape(&self) -> bool;

    /// Which case a blend-shaped state falls under.
    spec fn case_of(&self) -> SumRoutingCase;

    /// The state after a side is pinned.
    spec fn singled(&self, selection: i32) -> Self;

    /// The state after a request is recorded (only an open state changes).
    spec fn requested(&self, request: i32) -> Self;

    fn case(&self) -> (r: SumRoutingCase)
        requires
            self.sum_shape(),
        ensures
            r == self.case_of(),
    ;

    /// Set a single routing as selected.
    fn set_single(&mut self, selection: i32)
        ensures
            *final(self) == old(self).singled(selection),
    ;

    /// Record that a request was performed for a side.
    fn set_request(&mut self, request: i32)
        ensures
            *final(self) == old(self).requested(request),
    ;
}

impl SumRoutingSelection for Selections {
    open spec fn sum_shape(&self) -> bool {
        self is Pinned || self is Open || self is OpenWithRequest
    }

    open spec fn case_of(&self) -> SumRoutingCase {
        match *self {
            Selections::Pinned(a) => SumRoutingCase::SingleChoice(a),
            Selections::Open(a, b) => SumRoutingCase::DoubleChoice(a, b),
            Selections::OpenWithRequest(a, b, _) => SumRoutingCase::DoubleChoice(a, b),
            _ => SumRoutingCase::SingleChoice(0),
        }
    }

    open spec fn singled(&self, selection: i32) -> Selections {
        Selections::Pinned(selection)
    }

    open spec fn requested(&self, request: i32) -> Selections {
        match *self {
            Selections::Open(a, b) => Selections::OpenWithRequest(a, b, request),
            Selections::OpenWithRequest(a, b, _) => Selections::OpenWithRequest(a, b, request),
            _ => *self,
        }
    }

    fn case(&self) -> (r: SumRoutingCase) {
        match self {
            Selections::Pinned(a) => SumRoutingCase::SingleChoice(*a),
            Selections::Open(a, b) => SumRoutingCase::DoubleChoice(*a, *b),
            Selections::OpenWithRequest(a, b, _) => SumRoutingCase::DoubleChoice(*a, *b),
            _ => SumRoutingCase::SingleChoice(0),
        }
    }

    fn set_single(&mut self, selection: i32) {
        *self = Selections::Pinned(selection);
    }

    fn set_request(&mut self, request: i32) {
        match self {
            Selections::Open(a, b) => {
                *self = Selections::OpenWithRequest(*a, *b, request);
            },
            Selections::OpenWithRequest(a, b, _) => {
                *self = Selections::OpenWithRequest(*a, *b, request);
            },
            _ => {},
        }
    }
}

/// `cout` is `cin` relabelled for one side of a blend: the virtual channel
/// mapped through the side's allowed sub-range, the side's extra label added
/// (saturating), and the side pushed onto the annotation stack.
pub open spec fn side_wrapped_candidate(
    avc: Seq<usize>,
    extra_label: i32,
    side: i32,
    cin: CandidateEgress,
    cout: CandidateEgress,
) -> bool {
    &&& cout.port == cin.port
    &&& cin.virtual_channel < avc.len() && cout.virtual_channel == avc[cin.virtual_channel as int]
    &&& cout.label as int == clamp_label(cin.label as int + extra_label as int)
    &&& cout.estimated_remaining_hops == cin.estimated_remaining_hops
    &&& cout.router_allows == cin.router_allows
    &&& cout.annotation.values@ == cin.annotation.values@.push(side)
}

/// `outer` is `inner` wrapped for one side, candidate by candidate.
pub open spec fn side_wrapped_candidates(
    avc: Seq<usize>,
    extra_label: i32,
    side: i32,
    inner: Seq<CandidateEgress>,
    outer: Seq<CandidateEgress>,
) -> bool {
    &&& outer.len() == inner.len()
    &&& forall|k: int|
        0 <= k < inner.len() ==> side_wrapped_candidate(
            avc,
            extra_label,
            side,
            inner[k],
            #[trigger] outer[k],
        )
}

/// Relabels one side's candidates.
#[verifier::loop_isolation(false)]
fn wrap_side(
    avc: &Vec<usize>,
    extra_label: i32,
    side: i32,
    inner: Vec<CandidateEgress>,
) -> (out: Vec<CandidateEgress>)
    requires
        forall|k: int| 0 <= k < inner@.len() ==> (#[trigger] inner@[k]).virtual_channel < avc@.len(),
    ensures
        side_wrapped_candidates(avc@, extra_label, side, inner@, out@),
{
    let ghost inner_seq = inner@;
    let mut out: Vec<CandidateEgress> = Vec::new();
    let mut k: usize = 0;
    let len = inner.len();
    while k < len
        invariant
            len == inner_seq.len(),
            inner@ == inner_seq,
            k <= len,
            out@.len() == k,
            forall|j: int|
                0 <= j < k ==> side_wrapped_candidate(
                    avc@,
                    extra_label,
                    side,
                    inner_seq[j],
                    #[trigger] out@[j],
                ),
        decreases len - k,
    {
        let c = &inner[k];
        let annotation = c.annotation.pushed(side);
        out.push(CandidateEgress {
            port: c.port,
            virtual_channel: avc[c.virtual_channel],
            label: add_label(c.label, extra_label),
            estimated_remaining_hops: c.estimated_remaining_hops,
            router_allows: c.router_allows,
            annotation,
        });
        k += 1;
    }
    out
}

/// Blends two inner routings under a policy.  Each side's candidates are
/// restricted to a disjoint virtual-channel sub-range and shifted by a
/// per-side extra label, so the two routings share one router's channels
/// without aliasing; every candidate is annotated with the side that
/// produced it, so a confirmation can be routed back to that side's state.
pub struct SumRouting<A: Routing, B: Routing> {
    policy: SumRoutingPolicy,
    first_routing: A,
    second_routing: B,
    first_allowed_virtual_channels: Vec<usize>,
    second_allowed_virtual_channels: Vec<usize>,
    first_extra_label: i32,
    second_extra_label: i32,
    enabled_statistics: bool,
}

impl<A: Routing, B: Routing> SumRouting<A, B> {
    pub fn new(
        policy: SumRoutingPolicy,
        first_routing: A,
        second_routing: B,
        first_allowed_virtual_channels: Vec<usize>,
        second_allowed_virtual_channels: Vec<usize>,
        first_extra_label: i32,
        second_extra_label: i32,
        enabled_statistics: bool,
    ) -> (r: SumRouting<A, B>)
        ensures
            r.policy_of() == policy,
            r.first() == first_routing,
            r.second() == second_routing,
            r.avc0() == first_allowed_virtual_channels@,
            r.avc1() == second_allowed_virtual_channels@,
            r.el0() == first_extra_label,
            r.el1() == second_extra_label,
    {
        SumRouting {
            policy,
            first_routing,
            second_routing,
            first_allowed_virtual_channels,
            second_allowed_virtual_channels,
            first_extra_label,
            second_extra_label,
            enabled_statistics,
        }
    }

    pub closed spec fn policy_of(&self) -> SumRoutingPolicy {
        self.policy
    }

    pub closed spec fn first(&self) -> A {
        self.first_routing
    }

    pub closed spec fn second(&self) -> B {
        self.second_routing
    }

    pub closed spec fn avc0(&self) -> Seq<usize> {
        self.first_allowed_virtual_channels@
    }

    pub closed spec fn avc1(&self) -> Seq<usize> {
        self.second_allowed_virtual_channels@
    }

    pub closed spec fn el0(&self) -> i32 {
        self.first_extra_label
    }

    pub closed spec fn el1(&self) -> i32 {
        self.second_extra_label
    }

    /// Both children's states are acceptable to their routings.
    pub open spec fn children_ok(
        &self,
        top: Topology,
        info: RoutingInfo,
        current: usize,
        target: usize,
        side0: bool,
        side1: bool,
    ) -> bool {
        &&& (side0 ==> self.first().info_ok(
            top,
            info.meta@[0],
            current,
            target,
            self.avc0().len() as usize,
        ))
        &&& (side1 ==> self.second().info_ok(
            top,
            info.meta@[1],
            current,
            target,
            self.avc1().len() as usize,
        ))
    }

    /// The selection state after the realized hop is folded in: a recorded
    /// request pins (except under `SecondWhenFirstEmpty`), and under
    /// `EscapeToSecond` a state still on the first routing reopens both.
    pub open spec fn post_update_selections(&self, sel: Selections) -> Selections {
        let phase1 = match sel {
            Selections::OpenWithRequest(a, b, c) => {
                if self.policy_of() is SecondWhenFirstEmpty {
                    Selections::OpenWithRequest(a, b, c)
                } else {
                    Selections::Pinned(c)
                }
            },
            _ => sel,
        };
        if self.policy_of() is EscapeToSecond && sum_selection_head(phase1) == 0 {
            Selections::Open(0, 1)
        } else {
            phase1
        }
    }

    /// The selection state after a side's candidate is confirmed.
    pub open spec fn post_performed_selections(&self, sel: Selections, side: i32) -> Selections {
        match sel {
            Selections::Open(_, _) | Selections::OpenWithRequest(_, _, _) => {
                match self.policy_of() {
                    SumRoutingPolicy::Stubborn => sel.singled(side),
                    SumRoutingPolicy::StubbornWhenSecond => {
                        if side == 1 {
                            sel.singled(1)
                        } else {
                            sel.requested(side)
                        }
                    },
                    _ => sel.requested(side),
                }
            },
            _ => sel,
        }
    }

    /// Whether the realized hop is folded into the first child's state.
    pub open spec fn updates_first(&self, sel: Selections) -> bool {
        match sel {
            Selections::Open(_, _) => true,
            Selections::OpenWithRequest(_, _, c) => {
                if self.policy_of() is SecondWhenFirstEmpty {
                    true
                } else {
                    c == 0
                }
            },
            Selections::Pinned(s) => s == 0,
            _ => false,
        }
    }

    /// Whether the realized hop is folded into the second child's state.
    pub open spec fn updates_second(&self, sel: Selections) -> bool {
        match sel {
            Selections::Open(_, _) => true,
            Selections::OpenWithRequest(_, _, c) => {
                if self.policy_of() is SecondWhenFirstEmpty {
                    true
                } else {
                    c == 1
                }
            },
            Selections::Pinned(s) => s == 1,
            _ => false,
        }
    }

    /// Whether the escape option through the second routing is refreshed.
    pub open spec fn escape_reinit(&self, sel: Selections) -> bool {
        self.policy_of() is EscapeToSecond && sum_selection_head(
            match sel {
                Selections::OpenWithRequest(a, b, c) => {
                    if self.policy_of() is SecondWhenFirstEmpty {
                        Selections::OpenWithRequest(a, b, c)
                    } else {
                        Selections::Pinned(c)
                    }
                },
                _ => sel,
            },
        ) == 0
    }
}

/// The selection shapes a blend keeps: both sides open in order, or one of
/// the two sides pinned.
pub open spec fn valid_sum_selections(sel: Selections) -> bool {
    match sel {
        Selections::Open(a, b) => a == 0 && b == 1,
        Selections::OpenWithRequest(a, b, c) => a == 0 && b == 1 && (c == 0 || c == 1),
        Selections::Pinned(s) => s == 0 || s == 1,
        _ => false,
    }
}

/// A fresh per-packet record carrying the admitted packet's source server,
/// as a blend hands to each of its children.
pub open spec fn is_fresh_with_source(info: RoutingInfo, source: Option<usize>) -> bool {
    &&& info.hops == 0
    &&& info.visited_routers@.len() == 0
    &&& info.selections is Unset
    &&& info.meta@.len() == 0
    &&& info.source_server == source
}

/// The side a blend's selection state would route first.
pub open spec fn sum_selection_head(sel: Selections) -> i32 {
    match sel {
        Selections::Pinned(s) => s,
        Selections::Open(a, _) => a,
        Selections::OpenWithRequest(a, _, _) => a,
        _ => (-1) as i32,
    }
}

impl<A: Routing, B: Routing> Routing for SumRouting<A, B> {
    open spec fn wf(&self) -> bool {
        &&& self.first().wf()
        &&& self.second().wf()
    }

    open spec fn initialized(&self, top: Topology) -> bool {
        &&& self.first().initialized(top)
        &&& self.second().initialized(top)
    }

    open spec fn info_ok(
        &self,
        top: Topology,
        info: RoutingInfo,
        current: usize,
        target: usize,
        num_vc: usize,
    ) -> bool {
        &&& info.meta@.len() == 2
        &&& match info.selections {
            Selections::Open(a, b) => a == 0 && b == 1 && self.children_ok(
                top,
                info,
                current,
                target,
                true,
                true,
            ),
            Selections::OpenWithRequest(a, b, c) => a == 0 && b == 1 && (c == 0 || c == 1)
                && self.children_ok(top, info, current, target, true, true),
            Selections::Pinned(s) => (s == 0 || s == 1) && self.children_ok(
                top,
                info,
                current,
                target,
                s == 0,
                s == 1,
            ),
            _ => false,
        }
    }

    open spec fn next_req(&self, top: Topology, num_vc: usize) -> bool {
        &&& forall|k: int| 0 <= k < self.avc0().len() ==> (#[trigger] self.avc0()[k]) < num_vc
        &&& forall|k: int| 0 <= k < self.avc1().len() ==> (#[trigger] self.avc1()[k]) < num_vc
        &&& self.first().next_req(top, self.avc0().len() as usize)
        &&& self.second().next_req(top, self.avc1().len() as usize)
    }

    open spec fn next_ens(
        &self,
        top: Topology,
        info: RoutingInfo,
        current: usize,
        target: usize,
        num_vc: usize,
        r: Result<RoutingNextCandidates, Error>,
    ) -> bool {
        match info.selections {
            Selections::Pinned(s) => match r {
                Ok(rc) => {
                    &&& !rc.idempotent
                    &&& (s == 0 ==> exists|irc: RoutingNextCandidates|
                        {
                            &&& #[trigger] self.first().next_ens(
                                top,
                                info.meta@[0],
                                current,
                                target,
                                self.avc0().len() as usize,
                                Ok(irc),
                            )
                            &&& side_wrapped_candidates(
                                self.avc0(),
                                self.el0(),
                                0,
                                irc.candidates@,
                                rc.candidates@,
                            )
                        })
                    &&& (s == 1 ==> exists|irc: RoutingNextCandidates|
                        {
                            &&& #[trigger] self.second().next_ens(
                                top,
                                info.meta@[1],
                                current,
                                target,
                                self.avc1().len() as usize,
                                Ok(irc),
                            )
                            &&& side_wrapped_candidates(
                                self.avc1(),
                                self.el1(),
                                1,
                                irc.candidates@,
                                rc.candidates@,
                            )
                        })
                },
                Err(e) => {
                    ||| (s == 0 && self.first().next_ens(
                        top,
                        info.meta@[0],
                        current,
                        target,
                        self.avc0().len() as usize,
                        Err(e),
                    ))
                    ||| (s == 1 && self.second().next_ens(
                        top,
                        info.meta@[1],
                        current,
                        target,
                        self.avc1().len() as usize,
                        Err(e),
                    ))
                },
            },
            Selections::Open(_, _) | Selections::OpenWithRequest(_, _, _) => match r {
                Ok(rc) => {
                    &&& !rc.idempotent
                    &&& exists|irc0: RoutingNextCandidates, irc1: RoutingNextCandidates|
                        {
                            &&& #[trigger] self.first().next_ens(
                                top,
                                info.meta@[0],
                                current,
                                target,
                                self.avc0().len() as usize,
                                Ok(irc0),
                            )
                            &&& #[trigger] self.second().next_ens(
                                top,
                                info.meta@[1],
                                current,
                                target,
                                self.avc1().len() as usize,
                                Ok(irc1),
                            )
                            &&& if self.policy_of() is SecondWhenFirstEmpty {
                                if irc0.candidates@.len() > 0 {
                                    side_wrapped_candidates(
                                        self.avc0(),
                                        self.el0(),
                                        0,
                                        irc0.candidates@,
                                        rc.candidates@,
                                    )
                                } else {
                                    side_wrapped_candidates(
                                        self.avc1(),
                                        self.el1(),
                                        1,
                                        irc1.candidates@,
                                        rc.candidates@,
                                    )
                                }
                            } else {
                                &&& rc.candidates@.len() == irc0.candidates@.len()
                                    + irc1.candidates@.len()
                                &&& side_wrapped_candidates(
                                    self.avc0(),
                                    self.el0(),
                                    0,
                                    irc0.candidates@,
                                    rc.candidates@.take(irc0.candidates@.len() as int),
                                )
                                &&& side_wrapped_candidates(
                                    self.avc1(),
                                    self.el1(),
                                    1,
                                    irc1.candidates@,
                                    rc.candidates@.skip(irc0.candidates@.len() as int),
                                )
                            }
                        }
                },
                Err(e) => {
                    ||| self.first().next_ens(
                        top,
                        info.meta@[0],
                        current,
                        target,
                        self.avc0().len() as usize,
                        Err(e),
                    )
                    ||| exists|irc0: RoutingNextCandidates|
                        {
                            &&& #[trigger] self.first().next_ens(
                                top,
                                info.meta@[0],
                                current,
                                target,
                                self.avc0().len() as usize,
                                Ok(irc0),
                            )
                            &&& self.second().next_ens(
                                top,
                                info.meta@[1],
                                current,
                                target,
                                self.avc1().len() as usize,
                                Err(e),
                            )
                        }
                },
            },
            _ => true,
        }
    }

    open spec fn init_info_ens(
        &self,
        top: Topology,
        prev: RoutingInfo,
        info: RoutingInfo,
        current: usize,
        target: usize,
        r: Result<(), Error>,
    ) -> bool {
        &&& (r matches Err(e) ==> {
            &&& info == prev
            &&& exists|fresh: RoutingInfo|
                #[trigger] is_fresh_with_source(fresh, prev.source_server) && (exists|
                    after: RoutingInfo,
                |
                    self.first().init_info_ens(top, fresh, after, current, target, Err(e))
                        || self.second().init_info_ens(top, fresh, after, current, target, Err(e)))
        })
        &&& r is Ok ==> {
            &&& info.hops == prev.hops
            &&& info.source_server == prev.source_server
            &&& info.visited_routers == prev.visited_routers
            &&& info.meta@.len() == 2
            &&& if self.policy_of() is Random {
                info.selections == Selections::Pinned(0) || info.selections == Selections::Pinned(
                    1,
                )
            } else {
                info.selections == Selections::Open(0, 1)
            }
            &&& forall|k: int|
                0 <= k < 2 ==> (#[trigger] info.meta@[k]).source_server == prev.source_server
            &&& (info.selections == Selections::Pinned(0) || info.selections == Selections::Open(
                0,
                1,
            )) ==> exists|fresh: RoutingInfo|
                #[trigger] is_fresh_with_source(fresh, prev.source_server)
                    && self.first().init_info_ens(top, fresh, info.meta@[0], current, target, Ok(()))
            &&& (info.selections == Selections::Pinned(1) || info.selections == Selections::Open(
                0,
                1,
            )) ==> exists|fresh: RoutingInfo|
                #[trigger] is_fresh_with_source(fresh, prev.source_server)
                    && self.second().init_info_ens(
                    top,
                    fresh,
                    info.meta@[1],
                    current,
                    target,
                    Ok(()),
                )
            &&& (info.selections == Selections::Pinned(0) ==> is_fresh_with_source(
                info.meta@[1],
                prev.source_server,
            ))
            &&& (info.selections == Selections::Pinned(1) ==> is_fresh_with_source(
                info.meta@[0],
                prev.source_server,
            ))
        }
    }

    open spec fn update_req(
        &self,
        top: Topology,
        info: RoutingInfo,
        current: usize,
        port: usize,
        target: usize,
    ) -> bool {
        &&& info.meta@.len() == 2
        &&& valid_sum_selections(info.selections)
        &&& (self.updates_first(info.selections) ==> info.meta@[0].hops < usize::MAX
            && self.first().update_req(
            top,
            RoutingInfo { hops: (info.meta@[0].hops + 1) as usize, ..info.meta@[0] },
            current,
            port,
            target,
        ))
        &&& (self.updates_second(info.selections) ==> info.meta@[1].hops < usize::MAX
            && self.second().update_req(
            top,
            RoutingInfo { hops: (info.meta@[1].hops + 1) as usize, ..info.meta@[1] },
            current,
            port,
            target,
        ))
    }

    open spec fn update_ens(
        &self,
        top: Topology,
        prev: RoutingInfo,
        info: RoutingInfo,
        current: usize,
        port: usize,
        target: usize,
        r: Result<(), Error>,
    ) -> bool {
        &&& info.hops == prev.hops
        &&& info.source_server == prev.source_server
        &&& info.visited_routers == prev.visited_routers
        &&& r is Ok ==> {
            &&& info.meta@.len() == 2
            &&& info.selections == self.post_update_selections(prev.selections)
            &&& (self.updates_first(prev.selections) ==> self.first().update_ens(
                top,
                RoutingInfo { hops: (prev.meta@[0].hops + 1) as usize, ..prev.meta@[0] },
                info.meta@[0],
                current,
                port,
                target,
                Ok(()),
            ))
            &&& (!self.updates_first(prev.selections) ==> info.meta@[0] == prev.meta@[0])
            &&& if self.escape_reinit(prev.selections) {
                exists|fresh: RoutingInfo|
                    #[trigger] crate::stubborn::is_fresh_info(fresh)
                        && self.second().init_info_ens(
                        top,
                        fresh,
                        info.meta@[1],
                        current,
                        target,
                        Ok(()),
                    )
            } else if self.updates_second(prev.selections) {
                self.second().update_ens(
                    top,
                    RoutingInfo { hops: (prev.meta@[1].hops + 1) as usize, ..prev.meta@[1] },
                    info.meta@[1],
                    current,
                    port,
                    target,
                    Ok(()),
                )
            } else {
                info.meta@[1] == prev.meta@[1]
            }
        }
        &&& (r matches Err(e) ==> {
            &&& info.meta@.len() == 2
            &&& info.selections == prev.selections
            &&& ({
                ||| (self.updates_first(prev.selections) && self.first().update_ens(
                    top,
                    RoutingInfo { hops: (prev.meta@[0].hops + 1) as usize, ..prev.meta@[0] },
                    info.meta@[0],
                    current,
                    port,
                    target,
                    Err(e),
                ) && info.meta@[1] == prev.meta@[1])
                ||| (self.updates_second(prev.selections) && self.second().update_ens(
                    top,
                    RoutingInfo { hops: (prev.meta@[1].hops + 1) as usize, ..prev.meta@[1] },
                    info.meta@[1],
                    current,
                    port,
                    target,
                    Err(e),
                ))
                ||| (self.escape_reinit(prev.selections) && exists|fresh: RoutingInfo|
                    #[trigger] crate::stubborn::is_fresh_info(fresh) && exists|after: RoutingInfo|
                        self.second().init_info_ens(top, fresh, after, current, target, Err(e)))
            })
        })
    }

    open spec fn performed_req(
        &self,
        top: Topology,
        info: RoutingInfo,
        requested: CandidateEgress,
        current: usize,
        target: usize,
        num_vc: usize,
    ) -> bool {
        &&& info.meta@.len() == 2
        &&& info.selections.sum_shape()
        &&& requested.annotation.values@.len() > 0 ==> {
            &&& (requested.annotation.values@.last() == 0 || requested.annotation.values@.last()
                == 1)
            &&& (requested.annotation.values@.last() == 0 ==> forall|sub: CandidateEgress|
                #[trigger] is_popped_of(requested, sub) ==> self.first().performed_req(
                    top,
                    info.meta@[0],
                    sub,
                    current,
                    target,
                    self.avc0().len() as usize,
                ))
            &&& (requested.annotation.values@.last() == 1 ==> forall|sub: CandidateEgress|
                #[trigger] is_popped_of(requested, sub) ==> self.second().performed_req(
                    top,
                    info.meta@[1],
                    sub,
                    current,
                    target,
                    self.avc1().len() as usize,
                ))
        }
    }

    open spec fn performed_ens(
        &self,
        top: Topology,
        prev: RoutingInfo,
        info: RoutingInfo,
        requested: CandidateEgress,
        current: usize,
        target: usize,
        num_vc: usize,
    ) -> bool {
        if requested.annotation.values@.len() == 0 {
            info == prev
        } else {
            let side = requested.annotation.values@.last();
            &&& info.hops == prev.hops
            &&& info.source_server == prev.source_server
            &&& info.visited_routers == prev.visited_routers
            &&& info.meta@.len() == 2
            &&& info.selections == self.post_performed_selections(prev.selections, side)
            &&& (side == 0 ==> info.meta@[1] == prev.meta@[1] && exists|sub: CandidateEgress|
                #[trigger] is_popped_of(requested, sub) && self.first().performed_ens(
                    top,
                    prev.meta@[0],
                    info.meta@[0],
                    sub,
                    current,
                    target,
                    self.avc0().len() as usize,
                ))
            &&& (side == 1 ==> info.meta@[0] == prev.meta@[0] && exists|sub: CandidateEgress|
                #[trigger] is_popped_of(requested, sub) && self.second().performed_ens(
                    top,
                    prev.meta@[1],
                    info.meta@[1],
                    sub,
                    current,
                    target,
                    self.avc1().len() as usize,
                ))
        }
    }

    open spec fn init_ens(&self, prev: Self, top: Topology, r: Result<(), Error>) -> bool {
        &&& r is Ok ==> self.first().init_ens(prev.first(), top, Ok(()))
            && self.second().init_ens(prev.second(), top, Ok(()))
        &&& (r matches Err(e) ==> {
            ||| (self.first().init_ens(prev.first(), top, Err(e)) && self.second()
                == prev.second())
            ||| (self.first().init_ens(prev.first(), top, Ok(()))
                && self.second().init_ens(prev.second(), top, Err(e)))
        })
    }

    fn next(
        &self,
        info: &RoutingInfo,
        top: &Topology,
        current_router: usize,
        target_router: usize,
        target_server: Option<usize>,
        num_virtual_channels: usize,
        rng: &mut StdRng,
    ) -> (r: Result<RoutingNextCandidates, Error>) {
        if target_router == current_router {
            return candidates_to_server(
                top,
                current_router,
                target_server.unwrap(),
                num_virtual_channels,
            );
        }
        let pinned: Option<i32> = match &info.selections {
            Selections::Pinned(s) => Some(*s),
            _ => None,
        };
        match pinned {
            Some(s) => {
                if s == 0 {
                    let irc = match self.first_routing.next(
                        &info.meta[0],
                        top,
                        current_router,
                        target_router,
                        target_server,
                        self.first_allowed_virtual_channels.len(),
                        rng,
                    ) {
                        Ok(x) => x,
                        Err(e) => {
                            return Err(e);
                        },
                    };
                    let ghost irc_snap = irc;
                    let out = wrap_side(
                        &self.first_allowed_virtual_channels,
                        self.first_extra_label,
                        0,
                        irc.candidates,
                    );
                    proof {
                        assert(self.first().next_ens(
                            *top,
                            info.meta@[0],
                            current_router,
                            target_router,
                            self.avc0().len() as usize,
                            Ok(irc_snap),
                        ));
                    }
                    Ok(RoutingNextCandidates { candidates: out, idempotent: false })
                } else {
                    let irc = match self.second_routing.next(
                        &info.meta[1],
                        top,
                        current_router,
                        target_router,
                        target_server,
                        self.second_allowed_virtual_channels.len(),
                        rng,
                    ) {
                        Ok(x) => x,
                        Err(e) => {
                            return Err(e);
                        },
                    };
                    let ghost irc_snap = irc;
                    let out = wrap_side(
                        &self.second_allowed_virtual_channels,
                        self.second_extra_label,
                        1,
                        irc.candidates,
                    );
                    proof {
                        assert(self.second().next_ens(
                            *top,
                            info.meta@[1],
                            current_router,
                            target_router,
                            self.avc1().len() as usize,
                            Ok(irc_snap),
                        ));
                    }
                    Ok(RoutingNextCandidates { candidates: out, idempotent: false })
                }
            },
            None => {
                let irc0 = match self.first_routing.next(
                    &info.meta[0],
                    top,
                    current_router,
                    target_router,
                    target_server,
                    self.first_allowed_virtual_channels.len(),
                    rng,
                ) {
                    Ok(x) => x,
                    Err(e) => {
                        return Err(e);
                    },
                };
                let ghost irc0_snap = irc0;
                let irc1 = match self.second_routing.next(
                    &info.meta[1],
                    top,
                    current_router,
                    target_router,
                    target_server,
                    self.second_allowed_virtual_channels.len(),
                    rng,
                ) {
                    Ok(x) => x,
                    Err(e) => {
                        proof {
                            assert(self.first().next_ens(
                                *top,
                                info.meta@[0],
                                current_router,
                                target_router,
                                self.avc0().len() as usize,
                                Ok(irc0_snap),
                            ));
                        }
                        return Err(e);
                    },
                };
                let ghost irc1_snap = irc1;
                let mut out0 = wrap_side(
                    &self.first_allowed_virtual_channels,
                    self.first_extra_label,
                    0,
                    irc0.candidates,
                );
                let mut out1 = wrap_side(
                    &self.second_allowed_virtual_channels,
                    self.second_extra_label,
                    1,
                    irc1.candidates,
                );
                let second_when_first_empty = match self.policy {
                    SumRoutingPolicy::SecondWhenFirstEmpty => true,
                    _ => false,
                };
                let candidates = if second_when_first_empty {
                    if out0.len() > 0 {
                        out0
                    } else {
                        out1
                    }
                } else {
                    let ghost w0 = out0@;
                    let ghost w1 = out1@;
                    out0.append(&mut out1);
                    proof {
                        assert(out0@.take(w0.len() as int) =~= w0);
                        assert(out0@.skip(w0.len() as int) =~= w1);
                    }
                    out0
                };
                proof {
                    assert(self.first().next_ens(
                        *top,
                        info.meta@[0],
                        current_router,
                        target_router,
                        self.avc0().len() as usize,
                        Ok(irc0_snap),
                    ));
                    assert(self.second().next_ens(
                        *top,
                        info.meta@[1],
                        current_router,
                        target_router,
                        self.avc1().len() as usize,
                        Ok(irc1_snap),
                    ));
                }
                Ok(RoutingNextCandidates { candidates, idempotent: false })
            },
        }
    }

    fn initialize_routing_info(
        &self,
        info: &mut RoutingInfo,
        top: &Topology,
        current_router: usize,
        target_router: usize,
        target_server: Option<usize>,
        rng: &mut StdRng,
    ) -> (r: Result<(), Error>) {
        let mut child0 = RoutingInfo::new();
        child0.source_server = info.source_server;
        let mut child1 = RoutingInfo::new();
        child1.source_server = info.source_server;
        let ghost fresh0 = child0;
        let ghost fresh1 = child1;
        proof {
            assert(is_fresh_with_source(fresh0, old(info).source_server));
            assert(is_fresh_with_source(fresh1, old(info).source_server));
        }
        let random_policy = match self.policy {
            SumRoutingPolicy::Random => true,
            _ => false,
        };
        if random_policy {
            let s = rng_range(rng, 0, 2);
            if s == 0 {
                match self.first_routing.initialize_routing_info(
                    &mut child0,
                    top,
                    current_router,
                    target_router,
                    target_server,
                    rng,
                ) {
                    Ok(u) => {
                        proof {
                            assert(Ok::<(), Error>(u) == Ok::<(), Error>(()));
                        }
                    },
                    Err(e) => {
                        proof {
                            assert(self.first().init_info_ens(
                                *top,
                                fresh0,
                                child0,
                                current_router,
                                target_router,
                                Err(e),
                            ));
                        }
                        return Err(e);
                    },
                }
                info.selections = Selections::Pinned(0);
            } else {
                match self.second_routing.initialize_routing_info(
                    &mut child1,
                    top,
                    current_router,
                    target_router,
                    target_server,
                    rng,
                ) {
                    Ok(u) => {
                        proof {
                            assert(Ok::<(), Error>(u) == Ok::<(), Error>(()));
                        }
                    },
                    Err(e) => {
                        proof {
                            assert(self.second().init_info_ens(
                                *top,
                                fresh1,
                                child1,
                                current_router,
                                target_router,
                                Err(e),
                            ));
                        }
                        return Err(e);
                    },
                }
                info.selections = Selections::Pinned(1);
            }
        } else {
            match self.first_routing.initialize_routing_info(
                &mut child0,
                top,
                current_router,
                target_router,
                target_server,
                rng,
            ) {
                Ok(u) => {
                    proof {
                        assert(Ok::<(), Error>(u) == Ok::<(), Error>(()));
                    }
                },
                Err(e) => {
                    proof {
                        assert(self.first().init_info_ens(
                            *top,
                            fresh0,
                            child0,
                            current_router,
                            target_router,
                            Err(e),
                        ));
                    }
                    return Err(e);
                },
            }
            match self.second_routing.initialize_routing_info(
                &mut child1,
                top,
                current_router,
                target_router,
                target_server,
                rng,
            ) {
                Ok(u) => {
                    proof {
                        assert(Ok::<(), Error>(u) == Ok::<(), Error>(()));
                    }
                },
                Err(e) => {
                    proof {
                        assert(self.second().init_info_ens(
                            *top,
                            fresh1,
                            child1,
                            current_router,
                            target_router,
                            Err(e),
                        ));
                    }
                    return Err(e);
                },
            }
            info.selections = Selections::Open(0, 1);
        }
        info.meta.push(child0);
        info.meta.push(child1);
        proof {
            assert(info.meta@[0] == child0);
            assert(info.meta@[1] == child1);
        }
        Ok(())
    }

    fn update_routing_info(
        &self,
        info: &mut RoutingInfo,
        top: &Topology,
        current_router: usize,
        current_port: usize,
        target_router: usize,
        target_server: Option<usize>,
        rng: &mut StdRng,
    ) -> (r: Result<(), Error>) {
        let ghost prev = *info;
        let (update_first, update_second, sel_phase1): (bool, bool, Selections) = match &info
            .selections {
            Selections::Open(a, b) => (true, true, Selections::Open(*a, *b)),
            Selections::OpenWithRequest(a, b, c) => {
                match self.policy {
                    SumRoutingPolicy::SecondWhenFirstEmpty => (
                        true,
                        true,
                        Selections::OpenWithRequest(*a, *b, *c),
                    ),
                    _ => (*c == 0, *c == 1, Selections::Pinned(*c)),
                }
            },
            Selections::Pinned(s) => (*s == 0, *s == 1, Selections::Pinned(*s)),
            _ => (false, false, Selections::Unset),
        };
        if update_first {
            let mut child = info.meta.remove(0);
            child.hops = child.hops + 1;
            proof {
                assert(child == (RoutingInfo {
                    hops: (prev.meta@[0].hops + 1) as usize,
                    ..prev.meta@[0]
                }));
            }
            let ghost incremented = child;
            let cr = self.first_routing.update_routing_info(
                &mut child,
                top,
                current_router,
                current_port,
                target_router,
                target_server,
                rng,
            );
            info.meta.insert(0, child);
            match cr {
                Ok(u) => {
                    proof {
                        assert(Ok::<(), Error>(u) == Ok::<(), Error>(()));
                        assert(self.first().update_ens(
                            *top,
                            incremented,
                            child,
                            current_router,
                            current_port,
                            target_router,
                            Ok(()),
                        ));
                        assert(info.meta@[0] == child);
                        assert(info.meta@[1] == prev.meta@[1]);
                    }
                },
                Err(e) => {
                    proof {
                        assert(self.first().update_ens(
                            *top,
                            incremented,
                            info.meta@[0],
                            current_router,
                            current_port,
                            target_router,
                            Err(e),
                        ));
                        assert(info.meta@[1] == prev.meta@[1]);
                        assert(info.selections == prev.selections);
                    }
                    return Err(e);
                },
            }
        }
        if update_second {
            let mut child = info.meta.remove(1);
            child.hops = child.hops + 1;
            proof {
                assert(child == (RoutingInfo {
                    hops: (prev.meta@[1].hops + 1) as usize,
                    ..prev.meta@[1]
                }));
            }
            let ghost incremented = child;
            let cr = self.second_routing.update_routing_info(
                &mut child,
                top,
                current_router,
                current_port,
                target_router,
                target_server,
                rng,
            );
            info.meta.insert(1, child);
            match cr {
                Ok(u) => {
                    proof {
                        assert(Ok::<(), Error>(u) == Ok::<(), Error>(()));
                        assert(self.second().update_ens(
                            *top,
                            incremented,
                            child,
                            current_router,
                            current_port,
                            target_router,
                            Ok(()),
                        ));
                        assert(info.meta@[1] == child);
                    }
                },
                Err(e) => {
                    proof {
                        assert(self.second().update_ens(
                            *top,
                            incremented,
                            info.meta@[1],
                            current_router,
                            current_port,
                            target_router,
                            Err(e),
                        ));
                        assert(info.selections == prev.selections);
                    }
                    return Err(e);
                },
            }
        }
        let escape_policy = match self.policy {
            SumRoutingPolicy::EscapeToSecond => true,
            _ => false,
        };
        let head: i32 = match &sel_phase1 {
            Selections::Pinned(s) => *s,
            Selections::Open(a, _) => *a,
            Selections::OpenWithRequest(a, _, _) => *a,
            _ => -1,
        };
        if escape_policy && head == 0 {
            let mut fresh_child = RoutingInfo::new();
            let ghost fresh = fresh_child;
            match self.second_routing.initialize_routing_info(
                &mut fresh_child,
                top,
                current_router,
                target_router,
                target_server,
                rng,
            ) {
                Ok(u) => {
                    let mut old_child = info.meta.remove(1);
                    info.meta.insert(1, fresh_child);
                    info.selections = Selections::Open(0, 1);
                    proof {
                        assert(crate::stubborn::is_fresh_info(fresh));
                        assert(Ok::<(), Error>(u) == Ok::<(), Error>(()));
                        assert(info.meta@[1] == fresh_child);
                    }
                },
                Err(e) => {
                    proof {
                        assert(crate::stubborn::is_fresh_info(fresh));
                        assert(self.second().init_info_ens(
                            *top,
                            fresh,
                            fresh_child,
                            current_router,
                            target_router,
                            Err(e),
                        ));
                        assert(self.escape_reinit(prev.selections));
                        assert(info.selections == prev.selections);
                    }
                    return Err(e);
                },
            }
        } else {
            info.selections = sel_phase1;
        }
        proof {
            assert(info.selections == self.post_update_selections(prev.selections));
            assert(info.meta@.len() == 2);
        }
        Ok(())
    }

    fn performed_request(
        &self,
        requested: &CandidateEgress,
        info: &mut RoutingInfo,
        top: &Topology,
        current_router: usize,
        target_router: usize,
        target_server: Option<usize>,
        num_virtual_channels: usize,
        rng: &mut StdRng,
    ) {
        if requested.annotation.values.len() == 0 {
            return ;
        }
        let (side, sub_annotation) = requested.annotation.popped();
        let double = match info.selections.case() {
            SumRoutingCase::DoubleChoice(_, _) => true,
            SumRoutingCase::SingleChoice(_) => false,
        };
        if double {
            match self.policy {
                SumRoutingPolicy::Stubborn => info.selections.set_single(side),
                SumRoutingPolicy::StubbornWhenSecond => {
                    if side == 1 {
                        info.selections.set_single(1);
                    } else {
                        info.selections.set_request(side);
                    }
                },
                _ => info.selections.set_request(side),
            }
        }
        let sub_requested = CandidateEgress {
            port: requested.port,
            virtual_channel: requested.virtual_channel,
            label: requested.label,
            estimated_remaining_hops: requested.estimated_remaining_hops,
            router_allows: requested.router_allows,
            annotation: sub_annotation,
        };
        proof {
            assert(is_popped_of(*requested, sub_requested));
        }
        if side == 0 {
            let mut child = info.meta.remove(0);
            self.first_routing.performed_request(
                &sub_requested,
                &mut child,
                top,
                current_router,
                target_router,
                target_server,
                self.first_allowed_virtual_channels.len(),
                rng,
            );
            info.meta.insert(0, child);
        } else {
            let mut child = info.meta.remove(1);
            self.second_routing.performed_request(
                &sub_requested,
                &mut child,
                top,
                current_router,
                target_router,
                target_server,
                self.second_allowed_virtual_channels.len(),
                rng,
            );
            info.meta.insert(1, child);
        }
    }

    fn initialize(&mut self, top: &Topology, rng: &mut StdRng) -> (r: Result<(), Error>) {
        let ghost prev_first = self.first_routing;
        let ghost prev_second = self.second_routing;
        match self.first_routing.initialize(top, rng) {
            Ok(u) => {
                proof {
                    assert(Ok::<(), Error>(u) == Ok::<(), Error>(()));
                    assert(self.first_routing.init_ens(prev_first, *top, Ok(())));
                }
            },
            Err(e) => {
                proof {
                    assert(self.first_routing.init_ens(prev_first, *top, Err(e)));
                }
                return Err(e);
            },
        }
        let r = self.second_routing.initialize(top, rng);
        match r {
            Ok(u) => {
                proof {
                    assert(Ok::<(), Error>(u) == Ok::<(), Error>(()));
                    assert(self.second_routing.init_ens(prev_second, *top, Ok(())));
                }
                Ok(())
            },
            Err(e) => {
                proof {
                    assert(self.first_routing.init_ens(prev_first, *top, Ok(())));
                    assert(self.second_routing.init_ens(prev_second, *top, Err(e)));
                }
                Err(e)
            },
        }
    }

    fn statistics(&self, cycle: Time) -> Option<ConfigurationValue> {
        if self.enabled_statistics {
            let mut content: Vec<(String, ConfigurationValue)> = Vec::new();
            if let Some(inner) = self.first_routing.statistics(cycle) {
                content.push(("first_statistics".to_string(), inner));
            }
            if let Some(inner) = self.second_routing.statistics(cycle) {
                content.push(("second_statistics".to_string(), inner));
            }
            Some(ConfigurationValue::Object("SumRoutingStatistics".to_string(), content))
        } else {
            None
        }
    }
}

} // verus!

verus! {

/// Once a performed request reports a side under the `Stubborn` policy, the
/// selection state pins to that side.
pub proof fn lemma_stubborn_policy_pins<A: Routing, B: Routing>(
    routing: SumRouting<A, B>,
    top: Topology,
    prev: RoutingInfo,
    info: RoutingInfo,
    requested: CandidateEgress,
    current: usize,
    target: usize,
    num_vc: usize,
)
    requires
        routing.policy_of() is Stubborn,
        prev.selections is Open || prev.selections is OpenWithRequest,
        requested.annotation.values@.len() > 0,
        routing.performed_ens(top, prev, info, requested, current, target, num_vc),
    ensures
        info.selections == Selections::Pinned(requested.annotation.values@.last()),
{
}

/// A pinned selection survives every realized hop under the `Stubborn`
/// policy.
pub proof fn lemma_pinned_survives_update<A: Routing, B: Routing>(
    routing: SumRouting<A, B>,
    top: Topology,
    prev: RoutingInfo,
    info: RoutingInfo,
    current: usize,
    port: usize,
    target: usize,
    side: i32,
)
    requires
        routing.policy_of() is Stubborn,
        prev.selections == Selections::Pinned(side),
        routing.update_ens(top, prev, info, current, port, target, Ok(())),
    ensures
        info.selections == Selections::Pinned(side),
{
}

/// With the selection pinned to a side, every candidate a decision returns
/// carries that side on top of its annotation stack: the packet keeps to the
/// side it committed to, for all remaining hops.
pub proof fn lemma_pinned_next_single_side<A: Routing, B: Routing>(
    routing: SumRouting<A, B>,
    top: Topology,
    info: RoutingInfo,
    current: usize,
    target: usize,
    num_vc: usize,
    rc: RoutingNextCandidates,
    side: i32,
)
    requires
        info.selections == Selections::Pinned(side),
        side == 0 || side == 1,
        routing.next_ens(top, info, current, target, num_vc, Ok(rc)),
    ensures
        forall|k: int|
            0 <= k < rc.candidates@.len() ==> (#[trigger] rc.candidates@[k]).annotation.values@.len()
                > 0 && rc.candidates@[k].annotation.values@.last() == side,
{
    if side == 0 {
        let irc = choose|irc: RoutingNextCandidates|
            {
                &&& #[trigger] routing.first().next_ens(
                    top,
                    info.meta@[0],
                    current,
                    target,
                    routing.avc0().len() as usize,
                    Ok(irc),
                )
                &&& side_wrapped_candidates(
                    routing.avc0(),
                    routing.el0(),
                    0,
                    irc.candidates@,
                    rc.candidates@,
                )
            };
        assert forall|k: int| 0 <= k < rc.candidates@.len() implies (
        #[trigger] rc.candidates@[k]).annotation.values@.len() > 0
            && rc.candidates@[k].annotation.values@.last() == side by {
            assert(side_wrapped_candidate(
                routing.avc0(),
                routing.el0(),
                0,
                irc.candidates@[k],
                rc.candidates@[k],
            ));
        }
    } else {
        let irc = choose|irc: RoutingNextCandidates|
            {
                &&& #[trigger] routing.second().next_ens(
                    top,
                    info.meta@[1],
                    current,
                    target,
                    routing.avc1().len() as usize,
                    Ok(irc),
                )
                &&& side_wrapped_candidates(
                    routing.avc1(),
                    routing.el1(),
                    1,
                    irc.candidates@,
                    rc.candidates@,
                )
            };
        assert forall|k: int| 0 <= k < rc.candidates@.len() implies (
        #[trigger] rc.candidates@[k]).annotation.values@.len() > 0
            && rc.candidates@[k].annotation.values@.last() == side by {
            assert(side_wrapped_candidate(
                routing.avc1(),
                routing.el1(),
                1,
                irc.candidates@[k],
                rc.candidates@[k],
            ));
        }
    }
}

} // verus!
