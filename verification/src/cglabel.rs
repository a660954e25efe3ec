use vstd::prelude::*;
use rand::rngs::StdRng;
use crate::config::{str_eq, ConfigurationValue, Time};
use crate::errors::Error;
use crate::general_pattern::{GeneralPattern, ManyToManyParam, ManyToManyPattern};
use crate::model::{
    candidates_to_server, vec_contains, CandidateEgress, RoutingInfo, RoutingNextCandidates,
    Selections,
};
use crate::routing::{
    contains_plain_block, is_plain_block, router_port_at, Routing,
};
use crate::model::is_plain_candidate;
use crate::topology::{Location, Topology};

verus! {

/// The schemes that order the links of a complete graph.
#[derive(Clone, Copy, PartialEq, Eq, Structural, Debug)]
pub enum BalanceAlgorithm {
    /// Enumerate pairs `(i, j)` with `i < j` row by row, then pairs with
    /// `i > j`, assigning sequential weights: one global total order.
    RINR,
    /// As `RINR`, but each node's complement pair is weighted first, at the
    /// two ends of the range.
    BRINR,
    /// The closed form `weight(i, j) = port(i, j) * n + (a*i + b*j) mod n`.
    SRINR(usize, usize),
    /// `weight(i, j) = i xor j`; the size must be a power of two.
    XOR,
}

/// Reads a balance algorithm from a configuration object.
pub fn match_balance_algorithm(object: &ConfigurationValue) -> (r: Result<BalanceAlgorithm, Error>)
    ensures
        r matches Ok(alg) ==> object is Object,
        !(object is Object) ==> r == Err::<BalanceAlgorithm, Error>(Error::UnknownName),
        object matches ConfigurationValue::Object(name, _) ==> if name@ == "RINR"@ {
            r == Ok::<BalanceAlgorithm, Error>(BalanceAlgorithm::RINR)
        } else if name@ == "bRINR"@ || name@ == "BRINR"@ {
            r == Ok::<BalanceAlgorithm, Error>(BalanceAlgorithm::BRINR)
        } else if name@ == "sRINR"@ || name@ == "SRINR"@ {
            r matches Ok(alg) && alg is SRINR
        } else if name@ == "XOR"@ {
            r == Ok::<BalanceAlgorithm, Error>(BalanceAlgorithm::XOR)
        } else {
            r == Err::<BalanceAlgorithm, Error>(Error::UnknownName)
        },
{
    if let ConfigurationValue::Object(name, pairs) = object {
        let n = name.as_str();
        if str_eq(n, "RINR") {
            Ok(BalanceAlgorithm::RINR)
        } else if str_eq(n, "bRINR") || str_eq(n, "BRINR") {
            Ok(BalanceAlgorithm::BRINR)
        } else if str_eq(n, "sRINR") || str_eq(n, "SRINR") {
            let mut a: usize = 1;
            let mut b: usize = 1;
            let mut k: usize = 0;
            while k < pairs.len()
                decreases pairs@.len() - k,
            {
                let (key, value) = &pairs[k];
                if str_eq(key.as_str(), "a") {
                    if let ConfigurationValue::Number(v) = value {
                        if *v >= 0 && *v <= 0x7fff_ffffi64 {
                            a = *v as usize;
                        }
                    }
                } else if str_eq(key.as_str(), "b") {
                    if let ConfigurationValue::Number(v) = value {
                        if *v >= 0 && *v <= 0x7fff_ffffi64 {
                            b = *v as usize;
                        }
                    }
                }
                k += 1;
            }
            Ok(BalanceAlgorithm::SRINR(a, b))
        } else if str_eq(n, "XOR") {
            Ok(BalanceAlgorithm::XOR)
        } else {
            Err(Error::UnknownName)
        }
    } else {
        Err(Error::UnknownName)
    }
}

/// The weight of the directed link `(i, j)` in a built matrix.
pub open spec fn wm_at(weights: Vec<Vec<i32>>, i: int, j: int) -> i32 {
    weights@[i]@[j]
}

/// The matrix is `n` by `n`.
pub open spec fn weights_sized(weights: Vec<Vec<i32>>, n: nat) -> bool {
    &&& weights@.len() == n
    &&& forall|i: int| 0 <= i < n ==> (#[trigger] weights@[i])@.len() == n
}

/// `k` is a deadlock-safe intermediate for a non-minimal route from `i` to
/// `j`: the first link's weight is below the second's.
pub open spec fn cg_legal(weights: Vec<Vec<i32>>, i: int, j: int, k: int) -> bool {
    &&& 0 <= k < weights@.len()
    &&& k != i && k != j
    &&& wm_at(weights, i, k) < wm_at(weights, k, j)
}

/// `l` holds exactly the legal intermediates for `(i, j)`.
pub open spec fn intermediates_row_exact(
    weights: Vec<Vec<i32>>,
    i: int,
    j: int,
    l: Seq<usize>,
) -> bool {
    &&& forall|m: int| 0 <= m < l.len() ==> cg_legal(weights, i, j, (#[trigger] l[m]) as int)
    &&& forall|k: int| #[trigger] cg_legal(weights, i, j, k) ==> l.contains(k as usize)
}

/// The whole intermediates table matches the weight matrix.
pub open spec fn intermediates_exact(
    weights: Vec<Vec<i32>>,
    inter: Vec<Vec<Vec<usize>>>,
    n: nat,
) -> bool {
    &&& inter@.len() == n
    &&& forall|i: int| 0 <= i < n ==> (#[trigger] inter@[i])@.len() == n
    &&& forall|i: int, j: int|
        #![trigger inter@[i]@[j]]
        0 <= i < n && 0 <= j < n && i != j ==> intermediates_row_exact(
            weights,
            i,
            j,
            inter@[i]@[j]@,
        )
}

/// Every off-diagonal weight lies in `[0, n*(n-1))`.
pub open spec fn weights_in_range(weights: Vec<Vec<i32>>, n: nat) -> bool {
    forall|i: int, j: int|
        #![trigger wm_at(weights, i, j)]
        0 <= i < n && 0 <= j < n && i != j ==> 0 <= wm_at(weights, i, j) < n * (n - 1)
}

/// No two off-diagonal cells share a weight.
pub open spec fn weights_injective(weights: Vec<Vec<i32>>, n: nat) -> bool {
    forall|i1: int, j1: int, i2: int, j2: int|
        #![trigger wm_at(weights, i1, j1), wm_at(weights, i2, j2)]
        0 <= i1 < n && 0 <= j1 < n && i1 != j1 && 0 <= i2 < n && 0 <= j2 < n && i2 != j2 && !(i1
            == i2 && j1 == j2) ==> wm_at(weights, i1, j1) != wm_at(weights, i2, j2)
}

/// The off-diagonal weights are a permutation of `0 .. n*(n-1)`.
pub open spec fn weights_permutation(weights: Vec<Vec<i32>>, n: nat) -> bool {
    weights_in_range(weights, n) && weights_injective(weights, n)
}

/// `n` is a power of two.
pub open spec fn is_power_of_two(n: usize) -> bool {
    n > 0 && (n & ((n - 1) as usize)) == 0
}

/// How many weights the row-by-row upper-triangle enumeration has assigned
/// before row `i`: row `r` holds `n - 1 - r` pairs.
pub open spec fn rinr_base(n: int, i: int) -> int
    decreases i when i >= 0
{
    if i <= 0 {
        0
    } else {
        rinr_base(n, i - 1) + (n - i)
    }
}

/// The sum of the row lengths `i + 1, ..., n - 1`: how many weights the
/// downward enumeration assigns strictly after row `i`.
pub open spec fn rinr_tail(n: int, i: int) -> int
    decreases n - i when i <= n - 1
{
    if i >= n - 1 {
        0
    } else {
        rinr_tail(n, i + 1) + (i + 1)
    }
}

/// The weight the row-in-numeric-order enumeration gives the directed link
/// `(i, j)`: pairs with `i < j` row by row first, then pairs with `i > j`
/// from the last row upward.
pub open spec fn rinr_weight(n: int, i: int, j: int) -> int {
    if i < j {
        rinr_base(n, i) + (j - i - 1)
    } else {
        rinr_base(n, n) + rinr_tail(n, i) + (i - j - 1)
    }
}

/// The closed-form weight `port(i, j) * n + (a*i + b*j) mod n`.
pub open spec fn srinr_weight(n: int, a: int, b: int, i: int, j: int) -> int {
    ((j - i + n) % n - 1) * n + (a * i + b * j) % n
}

/// The cells the chosen scheme writes: exact values for the enumerated and
/// closed-form orders, sizes only for the complement-anchored one.
pub open spec fn algorithm_cells(
    algorithm: BalanceAlgorithm,
    n: nat,
    w: Vec<Vec<i32>>,
) -> bool {
    match algorithm {
        BalanceAlgorithm::RINR => forall|i: int, j: int|
            #![trigger wm_at(w, i, j)]
            0 <= i < n && 0 <= j < n && i != j ==> wm_at(w, i, j) == rinr_weight(n as int, i, j),
        BalanceAlgorithm::BRINR => true,
        BalanceAlgorithm::SRINR(a, b) => forall|i: int, j: int|
            #![trigger wm_at(w, i, j)]
            0 <= i < n && 0 <= j < n && i != j ==> wm_at(w, i, j) == srinr_weight(
                n as int,
                a as int,
                b as int,
                i,
                j,
            ),
        BalanceAlgorithm::XOR => forall|i: int, j: int|
            #![trigger wm_at(w, i, j)]
            0 <= i < n && 0 <= j < n && i != j ==> wm_at(w, i, j) == ((i as usize) ^ (
            j as usize)) as int,
    }
}

/// Twice the partial row-by-row count, in closed form.
proof fn lemma_rinr_base_closed(n: int, i: int)
    requires
        0 <= i,
    ensures
        2 * rinr_base(n, i) == i * (2 * n - i - 1),
    decreases i,
{
    if i > 0 {
        lemma_rinr_base_closed(n, i - 1);
        assert(rinr_base(n, i) == rinr_base(n, i - 1) + (n - i));
        assert(2 * rinr_base(n, i) == i * (2 * n - i - 1)) by (nonlinear_arith)
            requires
                2 * rinr_base(n, i - 1) == (i - 1) * (2 * n - (i - 1) - 1),
                rinr_base(n, i) == rinr_base(n, i - 1) + (n - i),
        ;
    } else {
        assert(2 * rinr_base(n, i) == i * (2 * n - i - 1)) by (nonlinear_arith)
            requires
                i == 0,
                rinr_base(n, i) == 0,
        ;
    }
}

/// The row-by-row count grows with the row.
proof fn lemma_rinr_base_monotone(n: int, i1: int, i2: int)
    requires
        0 <= i1 <= i2 <= n,
    ensures
        rinr_base(n, i1) <= rinr_base(n, i2),
    decreases i2 - i1,
{
    if i1 < i2 {
        lemma_rinr_base_monotone(n, i1, i2 - 1);
    }
}

/// The downward count shrinks as the row rises.
proof fn lemma_rinr_tail_monotone(n: int, i1: int, i2: int)
    requires
        -1 <= i1 <= i2 <= n - 1,
    ensures
        rinr_tail(n, i2) <= rinr_tail(n, i1),
    decreases i2 - i1,
{
    if i1 < i2 {
        lemma_rinr_tail_monotone(n, i1 + 1, i2);
    }
}

/// Twice the downward count, in closed form.
proof fn lemma_rinr_tail_closed(n: int, i: int)
    requires
        -1 <= i <= n - 1,
    ensures
        2 * rinr_tail(n, i) == (n + i) * (n - 1 - i),
    decreases n - i,
{
    if i < n - 1 {
        lemma_rinr_tail_closed(n, i + 1);
        assert(rinr_tail(n, i) == rinr_tail(n, i + 1) + (i + 1));
        assert(2 * rinr_tail(n, i) == (n + i) * (n - 1 - i)) by (nonlinear_arith)
            requires
                2 * rinr_tail(n, i + 1) == (n + i + 1) * (n - 1 - (i + 1)),
                rinr_tail(n, i) == rinr_tail(n, i + 1) + (i + 1),
        ;
    } else {
        assert((n + i) * (n - 1 - i) == 0) by (nonlinear_arith)
            requires
                i == n - 1,
        ;
    }
}

/// Both enumerations cover the same number of pairs.
proof fn lemma_rinr_halves(n: int)
    requires
        n >= 1,
    ensures
        rinr_tail(n, -1) == rinr_base(n, n),
{
    lemma_rinr_tail_closed(n, -1);
    lemma_rinr_base_closed(n, n);
    assert((n + -1) * (n - 1 - -1) == n * (2 * n - n - 1)) by (nonlinear_arith);
}

/// The enumerated weights are a permutation of `0 .. n*(n-1)`: each
/// off-diagonal weight in range and no two alike.
pub proof fn lemma_rinr_permutation(w: Vec<Vec<i32>>, n: nat)
    requires
        weights_sized(w, n),
        algorithm_cells(BalanceAlgorithm::RINR, n, w),
        n <= 46340,
    ensures
        weights_permutation(w, n),
{
    let ni = n as int;
    assert forall|i: int, j: int|
        #![trigger wm_at(w, i, j)]
        0 <= i < n && 0 <= j < n && i != j implies 0 <= wm_at(w, i, j) < n * (n - 1) by {
        lemma_rinr_weight_range(ni, i, j);
    }
    assert forall|i1: int, j1: int, i2: int, j2: int|
        #![trigger wm_at(w, i1, j1), wm_at(w, i2, j2)]
        0 <= i1 < n && 0 <= j1 < n && i1 != j1 && 0 <= i2 < n && 0 <= j2 < n && i2 != j2 && !(i1
            == i2 && j1 == j2) implies wm_at(w, i1, j1) != wm_at(w, i2, j2) by {
        lemma_rinr_weight_injective(ni, i1, j1, i2, j2);
    }
}

/// Every enumerated weight lies in `[0, n*(n-1))`; the upward pairs fill the
/// lower half, the downward pairs the upper half.
proof fn lemma_rinr_weight_range(n: int, i: int, j: int)
    requires
        0 <= i < n,
        0 <= j < n,
        i != j,
    ensures
        i < j ==> 0 <= rinr_weight(n, i, j) < rinr_base(n, n),
        i > j ==> rinr_base(n, n) <= rinr_weight(n, i, j) < n * (n - 1),
        0 <= rinr_weight(n, i, j) < n * (n - 1),
{
    lemma_rinr_base_closed(n, n);
    assert(n * (2 * n - n - 1) == n * (n - 1)) by (nonlinear_arith);
    if i < j {
        lemma_rinr_base_monotone(n, 0, i);
        assert(rinr_base(n, i + 1) == rinr_base(n, i) + (n - i - 1));
        lemma_rinr_base_monotone(n, i + 1, n);
        assert(rinr_weight(n, i, j) < rinr_base(n, i + 1));
    } else {
        lemma_rinr_tail_monotone(n, i, n - 1);
        lemma_rinr_tail_monotone(n, -1, i - 1);
        assert(rinr_tail(n, i - 1) == rinr_tail(n, i) + i) by {
            lemma_rinr_tail_expand(n, i);
        }
        lemma_rinr_halves(n);
        assert(rinr_weight(n, i, j) < rinr_base(n, n) + rinr_tail(n, i - 1));
        assert(rinr_base(n, n) + rinr_tail(n, -1) == 2 * rinr_base(n, n));
    }
}

/// Unfolding the downward count one row.
proof fn lemma_rinr_tail_expand(n: int, i: int)
    requires
        0 <= i <= n - 1,
    ensures
        rinr_tail(n, i - 1) == rinr_tail(n, i) + i,
{
}

/// Two distinct off-diagonal cells get distinct enumerated weights.
proof fn lemma_rinr_weight_injective(n: int, i1: int, j1: int, i2: int, j2: int)
    requires
        0 <= i1 < n,
        0 <= j1 < n,
        i1 != j1,
        0 <= i2 < n,
        0 <= j2 < n,
        i2 != j2,
        !(i1 == i2 && j1 == j2),
    ensures
        rinr_weight(n, i1, j1) != rinr_weight(n, i2, j2),
{
    lemma_rinr_weight_range(n, i1, j1);
    lemma_rinr_weight_range(n, i2, j2);
    if i1 < j1 && i2 < j2 {
        if i1 == i2 {
        } else if i1 < i2 {
            assert(rinr_weight(n, i1, j1) < rinr_base(n, i1 + 1));
            lemma_rinr_base_monotone(n, i1 + 1, i2);
        } else {
            assert(rinr_weight(n, i2, j2) < rinr_base(n, i2 + 1));
            lemma_rinr_base_monotone(n, i2 + 1, i1);
        }
    } else if i1 > j1 && i2 > j2 {
        if i1 == i2 {
        } else if i1 > i2 {
            assert(rinr_weight(n, i1, j1) < rinr_base(n, n) + rinr_tail(n, i1 - 1)) by {
                lemma_rinr_tail_expand(n, i1);
            }
            lemma_rinr_tail_monotone(n, i2, i1 - 1);
        } else {
            assert(rinr_weight(n, i2, j2) < rinr_base(n, n) + rinr_tail(n, i2 - 1)) by {
                lemma_rinr_tail_expand(n, i2);
            }
            lemma_rinr_tail_monotone(n, i1, i2 - 1);
        }
    }
}

/// Precomputes, once per complete-graph topology, a total order over the
/// directed links and, from it, for every pair of routers the set of legal
/// deadlock-free intermediates for a two-hop route.  At runtime a packet
/// first heads for an intermediate chosen by an external filter, then
/// straight for its target.
pub struct CGLabel<F: ManyToManyPattern> {
    weights: Vec<Vec<i32>>,
    intermediates: Vec<Vec<Vec<usize>>>,
    intermediate_filter: F,
    balance_algorithm: BalanceAlgorithm,
    weight_repetition: bool,
}

impl<F: ManyToManyPattern> CGLabel<F> {
    /// Builds the strategy; the tables are computed by `initialize`.
    pub fn new(
        balance_algorithm: BalanceAlgorithm,
        intermediate_filter: F,
        weight_repetition: bool,
    ) -> (r: CGLabel<F>)
        ensures
            r.algorithm() == balance_algorithm,
            r.filter() == intermediate_filter,
            r.checks_repetition() == weight_repetition,
    {
        CGLabel {
            weights: Vec::new(),
            intermediates: Vec::new(),
            intermediate_filter,
            balance_algorithm,
            weight_repetition,
        }
    }

    pub closed spec fn algorithm(&self) -> BalanceAlgorithm {
        self.balance_algorithm
    }

    pub closed spec fn filter(&self) -> F {
        self.intermediate_filter
    }

    /// Whether `initialize` asserts that every weight is used exactly once.
    pub closed spec fn checks_repetition(&self) -> bool {
        self.weight_repetition
    }

    pub closed spec fn weights_of(&self) -> Vec<Vec<i32>> {
        self.weights
    }

    pub closed spec fn inter_of(&self) -> Vec<Vec<Vec<usize>>> {
        self.intermediates
    }

    /// The legal intermediates recorded for the pair `(i, j)`.
    pub open spec fn inter_at(&self, i: int, j: int) -> Seq<usize> {
        self.inter_of()@[i]@[j]@
    }

    /// The recorded weight of the directed link `(i, j)`.
    pub fn weight(&self, i: usize, j: usize) -> (w: i32)
        requires
            i < self.weights_of()@.len(),
            j < self.weights_of()@[i as int]@.len(),
        ensures
            w == wm_at(self.weights_of(), i as int, j as int),
    {
        self.weights[i][j]
    }

    /// The number of routers the tables were built for.
    pub fn table_size(&self) -> (n: usize)
        ensures
            n == self.weights_of()@.len(),
    {
        self.weights.len()
    }

    /// The legal intermediates recorded for the pair `(i, j)`.
    pub fn intermediates_between(&self, i: usize, j: usize) -> (l: &Vec<usize>)
        requires
            i < self.inter_of()@.len(),
            j < self.inter_of()@[i as int]@.len(),
        ensures
            l@ == self.inter_at(i as int, j as int),
    {
        &self.intermediates[i][j]
    }
}

/// The parameter handed to the intermediate filter for a packet admitted at
/// `current` and bound for `target`, carrying the legal intermediates.
pub open spec fn cg_filter_param(
    p: ManyToManyParam,
    current: usize,
    target: usize,
    list: Seq<usize>,
) -> bool {
    &&& p.origin == Some(current)
    &&& p.current is None
    &&& p.destination == Some(target)
    &&& p.extra is None
    &&& p.list@ == list
}

/// Port `p` of `current` leads to a router of the selection.
pub open spec fn port_to_selected(top: Topology, current: usize, p: int, sel: Seq<usize>) -> bool {
    top.ports_of(current as int)[p] matches Location::RouterPort { router_index, .. }
        && sel.contains(router_index)
}

/// The candidates while heading for an intermediate: every port towards a
/// selected router, on every virtual channel, plain.
/// The candidates come in strictly increasing `(port, virtual channel)`
/// order: blocks are contiguous, ports ascend, and no candidate repeats, so
/// the whole sequence is pinned, not only its set of members.
pub open spec fn lex_sorted_candidates(cands: Seq<CandidateEgress>) -> bool {
    forall|k1: int, k2: int|
        0 <= k1 < k2 < cands.len() ==> ((#[trigger] cands[k1]).port < (#[trigger] cands[k2]).port
            || (cands[k1].port == cands[k2].port && cands[k1].virtual_channel
            < cands[k2].virtual_channel))
}

pub open spec fn cg_middle_ens(
    top: Topology,
    current: usize,
    sel: Seq<usize>,
    num_vc: usize,
    rc: RoutingNextCandidates,
) -> bool {
    &&& rc.idempotent
    &&& forall|k: int|
        0 <= k < rc.candidates@.len() ==> {
            &&& is_plain_candidate(
                #[trigger] rc.candidates@[k],
                rc.candidates@[k].port,
                rc.candidates@[k].virtual_channel,
            )
            &&& router_port_at(top, current, rc.candidates@[k].port as int)
            &&& port_to_selected(top, current, rc.candidates@[k].port as int, sel)
            &&& rc.candidates@[k].virtual_channel < num_vc
        }
    &&& forall|p: int|
        (#[trigger] router_port_at(top, current, p) && port_to_selected(top, current, p, sel))
            ==> contains_plain_block(rc.candidates@, p as usize, num_vc)
    &&& lex_sorted_candidates(rc.candidates@)
}

/// Port `p` is the first port of `current` that leads to router `target`.
pub open spec fn first_port_to_router(top: Topology, current: usize, target: usize, p: int) -> bool {
    &&& 0 <= p < top.ports_of(current as int).len()
    &&& (top.ports_of(current as int)[p] matches Location::RouterPort { router_index, .. }
        && router_index == target)
    &&& forall|q: int|
        0 <= q < p ==> !((#[trigger] top.ports_of(current as int)[q])
            matches Location::RouterPort { router_index, .. } && router_index == target)
}

/// The candidates while heading straight for the target router: the first
/// port that reaches it, on every virtual channel; empty when no port does.
pub open spec fn cg_direct_ens(
    top: Topology,
    current: usize,
    target: usize,
    num_vc: usize,
    rc: RoutingNextCandidates,
) -> bool {
    &&& rc.idempotent
    &&& {
        ||| exists|p: int|
            #[trigger] first_port_to_router(top, current, target, p) && is_plain_block(
                rc.candidates@,
                p as usize,
                num_vc,
            )
        ||| (rc.candidates@.len() == 0 && !exists|p: int|
            first_port_to_router(top, current, target, p))
    }
}

/// With the enumerated order the repetition check always passes: on any
/// complete graph that fits the weight range, initialization is owed
/// success.
pub proof fn lemma_rinr_initialize_succeeds<F: ManyToManyPattern>(
    prev: CGLabel<F>,
    routing: CGLabel<F>,
    top: Topology,
    r: Result<(), Error>,
)
    requires
        routing.init_ens(prev, top, r),
        routing.algorithm() is RINR,
        top.n() <= 46340,
    ensures
        r is Ok,
{
    assert(weights_sized(routing.weights_of(), top.n()));
    assert(algorithm_cells(BalanceAlgorithm::RINR, top.n(), routing.weights_of()));
    lemma_rinr_permutation(routing.weights_of(), top.n());
}

/// Cells with a value so far: the upper-triangle enumeration has filled the
/// rows before `i` and `count` cells of row `i`; everything else still holds
/// the diagonal sentinel.
pub open spec fn rinr_upper_state(w: Vec<Vec<i32>>, n: int, i: int, count: int) -> bool {
    forall|a: int, b: int|
        #![trigger wm_at(w, a, b)]
        0 <= a < n && 0 <= b < n ==> (wm_at(w, a, b) as int) == if a < b && (a < i || (a == i && b
            < a + 1 + count)) {
            rinr_weight(n, a, b)
        } else {
            0x7fff_ffff
        }
}

/// The upper triangle is complete and the downward enumeration has filled
/// the rows above `i` and `count` cells of row `i`.
pub open spec fn rinr_lower_state(w: Vec<Vec<i32>>, n: int, i: int, count: int) -> bool {
    forall|a: int, b: int|
        #![trigger wm_at(w, a, b)]
        0 <= a < n && 0 <= b < n ==> (wm_at(w, a, b) as int) == if a < b {
            rinr_weight(n, a, b)
        } else if a > b && (a > i || (a == i && b > a - 1 - count)) {
            rinr_weight(n, a, b)
        } else {
            0x7fff_ffff
        }
}

/// The closed-form cells written so far, row-major with the diagonal
/// skipped.
pub open spec fn closed_form_state(
    algorithm: BalanceAlgorithm,
    w: Vec<Vec<i32>>,
    n: int,
    i: int,
    j: int,
    cell: spec_fn(int, int) -> int,
) -> bool {
    forall|a: int, b: int|
        #![trigger wm_at(w, a, b)]
        0 <= a < n && 0 <= b < n ==> (wm_at(w, a, b) as int) == if a != b && (a < i || (a == i && b
            < j)) {
            cell(a, b)
        } else {
            0x7fff_ffff
        }
}

/// Builds the weight matrix of the chosen scheme; the diagonal keeps the
/// largest weight, so a router is never its own intermediate.  The
/// enumerated and closed-form schemes are pinned cell for cell.
#[verifier::loop_isolation(false)]
fn build_weight_matrix(algorithm: BalanceAlgorithm, n: usize) -> (r: Result<Vec<Vec<i32>>, Error>)
    requires
        n <= 46340,
    ensures
        r matches Ok(w) ==> weights_sized(w, n as nat) && algorithm_cells(algorithm, n as nat, w),
        (algorithm is XOR && n > 0 && !is_power_of_two(n)) ==> r == Err::<Vec<Vec<i32>>, Error>(
            Error::NotPowerOfTwo { size: n },
        ),
        !(algorithm is XOR && n > 0 && !is_power_of_two(n)) ==> r is Ok,
{
    let ghost ni = n as int;
    let mut w: Vec<Vec<i32>> = vec![vec![0x7fff_ffffi32; n]; n];
    proof {
        assert(n * (n - 1) <= 46340 * 46339) by (nonlinear_arith)
            requires
                n <= 46340,
        ;
        lemma_rinr_base_closed(ni, ni);
        assert(2 * rinr_base(ni, ni) == ni * (ni - 1)) by (nonlinear_arith)
            requires
                2 * rinr_base(ni, ni) == ni * (2 * ni - ni - 1),
        ;
    }
    match algorithm {
        BalanceAlgorithm::RINR => {
            let mut order: usize = 0;
            let mut i: usize = 0;
            while i < n
                invariant
                    i <= n,
                    order == rinr_base(ni, i as int),
                    weights_sized(w, n as nat),
                    rinr_upper_state(w, ni, i as int, 0),
                decreases n - i,
            {
                let mut j: usize = 0;
                proof {
                    lemma_rinr_base_monotone(ni, i as int, ni);
                }
                while j < n - 1 - i
                    invariant
                        i < n,
                        j <= n - 1 - i,
                        order == rinr_base(ni, i as int) + j,
                        weights_sized(w, n as nat),
                        rinr_upper_state(w, ni, i as int, j as int),
                    decreases n - 1 - i - j,
                {
                    proof {
                        lemma_rinr_base_monotone(ni, i as int + 1, ni);
                        assert(rinr_base(ni, i as int + 1) == rinr_base(ni, i as int) + (ni - i
                            - 1));
                        assert(order < rinr_base(ni, ni));
                    }
                    let ghost w_before = w;
                    w[i][i + j + 1] = order as i32;
                    proof {
                        assert(rinr_weight(ni, i as int, i as int + j + 1) == order);
                        assert forall|a: int, b: int|
                            #![trigger wm_at(w, a, b)]
                            0 <= a < ni && 0 <= b < ni implies (wm_at(w, a, b) as int) == if a < b
                            && (a < i as int || (a == i as int && b < a + 1 + (j + 1))) {
                            rinr_weight(ni, a, b)
                        } else {
                            0x7fff_ffff
                        } by {
                            if !(a == i as int && b == i as int + j + 1) {
                                assert(wm_at(w, a, b) == wm_at(w_before, a, b));
                            }
                        }
                    }
                    order += 1;
                    j += 1;
                }
                proof {
                    assert(order == rinr_base(ni, i as int + 1));
                }
                i += 1;
            }
            // Then the pairs below the diagonal, from the last row upward.
            let mut back: usize = 0;
            while back < n
                invariant
                    back <= n,
                    order == rinr_base(ni, ni) + rinr_tail(ni, ni - 1 - back),
                    weights_sized(w, n as nat),
                    rinr_lower_state(w, ni, ni - 1 - back, 0),
                decreases n - back,
            {
                let i = n - 1 - back;
                let mut j: usize = 0;
                proof {
                    lemma_rinr_tail_monotone(ni, -1, i as int);
                    lemma_rinr_tail_closed(ni, -1);
                    assert(rinr_tail(ni, -1) <= rinr_base(ni, ni)) by (nonlinear_arith)
                        requires
                            2 * rinr_tail(ni, -1) == (ni + -1) * (ni - 1 - -1),
                            2 * rinr_base(ni, ni) == ni * (ni - 1),
                    ;
                }
                while j < i
                    invariant
                        back < n,
                        i == n - 1 - back,
                        j <= i,
                        order == rinr_base(ni, ni) + rinr_tail(ni, i as int) + j,
                        weights_sized(w, n as nat),
                        rinr_lower_state(w, ni, i as int, j as int),
                    decreases i - j,
                {
                    proof {
                        assert(rinr_tail(ni, i as int - 1) == rinr_tail(ni, i as int) + i);
                        lemma_rinr_tail_monotone(ni, -1, i as int - 1);
                        assert(order < rinr_base(ni, ni) + rinr_tail(ni, -1));
                    }
                    let ghost w_before = w;
                    w[i][i - j - 1] = order as i32;
                    proof {
                        assert(rinr_weight(ni, i as int, i as int - j - 1) == order);
                        assert forall|a: int, b: int|
                            #![trigger wm_at(w, a, b)]
                            0 <= a < ni && 0 <= b < ni implies (wm_at(w, a, b) as int) == if a < b {
                            rinr_weight(ni, a, b)
                        } else if a > b && (a > i as int || (a == i as int && b > a - 1 - (j
                            + 1))) {
                            rinr_weight(ni, a, b)
                        } else {
                            0x7fff_ffff
                        } by {
                            if !(a == i as int && b == i as int - j - 1) {
                                assert(wm_at(w, a, b) == wm_at(w_before, a, b));
                            }
                        }
                    }
                    order += 1;
                    j += 1;
                }
                proof {
                    assert(rinr_tail(ni, i as int - 1) == rinr_tail(ni, i as int) + i);
                }
                back += 1;
            }
        },
        BalanceAlgorithm::BRINR => {
            brinr_fill(&mut w, n);
        },
        BalanceAlgorithm::SRINR(a, b) => {
            let ghost cell = |x: int, y: int| srinr_weight(ni, a as int, b as int, x, y);
            let mut i: usize = 0;
            while i < n
                invariant
                    i <= n,
                    weights_sized(w, n as nat),
                    closed_form_state(algorithm, w, ni, i as int, 0, cell),
                decreases n - i,
            {
                let mut j: usize = 0;
                while j < n
                    invariant
                        i < n,
                        j <= n,
                        weights_sized(w, n as nat),
                        closed_form_state(algorithm, w, ni, i as int, j as int, cell),
                    decreases n - j,
                {
                    if i != j {
                        let port = if j > i {
                            j - i - 1
                        } else {
                            j + n - i - 1
                        };
                        proof {
                            vstd::arithmetic::div_mod::lemma_mod_multiples_vanish(
                                1,
                                j as int - i as int,
                                ni,
                            );
                            if j > i {
                                vstd::arithmetic::div_mod::lemma_small_mod(
                                    (j - i) as nat,
                                    n as nat,
                                );
                            } else {
                                vstd::arithmetic::div_mod::lemma_small_mod(
                                    (j + n - i) as nat,
                                    n as nat,
                                );
                                vstd::arithmetic::div_mod::lemma_mod_multiples_vanish(
                                    0,
                                    j as int - i as int + ni,
                                    ni,
                                );
                            }
                            assert(port as int == (j as int - i as int + ni) % ni - 1);
                            assert((a % n) * i <= 46340 * 46340) by (nonlinear_arith)
                                requires
                                    a % n < n,
                                    i < n,
                                    n <= 46340,
                            ;
                            assert((b % n) * j <= 46340 * 46340) by (nonlinear_arith)
                                requires
                                    b % n < n,
                                    j < n,
                                    n <= 46340,
                            ;
                        }
                        let test = ((a % n) * i % n + (b % n) * j % n) % n;
                        proof {
                            vstd::arithmetic::div_mod::lemma_mul_mod_noop_left(
                                a as int,
                                i as int,
                                ni,
                            );
                            vstd::arithmetic::div_mod::lemma_mul_mod_noop_left(
                                b as int,
                                j as int,
                                ni,
                            );
                            vstd::arithmetic::div_mod::lemma_add_mod_noop(
                                a as int * i as int,
                                b as int * j as int,
                                ni,
                            );
                            assert(test as int == (a as int * i as int + b as int * j as int)
                                % ni);
                            assert(port * n <= 46340 * 46340) by (nonlinear_arith)
                                requires
                                    port < n,
                                    n <= 46340,
                            ;
                            assert(port * n + test < 0x8000_0000) by (nonlinear_arith)
                                requires
                                    port * n <= 46340 * 46340,
                                    test < n,
                                    n <= 46340,
                            ;
                        }
                        let ghost w_before = w;
                        let value = port * n + test;
                        w[i][j] = value as i32;
                        proof {
                            assert(value as int == cell(i as int, j as int)) by (nonlinear_arith)
                                requires
                                    value == port * n + test,
                                    port as int == (j as int - i as int + ni) % ni - 1,
                                    test as int == (a as int * i as int + b as int * j as int)
                                        % ni,
                                    cell(i as int, j as int) == ((j as int - i as int + ni) % ni
                                        - 1) * ni + (a as int * i as int + b as int * j as int)
                                        % ni,
                                    n == ni,
                            ;
                            assert forall|x: int, y: int|
                                #![trigger wm_at(w, x, y)]
                                0 <= x < ni && 0 <= y < ni implies (wm_at(w, x, y) as int) == if x
                                != y && (x < i as int || (x == i as int && y < j + 1)) {
                                cell(x, y)
                            } else {
                                0x7fff_ffff
                            } by {
                                if !(x == i as int && y == j as int) {
                                    assert(wm_at(w, x, y) == wm_at(w_before, x, y));
                                }
                            }
                        }
                    }
                    j += 1;
                }
                i += 1;
            }
        },
        BalanceAlgorithm::XOR => {
            if n > 0 && (n & (n - 1)) != 0 {
                return Err(Error::NotPowerOfTwo { size: n });
            }
            let ghost cell = |x: int, y: int| ((x as usize) ^ (y as usize)) as int;
            let mut i: usize = 0;
            while i < n
                invariant
                    i <= n,
                    n > 0 ==> (n & ((n - 1) as usize)) == 0,
                    weights_sized(w, n as nat),
                    closed_form_state(algorithm, w, ni, i as int, 0, cell),
                decreases n - i,
            {
                let mut j: usize = 0;
                while j < n
                    invariant
                        i < n,
                        j <= n,
                        n > 0 ==> (n & ((n - 1) as usize)) == 0,
                        weights_sized(w, n as nat),
                        closed_form_state(algorithm, w, ni, i as int, j as int, cell),
                    decreases n - j,
                {
                    if i != j {
                        let value = i ^ j;
                        proof {
                            assert(value < n) by (bit_vector)
                                requires
                                    value == i ^ j,
                                    i < n,
                                    j < n,
                                    n > 0,
                                    n & ((n - 1) as usize) == 0,
                            ;
                        }
                        let ghost w_before = w;
                        w[i][j] = value as i32;
                        proof {
                            assert forall|x: int, y: int|
                                #![trigger wm_at(w, x, y)]
                                0 <= x < ni && 0 <= y < ni implies (wm_at(w, x, y) as int) == if x
                                != y && (x < i as int || (x == i as int && y < j + 1)) {
                                cell(x, y)
                            } else {
                                0x7fff_ffff
                            } by {
                                if !(x == i as int && y == j as int) {
                                    assert(wm_at(w, x, y) == wm_at(w_before, x, y));
                                }
                            }
                        }
                    }
                    j += 1;
                }
                i += 1;
            }
        },
    }
    Ok(w)
}

/// Fills the complement-anchored order: each node's complement pair gets an
/// end of the range first, the remaining pairs follow the enumerated order,
/// skipping the pre-assigned complements.
#[verifier::loop_isolation(false)]
fn brinr_fill(w: &mut Vec<Vec<i32>>, n: usize)
    requires
        weights_sized(*old(w), n as nat),
        n <= 46340,
    ensures
        weights_sized(*final(w), n as nat),
{
    if n == 0 {
        return ;
    }
    let mut order: i64 = 0;
    let half = (n - 1) / 2;
    proof {
        assert(n * (n - 1) <= 46340 * 46339) by (nonlinear_arith)
            requires
                n <= 46340,
        ;
        assert(n * (n - 1) >= n - 1) by (nonlinear_arith)
            requires
                n >= 1,
        ;
    }
    let mut i: usize = 0;
    while i < half
        invariant
            half < n,
            weights_sized(*w, n as nat),
        decreases half - i,
    {
        let i_comp = n - i - 1;
        w[i][i_comp] = #[verifier::truncate] ((n * (n - 1) - i - 1) as i32);
        i += 1;
    }
    let mut i: usize = 0;
    while i < half
        invariant
            half < n,
            weights_sized(*w, n as nat),
        decreases half - i,
    {
        let i_comp = n - i - 1;
        w[i_comp][i] = #[verifier::truncate] (i as i32);
        if order < 0x7fff_ffff_ffff_ffffi64 {
            order = order + 1;
        }
        i += 1;
    }
    let mut i: usize = 0;
    while i < n
        invariant
            weights_sized(*w, n as nat),
        decreases n - i,
    {
        let mut j: usize = 0;
        while j < n - 1 - i
            invariant
                i < n,
                weights_sized(*w, n as nat),
            decreases n - 1 - i - j,
        {
            if !(i + j + 1 == n - i - 1 && i < half) {
                w[i][i + j + 1] = #[verifier::truncate] (order as i32);
                if order < 0x7fff_ffff_ffff_ffffi64 {
                    order = order + 1;
                }
            }
            j += 1;
        }
        i += 1;
    }
    let mut back: usize = 0;
    while back < n
        invariant
            weights_sized(*w, n as nat),
        decreases n - back,
    {
        let i = n - 1 - back;
        let mut j: usize = 0;
        while j < i
            invariant
                i < n,
                weights_sized(*w, n as nat),
            decreases i - j,
        {
            let c = i - j - 1;
            if !(c == n - i - 1 && n - i - 1 < half) {
                w[i][c] = #[verifier::truncate] (order as i32);
                if order < 0x7fff_ffff_ffff_ffffi64 {
                    order = order + 1;
                }
            }
            j += 1;
        }
        back += 1;
    }
}

/// A cell `(a, b)` comes strictly before `(i, j)` in row-major order.
pub open spec fn cell_before(a: int, b: int, i: int, j: int) -> bool {
    a < i || (a == i && b < j)
}

/// Checks that the off-diagonal weights are a permutation of `0 .. n*(n-1)`:
/// succeeds exactly when every weight is in range and none repeats.
#[verifier::loop_isolation(false)]
fn check_weights_permutation(w: &Vec<Vec<i32>>, n: usize) -> (r: Result<(), Error>)
    requires
        weights_sized(*w, n as nat),
        n <= 46340,
    ensures
        r is Ok <==> weights_permutation(*w, n as nat),
{
    proof {
        assert(n * (n - 1) <= 46340 * 46339) by (nonlinear_arith)
            requires
                n <= 46340,
        ;
    }
    if n == 0 {
        return Ok(());
    }
    let total = n * (n - 1);
    let mut used: Vec<bool> = vec![false; total];
    let mut i: usize = 0;
    while i < n
        invariant
            i <= n,
            used@.len() == total,
            total == n * (n - 1),
            forall|a: int, b: int|
                #![trigger wm_at(*w, a, b)]
                0 <= a < n && 0 <= b < n && a != b && cell_before(a, b, i as int, 0) ==> 0 <= wm_at(
                    *w,
                    a,
                    b,
                ) < total && used@[wm_at(*w, a, b) as int],
            forall|v: int|
                0 <= v < total && #[trigger] used@[v] ==> exists|a: int, b: int|
                    0 <= a < n && 0 <= b < n && a != b && cell_before(a, b, i as int, 0)
                        && wm_at(*w, a, b) == v,
            forall|a1: int, b1: int, a2: int, b2: int|
                #![trigger wm_at(*w, a1, b1), wm_at(*w, a2, b2)]
                0 <= a1 < n && 0 <= b1 < n && a1 != b1 && 0 <= a2 < n && 0 <= b2 < n && a2 != b2
                    && cell_before(a1, b1, i as int, 0) && cell_before(a2, b2, i as int, 0) && !(a1
                    == a2 && b1 == b2) ==> wm_at(*w, a1, b1) != wm_at(*w, a2, b2),
        decreases n - i,
    {
        let mut j: usize = 0;
        while j < n
            invariant
                i < n,
                j <= n,
                used@.len() == total,
                forall|a: int, b: int|
                    #![trigger wm_at(*w, a, b)]
                    0 <= a < n && 0 <= b < n && a != b && cell_before(a, b, i as int, j as int)
                        ==> 0 <= wm_at(*w, a, b) < total && used@[wm_at(*w, a, b) as int],
                forall|v: int|
                    0 <= v < total && #[trigger] used@[v] ==> exists|a: int, b: int|
                        0 <= a < n && 0 <= b < n && a != b && cell_before(a, b, i as int, j as int)
                            && wm_at(*w, a, b) == v,
                forall|a1: int, b1: int, a2: int, b2: int|
                    #![trigger wm_at(*w, a1, b1), wm_at(*w, a2, b2)]
                    0 <= a1 < n && 0 <= b1 < n && a1 != b1 && 0 <= a2 < n && 0 <= b2 < n && a2
                        != b2 && cell_before(a1, b1, i as int, j as int) && cell_before(
                        a2,
                        b2,
                        i as int,
                        j as int,
                    ) && !(a1 == a2 && b1 == b2) ==> wm_at(*w, a1, b1) != wm_at(*w, a2, b2),
            decreases n - j,
        {
            if i != j {
                let weight = w[i][j];
                if weight < 0 || weight >= total as i32 {
                    proof {
                        assert(total < 0x8000_0000);
                        assert(!(0 <= wm_at(*w, i as int, j as int) < n as nat * (n as nat - 1)));
                    }
                    return Err(Error::WeightOutOfRange { origin: i, destination: j });
                }
                if used[weight as usize] {
                    proof {
                        let (a, b) = choose|a: int, b: int|
                            0 <= a < n && 0 <= b < n && a != b && cell_before(
                                a,
                                b,
                                i as int,
                                j as int,
                            ) && wm_at(*w, a, b) == weight as int;
                        assert(wm_at(*w, a, b) == wm_at(*w, i as int, j as int));
                        assert(!weights_injective(*w, n as nat));
                    }
                    return Err(Error::WeightRepeated { origin: i, destination: j });
                }
                used[weight as usize] = true;
                let ghost wij = wm_at(*w, i as int, j as int);
                proof {
                    assert forall|v: int| 0 <= v < total && #[trigger] used@[v] implies exists|
                        a: int,
                        b: int,
                    |
                        0 <= a < n && 0 <= b < n && a != b && cell_before(a, b, i as int, j + 1)
                            && wm_at(*w, a, b) == v by {
                        if v == wij {
                            assert(cell_before(i as int, j as int, i as int, j + 1));
                            assert(wm_at(*w, i as int, j as int) == v);
                        } else {
                            let (a, b) = choose|a: int, b: int|
                                0 <= a < n && 0 <= b < n && a != b && cell_before(
                                    a,
                                    b,
                                    i as int,
                                    j as int,
                                ) && wm_at(*w, a, b) == v;
                            assert(cell_before(a, b, i as int, j + 1) && wm_at(*w, a, b) == v);
                        }
                    }
                }
            } else {
                proof {
                    assert forall|v: int| 0 <= v < total && #[trigger] used@[v] implies exists|
                        a: int,
                        b: int,
                    |
                        0 <= a < n && 0 <= b < n && a != b && cell_before(a, b, i as int, j + 1)
                            && wm_at(*w, a, b) == v by {
                        let (a, b) = choose|a: int, b: int|
                            0 <= a < n && 0 <= b < n && a != b && cell_before(
                                a,
                                b,
                                i as int,
                                j as int,
                            ) && wm_at(*w, a, b) == v;
                        assert(cell_before(a, b, i as int, j + 1) && wm_at(*w, a, b) == v);
                    }
                }
            }
            j += 1;
        }
        proof {
            assert forall|v: int| 0 <= v < total && #[trigger] used@[v] implies exists|
                a: int,
                b: int,
            |
                0 <= a < n && 0 <= b < n && a != b && cell_before(a, b, i + 1, 0) && wm_at(
                    *w,
                    a,
                    b,
                ) == v by {
                let (a, b) = choose|a: int, b: int|
                    0 <= a < n && 0 <= b < n && a != b && cell_before(a, b, i as int, n as int)
                        && wm_at(*w, a, b) == v;
                assert(cell_before(a, b, i + 1, 0) && wm_at(*w, a, b) == v);
            }
        }
        i += 1;
    }
    Ok(())
}

/// Builds, for every ordered pair, the list of legal intermediates from the
/// weight matrix.
#[verifier::loop_isolation(false)]
fn build_intermediates(w: &Vec<Vec<i32>>, n: usize) -> (r: Vec<Vec<Vec<usize>>>)
    requires
        weights_sized(*w, n as nat),
    ensures
        intermediates_exact(*w, r, n as nat),
{
    let mut result: Vec<Vec<Vec<usize>>> = Vec::new();
    let mut i: usize = 0;
    while i < n
        invariant
            i <= n,
            result@.len() == i,
            forall|a: int| 0 <= a < i ==> (#[trigger] result@[a])@.len() == n,
            forall|a: int, b: int|
                #![trigger result@[a]@[b]]
                0 <= a < i && 0 <= b < n && a != b ==> intermediates_row_exact(
                    *w,
                    a,
                    b,
                    result@[a]@[b]@,
                ),
        decreases n - i,
    {
        let mut row: Vec<Vec<usize>> = Vec::new();
        let mut j: usize = 0;
        while j < n
            invariant
                i < n,
                j <= n,
                row@.len() == j,
                forall|b: int|
                    #![trigger row@[b]]
                    0 <= b < j && i as int != b ==> intermediates_row_exact(
                        *w,
                        i as int,
                        b,
                        row@[b]@,
                    ),
            decreases n - j,
        {
            let mut l: Vec<usize> = Vec::new();
            if i != j {
                let mut k: usize = 0;
                while k < n
                    invariant
                        i < n,
                        j < n,
                        i != j,
                        k <= n,
                        forall|m: int|
                            0 <= m < l@.len() ==> cg_legal(*w, i as int, j as int, (#[trigger] l@[m]) as int),
                        forall|kk: int|
                            #[trigger] cg_legal(*w, i as int, j as int, kk) && kk < k ==> l@.contains(
                                kk as usize,
                            ),
                    decreases n - k,
                {
                    let ghost before = l@;
                    if k != i && k != j {
                        if w[i][k] < w[k][j] {
                            l.push(k);
                        }
                    }
                    proof {
                        assert forall|kk: int|
                            #[trigger] cg_legal(*w, i as int, j as int, kk) && kk < k
                                + 1 implies l@.contains(kk as usize) by {
                            if kk < k as int {
                                let m = choose|m: int|
                                    0 <= m < before.len() && before[m] == kk as usize;
                                assert(l@[m] == kk as usize);
                            } else {
                                assert(l@.last() == kk as usize);
                            }
                        }
                    }
                    k += 1;
                }
                proof {
                    assert(intermediates_row_exact(*w, i as int, j as int, l@));
                }
            }
            row.push(l);
            j += 1;
        }
        result.push(row);
        i += 1;
    }
    result
}

impl<F: ManyToManyPattern> Routing for CGLabel<F> {
    open spec fn wf(&self) -> bool {
        forall|p: ManyToManyParam|
            (p.origin is Some && p.destination is Some && p.current is None && p.extra is None)
                ==> #[trigger] self.filter().req(p)
    }

    open spec fn initialized(&self, top: Topology) -> bool {
        &&& weights_sized(self.weights_of(), top.n())
        &&& intermediates_exact(self.weights_of(), self.inter_of(), top.n())
    }

    open spec fn info_ok(
        &self,
        top: Topology,
        info: RoutingInfo,
        current: usize,
        target: usize,
        num_vc: usize,
    ) -> bool {
        info.selections is IntermediateSet || info.selections is Direct
    }

    open spec fn next_req(&self, top: Topology, num_vc: usize) -> bool {
        true
    }

    open spec fn next_ens(
        &self,
        top: Topology,
        info: RoutingInfo,
        current: usize,
        target: usize,
        num_vc: usize,
        r: Result<RoutingNextCandidates, Error>,
    ) -> bool {
        match info.selections {
            Selections::IntermediateSet(sel) => r matches Ok(rc) && cg_middle_ens(
                top,
                current,
                sel@,
                num_vc,
                rc,
            ),
            Selections::Direct => r matches Ok(rc) && cg_direct_ens(top, current, target, num_vc, rc),
            _ => true,
        }
    }

    open spec fn init_info_ens(
        &self,
        top: Topology,
        prev: RoutingInfo,
        info: RoutingInfo,
        current: usize,
        target: usize,
        r: Result<(), Error>,
    ) -> bool {
        &&& r is Ok
        &&& info.hops == prev.hops
        &&& info.source_server == prev.source_server
        &&& info.visited_routers == prev.visited_routers
        &&& info.meta == prev.meta
        &&& (info.selections matches Selections::IntermediateSet(sel) && exists|
            p: ManyToManyParam,
        |
            #[trigger] cg_filter_param(p, current, target, self.inter_at(current as int, target as int))
                && self.filter().ens(p, sel))
    }

    open spec fn update_req(
        &self,
        top: Topology,
        info: RoutingInfo,
        current: usize,
        port: usize,
        target: usize,
    ) -> bool {
        info.selections is IntermediateSet || info.selections is Direct
    }

    open spec fn update_ens(
        &self,
        top: Topology,
        prev: RoutingInfo,
        info: RoutingInfo,
        current: usize,
        port: usize,
        target: usize,
        r: Result<(), Error>,
    ) -> bool {
        &&& info.hops == prev.hops
        &&& info.source_server == prev.source_server
        &&& info.visited_routers == prev.visited_routers
        &&& info.meta == prev.meta
        &&& match prev.selections {
            Selections::IntermediateSet(sel) => {
                if sel@.contains(current) {
                    r is Ok && info.selections is Direct
                } else {
                    r == Err::<(), Error>(Error::SelectionMismatch { current_router: current })
                        && info.selections == prev.selections
                }
            },
            _ => r is Ok && info.selections == prev.selections,
        }
    }

    open spec fn performed_req(
        &self,
        top: Topology,
        info: RoutingInfo,
        requested: CandidateEgress,
        current: usize,
        target: usize,
        num_vc: usize,
    ) -> bool {
        true
    }

    open spec fn performed_ens(
        &self,
        top: Topology,
        prev: RoutingInfo,
        info: RoutingInfo,
        requested: CandidateEgress,
        current: usize,
        target: usize,
        num_vc: usize,
    ) -> bool {
        info == prev
    }

    open spec fn init_ens(&self, prev: Self, top: Topology, r: Result<(), Error>) -> bool {
        &&& self.algorithm() == prev.algorithm()
        &&& self.filter() == prev.filter()
        &&& self.checks_repetition() == prev.checks_repetition()
        &&& (r is Ok <==> (top.n() <= 46340 && !(self.algorithm() is XOR && top.n() > 0
            && !is_power_of_two(top.n() as usize)) && (self.checks_repetition()
            ==> weights_permutation(self.weights_of(), top.n()))))
        &&& (top.n() <= 46340 && !(self.algorithm() is XOR && top.n() > 0 && !is_power_of_two(
            top.n() as usize,
        ))) ==> {
            &&& weights_sized(self.weights_of(), top.n())
            &&& algorithm_cells(self.algorithm(), top.n(), self.weights_of())
            &&& intermediates_exact(self.weights_of(), self.inter_of(), top.n())
        }
    }


    #[verifier::loop_isolation(false)]
    fn next(
        &self,
        info: &RoutingInfo,
        top: &Topology,
        current_router: usize,
        target_router: usize,
        target_server: Option<usize>,
        num_virtual_channels: usize,
        rng: &mut StdRng,
    ) -> (r: Result<RoutingNextCandidates, Error>) {
        if current_router == target_router {
            return candidates_to_server(
                top,
                current_router,
                target_server.unwrap(),
                num_virtual_channels,
            );
        }
        match &info.selections {
            Selections::IntermediateSet(sel) => {
                let num_ports = top.ports(current_router);
                let mut candidates: Vec<CandidateEgress> = Vec::new();
                let mut p: usize = 0;
                while p < num_ports
                    invariant
                        p <= num_ports,
                        forall|k: int|
                            0 <= k < candidates@.len() ==> {
                                &&& is_plain_candidate(
                                    #[trigger] candidates@[k],
                                    candidates@[k].port,
                                    candidates@[k].virtual_channel,
                                )
                                &&& router_port_at(*top, current_router, candidates@[k].port as int)
                                &&& port_to_selected(
                                    *top,
                                    current_router,
                                    candidates@[k].port as int,
                                    sel@,
                                )
                                &&& candidates@[k].virtual_channel < num_virtual_channels
                            },
                        forall|q: int|
                            (#[trigger] router_port_at(*top, current_router, q) && port_to_selected(
                                *top,
                                current_router,
                                q,
                                sel@,
                            ) && q < p) ==> contains_plain_block(
                                candidates@,
                                q as usize,
                                num_virtual_channels,
                            ),
                        lex_sorted_candidates(candidates@),
                        forall|k: int|
                            0 <= k < candidates@.len() ==> ((#[trigger] candidates@[k]).port as int)
                                < p,
                    decreases num_ports - p,
                {
                    let ghost before = candidates@;
                    match top.neighbour(current_router, p) {
                        Location::RouterPort { router_index, router_port: _ } => {
                            if vec_contains(sel, router_index) {
                                let mut vc: usize = 0;
                                while vc < num_virtual_channels
                                    invariant
                                        vc <= num_virtual_channels,
                                        candidates@.len() == before.len() + vc,
                                        forall|k: int|
                                            0 <= k < before.len() ==> candidates@[k] == before[k],
                                        forall|k: int|
                                            before.len() <= k < candidates@.len()
                                                ==> is_plain_candidate(
                                                #[trigger] candidates@[k],
                                                p,
                                                (k - before.len()) as usize,
                                            ),
                                        lex_sorted_candidates(before),
                                        forall|k: int|
                                            0 <= k < before.len() ==> ((#[trigger] before[k]).port
                                                as int) < p,
                                        forall|k: int|
                                            0 <= k < before.len() ==> {
                                                &&& is_plain_candidate(
                                                    #[trigger] before[k],
                                                    before[k].port,
                                                    before[k].virtual_channel,
                                                )
                                                &&& router_port_at(
                                                    *top,
                                                    current_router,
                                                    before[k].port as int,
                                                )
                                                &&& port_to_selected(
                                                    *top,
                                                    current_router,
                                                    before[k].port as int,
                                                    sel@,
                                                )
                                                &&& before[k].virtual_channel
                                                    < num_virtual_channels
                                            },
                                    decreases num_virtual_channels - vc,
                                {
                                    candidates.push(CandidateEgress::new(p, vc));
                                    vc += 1;
                                }
                                proof {
                                    assert(is_plain_block(
                                        candidates@.subrange(
                                            before.len() as int,
                                            before.len() + num_virtual_channels,
                                        ),
                                        p,
                                        num_virtual_channels,
                                    ));
                                    assert forall|k1: int, k2: int|
                                        0 <= k1 < k2 < candidates@.len() implies ((
                                    #[trigger] candidates@[k1]).port < (
                                    #[trigger] candidates@[k2]).port || (candidates@[k1].port
                                        == candidates@[k2].port
                                        && candidates@[k1].virtual_channel
                                        < candidates@[k2].virtual_channel)) by {
                                        if k2 < before.len() {
                                            assert(candidates@[k1] == before[k1]);
                                            assert(candidates@[k2] == before[k2]);
                                        } else if k1 < before.len() {
                                            assert(candidates@[k1] == before[k1]);
                                            assert(is_plain_candidate(
                                                candidates@[k2],
                                                p,
                                                (k2 - before.len()) as usize,
                                            ));
                                        } else {
                                            assert(is_plain_candidate(
                                                candidates@[k1],
                                                p,
                                                (k1 - before.len()) as usize,
                                            ));
                                            assert(is_plain_candidate(
                                                candidates@[k2],
                                                p,
                                                (k2 - before.len()) as usize,
                                            ));
                                        }
                                    }
                                    assert(lex_sorted_candidates(candidates@));
                                    assert forall|k: int| 0 <= k < candidates@.len() implies {
                                        &&& is_plain_candidate(
                                            #[trigger] candidates@[k],
                                            candidates@[k].port,
                                            candidates@[k].virtual_channel,
                                        )
                                        &&& router_port_at(
                                            *top,
                                            current_router,
                                            candidates@[k].port as int,
                                        )
                                        &&& port_to_selected(
                                            *top,
                                            current_router,
                                            candidates@[k].port as int,
                                            sel@,
                                        )
                                        &&& candidates@[k].virtual_channel < num_virtual_channels
                                    } by {
                                        if k < before.len() {
                                            assert(candidates@[k] == before[k]);
                                            assert(is_plain_candidate(
                                                before[k],
                                                before[k].port,
                                                before[k].virtual_channel,
                                            ));
                                        } else {
                                            assert(is_plain_candidate(
                                                candidates@[k],
                                                p,
                                                (k - before.len()) as usize,
                                            ));
                                        }
                                    }
                                }
                            }
                        },
                        Location::ServerPort(_) => {},
                    }
                    proof {
                        assert forall|q: int|
                            (#[trigger] router_port_at(*top, current_router, q) && port_to_selected(
                                *top,
                                current_router,
                                q,
                                sel@,
                            ) && q < p + 1) implies contains_plain_block(
                            candidates@,
                            q as usize,
                            num_virtual_channels,
                        ) by {
                            if q < p as int {
                                let k0 = choose|k0: int|
                                    0 <= k0 && k0 + num_virtual_channels <= before.len()
                                        && is_plain_block(
                                        #[trigger] before.subrange(k0, k0 + num_virtual_channels),
                                        q as usize,
                                        num_virtual_channels,
                                    );
                                assert(candidates@.subrange(k0, k0 + num_virtual_channels)
                                    =~= before.subrange(k0, k0 + num_virtual_channels));
                            } else {
                                assert(contains_plain_block(
                                    candidates@,
                                    q as usize,
                                    num_virtual_channels,
                                ));
                            }
                        }
                    }
                    p += 1;
                }
                Ok(RoutingNextCandidates { candidates, idempotent: true })
            },
            _ => {
                let num_ports = top.ports(current_router);
                let mut p: usize = 0;
                while p < num_ports
                    invariant
                        p <= num_ports,
                        forall|q: int|
                            0 <= q < p ==> !((#[trigger] top.ports_of(current_router as int)[q])
                                matches Location::RouterPort { router_index, .. } && router_index
                                == target_router),
                    decreases num_ports - p,
                {
                    match top.neighbour(current_router, p) {
                        Location::RouterPort { router_index, router_port: _ } => {
                            if router_index == target_router {
                                let mut candidates: Vec<CandidateEgress> = Vec::new();
                                let mut vc: usize = 0;
                                while vc < num_virtual_channels
                                    invariant
                                        vc <= num_virtual_channels,
                                        candidates@.len() == vc,
                                        forall|k: int|
                                            0 <= k < vc ==> is_plain_candidate(
                                                #[trigger] candidates@[k],
                                                p,
                                                k as usize,
                                            ),
                                    decreases num_virtual_channels - vc,
                                {
                                    candidates.push(CandidateEgress::new(p, vc));
                                    vc += 1;
                                }
                                proof {
                                    assert(first_port_to_router(
                                        *top,
                                        current_router,
                                        target_router,
                                        p as int,
                                    ));
                                }
                                return Ok(
                                    RoutingNextCandidates { candidates, idempotent: true },
                                );
                            }
                        },
                        Location::ServerPort(_) => {},
                    }
                    p += 1;
                }
                proof {
                    assert forall|q: int|
                        !first_port_to_router(*top, current_router, target_router, q) by {}
                }
                Ok(RoutingNextCandidates { candidates: Vec::new(), idempotent: true })
            },
        }
    }

    fn initialize_routing_info(
        &self,
        info: &mut RoutingInfo,
        top: &Topology,
        current_router: usize,
        target_router: usize,
        target_server: Option<usize>,
        rng: &mut StdRng,
    ) -> (r: Result<(), Error>) {
        let legal = self.intermediates[current_router][target_router].clone();
        proof {
            assert(legal@ =~= self.inter_at(current_router as int, target_router as int));
        }
        let param = ManyToManyParam {
            origin: Some(current_router),
            current: None,
            destination: Some(target_router),
            list: legal,
            extra: None,
        };
        let ghost param_snapshot = param;
        proof {
            assert(self.filter().req(param_snapshot));
        }
        let selected = self.intermediate_filter.get_destination(param, Some(top), rng);
        info.selections = Selections::IntermediateSet(selected);
        proof {
            assert(cg_filter_param(
                param_snapshot,
                current_router,
                target_router,
                self.inter_at(current_router as int, target_router as int),
            ));
        }
        Ok(())
    }

    fn update_routing_info(
        &self,
        info: &mut RoutingInfo,
        top: &Topology,
        current_router: usize,
        current_port: usize,
        target_router: usize,
        target_server: Option<usize>,
        rng: &mut StdRng,
    ) -> (r: Result<(), Error>) {
        let is_middle_phase = match &info.selections {
            Selections::IntermediateSet(_) => true,
            _ => false,
        };
        if is_middle_phase {
            let reached = match &info.selections {
                Selections::IntermediateSet(sel) => vec_contains(sel, current_router),
                _ => false,
            };
            if reached {
                info.selections = Selections::Direct;
                Ok(())
            } else {
                Err(Error::SelectionMismatch { current_router })
            }
        } else {
            Ok(())
        }
    }

    fn performed_request(
        &self,
        requested: &CandidateEgress,
        info: &mut RoutingInfo,
        top: &Topology,
        current_router: usize,
        target_router: usize,
        target_server: Option<usize>,
        num_virtual_channels: usize,
        rng: &mut StdRng,
    ) {
    }

    fn initialize(&mut self, top: &Topology, rng: &mut StdRng) -> (r: Result<(), Error>) {
        let n = top.num_routers();
        if n > 46340 {
            return Err(Error::SizeOutOfRange { size: n });
        }
        let weights = match build_weight_matrix(self.balance_algorithm, n) {
            Ok(w) => w,
            Err(e) => {
                return Err(e);
            },
        };
        let intermediates = build_intermediates(&weights, n);
        self.weights = weights;
        self.intermediates = intermediates;
        proof {
            assert forall|p: ManyToManyParam|
                (p.origin is Some && p.destination is Some && p.current is None
                    && p.extra is None) implies #[trigger] self.filter().req(p) by {
                assert(old(self).filter().req(p));
            }
        }
        if self.weight_repetition {
            match check_weights_permutation(&self.weights, n) {
                Ok(_) => {},
                Err(e) => {
                    return Err(e);
                },
            }
        }
        Ok(())
    }

    fn statistics(&self, cycle: Time) -> Option<ConfigurationValue> {
        None
    }
}

} // verus!

