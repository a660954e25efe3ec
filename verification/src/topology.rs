use vstd::prelude::*;
use crate::errors::Error;

verus! {

/// What a router port is connected to.
#[derive(Clone, Copy, PartialEq, Eq, Structural, Debug)]
pub enum Location {
    /// A port of another router.
    RouterPort { router_index: usize, router_port: usize },
    /// A server attached to the router.
    ServerPort(usize),
}

/// One entry of the router-neighbour enumeration of a router.
#[derive(Clone, Copy, PartialEq, Eq, Structural, Debug)]
pub struct NeighbourRouterIteratorItem {
    pub port_index: usize,
    pub neighbour_router: usize,
}

/// The topology collaborator, modelled by its query tables: what each port of
/// each router is connected to, and the distance between every pair of
/// routers.  Routing strategies only ever read these queries.
pub struct Topology {
    ports_table: Vec<Vec<Location>>,
    distance_table: Vec<Vec<usize>>,
    diameter: usize,
    num_servers: usize,
}

/// Whether one port's location is consistent with a topology of `n` routers
/// and `servers` servers.
pub open spec fn location_wf(loc: Location, n: nat, servers: nat) -> bool {
    match loc {
        Location::RouterPort { router_index, router_port } => router_index < n,
        Location::ServerPort(s) => s < servers,
    }
}

impl Topology {
    /// Number of routers.
    pub closed spec fn n(&self) -> nat {
        self.ports_table@.len()
    }

    /// The locations the ports of router `r` lead to.
    pub closed spec fn ports_of(&self, r: int) -> Seq<Location> {
        self.ports_table@[r]@
    }

    /// Distance, in router-to-router hops, from `a` to `b`.
    pub closed spec fn dist_of(&self, a: int, b: int) -> nat {
        self.distance_table@[a]@[b] as nat
    }

    pub closed spec fn diameter_of(&self) -> nat {
        self.diameter as nat
    }

    pub closed spec fn num_servers_of(&self) -> nat {
        self.num_servers as nat
    }

    /// Consistency of the tables: a square distance matrix that is zero
    /// exactly on the diagonal, and ports leading to existing routers and
    /// servers.
    pub closed spec fn wf(&self) -> bool {
        &&& self.distance_table@.len() == self.n()
        &&& forall|i: int|
            0 <= i < self.n() ==> (#[trigger] self.distance_table@[i])@.len() == self.n()
        &&& forall|i: int, j: int|
            0 <= i < self.n() && 0 <= j < self.n() ==> ((self.dist_of(i, j) == 0) <==> i == j)
        &&& forall|i: int, j: int|
            0 <= i < self.n() && 0 <= j < self.n() ==> #[trigger] self.dist_of(i, j)
                <= 0x7fff_ffff
        &&& self.diameter_of() <= 0x7fff_ffff
        &&& forall|r: int, p: int|
            0 <= r < self.n() && 0 <= p < self.ports_of(r).len() ==> location_wf(
                #[trigger] self.ports_of(r)[p],
                self.n(),
                self.num_servers_of(),
            )
    }

    /// A well-formed topology only connects ports to existing routers and
    /// servers.
    pub proof fn lemma_wf_location(&self, r: int, p: int)
        requires
            self.wf(),
            0 <= r < self.n(),
            0 <= p < self.ports_of(r).len(),
        ensures
            location_wf(self.ports_of(r)[p], self.n(), self.num_servers_of()),
    {
    }

    /// In a well-formed topology the distance is zero exactly between a
    /// router and itself.
    pub proof fn lemma_wf_dist_zero(&self, a: int, b: int)
        requires
            self.wf(),
            0 <= a < self.n(),
            0 <= b < self.n(),
        ensures
            (self.dist_of(a, b) == 0) <==> a == b,
    {
    }

    /// In a well-formed topology every distance and the diameter fit in a
    /// signed 32-bit weight.
    pub proof fn lemma_wf_dist_bound(&self, a: int, b: int)
        requires
            self.wf(),
            0 <= a < self.n(),
            0 <= b < self.n(),
        ensures
            self.dist_of(a, b) <= 0x7fff_ffff,
            self.diameter_of() <= 0x7fff_ffff,
    {
    }

    /// The topology value the given tables denote, checked or not.
    pub closed spec fn assembled(
        ports_table: Vec<Vec<Location>>,
        distance_table: Vec<Vec<usize>>,
        diameter: usize,
        num_servers: usize,
    ) -> Topology {
        Topology { ports_table, distance_table, diameter, num_servers }
    }

    /// Builds a topology from explicit tables, validating them; an
    /// inconsistent set of tables is a configuration error.
    pub fn new(
        ports_table: Vec<Vec<Location>>,
        distance_table: Vec<Vec<usize>>,
        diameter: usize,
        num_servers: usize,
    ) -> (r: Result<Topology, Error>)
        ensures
            r matches Ok(t) ==> {
                &&& t.wf()
                &&& t.n() == ports_table@.len()
                &&& forall|i: int| 0 <= i < t.n() ==> t.ports_of(i) == ports_table@[i]@
                &&& forall|i: int, j: int|
                    0 <= i < t.n() && 0 <= j < t.n() ==> t.dist_of(i, j)
                        == distance_table@[i]@[j] as nat
                &&& t.diameter_of() == diameter
                &&& t.num_servers_of() == num_servers
            },
            r is Err <==> !Topology::assembled(
                ports_table,
                distance_table,
                diameter,
                num_servers,
            ).wf(),
    {
        let t = Topology { ports_table, distance_table, diameter, num_servers };
        if t.check_wf() {
            Ok(t)
        } else {
            Err(Error::MalformedTopology)
        }
    }

    /// Decides `wf` by scanning the tables.
    pub fn check_wf(&self) -> (r: bool)
        ensures
            r == self.wf(),
    {
        let n = self.ports_table.len();
        if self.distance_table.len() != n {
            return false;
        }
        if self.diameter > 0x7fff_ffff {
            return false;
        }
        let mut i: usize = 0;
        while i < n
            invariant
                i <= n,
                n == self.n(),
                self.distance_table@.len() == n,
                forall|a: int| 0 <= a < i ==> (#[trigger] self.distance_table@[a])@.len() == n,
                forall|a: int, b: int|
                    0 <= a < i && 0 <= b < n ==> ((self.dist_of(a, b) == 0) <==> a == b),
                forall|a: int, b: int|
                    0 <= a < i && 0 <= b < n ==> #[trigger] self.dist_of(a, b) <= 0x7fff_ffff,
            decreases n - i,
        {
            let row = &self.distance_table[i];
            if row.len() != n {
                return false;
            }
            let mut j: usize = 0;
            while j < n
                invariant
                    i < n,
                    j <= n,
                    n == self.n(),
                    self.distance_table@.len() == n,
                    self.distance_table@[i as int]@.len() == n,
                    row == &self.distance_table[i as int],
                    forall|b: int|
                        0 <= b < j ==> ((self.dist_of(i as int, b) == 0) <==> i as int == b),
                    forall|b: int|
                        0 <= b < j ==> #[trigger] self.dist_of(i as int, b) <= 0x7fff_ffff,
                decreases n - j,
            {
                if row[j] > 0x7fff_ffff {
                    proof {
                        assert(self.dist_of(i as int, j as int) == row@[j as int] as nat);
                    }
                    return false;
                }
                if (row[j] == 0) != (i == j) {
                    proof {
                        assert(self.dist_of(i as int, j as int) == row@[j as int] as nat);
                    }
                    return false;
                }
                j += 1;
            }
            i += 1;
        }
        let mut r: usize = 0;
        while r < n
            invariant
                r <= n,
                n == self.n(),
                forall|a: int, p: int|
                    0 <= a < r && 0 <= p < self.ports_of(a).len() ==> location_wf(
                        #[trigger] self.ports_of(a)[p],
                        self.n(),
                        self.num_servers_of(),
                    ),
            decreases n - r,
        {
            let row = &self.ports_table[r];
            let mut p: usize = 0;
            while p < row.len()
                invariant
                    r < n,
                    n == self.n(),
                    p <= row@.len(),
                    row == &self.ports_table[r as int],
                    forall|q: int|
                        0 <= q < p ==> location_wf(
                            #[trigger] self.ports_of(r as int)[q],
                            self.n(),
                            self.num_servers_of(),
                        ),
                decreases row@.len() - p,
            {
                let ok = match row[p] {
                    Location::RouterPort { router_index, router_port: _ } => router_index < n,
                    Location::ServerPort(s) => s < self.num_servers,
                };
                if !ok {
                    proof {
                        assert(self.ports_of(r as int)[p as int] == row@[p as int]);
                        assert(!location_wf(
                            self.ports_of(r as int)[p as int],
                            self.n(),
                            self.num_servers_of(),
                        ));
                    }
                    return false;
                }
                p += 1;
            }
            r += 1;
        }
        true
    }

    pub fn num_routers(&self) -> (r: usize)
        ensures
            r == self.n(),
    {
        self.ports_table.len()
    }

    pub fn num_servers(&self) -> (r: usize)
        ensures
            r == self.num_servers_of(),
    {
        self.num_servers
    }

    /// Number of ports of router `r`.
    pub fn ports(&self, r: usize) -> (p: usize)
        requires
            r < self.n(),
        ensures
            p == self.ports_of(r as int).len(),
    {
        self.ports_table[r].len()
    }

    /// Where port `p` of router `r` leads.
    pub fn neighbour(&self, r: usize, p: usize) -> (loc: Location)
        requires
            r < self.n(),
            p < self.ports_of(r as int).len(),
        ensures
            loc == self.ports_of(r as int)[p as int],
    {
        self.ports_table[r][p]
    }

    pub fn distance(&self, a: usize, b: usize) -> (d: usize)
        requires
            self.wf(),
            a < self.n(),
            b < self.n(),
        ensures
            d == self.dist_of(a as int, b as int),
    {
        self.distance_table[a][b]
    }

    pub fn diameter(&self) -> (d: usize)
        ensures
            d == self.diameter_of(),
    {
        self.diameter
    }

    /// The router-neighbours of `r`, each with the port index that reaches
    /// it, in port order.
    pub fn neighbour_router_list(&self, r: usize) -> (list: Vec<NeighbourRouterIteratorItem>)
        requires
            r < self.n(),
        ensures
            neighbour_list_matches(self, r as int, list@),
    {
        let num_ports = self.ports(r);
        let mut list: Vec<NeighbourRouterIteratorItem> = Vec::new();
        let mut p: usize = 0;
        while p < num_ports
            invariant
                r < self.n(),
                p <= num_ports,
                num_ports == self.ports_of(r as int).len(),
                list_is_router_prefix(self, r as int, list@, p as int),
            decreases num_ports - p,
        {
            let ghost old_list = list@;
            match self.neighbour(r, p) {
                Location::RouterPort { router_index, router_port: _ } => {
                    list.push(NeighbourRouterIteratorItem {
                        port_index: p,
                        neighbour_router: router_index,
                    });
                },
                Location::ServerPort(_) => {},
            }
            proof {
                assert forall|q: int|
                    (0 <= q < p + 1 && ((#[trigger] self.ports_of(r as int)[q])
                        matches Location::RouterPort { .. })) implies exists|k: int|
                    0 <= k < list@.len() && (#[trigger] list@[k]).port_index == q by {
                    if q < p as int {
                        let k = choose|k: int|
                            0 <= k < old_list.len() && (#[trigger] old_list[k]).port_index == q;
                        assert(list@[k].port_index == q);
                    } else {
                        assert(list@[list@.len() - 1].port_index == q);
                    }
                }
            }
            p += 1;
        }
        list
    }
}

/// `list` holds exactly the router-connected ports among the first `upto`
/// ports of router `r`, in order.
pub open spec fn list_is_router_prefix(
    top: &Topology,
    r: int,
    list: Seq<NeighbourRouterIteratorItem>,
    upto: int,
) -> bool {
    &&& forall|k: int|
        0 <= k < list.len() ==> {
            &&& 0 <= (#[trigger] list[k]).port_index < upto
            &&& top.ports_of(r)[list[k].port_index as int] matches Location::RouterPort {
                router_index,
                ..
            } && router_index == list[k].neighbour_router
        }
    &&& forall|k1: int, k2: int|
        0 <= k1 < k2 < list.len() ==> (#[trigger] list[k1]).port_index
            < (#[trigger] list[k2]).port_index
    &&& forall|p: int|
        (0 <= p < upto && ((#[trigger] top.ports_of(r)[p]) matches Location::RouterPort { .. }))
            ==> exists|k: int| 0 <= k < list.len() && (#[trigger] list[k]).port_index == p
}

/// `list` holds exactly the router-connected ports of router `r`, in order.
pub open spec fn neighbour_list_matches(
    top: &Topology,
    r: int,
    list: Seq<NeighbourRouterIteratorItem>,
) -> bool {
    list_is_router_prefix(top, r, list, top.ports_of(r).len() as int)
}

} // verus!
