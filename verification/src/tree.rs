use vstd::prelude::*;
use crate::errors::Error;
use crate::topology::Location;

verus! {

/// A dense rectangular table.
pub struct Matrix<T> {
    data: Vec<Vec<T>>,
}

impl<T: Copy> Matrix<T> {
    /// A table of the given shape filled with one value.
    #[verifier::loop_isolation(false)]
    pub fn constant(value: T, rows: usize, cols: usize) -> (r: Matrix<T>)
        ensures
            r.rows_of() == rows,
            forall|i: int| 0 <= i < rows ==> #[trigger] r.cols_of(i) == cols,
            forall|i: int, j: int|
                0 <= i < rows && 0 <= j < cols ==> #[trigger] r.at(i, j) == value,
    {
        let mut data: Vec<Vec<T>> = Vec::new();
        let mut i: usize = 0;
        while i < rows
            invariant
                i <= rows,
                data@.len() == i,
                forall|a: int| 0 <= a < i ==> (#[trigger] data@[a])@.len() == cols,
                forall|a: int, b: int|
                    0 <= a < i && 0 <= b < cols ==> #[trigger] data@[a]@[b] == value,
            decreases rows - i,
        {
            let mut row: Vec<T> = Vec::new();
            let mut j: usize = 0;
            while j < cols
                invariant
                    j <= cols,
                    row@.len() == j,
                    forall|b: int| 0 <= b < j ==> #[trigger] row@[b] == value,
                decreases cols - j,
            {
                row.push(value);
                j += 1;
            }
            data.push(row);
            i += 1;
        }
        Matrix { data }
    }

    pub closed spec fn rows_of(&self) -> nat {
        self.data@.len()
    }

    pub closed spec fn cols_of(&self, i: int) -> nat {
        self.data@[i]@.len()
    }

    pub closed spec fn at(&self, i: int, j: int) -> T {
        self.data@[i]@[j]
    }

    /// The entry at row `i`, column `j`.
    pub fn get(&self, i: usize, j: usize) -> (r: T)
        requires
            i < self.rows_of(),
            j < self.cols_of(i as int),
        ensures
            r == self.at(i as int, j as int),
    {
        self.data[i][j]
    }

    /// Overwrites the entry at row `i`, column `j`.
    pub fn set(&mut self, i: usize, j: usize, value: T)
        requires
            i < old(self).rows_of(),
            j < old(self).cols_of(i as int),
        ensures
            final(self).rows_of() == old(self).rows_of(),
            forall|a: int| 0 <= a < final(self).rows_of() ==> #[trigger] final(self).cols_of(a)
                == old(self).cols_of(a),
            final(self).at(i as int, j as int) == value,
            forall|a: int, b: int|
                0 <= a < final(self).rows_of() && 0 <= b < final(self).cols_of(a) && !(a == i as int
                    && b == j as int) ==> #[trigger] final(self).at(a, b) == old(self).at(a, b),
    {
        let row = &mut self.data[i];
        row[j] = value;
    }
}

/// A complete tree topology: every switch but the leaves has one up port and
/// a fixed number of down ports; distances are kept as up/down hop pairs.
pub struct Tree {
    down_degree: usize,
    num_routers: usize,
    servers_per_router: usize,
    up_down_distances: Matrix<Option<(u8, u8)>>,
}

impl Tree {
    /// Builds the tree; the degree must allow at least one downward link.
    pub fn new(degree: usize, num_routers: usize, servers_per_router: usize) -> (r: Result<
        Tree,
        Error,
    >)
        ensures
            r matches Ok(t) ==> {
                &&& t.num_routers_of() == num_routers
                &&& t.down_degree_of() as int == degree - 1
                &&& t.servers_per_router_of() == servers_per_router
                &&& t.matrix().rows_of() == num_routers
                &&& forall|i: int|
                    0 <= i < num_routers ==> #[trigger] t.matrix().cols_of(i) == num_routers
            },
            r is Err <==> degree < 2,
    {
        if degree < 2 {
            return Err(Error::MismatchedSizes);
        }
        let down_degree = degree - 1;
        let up_down_distances = Tree::build_up_down_matrix(down_degree, num_routers);
        Ok(Tree { down_degree, num_routers, servers_per_router, up_down_distances })
    }

    pub closed spec fn num_routers_of(&self) -> usize {
        self.num_routers
    }

    pub closed spec fn down_degree_of(&self) -> usize {
        self.down_degree
    }

    pub closed spec fn servers_per_router_of(&self) -> usize {
        self.servers_per_router
    }

    pub closed spec fn matrix(&self) -> Matrix<Option<(u8, u8)>> {
        self.up_down_distances
    }

    pub fn num_routers(&self) -> (r: usize)
        ensures
            r == self.num_routers_of(),
    {
        self.num_routers
    }

    pub fn num_servers(&self) -> (r: Option<usize>)
        ensures
            r matches Some(n) ==> n == self.num_routers_of() * self.servers_per_router_of(),
    {
        self.num_routers.checked_mul(self.servers_per_router)
    }

    /// The number of switches of a complete tree of height `h` where every
    /// switch but the leaves has `k + 1` links; saturates rather than wrap.
    #[verifier::loop_isolation(false)]
    pub fn full_h_k_tree_nodes(k: usize, h: usize) -> (r: usize)
        requires
            k >= 1,
        ensures
            r >= h + 1 || r == usize::MAX,
            r >= 1,
    {
        if h == 0 {
            1
        } else {
            let mut height: usize = 1;
            let mut total_switches: usize = match 1usize.checked_add(k) {
                Some(v) => match v.checked_add(1) {
                    Some(w) => w,
                    None => usize::MAX,
                },
                None => usize::MAX,
            };
            let mut last_leaves: usize = match k.checked_add(1) {
                Some(v) => v,
                None => usize::MAX,
            };
            while height < h
                invariant
                    1 <= height,
                    height <= h,
                    last_leaves >= 1,
                    total_switches >= height + 1 || total_switches == usize::MAX,
                    total_switches >= 1,
                decreases h - height,
            {
                height += 1;
                last_leaves = match k.checked_mul(last_leaves) {
                    Some(v) => v,
                    None => usize::MAX,
                };
                if last_leaves == 0 {
                    last_leaves = 1;
                }
                total_switches = match total_switches.checked_add(last_leaves) {
                    Some(v) => v,
                    None => usize::MAX,
                };
            }
            total_switches
        }
    }

    /// The level at which a switch stands in the tree.
    #[verifier::loop_isolation(false)]
    pub fn full_h_k_tree_level(k: usize, switch: usize) -> (r: usize)
        requires
            k >= 1,
        ensures
            r <= switch,
    {
        let mut last_switch_index = Tree::full_h_k_tree_nodes(k, 0) - 1;
        let mut height: usize = 0;
        while switch > last_switch_index
            invariant
                height <= switch,
                last_switch_index >= height || last_switch_index == usize::MAX - 1,
            decreases switch - height,
        {
            if height >= switch {
                break ;
            }
            height += 1;
            last_switch_index = Tree::full_h_k_tree_nodes(k, height) - 1;
        }
        height
    }

    /// The up/down distance table: entry `(i, j)` holds how many hops up and
    /// then down connect switch `i` to switch `j`.
    #[verifier::loop_isolation(false)]
    pub fn build_up_down_matrix(down_degree: usize, num_routers: usize) -> (r: Matrix<
        Option<(u8, u8)>,
    >)
        requires
            down_degree >= 1,
        ensures
            r.rows_of() == num_routers,
            forall|i: int| 0 <= i < num_routers ==> #[trigger] r.cols_of(i) == num_routers,
    {
        let n = num_routers;
        let mut up_down_distances: Matrix<Option<(u8, u8)>> = Matrix::constant(None, n, n);
        let mut ancestors: Vec<Vec<usize>> = Vec::new();
        let mut i: usize = 0;
        while i < n
            invariant
                i <= n,
                down_degree >= 1,
                ancestors@.len() == i,
            decreases n - i,
        {
            let mut chain: Vec<usize> = Vec::new();
            let mut parent = i;
            chain.push(parent);
            let mut level = Tree::full_h_k_tree_level(down_degree, parent);
            let mut offset = if parent == 0 || level == 0 {
                0
            } else {
                let below = Tree::full_h_k_tree_nodes(down_degree, level - 1);
                if parent >= below {
                    parent - below
                } else {
                    0
                }
            };
            while level > 1
                invariant
                    down_degree >= 1,
                decreases level,
            {
                level = level - 1;
                offset = offset / down_degree;
                let base = Tree::full_h_k_tree_nodes(down_degree, level - 1);
                parent = match base.checked_add(offset) {
                    Some(v) => v,
                    None => usize::MAX,
                };
                chain.push(parent);
            }
            if i != 0 {
                chain.push(0);
            }
            ancestors.push(chain);
            i += 1;
        }
        let mut i: usize = 0;
        while i < n
            invariant
                i <= n,
                ancestors@.len() == n,
                up_down_distances.rows_of() == n,
                forall|a: int| 0 <= a < n ==> #[trigger] up_down_distances.cols_of(a) == n,
            decreases n - i,
        {
            let mut j: usize = 0;
            while j < n
                invariant
                    i < n,
                    j <= n,
                    ancestors@.len() == n,
                    up_down_distances.rows_of() == n,
                    forall|a: int| 0 <= a < n ==> #[trigger] up_down_distances.cols_of(a) == n,
                decreases n - j,
            {
                if i != j {
                    let ai = &ancestors[i];
                    let aj = &ancestors[j];
                    let mut index: usize = 0;
                    let mut done = false;
                    let ailen = ai.len();
                    while index < ailen && !done
                        invariant
                            ailen == ai@.len(),
                            index <= ailen,
                            i < n,
                            j < n,
                            up_down_distances.rows_of() == n,
                            forall|a: int|
                                0 <= a < n ==> #[trigger] up_down_distances.cols_of(a) == n,
                        decreases ailen - index, 1int - if done {
                            1int
                        } else {
                            0int
                        },
                    {
                        let a = ai[index];
                        let mut position: usize = 0;
                        let mut found = false;
                        let ajlen = aj.len();
                        while position < ajlen && !found
                            invariant
                                ajlen == aj@.len(),
                                position <= ajlen,
                            decreases ajlen - position, 1int - if found {
                                1int
                            } else {
                                0int
                            },
                        {
                            if aj[position] == a {
                                found = true;
                            } else {
                                position += 1;
                            }
                        }
                        if found {
                            let up_distance = #[verifier::truncate] (index as u8);
                            let down_distance = #[verifier::truncate] (position as u8);
                            up_down_distances.set(i, j, Some((up_distance, down_distance)));
                            done = true;
                        } else {
                            index += 1;
                        }
                    }
                }
                j += 1;
            }
            i += 1;
        }
        up_down_distances
    }

    /// The total distance, up plus down hops, between two switches.
    pub fn distance(&self, origin: usize, destination: usize) -> (r: Option<usize>)
        requires
            origin < self.matrix().rows_of(),
            destination < self.matrix().cols_of(origin as int),
    {
        if origin == destination {
            return Some(0);
        }
        match self.up_down_distances.get(origin, destination) {
            Some((u, d)) => Some(u as usize + d as usize),
            None => None,
        }
    }

    /// The up/down pair between two switches, when one is recorded.
    pub fn up_down_distance(&self, origin: usize, destination: usize) -> (r: Option<(usize, usize)>)
        requires
            origin < self.matrix().rows_of(),
            destination < self.matrix().cols_of(origin as int),
        ensures
            r matches Some(p) ==> self.matrix().at(origin as int, destination as int)
                matches Some(q) && p.0 == q.0 as usize && p.1 == q.1 as usize,
    {
        match self.up_down_distances.get(origin, destination) {
            Some((u, d)) => Some((u as usize, d as usize)),
            None => None,
        }
    }

    /// How many switches neighbour the given one: those at distance one.
    #[verifier::loop_isolation(false)]
    pub fn degree(&self, router_index: usize) -> (r: usize)
        requires
            router_index < self.matrix().rows_of(),
            self.matrix().rows_of() == self.num_routers_of(),
            forall|a: int|
                0 <= a < self.num_routers_of() ==> #[trigger] self.matrix().cols_of(a)
                    == self.num_routers_of(),
        ensures
            r <= self.num_routers_of(),
    {
        let mut degree: usize = 0;
        let mut i: usize = 0;
        let n = self.num_routers;
        while i < n
            invariant
                i <= n,
                degree <= i,
            decreases n - i,
        {
            if i != router_index {
                match self.up_down_distances.get(router_index, i) {
                    Some((u, d)) => {
                        if u as usize + d as usize == 1 {
                            degree += 1;
                        }
                    },
                    None => {},
                }
            }
            i += 1;
        }
        degree
    }

    /// The number of ports of a switch: its tree links plus its servers.
    pub fn ports(&self, router_index: usize) -> (r: Option<usize>)
        requires
            router_index < self.matrix().rows_of(),
            self.matrix().rows_of() == self.num_routers_of(),
            forall|a: int|
                0 <= a < self.num_routers_of() ==> #[trigger] self.matrix().cols_of(a)
                    == self.num_routers_of(),
    {
        self.degree(router_index).checked_add(self.servers_per_router)
    }

    pub fn maximum_degree(&self) -> (r: Option<usize>) {
        self.down_degree.checked_add(1)
    }

    pub fn minimum_degree(&self) -> (r: usize)
        ensures
            r == 1,
    {
        1
    }

    /// The greatest recorded distance between two distinct switches.
    #[verifier::loop_isolation(false)]
    pub fn compute_diameter(&self) -> (r: usize)
        requires
            self.matrix().rows_of() == self.num_routers_of(),
            forall|a: int|
                0 <= a < self.num_routers_of() ==> #[trigger] self.matrix().cols_of(a)
                    == self.num_routers_of(),
    {
        let n = self.num_routers;
        let mut diameter: usize = 0;
        let mut i: usize = 0;
        while i < n
            invariant
                i <= n,
            decreases n - i,
        {
            let mut j: usize = 0;
            while j < n
                invariant
                    i < n,
                    j <= n,
                decreases n - j,
            {
                if i != j {
                    match self.up_down_distances.get(i, j) {
                        Some((u, d)) => {
                            let dist = u as usize + d as usize;
                            if dist > diameter {
                                diameter = dist;
                            }
                        },
                        None => {},
                    }
                }
                j += 1;
            }
            i += 1;
        }
        diameter
    }

    pub fn diameter(&self) -> (r: usize)
        requires
            self.matrix().rows_of() == self.num_routers_of(),
            forall|a: int|
                0 <= a < self.num_routers_of() ==> #[trigger] self.matrix().cols_of(a)
                    == self.num_routers_of(),
    {
        self.compute_diameter()
    }

    /// Where a switch port leads: the up link first, then the down links,
    /// then the servers.
    pub fn neighbour(&self, router_index: usize, port: usize) -> (r: Option<(Location, usize)>)
        requires
            router_index < self.matrix().rows_of(),
            self.matrix().rows_of() == self.num_routers_of(),
            forall|a: int|
                0 <= a < self.num_routers_of() ==> #[trigger] self.matrix().cols_of(a)
                    == self.num_routers_of(),
    {
        let degree = self.degree(router_index);
        let ports = match degree.checked_add(self.servers_per_router) {
            Some(p) => p,
            None => {
                return None;
            },
        };
        if port >= ports {
            return None;
        }
        if port >= degree {
            let base = match router_index.checked_mul(self.servers_per_router) {
                Some(b) => b,
                None => {
                    return None;
                },
            };
            let server = match base.checked_add(port - degree) {
                Some(s) => s,
                None => {
                    return None;
                },
            };
            return Some((Location::ServerPort(server), 1));
        }
        if self.down_degree < 1 {
            return None;
        }
        let level = Tree::full_h_k_tree_level(self.down_degree, router_index);
        if level == 0 {
            return Some(
                (Location::RouterPort { router_index: port + 1, router_port: 0 }, 0),
            );
        }
        if level == 1 && port == 0 {
            return Some(
                (Location::RouterPort { router_index: 0, router_port: router_index - 1 }, 0),
            );
        }
        let below = Tree::full_h_k_tree_nodes(self.down_degree, level - 1);
        if router_index < below {
            return None;
        }
        let offset = router_index - below;
        if port == 0 {
            if level < 2 {
                return None;
            }
            let base = Tree::full_h_k_tree_nodes(self.down_degree, level - 2);
            let parent = match base.checked_add(offset / self.down_degree) {
                Some(p) => p,
                None => {
                    return None;
                },
            };
            return Some(
                (
                    Location::RouterPort {
                        router_index: parent,
                        router_port: offset % self.down_degree + 1,
                    },
                    0,
                ),
            );
        }
        let same = Tree::full_h_k_tree_nodes(self.down_degree, level);
        let scaled = match offset.checked_mul(self.down_degree) {
            Some(v) => v,
            None => {
                return None;
            },
        };
        let child = match same.checked_add(scaled) {
            Some(v) => match v.checked_add(port - 1) {
                Some(w) => Some(w),
                None => None,
            },
            None => None,
        };
        match child {
            Some(c) => Some((Location::RouterPort { router_index: c, router_port: 0 }, 0)),
            None => None,
        }
    }

    /// The switch and port a server hangs from.
    pub fn server_neighbour(&self, server_index: usize) -> (r: Option<(Location, usize)>)
        requires
            self.servers_per_router_of() > 0,
            self.matrix().rows_of() == self.num_routers_of(),
            forall|a: int|
                0 <= a < self.num_routers_of() ==> #[trigger] self.matrix().cols_of(a)
                    == self.num_routers_of(),
    {
        let router_index = server_index / self.servers_per_router;
        let server_port = server_index % self.servers_per_router;
        if router_index >= self.num_routers {
            return None;
        }
        let degree = self.degree(router_index);
        let port = match server_port.checked_add(degree) {
            Some(p) => p,
            None => {
                return None;
            },
        };
        Some((Location::RouterPort { router_index, router_port: port }, 1))
    }
}

} // verus!
