use vstd::prelude::*;
use rand::rngs::StdRng;
use crate::config::ConfigurationValue;
use crate::errors::Error;
use crate::general_pattern::GeneralPattern;
use crate::topology::Topology;

verus! {

/// Appends `value` to every vector of the batch.
pub fn extend_vectors(vectors: Vec<Vec<i32>>, value: i32) -> (r: Vec<Vec<i32>>)
    ensures
        r@.len() == vectors@.len(),
        forall|k: int| 0 <= k < r@.len() ==> (#[trigger] r@[k])@ == vectors@[k]@.push(value),
{
    let ghost original = vectors@;
    let mut new_vectors: Vec<Vec<i32>> = Vec::new();
    let mut vectors = vectors;
    let mut k: usize = 0;
    let len = vectors.len();
    #[verifier::loop_isolation(false)]
    while k < len
        invariant
            k <= len,
            len == original.len(),
            vectors@.len() == len,
            forall|m: int| k <= m < len ==> vectors@[m] == original[m],
            new_vectors@.len() == k,
            forall|m: int|
                0 <= m < k ==> (#[trigger] new_vectors@[m])@ == original[m]@.push(value),
        decreases len - k,
    {
        let mut vector = vectors.remove(k);
        vectors.insert(k, Vec::new());
        proof {
            assert(vectors@[k as int]@.len() == 0);
            assert(forall|m: int| k < m < len ==> vectors@[m] == original[m]);
        }
        vector.push(value);
        new_vectors.push(vector);
        k += 1;
    }
    new_vectors
}

/// Lexicographic comparison of two offset vectors, used to present neighbour
/// offsets in a stable order.
fn lex_less(a: &Vec<i32>, b: &Vec<i32>) -> bool {
    let mut d: usize = 0;
    let min_len = if a.len() <= b.len() {
        a.len()
    } else {
        b.len()
    };
    #[verifier::loop_isolation(false)]
    while d < min_len
        invariant
            d <= min_len,
        decreases min_len - d,
    {
        if a[d] < b[d] {
            return true;
        }
        if a[d] > b[d] {
            return false;
        }
        d += 1;
    }
    a.len() < b.len()
}

/// Sorts a batch of offset vectors lexicographically; the same vectors come
/// back, rearranged.
#[verifier::loop_isolation(false)]
pub fn sort_vectors(vectors: Vec<Vec<i32>>) -> (r: Vec<Vec<i32>>)
    ensures
        r@.to_multiset() == vectors@.to_multiset(),
        r@.len() == vectors@.len(),
{
    broadcast use vstd::seq_lib::group_to_multiset_ensures;

    let ghost original = vectors@;
    let mut input = vectors;
    let mut out: Vec<Vec<i32>> = Vec::new();
    while input.len() > 0
        invariant
            out@.to_multiset().add(input@.to_multiset()) =~= original.to_multiset(),
            out@.len() + input@.len() == original.len(),
        decreases input@.len(),
    {
        let mut best: usize = 0;
        let mut j: usize = 1;
        while j < input.len()
            invariant
                best < input@.len(),
                j <= input@.len(),
            decreases input@.len() - j,
        {
            if lex_less(&input[j], &input[best]) {
                best = j;
            }
            j += 1;
        }
        let ghost input_before = input@;
        let x = input.remove(best);
        out.push(x);
        proof {
            assert(input@.to_multiset() =~= input_before.to_multiset().remove(
                input_before[best as int],
            ));
            assert(out@.to_multiset().add(input@.to_multiset()) =~= original.to_multiset());
        }
    }
    out
}

/// `v` has at least one non-zero coordinate.
pub open spec fn has_nonzero(v: Seq<i32>) -> bool {
    exists|d: int| 0 <= d < v.len() && v[d] != 0
}

/// Whether a vector consists of zeros only, decided by scanning it.
#[verifier::loop_isolation(false)]
fn is_all_zero(v: &Vec<i32>) -> (r: bool)
    ensures
        r == !has_nonzero(v@),
{
    let mut d: usize = 0;
    while d < v.len()
        invariant
            d <= v@.len(),
            forall|m: int| 0 <= m < d ==> v@[m] == 0,
        decreases v@.len() - d,
    {
        if v[d] != 0 {
            return false;
        }
        d += 1;
    }
    true
}

/// Every offset vector of the batch has `dims` coordinates.
pub open spec fn all_dims(vs: Seq<Vec<i32>>, dims: nat) -> bool {
    forall|k: int| 0 <= k < vs.len() ==> (#[trigger] vs[k])@.len() == dims
}

/// Removes the all-zero offset and sorts the batch.
#[verifier::loop_isolation(false)]
pub fn clean_offsets(vectors: Vec<Vec<i32>>, dims: usize) -> (r: Vec<Vec<i32>>)
    requires
        all_dims(vectors@, dims as nat),
    ensures
        all_dims(r@, dims as nat),
        forall|k: int| 0 <= k < r@.len() ==> has_nonzero((#[trigger] r@[k])@),
{
    broadcast use vstd::seq_lib::group_to_multiset_ensures;

    let mut kept: Vec<Vec<i32>> = Vec::new();
    let mut input = vectors;
    let ghost original = input@;
    let mut k: usize = 0;
    let len = input.len();
    while k < len
        invariant
            k <= len,
            len == original.len(),
            input@ == original,
            all_dims(kept@, dims as nat),
            forall|m: int| 0 <= m < kept@.len() ==> has_nonzero((#[trigger] kept@[m])@),
        decreases len - k,
    {
        if !is_all_zero(&input[k]) {
            let mut copy: Vec<i32> = Vec::new();
            let v = &input[k];
            let vlen = v.len();
            let mut d: usize = 0;
            while d < vlen
                invariant
                    vlen == v@.len(),
                    d <= vlen,
                    copy@ == v@.take(d as int),
                decreases vlen - d,
            {
                copy.push(v[d]);
                proof {
                    assert(copy@ =~= v@.take(d + 1));
                }
                d += 1;
            }
            proof {
                assert(copy@ =~= input@[k as int]@);
            }
            kept.push(copy);
        }
        k += 1;
    }
    let sorted = sort_vectors(kept);
    proof {
        assert forall|m: int| 0 <= m < sorted@.len() implies (#[trigger] sorted@[m])@.len()
            == dims as nat && has_nonzero(sorted@[m]@) by {
            assert(sorted@.to_multiset().count(sorted@[m]) > 0);
            assert(kept@.to_multiset().count(sorted@[m]) > 0);
            assert(kept@.contains(sorted@[m]));
            let j = choose|j: int| 0 <= j < kept@.len() && kept@[j] == sorted@[m];
            assert(kept@[j]@.len() == dims as nat);
        }
    }
    sorted
}

/// Neighbour offsets within a Manhattan ball, one recursion level per
/// dimension: the total distance is split between the first coordinate and
/// the remaining ones.
#[verifier::loop_isolation(false)]
pub fn manhattan_offsets(dims: usize, manhattan_distance: usize) -> (r: Vec<Vec<i32>>)
    requires
        manhattan_distance <= 0x3fff_ffff,
    ensures
        all_dims(r@, dims as nat),
    decreases dims,
{
    let total_dist = manhattan_distance as i32;
    if manhattan_distance == 0 || dims == 0 {
        let mut zero: Vec<i32> = Vec::new();
        let mut d: usize = 0;
        while d < dims
            invariant
                d <= dims,
                zero@.len() == d,
            decreases dims - d,
        {
            zero.push(0);
            d += 1;
        }
        let mut r: Vec<Vec<i32>> = Vec::new();
        r.push(zero);
        r
    } else if dims == 1 {
        let mut r: Vec<Vec<i32>> = Vec::new();
        let mut v: i32 = -total_dist;
        while v <= total_dist
            invariant
                -total_dist <= v <= total_dist + 1,
                all_dims(r@, 1),
            decreases total_dist + 1 - v,
        {
            let mut single: Vec<i32> = Vec::new();
            single.push(v);
            r.push(single);
            v = v + 1;
        }
        r
    } else {
        let mut vectors: Vec<Vec<i32>> = Vec::new();
        let mut dist: i32 = 0;
        while dist <= total_dist
            invariant
                0 <= dist <= total_dist + 1,
                all_dims(vectors@, dims as nat),
            decreases total_dist + 1 - dist,
        {
            let rest = manhattan_offsets(dims - 1, (total_dist - dist) as usize);
            let rest_copy: Vec<Vec<i32>> = clone_offsets(&rest);
            let mut with_pos = extend_vectors(rest_copy, dist);
            vectors.append(&mut with_pos);
            if dist != 0 {
                let with_neg = extend_vectors(rest, -dist);
                let mut with_neg = with_neg;
                vectors.append(&mut with_neg);
            }
            proof {
                assert forall|k: int| 0 <= k < vectors@.len() implies (#[trigger] vectors@[k])@.len()
                    == dims as nat by {}
            }
            dist = dist + 1;
        }
        vectors
    }
}

/// A deep copy of a batch of offset vectors.
#[verifier::loop_isolation(false)]
pub fn clone_offsets(vs: &Vec<Vec<i32>>) -> (r: Vec<Vec<i32>>)
    ensures
        r@.len() == vs@.len(),
        forall|k: int| 0 <= k < r@.len() ==> (#[trigger] r@[k])@ == vs@[k]@,
{
    let mut r: Vec<Vec<i32>> = Vec::new();
    let mut k: usize = 0;
    while k < vs.len()
        invariant
            k <= vs@.len(),
            r@.len() == k,
            forall|m: int| 0 <= m < k ==> (#[trigger] r@[m])@ == vs@[m]@,
        decreases vs@.len() - k,
    {
        let v = &vs[k];
        let vlen = v.len();
        let mut copy: Vec<i32> = Vec::new();
        let mut d: usize = 0;
        while d < vlen
            invariant
                vlen == v@.len(),
                d <= vlen,
                copy@ == v@.take(d as int),
            decreases vlen - d,
        {
            copy.push(v[d]);
            proof {
                assert(copy@ =~= v@.take(d + 1));
            }
            d += 1;
        }
        proof {
            assert(copy@ =~= v@);
        }
        r.push(copy);
        k += 1;
    }
    r
}

/// Neighbour offsets within a chessboard (king-move) ball: every coordinate
/// independently ranges over the distance.
#[verifier::loop_isolation(false)]
pub fn king_offsets(dims: usize, chessboard_distance: usize) -> (r: Vec<Vec<i32>>)
    requires
        chessboard_distance <= 0x3fff_ffff,
    ensures
        all_dims(r@, dims as nat),
    decreases dims,
{
    let total_dist = chessboard_distance as i32;
    if chessboard_distance == 0 || dims == 0 {
        let mut zero: Vec<i32> = Vec::new();
        let mut d: usize = 0;
        while d < dims
            invariant
                d <= dims,
                zero@.len() == d,
            decreases dims - d,
        {
            zero.push(0);
            d += 1;
        }
        let mut r: Vec<Vec<i32>> = Vec::new();
        r.push(zero);
        r
    } else if dims == 1 {
        let mut r: Vec<Vec<i32>> = Vec::new();
        let mut v: i32 = -total_dist;
        while v <= total_dist
            invariant
                -total_dist <= v <= total_dist + 1,
                all_dims(r@, 1),
            decreases total_dist + 1 - v,
        {
            let mut single: Vec<i32> = Vec::new();
            single.push(v);
            r.push(single);
            v = v + 1;
        }
        r
    } else {
        let rest = king_offsets(dims - 1, chessboard_distance);
        let mut vectors: Vec<Vec<i32>> = Vec::new();
        let rest_zero = clone_offsets(&rest);
        let mut with_zero = extend_vectors(rest_zero, 0);
        vectors.append(&mut with_zero);
        let mut dist: i32 = 1;
        while dist <= total_dist
            invariant
                1 <= dist <= total_dist + 1,
                all_dims(vectors@, dims as nat),
                all_dims(rest@, (dims - 1) as nat),
            decreases total_dist + 1 - dist,
        {
            let rest_pos = clone_offsets(&rest);
            let mut with_pos = extend_vectors(rest_pos, dist);
            vectors.append(&mut with_pos);
            let rest_neg = clone_offsets(&rest);
            let mut with_neg = extend_vectors(rest_neg, -dist);
            vectors.append(&mut with_neg);
            dist = dist + 1;
        }
        vectors
    }
}

} // verus!

verus! {

/// The mixed-radix description of a grid: the sides of its dimensions, the
/// first varying fastest.
pub struct CartesianData {
    pub sides: Vec<usize>,
    pub size: usize,
}

/// The number of cells of a grid with the given sides.
pub open spec fn sides_product(sides: Seq<usize>) -> nat
    decreases sides.len(),
{
    if sides.len() == 0 {
        1
    } else {
        (sides_product(sides.drop_last()) * sides.last()) as nat
    }
}

impl CartesianData {
    /// Builds the grid description; the number of cells must be
    /// representable.
    #[verifier::loop_isolation(false)]
    pub fn new(sides: &Vec<usize>) -> (r: Result<CartesianData, Error>)
        ensures
            r matches Ok(c) ==> {
                &&& c.sides@ == sides@
                &&& c.size as nat == sides_product(sides@)
            },
    {
        let mut size: usize = 1;
        let mut d: usize = 0;
        while d < sides.len()
            invariant
                d <= sides@.len(),
                size as nat == sides_product(sides@.take(d as int)),
            decreases sides@.len() - d,
        {
            let side = sides[d];
            let next = size.checked_mul(side);
            match next {
                Some(v) => {
                    proof {
                        assert(sides@.take(d + 1).drop_last() =~= sides@.take(d as int));
                        assert(sides@.take(d + 1).last() == side);
                    }
                    size = v;
                },
                None => {
                    return Err(Error::SizeOutOfRange { size: side });
                },
            }
            d += 1;
        }
        proof {
            assert(sides@.take(sides@.len() as int) =~= sides@);
        }
        let mut copy: Vec<usize> = Vec::new();
        let slen = sides.len();
        let mut d: usize = 0;
        while d < slen
            invariant
                slen == sides@.len(),
                d <= slen,
                copy@ == sides@.take(d as int),
            decreases slen - d,
        {
            copy.push(sides[d]);
            proof {
                assert(copy@ =~= sides@.take(d + 1));
            }
            d += 1;
        }
        proof {
            assert(copy@ =~= sides@);
        }
        Ok(CartesianData { sides: copy, size })
    }

    /// The coordinates of cell `i`, the first dimension varying fastest.
    #[verifier::loop_isolation(false)]
    pub fn unpack(&self, i: usize) -> (r: Vec<usize>)
        ensures
            r@.len() == self.sides@.len(),
            forall|d: int|
                0 <= d < r@.len() && self.sides@[d] > 0 ==> (#[trigger] r@[d]) < self.sides@[d],
    {
        let mut residue = i;
        let mut coords: Vec<usize> = Vec::new();
        let mut d: usize = 0;
        while d < self.sides.len()
            invariant
                d <= self.sides@.len(),
                coords@.len() == d,
                forall|m: int|
                    0 <= m < d && self.sides@[m] > 0 ==> (#[trigger] coords@[m]) < self.sides@[m],
            decreases self.sides@.len() - d,
        {
            let side = self.sides[d];
            if side == 0 {
                coords.push(0);
            } else {
                coords.push(residue % side);
                residue = residue / side;
            }
            d += 1;
        }
        coords
    }

    /// The cell a coordinate vector denotes, computed with saturation so an
    /// out-of-grid coordinate can never wrap around.
    #[verifier::loop_isolation(false)]
    pub fn pack(&self, coords: &Vec<usize>) -> (r: usize)
        requires
            coords@.len() == self.sides@.len(),
    {
        let mut value: u128 = 0;
        let mut stride: u128 = 1;
        let mut d: usize = 0;
        while d < self.sides.len()
            invariant
                d <= self.sides@.len(),
                coords@.len() == self.sides@.len(),
                value <= 0xffff_ffff_ffff_ffffu128,
                stride <= 0xffff_ffff_ffff_ffffu128,
            decreases self.sides@.len() - d,
        {
            let c = coords[d] as u128;
            let contribution = c.checked_mul(stride);
            let new_value = match contribution {
                Some(x) => value.checked_add(x),
                None => None,
            };
            match new_value {
                Some(v) => {
                    if v > 0xffff_ffff_ffff_ffffu128 {
                        value = 0xffff_ffff_ffff_ffffu128;
                    } else {
                        value = v;
                    }
                },
                None => {
                    value = 0xffff_ffff_ffff_ffffu128;
                },
            }
            let new_stride = stride.checked_mul(self.sides[d] as u128);
            match new_stride {
                Some(x) => {
                    if x > 0xffff_ffff_ffff_ffffu128 {
                        stride = 0xffff_ffff_ffff_ffffu128;
                    } else {
                        stride = x;
                    }
                },
                None => {
                    stride = 0xffff_ffff_ffff_ffffu128;
                },
            }
            d += 1;
        }
        #[verifier::truncate] (value as usize)
    }
}

/// The neighbours of every grid cell under the given offsets, without
/// wrap-around: an offset that leaves the grid contributes nothing.
#[verifier::loop_isolation(false)]
pub fn get_non_modular_neighbours_from_vector(
    sides: &Vec<usize>,
    vector_neighbours: &Vec<Vec<i32>>,
) -> (r: Result<Vec<Vec<usize>>, Error>)
    requires
        all_dims(vector_neighbours@, sides@.len()),
    ensures
        r matches Ok(table) ==> table@.len() == sides_product(sides@),
{
    let cartesian_data = match CartesianData::new(sides) {
        Ok(c) => c,
        Err(e) => {
            return Err(e);
        },
    };
    let size = cartesian_data.size;
    let mut all_neighbours: Vec<Vec<usize>> = Vec::new();
    let mut i: usize = 0;
    while i < size
        invariant
            i <= size,
            size as nat == sides_product(sides@),
            cartesian_data.sides@ == sides@,
            all_neighbours@.len() == i,
        decreases size - i,
    {
        let i_coord = cartesian_data.unpack(i);
        let mut neighbours: Vec<usize> = Vec::new();
        let mut j: usize = 0;
        while j < vector_neighbours.len()
            invariant
                j <= vector_neighbours@.len(),
                i_coord@.len() == sides@.len(),
                cartesian_data.sides@ == sides@,
                size as nat == sides_product(sides@),
            decreases vector_neighbours@.len() - j,
        {
            let offset = &vector_neighbours[j];
            let mut neighbour: Vec<usize> = Vec::new();
            let mut ok = true;
            let mut d: usize = 0;
            while d < i_coord.len()
                invariant
                    d <= i_coord@.len(),
                    i_coord@.len() == sides@.len(),
                    offset@.len() == sides@.len(),
                    ok ==> neighbour@.len() == d,
                decreases i_coord@.len() - d,
            {
                if ok {
                    let base = i_coord[d] as i128;
                    let delta = offset[d] as i128;
                    let new_coord_value = base + delta;
                    if new_coord_value >= 0 && (new_coord_value as u128) < (sides[d] as u128) {
                        neighbour.push(new_coord_value as usize);
                    } else {
                        ok = false;
                    }
                }
                d += 1;
            }
            if ok {
                let packed = cartesian_data.pack(&neighbour);
                if packed < size {
                    neighbours.push(packed);
                }
            }
            j += 1;
        }
        all_neighbours.push(neighbours);
        i += 1;
    }
    Ok(all_neighbours)
}

/// The neighbours of every grid cell under the given offsets, with
/// wrap-around.
#[verifier::loop_isolation(false)]
pub fn get_modular_neighbours_from_vector(
    sides: &Vec<usize>,
    vector_neighbours: &Vec<Vec<i32>>,
) -> (r: Result<Vec<Vec<usize>>, Error>)
    requires
        all_dims(vector_neighbours@, sides@.len()),
        forall|d: int| 0 <= d < sides@.len() ==> (#[trigger] sides@[d]) > 0,
    ensures
        r matches Ok(table) ==> table@.len() == sides_product(sides@),
{
    let cartesian_data = match CartesianData::new(sides) {
        Ok(c) => c,
        Err(e) => {
            return Err(e);
        },
    };
    let size = cartesian_data.size;
    let mut all_neighbours: Vec<Vec<usize>> = Vec::new();
    let mut i: usize = 0;
    while i < size
        invariant
            i <= size,
            size as nat == sides_product(sides@),
            cartesian_data.sides@ == sides@,
            all_neighbours@.len() == i,
        decreases size - i,
    {
        let i_coord = cartesian_data.unpack(i);
        let mut neighbours: Vec<usize> = Vec::new();
        let mut j: usize = 0;
        while j < vector_neighbours.len()
            invariant
                j <= vector_neighbours@.len(),
                i_coord@.len() == sides@.len(),
                cartesian_data.sides@ == sides@,
                size as nat == sides_product(sides@),
                forall|m: int|
                    0 <= m < i_coord@.len() && sides@[m] > 0 ==> (#[trigger] i_coord@[m])
                        < sides@[m],
            decreases vector_neighbours@.len() - j,
        {
            let offset = &vector_neighbours[j];
            let mut neighbour: Vec<usize> = Vec::new();
            let mut d: usize = 0;
            while d < i_coord.len()
                invariant
                    d <= i_coord@.len(),
                    i_coord@.len() == sides@.len(),
                    offset@.len() == sides@.len(),
                    neighbour@.len() == d,
                    forall|m: int|
                        0 <= m < i_coord@.len() && sides@[m] > 0 ==> (#[trigger] i_coord@[m])
                            < sides@[m],
                decreases i_coord@.len() - d,
            {
                let side = sides[d];
                let s128 = side as i128;
                let a = offset[d] as i128;
                let r0 = a % s128;
                let wrapped: i128 = if r0 < 0 {
                    r0 + s128
                } else {
                    r0
                };
                let combined = (((wrapped as u128) + (i_coord[d] as u128)) % (side as u128))
                    as usize;
                neighbour.push(combined);
                d += 1;
            }
            let packed = cartesian_data.pack(&neighbour);
            if packed < size {
                neighbours.push(packed);
            }
            j += 1;
        }
        all_neighbours.push(neighbours);
        i += 1;
    }
    Ok(all_neighbours)
}

} // verus!

verus! {

/// A precomputed neighbour table: element `i` maps to its neighbours.
pub open spec fn neighbour_table_ens(table: Seq<Vec<usize>>, param: usize, r: Seq<usize>) -> bool {
    (param as int) < table.len() ==> r == table[param as int]@
}

/// Selects the elements within a Manhattan ball around each grid cell, with
/// no wrap-around.
pub struct ManhattanNeighbours {
    neighbours: Vec<Vec<usize>>,
}

impl ManhattanNeighbours {
    /// Builds the table for a grid with the given sides.
    pub fn new(sides: &Vec<usize>, distance: usize) -> (r: Result<ManhattanNeighbours, Error>)
        requires
            distance <= 0x3fff_ffff,
        ensures
            r matches Ok(t) ==> t.table().len() == sides_product(sides@),
    {
        let vector_neighbours = Self::get_vectors_in_manhattan_distance(sides, distance);
        let neighbours = match get_non_modular_neighbours_from_vector(sides, &vector_neighbours) {
            Ok(t) => t,
            Err(e) => {
                return Err(e);
            },
        };
        Ok(ManhattanNeighbours { neighbours })
    }

    pub closed spec fn table(&self) -> Seq<Vec<usize>> {
        self.neighbours@
    }

    /// The non-zero offsets of the Manhattan ball, sorted.
    pub fn get_vectors_in_manhattan_distance(sides: &Vec<usize>, manhattan_distance: usize) -> (r:
        Vec<Vec<i32>>)
        requires
            manhattan_distance <= 0x3fff_ffff,
        ensures
            all_dims(r@, sides@.len()),
            forall|k: int| 0 <= k < r@.len() ==> has_nonzero((#[trigger] r@[k])@),
    {
        let vectors = Self::get_vectors_in_manhattan_distance_aux(sides, manhattan_distance);
        clean_offsets(vectors, sides.len())
    }

    /// All offsets of the Manhattan ball, the all-zero offset included.
    pub fn get_vectors_in_manhattan_distance_aux(sides: &Vec<usize>, manhattan_distance: usize) -> (r:
        Vec<Vec<i32>>)
        requires
            manhattan_distance <= 0x3fff_ffff,
        ensures
            all_dims(r@, sides@.len()),
    {
        manhattan_offsets(sides.len(), manhattan_distance)
    }
}

impl GeneralPattern<usize, Vec<usize>> for ManhattanNeighbours {
    open spec fn req(&self, param: usize) -> bool {
        (param as int) < self.table().len()
    }

    open spec fn ens(&self, param: usize, result: Vec<usize>) -> bool {
        neighbour_table_ens(self.table(), param, result@)
    }

    open spec fn init_ens(
        &self,
        prev: Self,
        source_size: usize,
        target_size: usize,
        r: Result<(), Error>,
    ) -> bool {
        &&& *self == prev
        &&& (r is Ok <==> (source_size as int == self.table().len() && target_size as int
            == self.table().len()))
    }

    fn initialize(
        &mut self,
        source_size: usize,
        target_size: usize,
        topology: Option<&Topology>,
        rng: &mut StdRng,
    ) -> (r: Result<(), Error>) {
        if source_size == self.neighbours.len() && target_size == self.neighbours.len() {
            Ok(())
        } else {
            Err(Error::MismatchedSizes)
        }
    }

    fn get_destination(&self, param: usize, topology: Option<&Topology>, rng: &mut StdRng) -> (r:
        Vec<usize>) {
        clone_ids(&self.neighbours[param])
    }
}

/// A deep copy of a list of element identifiers.
#[verifier::loop_isolation(false)]
pub fn clone_ids(v: &Vec<usize>) -> (r: Vec<usize>)
    ensures
        r@ == v@,
{
    let mut copy: Vec<usize> = Vec::new();
    let vlen = v.len();
    let mut d: usize = 0;
    while d < vlen
        invariant
            vlen == v@.len(),
            d <= vlen,
            copy@ == v@.take(d as int),
        decreases vlen - d,
    {
        copy.push(v[d]);
        proof {
            assert(copy@ =~= v@.take(d + 1));
        }
        d += 1;
    }
    proof {
        assert(copy@ =~= v@);
    }
    copy
}

/// Selects the elements within a chessboard (king-move) ball around each
/// grid cell, with no wrap-around.
pub struct KingNeighbours {
    neighbours: Vec<Vec<usize>>,
}

impl KingNeighbours {
    pub fn new(sides: &Vec<usize>, distance: usize) -> (r: Result<KingNeighbours, Error>)
        requires
            distance <= 0x3fff_ffff,
        ensures
            r matches Ok(t) ==> t.table().len() == sides_product(sides@),
    {
        let vector_neighbours = Self::get_vectors_in_king_distance(sides, distance);
        let neighbours = match get_non_modular_neighbours_from_vector(sides, &vector_neighbours) {
            Ok(t) => t,
            Err(e) => {
                return Err(e);
            },
        };
        Ok(KingNeighbours { neighbours })
    }

    pub closed spec fn table(&self) -> Seq<Vec<usize>> {
        self.neighbours@
    }

    /// The non-zero offsets of the chessboard ball, sorted.
    pub fn get_vectors_in_king_distance(sides: &Vec<usize>, chessboard_distance: usize) -> (r: Vec<
        Vec<i32>,
    >)
        requires
            chessboard_distance <= 0x3fff_ffff,
        ensures
            all_dims(r@, sides@.len()),
            forall|k: int| 0 <= k < r@.len() ==> has_nonzero((#[trigger] r@[k])@),
    {
        let vectors = Self::get_vectors_in_king_distance_aux(sides, chessboard_distance);
        clean_offsets(vectors, sides.len())
    }

    /// All offsets of the chessboard ball, the all-zero offset included.
    pub fn get_vectors_in_king_distance_aux(sides: &Vec<usize>, chessboard_distance: usize) -> (r:
        Vec<Vec<i32>>)
        requires
            chessboard_distance <= 0x3fff_ffff,
        ensures
            all_dims(r@, sides@.len()),
    {
        king_offsets(sides.len(), chessboard_distance)
    }
}

impl GeneralPattern<usize, Vec<usize>> for KingNeighbours {
    open spec fn req(&self, param: usize) -> bool {
        (param as int) < self.table().len()
    }

    open spec fn ens(&self, param: usize, result: Vec<usize>) -> bool {
        neighbour_table_ens(self.table(), param, result@)
    }

    open spec fn init_ens(
        &self,
        prev: Self,
        source_size: usize,
        target_size: usize,
        r: Result<(), Error>,
    ) -> bool {
        &&& *self == prev
        &&& (r is Ok <==> (source_size as int == self.table().len() && target_size as int
            == self.table().len()))
    }

    fn initialize(
        &mut self,
        source_size: usize,
        target_size: usize,
        topology: Option<&Topology>,
        rng: &mut StdRng,
    ) -> (r: Result<(), Error>) {
        if source_size == self.neighbours.len() && target_size == self.neighbours.len() {
            Ok(())
        } else {
            Err(Error::MismatchedSizes)
        }
    }

    fn get_destination(&self, param: usize, topology: Option<&Topology>, rng: &mut StdRng) -> (r:
        Vec<usize>) {
        clone_ids(&self.neighbours[param])
    }
}

/// Selects each element's neighbours in a hypercube: the size must be a
/// power of two and each element is adjacent to the elements that differ
/// from it in exactly one bit.
pub struct HypercubeNeighbours {
    neighbours: Vec<Vec<usize>>,
}

impl HypercubeNeighbours {
    pub fn new() -> (r: HypercubeNeighbours)
        ensures
            r.table().len() == 0,
    {
        HypercubeNeighbours { neighbours: Vec::new() }
    }

    pub closed spec fn table(&self) -> Seq<Vec<usize>> {
        self.neighbours@
    }

    /// The hypercube adjacency lists for `source_size` elements.
    #[verifier::loop_isolation(false)]
    pub fn get_neighbours(source_size: usize) -> (r: Vec<Vec<usize>>)
        ensures
            r@.len() == source_size,
    {
        let mut dimensions: usize = 0;
        let mut p: usize = 1;
        while p < source_size && dimensions < 64
            invariant
                dimensions <= 64,
            decreases 64 - dimensions,
        {
            if p > usize::MAX / 2 {
                break ;
            }
            p = p * 2;
            dimensions += 1;
        }
        let mut neighbours: Vec<Vec<usize>> = Vec::new();
        let mut i: usize = 0;
        while i < source_size
            invariant
                i <= source_size,
                neighbours@.len() == i,
                dimensions <= 64,
            decreases source_size - i,
        {
            let mut local_neighbours: Vec<usize> = Vec::new();
            let mut j: usize = 0;
            let mut bit: usize = 1;
            while j < dimensions
                invariant
                    j <= dimensions,
                    dimensions <= 64,
                    bit >= 1,
                decreases dimensions - j,
            {
                local_neighbours.push(i ^ bit);
                if bit <= usize::MAX / 2 {
                    bit = bit * 2;
                }
                j += 1;
            }
            neighbours.push(local_neighbours);
            i += 1;
        }
        neighbours
    }
}

impl GeneralPattern<usize, Vec<usize>> for HypercubeNeighbours {
    open spec fn req(&self, param: usize) -> bool {
        true
    }

    open spec fn ens(&self, param: usize, result: Vec<usize>) -> bool {
        neighbour_table_ens(self.table(), param, result@)
    }

    open spec fn init_ens(
        &self,
        prev: Self,
        source_size: usize,
        target_size: usize,
        r: Result<(), Error>,
    ) -> bool {
        r is Ok ==> self.table().len() == source_size as int
    }

    fn initialize(
        &mut self,
        source_size: usize,
        target_size: usize,
        topology: Option<&Topology>,
        rng: &mut StdRng,
    ) -> (r: Result<(), Error>) {
        if source_size != target_size {
            return Err(Error::MismatchedSizes);
        }
        if source_size == 0 || (source_size & (source_size - 1)) != 0 {
            return Err(Error::NotPowerOfTwo { size: source_size });
        }
        self.neighbours = Self::get_neighbours(source_size);
        Ok(())
    }

    fn get_destination(&self, param: usize, topology: Option<&Topology>, rng: &mut StdRng) -> (r:
        Vec<usize>) {
        if param < self.neighbours.len() {
            clone_ids(&self.neighbours[param])
        } else {
            Vec::new()
        }
    }
}

} // verus!

verus! {

/// Makes every other element a neighbour, in the cyclic order starting just
/// after the element itself.
pub struct AllNeighbours {
    neighbours: Vec<Vec<usize>>,
}

impl AllNeighbours {
    pub fn new() -> (r: AllNeighbours)
        ensures
            r.table().len() == 0,
    {
        AllNeighbours { neighbours: Vec::new() }
    }

    pub closed spec fn table(&self) -> Seq<Vec<usize>> {
        self.neighbours@
    }
}

impl GeneralPattern<usize, Vec<usize>> for AllNeighbours {
    open spec fn req(&self, param: usize) -> bool {
        true
    }

    open spec fn ens(&self, param: usize, result: Vec<usize>) -> bool {
        neighbour_table_ens(self.table(), param, result@)
    }

    open spec fn init_ens(
        &self,
        prev: Self,
        source_size: usize,
        target_size: usize,
        r: Result<(), Error>,
    ) -> bool {
        &&& (r is Ok <==> source_size == target_size)
        &&& r is Ok ==> {
            &&& self.table().len() == source_size as int
            &&& forall|i: int, j: int|
                #![trigger self.table()[i]@[j]]
                0 <= i < source_size && 0 <= j < source_size - 1 ==> self.table()[i]@.len()
                    == source_size - 1 && self.table()[i]@[j] == ((i + j + 1) % (
                source_size as int))
        }
    }

    #[verifier::loop_isolation(false)]
    fn initialize(
        &mut self,
        source_size: usize,
        target_size: usize,
        topology: Option<&Topology>,
        rng: &mut StdRng,
    ) -> (r: Result<(), Error>) {
        if source_size != target_size {
            return Err(Error::MismatchedSizes);
        }
        let mut neighbours: Vec<Vec<usize>> = Vec::new();
        let mut i: usize = 0;
        while i < source_size
            invariant
                i <= source_size,
                neighbours@.len() == i,
                forall|a: int| 0 <= a < i ==> (#[trigger] neighbours@[a])@.len() == source_size
                    - 1,
                forall|a: int, jj: int|
                    #![trigger neighbours@[a]@[jj]]
                    0 <= a < i && 0 <= jj < source_size - 1 ==> neighbours@[a]@[jj] == ((a + jj
                        + 1) % (source_size as int)),
            decreases source_size - i,
        {
            let mut row: Vec<usize> = Vec::new();
            let mut j: usize = 1;
            while j < source_size
                invariant
                    1 <= j <= source_size || (source_size == 0 && j == 1),
                    i < source_size,
                    row@.len() == j - 1,
                    forall|m: int|
                        0 <= m < j - 1 ==> (#[trigger] row@[m]) == ((i + m + 1) % (
                        source_size as int)),
                decreases source_size - j,
            {
                let value = ((i as u128 + j as u128) % (source_size as u128)) as usize;
                row.push(value);
                j += 1;
            }
            let ghost before = neighbours@;
            neighbours.push(row);
            proof {
                assert forall|a: int| 0 <= a < i + 1 implies (#[trigger] neighbours@[a])@.len()
                    == source_size - 1 by {
                    if a < i as int {
                        assert(neighbours@[a] == before[a]);
                    } else {
                        assert(neighbours@[a] == row);
                    }
                }
                assert forall|a: int, j2: int|
                    #![trigger neighbours@[a]@[j2]]
                    0 <= a < i + 1 && 0 <= j2 < source_size - 1 implies neighbours@[a]@[j2] == ((a
                    + j2 + 1) % (source_size as int)) by {
                    if a < i as int {
                        assert(neighbours@[a] == before[a]);
                        assert(before[a]@[j2] == ((a + j2 + 1) % (source_size as int)));
                    } else {
                        assert(neighbours@[a] == row);
                        assert(row@[j2] == ((a + j2 + 1) % (source_size as int)));
                    }
                }
            }
            i += 1;
        }
        self.neighbours = neighbours;
        Ok(())
    }

    fn get_destination(&self, param: usize, topology: Option<&Topology>, rng: &mut StdRng) -> (r:
        Vec<usize>) {
        if param < self.neighbours.len() {
            clone_ids(&self.neighbours[param])
        } else {
            Vec::new()
        }
    }
}

/// Selects, for every grid cell, the neighbours reached by a configured set
/// of offset vectors, with or without wrap-around.
pub struct ImmediateNeighbours {
    sides: Vec<usize>,
    vector_neighbours: Vec<Vec<i32>>,
    neighbours: Vec<Vec<usize>>,
    modular: bool,
}

impl ImmediateNeighbours {
    pub fn new(sides: Vec<usize>, vector_neighbours: Vec<Vec<i32>>, modular: bool) -> (r:
        ImmediateNeighbours)
        ensures
            r.table().len() == 0,
    {
        ImmediateNeighbours { sides, vector_neighbours, neighbours: Vec::new(), modular }
    }

    pub closed spec fn table(&self) -> Seq<Vec<usize>> {
        self.neighbours@
    }

    pub closed spec fn sides_of(&self) -> Seq<usize> {
        self.sides@
    }

    pub closed spec fn vectors_of(&self) -> Seq<Vec<i32>> {
        self.vector_neighbours@
    }

    pub closed spec fn modular_of(&self) -> bool {
        self.modular
    }
}

impl GeneralPattern<usize, Vec<usize>> for ImmediateNeighbours {
    open spec fn req(&self, param: usize) -> bool {
        true
    }

    open spec fn ens(&self, param: usize, result: Vec<usize>) -> bool {
        neighbour_table_ens(self.table(), param, result@)
    }

    open spec fn init_ens(
        &self,
        prev: Self,
        source_size: usize,
        target_size: usize,
        r: Result<(), Error>,
    ) -> bool {
        &&& self.sides_of() == prev.sides_of()
        &&& self.vectors_of() == prev.vectors_of()
        &&& self.modular_of() == prev.modular_of()
        &&& (r is Ok ==> {
            &&& source_size == target_size
            &&& all_dims(self.vectors_of(), self.sides_of().len())
            &&& (self.modular_of() ==> forall|d: int|
                0 <= d < self.sides_of().len() ==> (#[trigger] self.sides_of()[d]) > 0)
            &&& self.table().len() == sides_product(self.sides_of())
        })
        &&& (r is Err ==> self.table() == prev.table())
    }

    #[verifier::loop_isolation(false)]
    fn initialize(
        &mut self,
        source_size: usize,
        target_size: usize,
        topology: Option<&Topology>,
        rng: &mut StdRng,
    ) -> (r: Result<(), Error>) {
        if source_size != target_size {
            return Err(Error::MismatchedSizes);
        }
        let mut k: usize = 0;
        while k < self.vector_neighbours.len()
            invariant
                k <= self.vector_neighbours@.len(),
                forall|m: int|
                    0 <= m < k ==> (#[trigger] self.vector_neighbours@[m])@.len()
                        == self.sides@.len(),
            decreases self.vector_neighbours@.len() - k,
        {
            if self.vector_neighbours[k].len() != self.sides.len() {
                return Err(Error::MismatchedSizes);
            }
            k += 1;
        }
        if self.modular {
            let mut d: usize = 0;
            while d < self.sides.len()
                invariant
                    d <= self.sides@.len(),
                    forall|m: int| 0 <= m < d ==> (#[trigger] self.sides@[m]) > 0,
                decreases self.sides@.len() - d,
            {
                if self.sides[d] == 0 {
                    return Err(Error::MismatchedSizes);
                }
                d += 1;
            }
            let table = match get_modular_neighbours_from_vector(
                &self.sides,
                &self.vector_neighbours,
            ) {
                Ok(t) => t,
                Err(e) => {
                    return Err(e);
                },
            };
            self.neighbours = table;
        } else {
            let table = match get_non_modular_neighbours_from_vector(
                &self.sides,
                &self.vector_neighbours,
            ) {
                Ok(t) => t,
                Err(e) => {
                    return Err(e);
                },
            };
            self.neighbours = table;
        }
        Ok(())
    }

    fn get_destination(&self, param: usize, topology: Option<&Topology>, rng: &mut StdRng) -> (r:
        Vec<usize>) {
        if param < self.neighbours.len() {
            clone_ids(&self.neighbours[param])
        } else {
            Vec::new()
        }
    }
}

/// The fields of an `ImmediateNeighbours` configuration object.
pub struct ImmediateNeighboursCVBuilder {
    pub sides: Vec<usize>,
    pub vector_neighbours: Vec<Vec<i32>>,
    pub modular: bool,
}

/// Writes an `ImmediateNeighbours` configuration object for the surrounding
/// simulator.
#[verifier::loop_isolation(false)]
pub fn immediate_neighbours_cv_builder(arg: ImmediateNeighboursCVBuilder) -> (r: ConfigurationValue)
    ensures
        r matches ConfigurationValue::Object(name, pairs) && name@ == "ImmediateNeighbours"@ && {
            &&& pairs@.len() == 3
            &&& pairs@[0].0@ == "sides"@
            &&& (pairs@[0].1 matches ConfigurationValue::Array(items)
                && crate::simple_pattern::encodes_usizes(items@, arg.sides@))
            &&& pairs@[1].0@ == "vector_neighbours"@
            &&& (pairs@[1].1 matches ConfigurationValue::Array(rows)
                && crate::pattern_builders::encodes_i32_rows(rows@, arg.vector_neighbours@))
            &&& pairs@[2].0@ == "modular"@
            &&& pairs@[2].1 == if arg.modular {
                ConfigurationValue::True
            } else {
                ConfigurationValue::False
            }
        },
{
    broadcast use vstd::string::to_string_from_display_ensures_for_str;

    let mut sides_cv: Vec<ConfigurationValue> = Vec::new();
    let mut d: usize = 0;
    while d < arg.sides.len()
        invariant
            d <= arg.sides@.len(),
            sides_cv@.len() == d,
            forall|j: int|
                0 <= j < d ==> ((#[trigger] sides_cv@[j]) matches ConfigurationValue::Number(n)
                    && n as int == crate::simple_pattern::usize_as_number(arg.sides@[j])),
        decreases arg.sides@.len() - d,
    {
        let v = arg.sides[d];
        let v128 = v as u128;
        let n = if v128 > 0x7fff_ffff_ffff_ffffu128 {
            0x7fff_ffff_ffff_ffffi64
        } else {
            v128 as i64
        };
        sides_cv.push(ConfigurationValue::Number(n));
        d += 1;
    }
    let mut vectors_cv: Vec<ConfigurationValue> = Vec::new();
    let mut k: usize = 0;
    while k < arg.vector_neighbours.len()
        invariant
            k <= arg.vector_neighbours@.len(),
            vectors_cv@.len() == k,
            forall|j: int|
                0 <= j < k ==> ((#[trigger] vectors_cv@[j]) matches ConfigurationValue::Array(
                    inner,
                ) && crate::pattern_builders::encodes_i32s(
                    inner@,
                    arg.vector_neighbours@[j]@,
                )),
        decreases arg.vector_neighbours@.len() - k,
    {
        let v = &arg.vector_neighbours[k];
        let mut inner: Vec<ConfigurationValue> = Vec::new();
        let mut d: usize = 0;
        let vlen = v.len();
        while d < vlen
            invariant
                vlen == v@.len(),
                d <= vlen,
                v == &arg.vector_neighbours[k as int],
                inner@.len() == d,
                forall|j: int|
                    0 <= j < d ==> ((#[trigger] inner@[j]) matches ConfigurationValue::Number(n)
                        && n == v@[j] as i64),
            decreases vlen - d,
        {
            inner.push(ConfigurationValue::Number(v[d] as i64));
            d += 1;
        }
        vectors_cv.push(ConfigurationValue::Array(inner));
        k += 1;
    }
    let boolean = if arg.modular {
        ConfigurationValue::True
    } else {
        ConfigurationValue::False
    };
    let mut pairs: Vec<(String, ConfigurationValue)> = Vec::new();
    pairs.push(("sides".to_string(), ConfigurationValue::Array(sides_cv)));
    pairs.push(("vector_neighbours".to_string(), ConfigurationValue::Array(vectors_cv)));
    pairs.push(("modular".to_string(), boolean));
    ConfigurationValue::Object("ImmediateNeighbours".to_string(), pairs)
}

} // verus!
