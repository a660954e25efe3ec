use vstd::prelude::*;
use rand::rngs::StdRng;
use crate::errors::Error;
use crate::general_pattern::{GeneralPattern, ManyToManyParam, ManyToManyPattern};
use crate::model::vec_contains;
use crate::neighbours::clone_ids;
use crate::rng::shuffle;
use crate::topology::Topology;

verus! {

/// The elements of `s` are strictly increasing.
pub open spec fn strictly_increasing(s: Seq<usize>) -> bool {
    forall|k: int| 0 <= k < s.len() - 1 ==> (#[trigger] s[k]) < s[k + 1]
}

/// Every element of `r` occurs in `s`.
pub open spec fn elements_from(r: Seq<usize>, s: Seq<usize>) -> bool {
    forall|k: int| 0 <= k < r.len() ==> s.contains(#[trigger] r[k])
}

/// Sorts a list of element identifiers ascending; the same values come
/// back, rearranged.
#[verifier::loop_isolation(false)]
pub fn sort_ids(values: Vec<usize>) -> (r: Vec<usize>)
    ensures
        r@.to_multiset() == values@.to_multiset(),
        r@.len() == values@.len(),
{
    broadcast use vstd::seq_lib::group_to_multiset_ensures;

    let ghost original = values@;
    let mut input = values;
    let mut out: Vec<usize> = Vec::new();
    while input.len() > 0
        invariant
            out@.to_multiset().add(input@.to_multiset()) =~= original.to_multiset(),
            out@.len() + input@.len() == original.len(),
        decreases input@.len(),
    {
        let mut best: usize = 0;
        let mut j: usize = 1;
        while j < input.len()
            invariant
                best < input@.len(),
                j <= input@.len(),
            decreases input@.len() - j,
        {
            if input[j] < input[best] {
                best = j;
            }
            j += 1;
        }
        let ghost input_before = input@;
        let x = input.remove(best);
        out.push(x);
        proof {
            assert(input@.to_multiset() =~= input_before.to_multiset().remove(
                input_before[best as int],
            ));
            assert(out@.to_multiset().add(input@.to_multiset()) =~= original.to_multiset());
        }
    }
    out
}

/// Elements of a sorted multiset copy still come from the original list.
proof fn lemma_sorted_elements_from(sorted: Seq<usize>, original: Seq<usize>)
    requires
        sorted.to_multiset() == original.to_multiset(),
    ensures
        elements_from(sorted, original),
{
    broadcast use vstd::seq_lib::group_to_multiset_ensures;

    assert forall|k: int| 0 <= k < sorted.len() implies original.contains(
        #[trigger] sorted[k],
    ) by {
        assert(sorted.to_multiset().count(sorted[k]) > 0);
        assert(original.to_multiset().count(sorted[k]) > 0);
    }
}

/// Picks the first run of consecutive values of the requested length from a
/// strictly increasing list; an empty result means no run was long enough.
pub struct ConsecutiveSelection {}

impl ConsecutiveSelection {
    pub fn new() -> ConsecutiveSelection {
        ConsecutiveSelection {  }
    }
}

impl GeneralPattern<ManyToManyParam, Vec<usize>> for ConsecutiveSelection {
    open spec fn req(&self, param: ManyToManyParam) -> bool {
        &&& strictly_increasing(param.list@)
        &&& param.extra is Some
    }

    open spec fn ens(&self, param: ManyToManyParam, result: Vec<usize>) -> bool {
        &&& (param.extra->0 > 0 ==> (result@.len() == param.extra->0 || result@.len() == 0))
        &&& (param.extra->0 == 0 ==> result@.len() <= 1)
        &&& elements_from(result@, param.list@)
    }

    open spec fn init_ens(
        &self,
        prev: Self,
        source_size: usize,
        target_size: usize,
        r: Result<(), Error>,
    ) -> bool {
        r is Ok <==> source_size == target_size
    }

    fn initialize(
        &mut self,
        source_size: usize,
        target_size: usize,
        topology: Option<&Topology>,
        rng: &mut StdRng,
    ) -> (r: Result<(), Error>) {
        if source_size == target_size {
            Ok(())
        } else {
            Err(Error::MismatchedSizes)
        }
    }

    #[verifier::loop_isolation(false)]
    fn get_destination(
        &self,
        param: ManyToManyParam,
        topology: Option<&Topology>,
        rng: &mut StdRng,
    ) -> (r: Vec<usize>) {
        let to_select = param.extra.unwrap();
        let len = param.list.len();
        let mut index: usize = 0;
        while index < len
            invariant
                index <= len,
                len == param.list@.len(),
                to_select == param.extra->0,
            decreases len - index,
        {
            let mut selected_element: Vec<usize> = Vec::new();
            let element = param.list[index];
            selected_element.push(element);
            let mut element_coords = element;
            let ghost run_start = index as int;
            index += 1;
            proof {
                assert(selected_element@ =~= param.list@.subrange(run_start, index as int));
            }
            if selected_element.len() >= to_select {
                proof {
                    lemma_subrange_elements(param.list@, run_start, index as int);
                }
                return selected_element;
            }
            while index < len
                invariant
                    run_start < index <= len,
                    len == param.list@.len(),
                    to_select == param.extra->0,
                    selected_element@ == param.list@.subrange(run_start, index as int),
                    selected_element@.len() < to_select,
                decreases len - index,
            {
                let element_n = param.list[index];
                if element_coords < usize::MAX && element_n == element_coords + 1 {
                    selected_element.push(element_n);
                    element_coords = element_n;
                    index += 1;
                    proof {
                        assert(selected_element@ =~= param.list@.subrange(
                            run_start,
                            index as int,
                        ));
                    }
                    if selected_element.len() >= to_select {
                        proof {
                            lemma_subrange_elements(param.list@, run_start, index as int);
                        }
                        return selected_element;
                    }
                } else {
                    break ;
                }
            }
            if selected_element.len() >= to_select {
                proof {
                    lemma_subrange_elements(param.list@, run_start, index as int);
                }
                return selected_element;
            }
        }
        Vec::new()
    }
}

/// Every element of a subrange occurs in the sequence.
proof fn lemma_subrange_elements(s: Seq<usize>, lo: int, hi: int)
    requires
        0 <= lo <= hi <= s.len(),
    ensures
        elements_from(s.subrange(lo, hi), s),
{
    assert forall|k: int| 0 <= k < s.subrange(lo, hi).len() implies s.contains(
        #[trigger] s.subrange(lo, hi)[k],
    ) by {
        assert(s.subrange(lo, hi)[k] == s[lo + k]);
    }
}

/// Picks the requested number of elements from the list at random.
pub struct RandomSelection {}

impl RandomSelection {
    pub fn new() -> RandomSelection {
        RandomSelection {  }
    }
}

impl GeneralPattern<ManyToManyParam, Vec<usize>> for RandomSelection {
    open spec fn req(&self, param: ManyToManyParam) -> bool {
        &&& param.extra is Some
        &&& param.list@.len() >= param.extra->0
    }

    open spec fn ens(&self, param: ManyToManyParam, result: Vec<usize>) -> bool {
        &&& result@.len() == param.extra->0
        &&& elements_from(result@, param.list@)
    }

    open spec fn init_ens(
        &self,
        prev: Self,
        source_size: usize,
        target_size: usize,
        r: Result<(), Error>,
    ) -> bool {
        r is Ok <==> source_size == target_size
    }

    fn initialize(
        &mut self,
        source_size: usize,
        target_size: usize,
        topology: Option<&Topology>,
        rng: &mut StdRng,
    ) -> (r: Result<(), Error>) {
        if source_size == target_size {
            Ok(())
        } else {
            Err(Error::MismatchedSizes)
        }
    }

    #[verifier::loop_isolation(false)]
    fn get_destination(
        &self,
        param: ManyToManyParam,
        topology: Option<&Topology>,
        rng: &mut StdRng,
    ) -> (r: Vec<usize>) {
        broadcast use vstd::seq_lib::group_to_multiset_ensures;

        let mut list = clone_ids(&param.list);
        let ghost before = list@;
        shuffle(&mut list, rng);
        proof {
            assert forall|k: int| 0 <= k < list@.len() implies param.list@.contains(
                #[trigger] list@[k],
            ) by {
                assert(list@.to_multiset().count(list@[k]) > 0);
                assert(before.to_multiset().count(list@[k]) > 0);
                assert(before.contains(list@[k]));
            }
        }
        let to_select = param.extra.unwrap();
        let mut selected: Vec<usize> = Vec::new();
        let mut i: usize = 0;
        while i < to_select
            invariant
                i <= to_select,
                to_select <= list@.len(),
                selected@.len() == i,
                elements_from(selected@, param.list@),
                forall|k: int| 0 <= k < list@.len() ==> param.list@.contains(#[trigger] list@[k]),
            decreases to_select - i,
        {
            selected.push(list[i]);
            i += 1;
        }
        selected
    }
}

/// Picks elements block by block: the elements are grouped in fixed-size
/// blocks, fuller blocks are served first, and a nested pattern chooses
/// inside each block, until the requested number is reached; an empty result
/// means the request cannot be filled.
pub struct BlockSelection<S: ManyToManyPattern> {
    block_size: usize,
    selection_inside_block: S,
    number_of_blocks: usize,
    random_block_selection: bool,
}

impl<S: ManyToManyPattern> BlockSelection<S> {
    pub fn new(block_size: usize, selection_inside_block: S, random_block_selection: bool) -> (r:
        Result<BlockSelection<S>, Error>)
        ensures
            r matches Ok(b) ==> {
                &&& b.block_size_of() == block_size
                &&& b.blocks_of() == 0
            },
            r is Err <==> block_size == 0,
    {
        if block_size == 0 {
            return Err(Error::MismatchedSizes);
        }
        Ok(
            BlockSelection {
                block_size,
                selection_inside_block,
                number_of_blocks: 0,
                random_block_selection,
            },
        )
    }

    pub closed spec fn block_size_of(&self) -> usize {
        self.block_size
    }

    pub closed spec fn blocks_of(&self) -> usize {
        self.number_of_blocks
    }

    pub closed spec fn inner_of(&self) -> S {
        self.selection_inside_block
    }
}

impl<S: ManyToManyPattern> GeneralPattern<ManyToManyParam, Vec<usize>> for BlockSelection<S> {
    open spec fn req(&self, param: ManyToManyParam) -> bool {
        &&& param.extra is Some
        &&& forall|q: S, p: ManyToManyParam| #[trigger] q.req(p)
    }

    open spec fn ens(&self, param: ManyToManyParam, result: Vec<usize>) -> bool {
        result@.len() == param.extra->0 || result@.len() == 0
    }

    open spec fn init_ens(
        &self,
        prev: Self,
        source_size: usize,
        target_size: usize,
        r: Result<(), Error>,
    ) -> bool {
        &&& self.block_size_of() == prev.block_size_of()
        &&& (r is Ok && prev.block_size_of() > 0) ==> self.blocks_of() == source_size as int
            / prev.block_size_of() as int
        &&& ((source_size != target_size || prev.block_size_of() == 0) ==> r is Err)
    }

    fn initialize(
        &mut self,
        source_size: usize,
        target_size: usize,
        topology: Option<&Topology>,
        rng: &mut StdRng,
    ) -> (r: Result<(), Error>) {
        if source_size != target_size {
            return Err(Error::MismatchedSizes);
        }
        if self.block_size == 0 {
            return Err(Error::MismatchedSizes);
        }
        self.number_of_blocks = source_size / self.block_size;
        match self.selection_inside_block.initialize(source_size, target_size, topology, rng) {
            Ok(_) => Ok(()),
            Err(e) => Err(e),
        }
    }

    #[verifier::loop_isolation(false)]
    fn get_destination(
        &self,
        param: ManyToManyParam,
        topology: Option<&Topology>,
        rng: &mut StdRng,
    ) -> (r: Vec<usize>) {
        let to_select = param.extra.unwrap();
        if param.list.len() < to_select {
            return Vec::new();
        }
        // Group the elements into their blocks.
        let mut block_occupation: Vec<Vec<usize>> = Vec::new();
        let mut b: usize = 0;
        while b < self.number_of_blocks
            invariant
                b <= self.blocks_of(),
                block_occupation@.len() == b,
            decreases self.blocks_of() - b,
        {
            block_occupation.push(Vec::new());
            b += 1;
        }
        let mut i: usize = 0;
        while i < param.list.len()
            invariant
                i <= param.list@.len(),
                block_occupation@.len() == self.blocks_of(),
            decreases param.list@.len() - i,
        {
            let element = param.list[i];
            if self.block_size > 0 {
                let block = element / self.block_size;
                if block < self.number_of_blocks {
                    let mut row = block_occupation.remove(block);
                    row.push(element);
                    block_occupation.insert(block, row);
                }
            }
            i += 1;
        }
        // Order the blocks: fuller blocks first, earlier blocks breaking
        // ties; or a random order when so configured.
        let mut order: Vec<usize> = Vec::new();
        let mut b: usize = 0;
        while b < self.number_of_blocks
            invariant
                b <= self.blocks_of(),
                order@.len() == b,
                forall|k: int| 0 <= k < b ==> (#[trigger] order@[k]) < self.blocks_of(),
            decreases self.blocks_of() - b,
        {
            order.push(b);
            b += 1;
        }
        if self.random_block_selection {
            let ghost before = order@;
            shuffle(&mut order, rng);
            proof {
                broadcast use vstd::seq_lib::group_to_multiset_ensures;

                assert forall|k: int| 0 <= k < order@.len() implies (#[trigger] order@[k])
                    < self.blocks_of() by {
                    assert(order@.to_multiset().count(order@[k]) > 0);
                    assert(before.to_multiset().count(order@[k]) > 0);
                    assert(before.contains(order@[k]));
                }
            }
        } else {
            order = order_blocks_by_occupancy(&block_occupation, order);
        }
        // Walk the blocks repeatedly, letting the nested pattern pick inside
        // each, until the request is filled or a pass adds nothing.
        let mut partitions_ordered: Vec<Vec<usize>> = Vec::new();
        let mut k: usize = 0;
        while k < order.len()
            invariant
                k <= order@.len(),
                partitions_ordered@.len() == k,
                block_occupation@.len() == self.blocks_of(),
                forall|m: int| 0 <= m < order@.len() ==> (#[trigger] order@[m]) < self.blocks_of(),
            decreases order@.len() - k,
        {
            partitions_ordered.push(clone_ids(&block_occupation[order[k]]));
            k += 1;
        }
        let mut selected: Vec<usize> = Vec::new();
        loop
            invariant
                selected@.len() <= to_select,
            decreases to_select - selected@.len(),
        {
            if selected.len() >= to_select {
                break ;
            }
            let progress_before = selected.len();
            let mut index_block: usize = 0;
            while index_block < partitions_ordered.len()
                invariant
                    index_block <= partitions_ordered@.len(),
                    selected@.len() <= to_select,
                    selected@.len() >= progress_before,
                decreases partitions_ordered@.len() - index_block,
            {
                if selected.len() >= to_select {
                    break ;
                }
                let block_elements = clone_ids(&partitions_ordered[index_block]);
                let want = to_select - selected.len();
                let available = block_elements.len();
                let filter_param = ManyToManyParam {
                    origin: None,
                    current: None,
                    destination: None,
                    list: clone_ids(&block_elements),
                    extra: Some(
                        if want <= available {
                            want
                        } else {
                            available
                        },
                    ),
                };
                proof {
                    assert(self.selection_inside_block.req(filter_param));
                }
                let filtered = self.selection_inside_block.get_destination(
                    filter_param,
                    topology,
                    rng,
                );
                // Remove the freshly selected elements from the block and
                // record them, up to the requested total.
                let mut remaining: Vec<usize> = Vec::new();
                let mut m: usize = 0;
                while m < block_elements.len()
                    invariant
                        m <= block_elements@.len(),
                    decreases block_elements@.len() - m,
                {
                    if !vec_contains(&filtered, block_elements[m]) {
                        remaining.push(block_elements[m]);
                    }
                    m += 1;
                }
                let replaced = partitions_ordered.remove(index_block);
                partitions_ordered.insert(index_block, remaining);
                let _ = replaced;
                let mut m: usize = 0;
                while m < filtered.len()
                    invariant
                        m <= filtered@.len(),
                        selected@.len() <= to_select,
                        selected@.len() >= progress_before,
                    decreases filtered@.len() - m,
                {
                    if selected.len() < to_select {
                        selected.push(filtered[m]);
                    }
                    m += 1;
                }
                index_block += 1;
            }
            if selected.len() == progress_before {
                // A whole pass added nothing; the request cannot be filled.
                break ;
            }
        }
        if selected.len() < to_select {
            Vec::new()
        } else {
            sort_ids(selected)
        }
    }
}

/// Block indices reordered so that blocks with more recorded elements come
/// first, earlier blocks breaking ties.
#[verifier::loop_isolation(false)]
fn order_blocks_by_occupancy(block_occupation: &Vec<Vec<usize>>, order: Vec<usize>) -> (r: Vec<
    usize,
>)
    requires
        forall|k: int|
            0 <= k < order@.len() ==> (#[trigger] order@[k]) < block_occupation@.len(),
    ensures
        r@.len() == order@.len(),
        forall|k: int| 0 <= k < r@.len() ==> (#[trigger] r@[k]) < block_occupation@.len(),
{
    let ghost total = order@.len();
    let mut input = order;
    let mut out: Vec<usize> = Vec::new();
    while input.len() > 0
        invariant
            forall|k: int|
                0 <= k < input@.len() ==> (#[trigger] input@[k]) < block_occupation@.len(),
            forall|k: int| 0 <= k < out@.len() ==> (#[trigger] out@[k]) < block_occupation@.len(),
            out@.len() + input@.len() == total,
        decreases input@.len(),
    {
        let mut best: usize = 0;
        let mut j: usize = 1;
        while j < input.len()
            invariant
                best < input@.len(),
                j <= input@.len(),
                forall|k: int|
                    0 <= k < input@.len() ==> (#[trigger] input@[k]) < block_occupation@.len(),
            decreases input@.len() - j,
        {
            if block_occupation[input[j]].len() > block_occupation[input[best]].len() {
                best = j;
            }
            j += 1;
        }
        let x = input.remove(best);
        out.push(x);
    }
    out
}

} // verus!

verus! {

/// Whether two coordinate vectors hold the same values.
#[verifier::loop_isolation(false)]
fn coords_equal(a: &Vec<usize>, b: &Vec<usize>) -> (r: bool)
    ensures
        r == (a@ =~= b@),
{
    if a.len() != b.len() {
        return false;
    }
    let mut d: usize = 0;
    while d < a.len()
        invariant
            d <= a@.len(),
            a@.len() == b@.len(),
            forall|m: int| 0 <= m < d ==> a@[m] == b@[m],
        decreases a@.len() - d,
    {
        if a[d] != b[d] {
            return false;
        }
        d += 1;
    }
    true
}

/// The integer square root of a perfect square, when it is one.
#[verifier::loop_isolation(false)]
fn exact_sqrt(n: usize) -> (r: Option<usize>)
    ensures
        r matches Some(v) ==> v <= 65536,
{
    let mut root: usize = 0;
    while root < 65536
        invariant
            root <= 65536,
        decreases 65536 - root,
    {
        proof {
            assert((root as u128) * (root as u128) <= 65536u128 * 65536u128) by (nonlinear_arith)
                requires
                    root <= 65536,
            ;
        }
        let square = (root as u128) * (root as u128);
        if square == n as u128 {
            return Some(root);
        }
        if square > n as u128 {
            return None;
        }
        root += 1;
    }
    None
}

/// The first `count` elements of a list.
#[verifier::loop_isolation(false)]
fn take_prefix(values: Vec<usize>, count: usize) -> (r: Vec<usize>)
    requires
        count <= values@.len(),
    ensures
        r@.len() == count,
{
    let mut out: Vec<usize> = Vec::new();
    let mut k: usize = 0;
    while k < count
        invariant
            k <= count,
            count <= values@.len(),
            out@.len() == k,
        decreases count - k,
    {
        out.push(values[k]);
        k += 1;
    }
    out
}

/// Partitions a two-dimensional grid into L-shaped tiles anchored on the
/// diagonal and picks elements from the fullest tile.
pub struct LTileSelection {
    servers_per_switch: usize,
    n: usize,
    origins: Vec<Vec<usize>>,
    vectors_from_origin: Vec<Vec<usize>>,
    sides: Vec<usize>,
}

impl LTileSelection {
    pub fn new(servers_per_switch: usize) -> (r: Result<LTileSelection, Error>)
        ensures
            r is Err <==> servers_per_switch == 0,
    {
        if servers_per_switch == 0 {
            return Err(Error::MismatchedSizes);
        }
        Ok(
            LTileSelection {
                servers_per_switch,
                n: 0,
                origins: Vec::new(),
                vectors_from_origin: Vec::new(),
                sides: Vec::new(),
            },
        )
    }
}

/// The coordinates of a grid cell of an `n` by `n` square, first dimension
/// fastest.
#[verifier::loop_isolation(false)]
fn square_unpack(n: usize, cell: usize) -> (r: Vec<usize>)
    requires
        n > 0,
    ensures
        r@.len() == 2,
{
    let mut coords: Vec<usize> = Vec::new();
    coords.push(cell % n);
    coords.push((cell / n) % n);
    coords
}

/// One bucket walk shared by the tile selections: groups the listed servers
/// by the anchor whose offsets reach their switch, then returns up to
/// `extra` elements of the fullest bucket, sorted ascending.
#[verifier::loop_isolation(false)]
fn pick_from_fullest_bucket(
    list: &Vec<usize>,
    servers_per_switch: usize,
    n: usize,
    origins: &Vec<Vec<usize>>,
    offsets: &Vec<Vec<usize>>,
    extra: usize,
) -> (r: Vec<usize>)
    requires
        servers_per_switch > 0,
        n > 0,
    ensures
        r@.len() <= extra,
{
    let mut buckets: Vec<Vec<usize>> = Vec::new();
    let mut j: usize = 0;
    while j < origins.len()
        invariant
            j <= origins@.len(),
            buckets@.len() == j,
        decreases origins@.len() - j,
    {
        buckets.push(Vec::new());
        j += 1;
    }
    let mut s: usize = 0;
    while s < list.len()
        invariant
            s <= list@.len(),
            buckets@.len() == origins@.len(),
            n > 0,
            servers_per_switch > 0,
        decreases list@.len() - s,
    {
        let server = list[s];
        let switch = server / servers_per_switch;
        let point = square_unpack(n, switch);
        let mut j: usize = 0;
        let mut placed = false;
        while j < origins.len()
            invariant
                j <= origins@.len(),
                buckets@.len() == origins@.len(),
                n > 0,
                point@.len() == 2,
            decreases origins@.len() - j,
        {
            if !placed {
                let origin = &origins[j];
                if origin.len() == 2 {
                    let mut v: usize = 0;
                    while v < offsets.len()
                        invariant
                            v <= offsets@.len(),
                            j < origins@.len(),
                            buckets@.len() == origins@.len(),
                            n > 0,
                            point@.len() == 2,
                            origin@.len() == 2,
                        decreases offsets@.len() - v,
                    {
                        if !placed {
                            let offset = &offsets[v];
                            if offset.len() == 2 {
                                let mut new_point: Vec<usize> = Vec::new();
                                new_point.push(
                                    (((origin[0] as u128) + (offset[0] as u128)) % (
                                    n as u128)) as usize,
                                );
                                new_point.push(
                                    (((origin[1] as u128) + (offset[1] as u128)) % (
                                    n as u128)) as usize,
                                );
                                if coords_equal(&new_point, &point) {
                                    let mut bucket = buckets.remove(j);
                                    bucket.push(server);
                                    buckets.insert(j, bucket);
                                    placed = true;
                                }
                            }
                        }
                        v += 1;
                    }
                }
            }
            j += 1;
        }
        s += 1;
    }
    if buckets.len() == 0 {
        return Vec::new();
    }
    let mut best: usize = 0;
    let mut j: usize = 1;
    while j < buckets.len()
        invariant
            best < buckets@.len(),
            j <= buckets@.len(),
        decreases buckets@.len() - j,
    {
        if buckets[j].len() > buckets[best].len() {
            best = j;
        }
        j += 1;
    }
    let chosen = sort_ids(clone_ids(&buckets[best]));
    let count = if extra <= chosen.len() {
        extra
    } else {
        chosen.len()
    };
    take_prefix(chosen, count)
}

impl GeneralPattern<ManyToManyParam, Vec<usize>> for LTileSelection {
    open spec fn req(&self, param: ManyToManyParam) -> bool {
        param.extra is Some
    }

    open spec fn ens(&self, param: ManyToManyParam, result: Vec<usize>) -> bool {
        result@.len() <= param.extra->0
    }

    open spec fn init_ens(
        &self,
        prev: Self,
        source_size: usize,
        target_size: usize,
        r: Result<(), Error>,
    ) -> bool {
        source_size != target_size ==> r is Err
    }

    #[verifier::loop_isolation(false)]
    fn initialize(
        &mut self,
        source_size: usize,
        target_size: usize,
        topology: Option<&Topology>,
        rng: &mut StdRng,
    ) -> (r: Result<(), Error>) {
        if source_size != target_size {
            return Err(Error::MismatchedSizes);
        }
        if self.servers_per_switch == 0 {
            return Err(Error::MismatchedSizes);
        }
        let n_switches = source_size / self.servers_per_switch;
        let n = match exact_sqrt(n_switches) {
            Some(v) => v,
            None => {
                return Err(Error::MismatchedSizes);
            },
        };
        self.n = n;
        let mut origins: Vec<Vec<usize>> = Vec::new();
        let mut i: usize = 0;
        while i < n
            invariant
                i <= n,
                origins@.len() == i,
                forall|k: int| 0 <= k < i ==> (#[trigger] origins@[k])@.len() == 2,
            decreases n - i,
        {
            let mut o: Vec<usize> = Vec::new();
            o.push(i);
            o.push(i);
            origins.push(o);
            i += 1;
        }
        self.origins = origins;
        let mut vectors: Vec<Vec<usize>> = Vec::new();
        let mut i: usize = 0;
        while i < n / 2
            invariant
                i <= n / 2,
                forall|k: int| 0 <= k < vectors@.len() ==> (#[trigger] vectors@[k])@.len() == 2,
            decreases n / 2 - i,
        {
            let mut v: Vec<usize> = Vec::new();
            v.push(i);
            v.push(0);
            vectors.push(v);
            i += 1;
        }
        let mut i: usize = 1;
        while i < n / 2 + 1
            invariant
                1 <= i <= n / 2 + 1,
                forall|k: int| 0 <= k < vectors@.len() ==> (#[trigger] vectors@[k])@.len() == 2,
            decreases n / 2 + 1 - i,
        {
            let mut v: Vec<usize> = Vec::new();
            v.push(0);
            v.push(i);
            vectors.push(v);
            i += 1;
        }
        self.vectors_from_origin = vectors;
        Ok(())
    }

    fn get_destination(
        &self,
        param: ManyToManyParam,
        topology: Option<&Topology>,
        rng: &mut StdRng,
    ) -> (r: Vec<usize>) {
        if self.servers_per_switch == 0 || self.n == 0 {
            return Vec::new();
        }
        pick_from_fullest_bucket(
            &param.list,
            self.servers_per_switch,
            self.n,
            &self.origins,
            &self.vectors_from_origin,
            param.extra.unwrap(),
        )
    }
}

/// Partitions a two-dimensional grid into its diagonals and picks elements
/// from the fullest one.
pub struct DiagonalSelection {
    servers_per_switch: usize,
    n: usize,
    origins: Vec<Vec<usize>>,
    diagonal_steps: Vec<Vec<usize>>,
}

impl DiagonalSelection {
    pub fn new(servers_per_switch: usize) -> (r: Result<DiagonalSelection, Error>)
        ensures
            r is Err <==> servers_per_switch == 0,
    {
        if servers_per_switch == 0 {
            return Err(Error::MismatchedSizes);
        }
        Ok(
            DiagonalSelection {
                servers_per_switch,
                n: 0,
                origins: Vec::new(),
                diagonal_steps: Vec::new(),
            },
        )
    }
}

impl GeneralPattern<ManyToManyParam, Vec<usize>> for DiagonalSelection {
    open spec fn req(&self, param: ManyToManyParam) -> bool {
        param.extra is Some
    }

    open spec fn ens(&self, param: ManyToManyParam, result: Vec<usize>) -> bool {
        result@.len() <= param.extra->0
    }

    open spec fn init_ens(
        &self,
        prev: Self,
        source_size: usize,
        target_size: usize,
        r: Result<(), Error>,
    ) -> bool {
        source_size != target_size ==> r is Err
    }

    #[verifier::loop_isolation(false)]
    fn initialize(
        &mut self,
        source_size: usize,
        target_size: usize,
        topology: Option<&Topology>,
        rng: &mut StdRng,
    ) -> (r: Result<(), Error>) {
        if source_size != target_size {
            return Err(Error::MismatchedSizes);
        }
        if self.servers_per_switch == 0 {
            return Err(Error::MismatchedSizes);
        }
        let n_switches = source_size / self.servers_per_switch;
        let n = match exact_sqrt(n_switches) {
            Some(v) => v,
            None => {
                return Err(Error::MismatchedSizes);
            },
        };
        self.n = n;
        let mut origins: Vec<Vec<usize>> = Vec::new();
        let mut i: usize = 0;
        while i < n
            invariant
                i <= n,
                origins@.len() == i,
                forall|k: int| 0 <= k < i ==> (#[trigger] origins@[k])@.len() == 2,
            decreases n - i,
        {
            let mut o: Vec<usize> = Vec::new();
            o.push(i);
            o.push(0);
            origins.push(o);
            i += 1;
        }
        self.origins = origins;
        // The whole diagonal from each anchor: every multiple of the step
        // `(1, 1)` up to the grid size.
        let mut steps: Vec<Vec<usize>> = Vec::new();
        let mut i: usize = 1;
        while i < n + 1
            invariant
                1 <= i <= n + 1,
                forall|k: int| 0 <= k < steps@.len() ==> (#[trigger] steps@[k])@.len() == 2,
            decreases n + 1 - i,
        {
            let mut v: Vec<usize> = Vec::new();
            v.push(i % if n == 0 {
                1
            } else {
                n
            });
            v.push(i % if n == 0 {
                1
            } else {
                n
            });
            steps.push(v);
            i += 1;
        }
        self.diagonal_steps = steps;
        Ok(())
    }

    fn get_destination(
        &self,
        param: ManyToManyParam,
        topology: Option<&Topology>,
        rng: &mut StdRng,
    ) -> (r: Vec<usize>) {
        if self.servers_per_switch == 0 || self.n == 0 {
            return Vec::new();
        }
        pick_from_fullest_bucket(
            &param.list,
            self.servers_per_switch,
            self.n,
            &self.origins,
            &self.diagonal_steps,
            param.extra.unwrap(),
        )
    }
}

/// Repeatedly asks a block-choosing pattern for a block of elements and a
/// nested pattern for the picks inside it, until the request is filled.
pub struct IterBlockSelection<B: ManyToManyPattern, S: ManyToManyPattern> {
    block_size: usize,
    block_selection: B,
    selection_inside_block: S,
}

impl<B: ManyToManyPattern, S: ManyToManyPattern> IterBlockSelection<B, S> {
    pub fn new(block_size: usize, block_selection: B, selection_inside_block: S) -> (r:
        IterBlockSelection<B, S>)
        ensures
            r.block_size_of() == block_size,
    {
        IterBlockSelection { block_size, block_selection, selection_inside_block }
    }

    pub closed spec fn block_size_of(&self) -> usize {
        self.block_size
    }
}

impl<B: ManyToManyPattern, S: ManyToManyPattern> GeneralPattern<
    ManyToManyParam,
    Vec<usize>,
> for IterBlockSelection<B, S> {
    open spec fn req(&self, param: ManyToManyParam) -> bool {
        &&& param.extra is Some
        &&& forall|q: B, p: ManyToManyParam| #[trigger] q.req(p)
        &&& forall|q: S, p: ManyToManyParam| #[trigger] q.req(p)
    }

    open spec fn ens(&self, param: ManyToManyParam, result: Vec<usize>) -> bool {
        result@.len() == param.extra->0 || result@.len() == 0
    }

    open spec fn init_ens(
        &self,
        prev: Self,
        source_size: usize,
        target_size: usize,
        r: Result<(), Error>,
    ) -> bool {
        source_size != target_size ==> r is Err
    }

    fn initialize(
        &mut self,
        source_size: usize,
        target_size: usize,
        topology: Option<&Topology>,
        rng: &mut StdRng,
    ) -> (r: Result<(), Error>) {
        if source_size != target_size {
            return Err(Error::MismatchedSizes);
        }
        match self.block_selection.initialize(source_size, target_size, topology, rng) {
            Ok(_) => {},
            Err(e) => {
                return Err(e);
            },
        }
        match self.selection_inside_block.initialize(source_size, target_size, topology, rng) {
            Ok(_) => Ok(()),
            Err(e) => Err(e),
        }
    }

    #[verifier::loop_isolation(false)]
    fn get_destination(
        &self,
        param: ManyToManyParam,
        topology: Option<&Topology>,
        rng: &mut StdRng,
    ) -> (r: Vec<usize>) {
        let to_select = param.extra.unwrap();
        let mut available_servers = clone_ids(&param.list);
        let mut selected_servers: Vec<usize> = Vec::new();
        while to_select > selected_servers.len()
            invariant
                to_select == param.extra->0,
                forall|q: B, p: ManyToManyParam| #[trigger] q.req(p),
                forall|q: S, p: ManyToManyParam| #[trigger] q.req(p),
            decreases available_servers@.len(),
        {
            let block_param = ManyToManyParam {
                origin: param.origin,
                current: param.current,
                destination: param.destination,
                list: clone_ids(&available_servers),
                extra: Some(self.block_size),
            };
            let block = self.block_selection.get_destination(block_param, topology, rng);
            if block.len() == 0 {
                return Vec::new();
            }
            let inside_param = ManyToManyParam {
                origin: param.origin,
                current: param.current,
                destination: param.destination,
                list: clone_ids(&block),
                extra: param.extra,
            };
            let servers_to_select = self.selection_inside_block.get_destination(
                inside_param,
                topology,
                rng,
            );
            let before_len = available_servers.len();
            let mut remaining: Vec<usize> = Vec::new();
            let mut m: usize = 0;
            while m < available_servers.len()
                invariant
                    m <= available_servers@.len(),
                    remaining@.len() <= m,
                decreases available_servers@.len() - m,
            {
                if !vec_contains(&servers_to_select, available_servers[m]) {
                    remaining.push(available_servers[m]);
                }
                m += 1;
            }
            if remaining.len() == before_len {
                // Nothing was removed: the nested pattern made no progress
                // and the request cannot be filled.
                return Vec::new();
            }
            available_servers = remaining;
            let mut m: usize = 0;
            while m < servers_to_select.len()
                invariant
                    m <= servers_to_select@.len(),
                decreases servers_to_select@.len() - m,
            {
                selected_servers.push(servers_to_select[m]);
                m += 1;
            }
        }
        let sorted = sort_ids(selected_servers);
        if sorted.len() < to_select {
            return Vec::new();
        }
        take_prefix(sorted, to_select)
    }
}

} // verus!
