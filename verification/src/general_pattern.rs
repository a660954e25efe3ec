use vstd::prelude::*;
use rand::rngs::StdRng;
use crate::errors::Error;
use crate::rng::shuffle;
use crate::topology::Topology;

verus! {

/// The argument of a many-to-many pattern: a list of elements together with
/// the end points the caller is working between, and how many elements it
/// wants back.
pub struct ManyToManyParam {
    pub origin: Option<usize>,
    pub current: Option<usize>,
    pub destination: Option<usize>,
    pub list: Vec<usize>,
    pub extra: Option<usize>,
}

impl ManyToManyParam {
    /// An empty parameter, to be filled field by field.
    pub fn empty() -> (r: ManyToManyParam)
        ensures
            r.origin is None,
            r.current is None,
            r.destination is None,
            r.list@.len() == 0,
            r.extra is None,
    {
        ManyToManyParam {
            origin: None,
            current: None,
            destination: None,
            list: Vec::new(),
            extra: None,
        }
    }
}

/// A pattern, or function: it maps an element of type `E` into a value of
/// type `T`, after a one-time initialization for a source and a target space.
pub trait GeneralPattern<E, T>: Sized {
    /// The arguments the pattern accepts.
    spec fn req(&self, param: E) -> bool;

    /// What the returned value satisfies.
    spec fn ens(&self, param: E, result: T) -> bool;

    /// What initialization establishes.
    spec fn init_ens(
        &self,
        prev: Self,
        source_size: usize,
        target_size: usize,
        r: Result<(), Error>,
    ) -> bool;

    /// Performs any setup and checks for spaces of the given sizes.
    /// Initialization never narrows which arguments are accepted.
    fn initialize(
        &mut self,
        source_size: usize,
        target_size: usize,
        topology: Option<&Topology>,
        rng: &mut StdRng,
    ) -> (r: Result<(), Error>)
        ensures
            final(self).init_ens(*old(self), source_size, target_size, r),
            forall|p: E| #[trigger] final(self).req(p) == old(self).req(p),
    ;

    /// Returns the destination of an element.
    fn get_destination(&self, param: E, topology: Option<&Topology>, rng: &mut StdRng) -> (r: T)
        requires
            self.req(param),
        ensures
            self.ens(param, r),
    ;
}

/// A pattern that maps an element into another element.
pub trait Pattern: GeneralPattern<usize, usize> {

}

impl<T: GeneralPattern<usize, usize>> Pattern for T {

}

/// A pattern that maps an element into a list of elements.
pub trait OneToManyPattern: GeneralPattern<usize, Vec<usize>> {

}

impl<T: GeneralPattern<usize, Vec<usize>>> OneToManyPattern for T {

}

/// A pattern that maps a list of elements into one element.
pub trait ManyToOnePattern: GeneralPattern<Vec<usize>, usize> {

}

impl<T: GeneralPattern<Vec<usize>, usize>> ManyToOnePattern for T {

}

/// A pattern that maps a list of elements, with its end points, into a list
/// of elements.
pub trait ManyToManyPattern: GeneralPattern<ManyToManyParam, Vec<usize>> {

}

impl<T: GeneralPattern<ManyToManyParam, Vec<usize>>> ManyToManyPattern for T {

}

/// Returns exactly the elements that are passed in.
pub struct IdentityFilter {}

impl IdentityFilter {
    pub fn new() -> IdentityFilter {
        IdentityFilter {  }
    }

    pub fn get_basic_identity_filter() -> IdentityFilter {
        IdentityFilter {  }
    }
}

impl GeneralPattern<ManyToManyParam, Vec<usize>> for IdentityFilter {
    open spec fn req(&self, param: ManyToManyParam) -> bool {
        true
    }

    open spec fn ens(&self, param: ManyToManyParam, result: Vec<usize>) -> bool {
        result@ == param.list@
    }

    open spec fn init_ens(
        &self,
        prev: Self,
        source_size: usize,
        target_size: usize,
        r: Result<(), Error>,
    ) -> bool {
        r is Ok
    }

    fn initialize(
        &mut self,
        source_size: usize,
        target_size: usize,
        topology: Option<&Topology>,
        rng: &mut StdRng,
    ) -> (r: Result<(), Error>) {
        Ok(())
    }

    fn get_destination(
        &self,
        param: ManyToManyParam,
        topology: Option<&Topology>,
        rng: &mut StdRng,
    ) -> (r: Vec<usize>) {
        param.list
    }
}

/// Returns the single smallest element of the list, or nothing when the list
/// is empty.
pub struct MinFilter {}

impl MinFilter {
    pub fn new() -> MinFilter {
        MinFilter {  }
    }
}

/// `m` is the least element of `s`.
pub open spec fn is_min_of(s: Seq<usize>, m: usize) -> bool {
    &&& s.contains(m)
    &&& forall|k: int| 0 <= k < s.len() ==> m <= #[trigger] s[k]
}

impl GeneralPattern<ManyToManyParam, Vec<usize>> for MinFilter {
    open spec fn req(&self, param: ManyToManyParam) -> bool {
        true
    }

    open spec fn ens(&self, param: ManyToManyParam, result: Vec<usize>) -> bool {
        if param.list@.len() == 0 {
            result@.len() == 0
        } else {
            result@.len() == 1 && is_min_of(param.list@, result@[0])
        }
    }

    open spec fn init_ens(
        &self,
        prev: Self,
        source_size: usize,
        target_size: usize,
        r: Result<(), Error>,
    ) -> bool {
        r is Ok
    }

    fn initialize(
        &mut self,
        source_size: usize,
        target_size: usize,
        topology: Option<&Topology>,
        rng: &mut StdRng,
    ) -> (r: Result<(), Error>) {
        Ok(())
    }

    #[verifier::loop_isolation(false)]
    fn get_destination(
        &self,
        param: ManyToManyParam,
        topology: Option<&Topology>,
        rng: &mut StdRng,
    ) -> (r: Vec<usize>) {
        let mut result: Vec<usize> = Vec::new();
        if param.list.len() == 0 {
            return result;
        }
        let mut m = param.list[0];
        let mut i: usize = 1;
        proof {
            assert(param.list@.take(1int)[0] == m);
        }
        while i < param.list.len()
            invariant
                1 <= i <= param.list@.len(),
                param.list@.take(i as int).contains(m),
                forall|k: int| 0 <= k < i ==> m <= #[trigger] param.list@[k],
            decreases param.list@.len() - i,
        {
            if param.list[i] < m {
                m = param.list[i];
                proof {
                    assert(param.list@.take(i + 1)[i as int] == m);
                }
            } else {
                proof {
                    let ghost j = choose|j: int|
                        0 <= j < i && param.list@.take(i as int)[j] == m;
                    assert(param.list@.take(i + 1)[j] == m);
                }
            }
            i += 1;
        }
        proof {
            assert(param.list@.take(param.list@.len() as int) =~= param.list@);
        }
        result.push(m);
        result
    }
}

/// How many elements of `list` survive the exclusion of up to two values.
pub open spec fn eligible_count(
    list: Seq<usize>,
    excluded_a: Option<usize>,
    excluded_b: Option<usize>,
) -> nat
    decreases list.len(),
{
    if list.len() == 0 {
        0
    } else {
        eligible_count(list.drop_last(), excluded_a, excluded_b) + if is_eligible(
            list.last(),
            excluded_a,
            excluded_b,
        ) {
            1nat
        } else {
            0nat
        }
    }
}

/// `x` survives the exclusion of up to two values.
pub open spec fn is_eligible(x: usize, excluded_a: Option<usize>, excluded_b: Option<usize>) -> bool {
    &&& (excluded_a matches Some(a) ==> x != a)
    &&& (excluded_b matches Some(b) ==> x != b)
}

/// Returns a fixed number of elements of the list, chosen at random; the
/// destination and the origin of the parameter can be excluded from the
/// choice.
pub struct RandomFilter {
    elements_to_return: usize,
    source: bool,
    destination: bool,
}

impl RandomFilter {
    pub fn new(elements_to_return: usize) -> (r: RandomFilter)
        ensures
            r.count() == elements_to_return,
            r.excludes_destination(),
            r.excludes_origin(),
    {
        RandomFilter { elements_to_return, source: true, destination: true }
    }

    pub fn get_basic_random_filter() -> (r: RandomFilter)
        ensures
            r.count() == 1,
            r.excludes_destination(),
            r.excludes_origin(),
    {
        RandomFilter { elements_to_return: 1, source: true, destination: true }
    }

    /// How many elements are returned, when enough are eligible.
    pub closed spec fn count(&self) -> usize {
        self.elements_to_return
    }

    /// Whether the parameter's destination is excluded.
    pub closed spec fn excludes_destination(&self) -> bool {
        self.source
    }

    /// Whether the parameter's origin is excluded.
    pub closed spec fn excludes_origin(&self) -> bool {
        self.destination
    }

    /// The exclusions this filter applies to a parameter.
    pub open spec fn exclusions(&self, param: ManyToManyParam) -> (Option<usize>, Option<usize>) {
        (
            if self.excludes_destination() {
                param.destination
            } else {
                None
            },
            if self.excludes_origin() {
                param.origin
            } else {
                None
            },
        )
    }
}

impl GeneralPattern<ManyToManyParam, Vec<usize>> for RandomFilter {
    open spec fn req(&self, param: ManyToManyParam) -> bool {
        &&& self.excludes_destination() ==> param.destination is Some
        &&& self.excludes_origin() ==> param.origin is Some
    }

    open spec fn ens(&self, param: ManyToManyParam, result: Vec<usize>) -> bool {
        let (ea, eb) = self.exclusions(param);
        let eligible = eligible_count(param.list@, ea, eb);
        &&& result@.len() == if eligible <= self.count() as nat {
            eligible
        } else {
            self.count() as nat
        }
        &&& forall|k: int|
            0 <= k < result@.len() ==> param.list@.contains(#[trigger] result@[k]) && is_eligible(
                result@[k],
                ea,
                eb,
            )
    }

    open spec fn init_ens(
        &self,
        prev: Self,
        source_size: usize,
        target_size: usize,
        r: Result<(), Error>,
    ) -> bool {
        r is Ok && *self == prev
    }

    fn initialize(
        &mut self,
        source_size: usize,
        target_size: usize,
        topology: Option<&Topology>,
        rng: &mut StdRng,
    ) -> (r: Result<(), Error>) {
        Ok(())
    }

    #[verifier::loop_isolation(false)]
    fn get_destination(
        &self,
        param: ManyToManyParam,
        topology: Option<&Topology>,
        rng: &mut StdRng,
    ) -> (r: Vec<usize>) {
        broadcast use vstd::seq_lib::group_to_multiset_ensures;

        let excluded_a: Option<usize> = if self.source {
            Some(*param.destination.as_ref().unwrap())
        } else {
            None
        };
        let excluded_b: Option<usize> = if self.destination {
            Some(*param.origin.as_ref().unwrap())
        } else {
            None
        };
        proof {
            assert((excluded_a, excluded_b) == self.exclusions(param));
        }
        let mut filtered: Vec<usize> = Vec::new();
        let mut i: usize = 0;
        let len = param.list.len();
        while i < len
            invariant
                i <= len,
                len == param.list@.len(),
                filtered@.len() == eligible_count(param.list@.take(i as int), excluded_a, excluded_b),
                forall|k: int|
                    0 <= k < filtered@.len() ==> param.list@.contains(#[trigger] filtered@[k])
                        && is_eligible(filtered@[k], excluded_a, excluded_b),
            decreases len - i,
        {
            let x = param.list[i];
            let keep = match excluded_a {
                Some(a) => x != a,
                None => true,
            } && match excluded_b {
                Some(b) => x != b,
                None => true,
            };
            proof {
                assert(param.list@.take(i + 1).drop_last() =~= param.list@.take(i as int));
                assert(param.list@.take(i + 1).last() == x);
            }
            if keep {
                filtered.push(x);
            }
            i += 1;
        }
        proof {
            assert(param.list@.take(len as int) =~= param.list@);
        }
        let ghost filtered_before = filtered@;
        shuffle(&mut filtered, rng);
        proof {
            assert forall|k: int| 0 <= k < filtered@.len() implies param.list@.contains(
                #[trigger] filtered@[k],
            ) && is_eligible(filtered@[k], excluded_a, excluded_b) by {
                assert(filtered@.to_multiset().count(filtered@[k]) > 0);
                assert(filtered_before.to_multiset().count(filtered@[k]) > 0);
                assert(filtered_before.contains(filtered@[k]));
                let j = choose|j: int|
                    0 <= j < filtered_before.len() && filtered_before[j] == filtered@[k];
                assert(param.list@.contains(filtered_before[j]));
            }
        }
        let mut result: Vec<usize> = Vec::new();
        let take_n = if filtered.len() <= self.elements_to_return {
            filtered.len()
        } else {
            self.elements_to_return
        };
        let mut k: usize = 0;
        while k < take_n
            invariant
                k <= take_n,
                take_n <= filtered@.len(),
                result@.len() == k,
                forall|j: int| 0 <= j < k ==> (#[trigger] result@[j]) == filtered@[j],
                forall|j: int|
                    0 <= j < filtered@.len() ==> param.list@.contains(#[trigger] filtered@[j])
                        && is_eligible(filtered@[j], excluded_a, excluded_b),
            decreases take_n - k,
        {
            result.push(filtered[k]);
            k += 1;
        }
        proof {
            assert(filtered@.len() == eligible_count(param.list@, excluded_a, excluded_b));
            let (ea, eb) = self.exclusions(param);
            assert(ea == excluded_a && eb == excluded_b);
            assert(result@.len() == if eligible_count(param.list@, ea, eb) <= self.count() as nat {
                eligible_count(param.list@, ea, eb)
            } else {
                self.count() as nat
            });
        }
        result
    }
}

} // verus!

verus! {

/// The identity pattern: every element maps to itself.
pub struct Identity {}

impl Identity {
    pub fn new() -> Identity {
        Identity {  }
    }
}

impl GeneralPattern<usize, usize> for Identity {
    open spec fn req(&self, param: usize) -> bool {
        true
    }

    open spec fn ens(&self, param: usize, result: usize) -> bool {
        result == param
    }

    open spec fn init_ens(
        &self,
        prev: Self,
        source_size: usize,
        target_size: usize,
        r: Result<(), Error>,
    ) -> bool {
        r is Ok <==> source_size == target_size
    }

    fn initialize(
        &mut self,
        source_size: usize,
        target_size: usize,
        topology: Option<&Topology>,
        rng: &mut StdRng,
    ) -> (r: Result<(), Error>) {
        if source_size == target_size {
            Ok(())
        } else {
            Err(Error::MismatchedSizes)
        }
    }

    fn get_destination(&self, param: usize, topology: Option<&Topology>, rng: &mut StdRng) -> (r:
        usize) {
        param
    }
}

} // verus!
