//! Resource trait to manage exhaustable resources, and a fixed-size
//! container of them.

use vstd::prelude::*;

verus! {

/// An exhaustable resource.
pub trait Resource {
    /// Whether this resource is exhausted, for specifications.
    spec fn spec_exhausted(&self) -> bool;

    /// Returns `true` if this resource has been exhausted, and can be
    /// recovered. An exhausted resource will not be 'used' again.
    fn exhausted(&self) -> (r: bool)
        ensures
            r == self.spec_exhausted(),
    ;
}

/// An error that may occur when trying to claim a resource.
#[derive(Debug, Clone, Copy, PartialEq, Eq, Structural)]
pub enum ResourceClaimError {
    /// The resource being added is already exhausted.
    AddedExhaustedResource,
    /// There is no space left to add the resource.
    NoSpaceAvailable,
}

/// A fixed size collection of resources.
pub struct ResourceManager<R: Resource, const SIZE: usize> {
    /// An array backing this manager.
    data: [R; SIZE],
}

impl<R: Resource, const SIZE: usize> View for ResourceManager<R, SIZE> {
    type V = Seq<R>;

    closed spec fn view(&self) -> Seq<R> {
        self.data@
    }
}

impl<R: Resource, const SIZE: usize> ResourceManager<R, SIZE> {
    /// The view always has exactly `SIZE` slots.
    pub broadcast proof fn lemma_view_len(m: &ResourceManager<R, SIZE>)
        ensures
            (#[trigger] m@).len() == SIZE,
    {
    }

    /// Creates a new resource manager.
    pub fn new(data: [R; SIZE]) -> (r: Self)
        ensures
            r@ == data@,
    {
        Self { data }
    }

    /// Returns the indices of all non-exhausted elements, in ascending
    /// order.
    pub fn iter(&self) -> (r: Vec<usize>)
        ensures
            forall|k: int|
                0 <= k < r@.len() ==> #[trigger] r@[k] < SIZE && !self@[r@[k] as int].spec_exhausted(),
            forall|k1: int, k2: int| 0 <= k1 < k2 < r@.len() ==> r@[k1] < r@[k2],
            forall|i: int|
                0 <= i < SIZE && !self@[i].spec_exhausted() ==> r@.contains(i as usize),
    {
        let mut r: Vec<usize> = Vec::new();
        let mut i: usize = 0;
        while i < SIZE
            invariant
                i <= SIZE,
                SIZE == self@.len(),
                forall|k: int|
                    0 <= k < r@.len() ==> #[trigger] r@[k] < i && !self@[r@[k] as int].spec_exhausted(),
                forall|k1: int, k2: int| 0 <= k1 < k2 < r@.len() ==> r@[k1] < r@[k2],
                forall|j: int|
                    0 <= j < i && !self@[j].spec_exhausted() ==> r@.contains(j as usize),
            decreases SIZE - i,
        {
            if !self.data[i].exhausted() {
                let ghost prior = r@;
                r.push(i);
                proof {
                    assert forall|j: int|
                        0 <= j < i + 1 && !self@[j].spec_exhausted() implies r@.contains(
                        j as usize,
                    ) by {
                        if j < i {
                            assert(prior.contains(j as usize));
                            let k = choose|k: int| 0 <= k < prior.len() && prior[k] == j as usize;
                            assert(r@[k] == j as usize);
                        } else {
                            assert(r@[r@.len() - 1] == i as usize);
                        }
                    }
                }
            }
            i += 1;
        }
        r
    }

    /// Returns the indices of all non-exhausted elements, in ascending
    /// order, for a pass that will mutate them through
    /// [`Self::get_absolute_mut`].
    pub fn iter_mut(&mut self) -> (r: Vec<usize>)
        ensures
            *final(self) == *old(self),
            forall|k: int|
                0 <= k < r@.len() ==> #[trigger] r@[k] < SIZE && !old(self)@[r@[k] as int].spec_exhausted(),
            forall|k1: int, k2: int| 0 <= k1 < k2 < r@.len() ==> r@[k1] < r@[k2],
            forall|i: int|
                0 <= i < SIZE && !old(self)@[i].spec_exhausted() ==> r@.contains(i as usize),
    {
        self.iter()
    }

    /// Scans the slots and inserts `new_resource` in the first exhausted
    /// one, returning its index.
    pub fn claim_first(&mut self, new_resource: R) -> (r: Result<usize, ResourceClaimError>)
        ensures
            match r {
                Ok(index) => {
                    &&& !new_resource.spec_exhausted()
                    &&& index < SIZE
                    &&& old(self)@[index as int].spec_exhausted()
                    &&& forall|j: int| 0 <= j < index ==> !old(self)@[j].spec_exhausted()
                    &&& final(self)@ == old(self)@.update(index as int, new_resource)
                },
                Err(e) => *final(self) == *old(self) && if e
                    == ResourceClaimError::AddedExhaustedResource {
                    new_resource.spec_exhausted()
                } else {
                    e == ResourceClaimError::NoSpaceAvailable && !new_resource.spec_exhausted()
                        && forall|j: int| 0 <= j < SIZE ==> !old(self)@[j].spec_exhausted()
                },
            },
    {
        if new_resource.exhausted() {
            return Err(ResourceClaimError::AddedExhaustedResource);
        }
        let mut i: usize = 0;
        while i < SIZE
            invariant
                i <= SIZE,
                SIZE == self@.len(),
                *self == *old(self),
                !new_resource.spec_exhausted(),
                forall|j: int| 0 <= j < i ==> !self@[j].spec_exhausted(),
            decreases SIZE - i,
        {
            if self.data[i].exhausted() {
                self.data[i] = new_resource;
                proof {
                    assert(self@ =~= old(self)@.update(i as int, new_resource));
                }
                return Ok(i);
            }
            i += 1;
        }
        Err(ResourceClaimError::NoSpaceAvailable)
    }

    /// Scans the slots and inserts the result of `make_new_resource(index)`
    /// in the first exhausted slot, where `index` is the index of the
    /// discovered slot.
    pub fn emplace_first<F: Fn(usize) -> R>(&mut self, make_new_resource: F) -> (r: Result<
        usize,
        ResourceClaimError,
    >)
        requires
            forall|i: usize| i < SIZE ==> #[trigger] make_new_resource.requires((i,)),
        ensures
            match r {
                Ok(index) => {
                    &&& index < SIZE
                    &&& old(self)@[index as int].spec_exhausted()
                    &&& forall|j: int| 0 <= j < index ==> !old(self)@[j].spec_exhausted()
                    &&& make_new_resource.ensures((index,), final(self)@[index as int])
                    &&& final(self)@ == old(self)@.update(
                        index as int,
                        final(self)@[index as int],
                    )
                },
                Err(e) => {
                    &&& *final(self) == *old(self)
                    &&& e == ResourceClaimError::NoSpaceAvailable
                    &&& forall|j: int| 0 <= j < SIZE ==> !old(self)@[j].spec_exhausted()
                },
            },
    {
        let mut i: usize = 0;
        while i < SIZE
            invariant
                i <= SIZE,
                SIZE == self@.len(),
                *self == *old(self),
                forall|j: int| 0 <= j < i ==> !self@[j].spec_exhausted(),
                forall|k: usize| k < SIZE ==> #[trigger] make_new_resource.requires((k,)),
            decreases SIZE - i,
        {
            if self.data[i].exhausted() {
                self.data[i] = make_new_resource(i);
                proof {
                    assert(self@ =~= old(self)@.update(i as int, self@[i as int]));
                }
                return Ok(i);
            }
            i += 1;
        }
        Err(ResourceClaimError::NoSpaceAvailable)
    }

    /// Unconditionally returns the resource at `index`, or `None` if
    /// `index` is out of bounds.
    pub fn get_absolute(&self, index: usize) -> (r: Option<&R>)
        ensures
            match r {
                Some(v) => index < SIZE && *v == self@[index as int],
                None => index >= SIZE,
            },
    {
        if index < SIZE {
            Some(&self.data[index])
        } else {
            None
        }
    }

    /// Unconditionally returns the resource at `index` for mutation.
    /// Unlike [`Self::get_absolute`] the index must be in bounds: a
    /// mutable reference cannot be optional.
    pub fn get_absolute_mut(&mut self, index: usize) -> (element: &mut R)
        requires
            index < SIZE,
        ensures
            *element == old(self)@[index as int],
            final(self)@ == old(self)@.update(index as int, *final(element)),
    {
        &mut self.data[index]
    }
}

} // verus!
