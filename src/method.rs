use vstd::prelude::*;

verus! {

/// The HTTP methods a route can be registered under.
#[derive(Clone, Copy, Debug, PartialEq, Eq, Structural, Hash)]
pub enum Method {
    Get,
    Post,
    Delete,
    Patch,
    Put,
    Options,
    Head,
    Connect,
    Trace,
}

/// The number of methods.
pub const METHOD_COUNT: usize = 9;

impl Method {
    /// The position of the method in the router's table of trees.
    pub open spec fn index(self) -> nat {
        match self {
            Method::Get => 0,
            Method::Post => 1,
            Method::Delete => 2,
            Method::Patch => 3,
            Method::Put => 4,
            Method::Options => 5,
            Method::Head => 6,
            Method::Connect => 7,
            Method::Trace => 8,
        }
    }

    /// The method at position `k`, for `k` below the number of methods.
    pub open spec fn spec_at(k: int) -> Method {
        if k == 0 {
            Method::Get
        } else if k == 1 {
            Method::Post
        } else if k == 2 {
            Method::Delete
        } else if k == 3 {
            Method::Patch
        } else if k == 4 {
            Method::Put
        } else if k == 5 {
            Method::Options
        } else if k == 6 {
            Method::Head
        } else if k == 7 {
            Method::Connect
        } else {
            Method::Trace
        }
    }

    pub fn slot(&self) -> (r: usize)
        ensures
            r == self.index(),
            r < METHOD_COUNT,
    {
        match self {
            Method::Get => 0,
            Method::Post => 1,
            Method::Delete => 2,
            Method::Patch => 3,
            Method::Put => 4,
            Method::Options => 5,
            Method::Head => 6,
            Method::Connect => 7,
            Method::Trace => 8,
        }
    }
}

impl Method {
    /// The method at position `k` of the router's table of trees.
    pub fn from_slot(k: usize) -> (r: Method)
        requires
            k < METHOD_COUNT,
        ensures
            r.index() == k,
            r == Method::spec_at(k as int),
    {
        if k == 0 {
            Method::Get
        } else if k == 1 {
            Method::Post
        } else if k == 2 {
            Method::Delete
        } else if k == 3 {
            Method::Patch
        } else if k == 4 {
            Method::Put
        } else if k == 5 {
            Method::Options
        } else if k == 6 {
            Method::Head
        } else if k == 7 {
            Method::Connect
        } else {
            Method::Trace
        }
    }
}

/// Position `k` holds the method whose index is `k`.
pub proof fn lemma_spec_at_index(k: int)
    requires
        0 <= k < METHOD_COUNT,
    ensures
        Method::spec_at(k).index() == k,
{
}

/// Distinct methods sit in distinct positions.
pub proof fn lemma_index_injective(a: Method, b: Method)
    ensures
        a.index() == b.index() ==> a == b,
{
}

} // verus!
