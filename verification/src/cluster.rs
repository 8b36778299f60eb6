use vstd::prelude::*;

verus! {

/// One resolved backend endpoint: a `host:port` socket address and whether
/// connections to it must use TLS.
pub struct Endpoint {
    pub address: String,
    pub secure: bool,
}

/// The endpoint chosen by one selection: its index in the pool and a copy
/// of its address and TLS requirement.
pub struct SelectedEndpoint {
    pub index: usize,
    pub address: String,
    pub secure: bool,
}

/// The load-balanced endpoint pool of one (application, traffic-kind) pair:
/// a fixed endpoint set, one health flag per endpoint, and the round-robin
/// cursor. The pool's shape never changes after construction; only the
/// health flags and the cursor move.
pub struct Cluster {
    pub endpoints: Vec<Endpoint>,
    pub healthy: Vec<bool>,
    pub counter: usize,
}

/// The first index in `[lo, hi)` whose health flag is set.
pub open spec fn first_healthy_in(h: Seq<bool>, lo: int, hi: int) -> Option<int>
    decreases hi - lo,
{
    if lo >= hi {
        None
    } else if h[lo] {
        Some(lo)
    } else {
        first_healthy_in(h, lo + 1, hi)
    }
}

/// Which endpoint a selection with the given cursor picks: the first
/// healthy index at or after the cursor, wrapping around to the front;
/// `None` when no endpoint is healthy.
pub open spec fn spec_select(h: Seq<bool>, counter: int) -> Option<int> {
    match first_healthy_in(h, counter, h.len() as int) {
        Some(i) => Some(i),
        None => first_healthy_in(h, 0, counter),
    }
}

pub proof fn lemma_first_healthy_in_none(h: Seq<bool>, lo: int, hi: int)
    requires
        0 <= lo,
        hi <= h.len(),
    ensures
        (first_healthy_in(h, lo, hi) is None) == (forall|j: int| lo <= j < hi ==> !h[j]),
        first_healthy_in(h, lo, hi) matches Some(i) ==> lo <= i < hi && h[i] && (forall|j: int|
            lo <= j < i ==> !h[j]),
    decreases hi - lo,
{
    if lo < hi && !h[lo] {
        lemma_first_healthy_in_none(h, lo + 1, hi);
    }
}

/// A selection fails exactly when no endpoint is healthy.
pub proof fn lemma_select_none(h: Seq<bool>, counter: int)
    requires
        0 <= counter <= h.len(),
    ensures
        (spec_select(h, counter) is None) == (forall|j: int| 0 <= j < h.len() ==> !h[j]),
        spec_select(h, counter) matches Some(i) ==> 0 <= i < h.len() && h[i],
{
    lemma_first_healthy_in_none(h, counter, h.len() as int);
    lemma_first_healthy_in_none(h, 0, counter);
}

/// With every endpoint healthy, selection cycles deterministically: it
/// picks exactly the endpoint under the cursor, so successive selections
/// walk the pool in order, wrapping around.
pub proof fn lemma_select_all_healthy(h: Seq<bool>, counter: int)
    requires
        0 <= counter < h.len(),
        forall|j: int| 0 <= j < h.len() ==> h[j],
    ensures
        spec_select(h, counter) == Some(counter),
{
    assert(h[counter]);
}

/// When exactly one endpoint is healthy, every selection picks it,
/// whatever the cursor says.
pub proof fn lemma_select_unique(h: Seq<bool>, counter: int, i: int)
    requires
        0 <= counter <= h.len(),
        0 <= i < h.len(),
        h[i],
        forall|j: int| 0 <= j < h.len() && j != i ==> !h[j],
    ensures
        spec_select(h, counter) == Some(i),
{
    lemma_first_healthy_in_none(h, counter, h.len() as int);
    lemma_first_healthy_in_none(h, 0, counter);
    if counter <= i {
        assert(first_healthy_in(h, counter, h.len() as int) matches Some(k) ==> k == i) by {
            lemma_first_healthy_in_none(h, counter, h.len() as int);
        }
        assert(!(first_healthy_in(h, counter, h.len() as int) is None));
    } else {
        assert(first_healthy_in(h, counter, h.len() as int) is None);
        assert(!(first_healthy_in(h, 0, counter) is None));
    }
}

impl Cluster {
    /// A cluster is well formed when it has at least one endpoint, one
    /// health flag per endpoint, and its cursor inside the pool.
    pub open spec fn wf(&self) -> bool {
        &&& self.endpoints@.len() > 0
        &&& self.healthy@.len() == self.endpoints@.len()
        &&& self.counter < self.endpoints@.len()
    }

    /// Builds the pool over the given endpoints, all initially healthy
    /// (a cluster without a health-check task stays that way for good),
    /// with the round-robin cursor on the first endpoint.
    pub fn new(endpoints: Vec<Endpoint>) -> (r: Cluster)
        requires
            endpoints@.len() > 0,
        ensures
            r.wf(),
            r.endpoints == endpoints,
            r.healthy@.len() == endpoints@.len(),
            forall|i: int| 0 <= i < r.healthy@.len() ==> r.healthy@[i],
            r.counter == 0,
    {
        let n: usize = endpoints.len();
        let mut healthy: Vec<bool> = Vec::new();
        let mut i: usize = 0;
        while i < n
            invariant
                0 <= i <= n,
                healthy@.len() == i,
                forall|j: int| 0 <= j < i ==> healthy@[j],
            decreases n - i,
        {
            healthy.push(true);
            i = i + 1;
        }
        Cluster { endpoints, healthy, counter: 0 }
    }

    /// How many endpoints the pool holds.
    pub fn len(&self) -> (r: usize)
        ensures
            r == self.endpoints@.len(),
    {
        self.endpoints.len()
    }

    /// The `host:port` address of the endpoint at `index`.
    pub fn endpoint_address(&self, index: usize) -> (r: &str)
        requires
            index < self.endpoints@.len(),
        ensures
            r@ == self.endpoints@[index as int].address@,
    {
        self.endpoints[index].address.as_str()
    }

    /// Flips one endpoint's health flag; a failed probe excludes the
    /// endpoint from selection, a successful one restores it. Nothing else
    /// of the pool moves.
    pub fn set_health(&mut self, index: usize, value: bool)
        requires
            old(self).wf(),
            index < old(self).endpoints@.len(),
        ensures
            final(self).wf(),
            final(self).endpoints == old(self).endpoints,
            final(self).counter == old(self).counter,
            final(self).healthy@ == old(self).healthy@.update(index as int, value),
    {
        self.healthy.set(index, value);
    }

    /// Round-robin selection over the healthy endpoints: picks the first
    /// healthy endpoint at or after the cursor (wrapping around) and moves
    /// the cursor just past it; fails exactly when no endpoint is healthy,
    /// and then changes nothing.
    pub fn select(&mut self) -> (r: Option<SelectedEndpoint>)
        requires
            old(self).wf(),
        ensures
            final(self).wf(),
            final(self).endpoints == old(self).endpoints,
            final(self).healthy == old(self).healthy,
            (r is Some) == (spec_select(old(self).healthy@, old(self).counter as int) is Some),
            r matches Some(s) ==> {
                let chosen = spec_select(old(self).healthy@, old(self).counter as int).unwrap();
                &&& s.index == chosen
                &&& s.address@ == old(self).endpoints@[chosen].address@
                &&& s.secure == old(self).endpoints@[chosen].secure
                &&& final(self).counter == ((chosen + 1) % (old(self).endpoints@.len() as int))
            },
            r is None ==> final(self).counter == old(self).counter,
    {
        let n: usize = self.endpoints.len();
        let start: usize = self.counter;
        let ghost h: Seq<bool> = self.healthy@;

        let mut found: Option<usize> = None;
        let mut i: usize = start;
        while i < n && !self.healthy[i]
            invariant
                0 <= start <= i <= n,
                n == h.len(),
                h == self.healthy@,
                first_healthy_in(h, start as int, n as int) == first_healthy_in(
                    h,
                    i as int,
                    n as int,
                ),
            decreases n - i,
        {
            i = i + 1;
        }
        if i < n {
            proof {
                assert(first_healthy_in(h, i as int, n as int) == Some(i as int));
            }
            found = Some(i);
        } else {
            proof {
                assert(first_healthy_in(h, start as int, n as int) is None);
            }
            let mut j: usize = 0;
            while j < start && !self.healthy[j]
                invariant
                    0 <= j <= start <= n,
                    n == h.len(),
                    h == self.healthy@,
                    first_healthy_in(h, 0, start as int) == first_healthy_in(
                        h,
                        j as int,
                        start as int,
                    ),
                decreases start - j,
            {
                j = j + 1;
            }
            if j < start {
                proof {
                    assert(first_healthy_in(h, j as int, start as int) == Some(j as int));
                }
                found = Some(j);
            }
        }

        match found {
            Some(idx) => {
                proof {
                    assert(spec_select(h, start as int) == Some(idx as int));
                }
                let next: usize = if idx + 1 == n {
                    0
                } else {
                    idx + 1
                };
                self.counter = next;
                proof {
                    if idx + 1 == n {
                        assert((idx as int + 1) % (n as int) == 0) by (nonlinear_arith)
                            requires
                                idx as int + 1 == n as int,
                                n > 0,
                        ;
                    } else {
                        vstd::arithmetic::div_mod::lemma_small_mod((idx + 1) as nat, n as nat);
                    }
                    assert(next as int == (idx as int + 1) % (n as int));
                }
                Some(
                    SelectedEndpoint {
                        index: idx,
                        address: self.endpoints[idx].address.clone(),
                        secure: self.endpoints[idx].secure,
                    },
                )
            },
            None => {
                proof {
                    assert(spec_select(h, start as int) is None);
                }
                None
            },
        }
    }
}

} // verus!
