//! The broker that owns the pool of resources: it filters the pool by the
//! requested description and steps one allocation through racing for a
//! permit, binding a hand-off listener and serving the session.
use vstd::prelude::*;

use vstd::std_specs::cmp::PartialEqSpec;

use crate::resource_filter::Describable;

verus! {

/// tokio's `sync::AcquireError`, which a permit issuer reports once it is
/// closed. It is carried opaque: nothing is read from it.
#[verifier::external_type_specification]
#[verifier::external_body]
pub struct ExAcquireError(tokio::sync::AcquireError);

/// Why an allocation request was refused.
#[derive(Debug)]
pub enum AllocatorError {
    /// No resource in the pool has the requested description.
    NoMatchingResource,
    /// The permit issuer reported an error.
    SemaphoreProblem,
    /// The hand-off listener could not be bound; carries the reason.
    ListenerProblem(String),
}

impl From<tokio::sync::AcquireError> for AllocatorError {
    fn from(_e: tokio::sync::AcquireError) -> Self {
        AllocatorError::SemaphoreProblem
    }
}

impl vstd::std_specs::convert::FromSpecImpl<tokio::sync::AcquireError> for AllocatorError {
    open spec fn obeys_from_spec() -> bool {
        true
    }

    open spec fn from_spec(v: tokio::sync::AcquireError) -> Self {
        AllocatorError::SemaphoreProblem
    }
}

/// `candidates` lists, in increasing order and each once, exactly the
/// positions of `descriptions` whose description equals `request`.
pub open spec fn lists_matches<D: PartialEq>(descriptions: Seq<D>, request: D, candidates: Seq<usize>) -> bool {
    &&& forall|j: int| 0 <= j < candidates.len() ==> {
        &&& #[trigger] candidates[j] < descriptions.len()
        &&& descriptions[candidates[j] as int].eq_spec(&request)
    }
    &&& forall|j: int, k: int| 0 <= j < k < candidates.len() ==> candidates[j] < candidates[k]
    &&& forall|i: int| 0 <= i < descriptions.len() && #[trigger] descriptions[i].eq_spec(&request)
        ==> exists|j: int| 0 <= j < candidates.len() && candidates[j] == i
}

/// Some resource of the pool has the requested description.
pub open spec fn has_match<D: PartialEq>(descriptions: Seq<D>, request: D) -> bool {
    exists|i: int| 0 <= i < descriptions.len() && #[trigger] descriptions[i].eq_spec(&request)
}

/// The broker's view of its pool: the description of each resource, in the
/// order the resources were given, and how many requests it has taken.
pub struct AllocatorService<D> {
    num_times_called: usize,
    descriptions: Vec<D>,
}

impl<D: PartialEq> AllocatorService<D> {
    /// The description of each resource of the pool, in order.
    pub closed spec fn descriptions(&self) -> Seq<D> {
        self.descriptions@
    }

    /// The number of allocation requests taken so far.
    pub closed spec fn times_called_spec(&self) -> nat {
        self.num_times_called as nat
    }

    /// Builds the pool's view from its resources, asking each once for its
    /// description.
    pub fn new<S: Describable<D>>(resources: &Vec<S>) -> (r: Self)
        ensures
            r.descriptions().len() == resources@.len(),
            forall|i: int| 0 <= i < resources@.len()
                ==> call_ensures(S::describe, (&resources@[i],), #[trigger] r.descriptions()[i]),
            r.times_called_spec() == 0,
    {
        let mut descriptions: Vec<D> = Vec::new();
        let mut i: usize = 0;
        while i < resources.len()
            invariant
                i <= resources@.len(),
                descriptions@.len() == i,
                forall|k: int| 0 <= k < i
                    ==> call_ensures(S::describe, (&resources@[k],), #[trigger] descriptions@[k]),
            decreases resources@.len() - i,
        {
            let d = resources[i].describe();
            descriptions.push(d);
            i = i + 1;
        }
        Self { num_times_called: 0, descriptions }
    }

    /// The number of allocation requests taken so far.
    pub fn times_called(&self) -> (r: usize)
        ensures
            r == self.times_called_spec(),
    {
        self.num_times_called
    }

    /// Takes one allocation request: counts it (the count stops at the
    /// largest `usize`), and selects every resource
    /// whose description equals the request. With no such resource the
    /// allocation fails at once; otherwise the selected resources race for
    /// their permits.
    pub fn call(&mut self, request: &D) -> (r: Allocation)
        ensures
            final(self).descriptions() == old(self).descriptions(),
            final(self).times_called_spec() == if old(self).times_called_spec() < usize::MAX {
                old(self).times_called_spec() + 1
            } else {
                old(self).times_called_spec()
            },
            r is Racing || r is Failed,
            D::obeys_eq_spec() ==> {
                &&& r is Failed <==> !has_match(old(self).descriptions(), *request)
                &&& r is Failed ==> r->error is NoMatchingResource
                &&& r is Racing ==> lists_matches(old(self).descriptions(), *request, r->candidates@)
            },
    {
        if self.num_times_called < usize::MAX {
            self.num_times_called = self.num_times_called + 1;
        }
        let mut candidates: Vec<usize> = Vec::new();
        let mut i: usize = 0;
        while i < self.descriptions.len()
            invariant
                i <= self.descriptions@.len(),
                D::obeys_eq_spec() ==> forall|j: int| 0 <= j < candidates@.len() ==> {
                    &&& #[trigger] candidates@[j] < i
                    &&& self.descriptions@[candidates@[j] as int].eq_spec(request)
                },
                forall|j: int, k: int| 0 <= j < k < candidates@.len() ==> candidates@[j] < candidates@[k],
                forall|j: int| 0 <= j < candidates@.len() ==> #[trigger] candidates@[j] < i,
                D::obeys_eq_spec() ==> forall|m: int| 0 <= m < i && #[trigger] self.descriptions@[m].eq_spec(request)
                    ==> exists|j: int| 0 <= j < candidates@.len() && candidates@[j] == m,
            decreases self.descriptions@.len() - i,
        {
            let ghost before = candidates@;
            if self.descriptions[i].eq(request) {
                candidates.push(i);
            }
            proof {
                if D::obeys_eq_spec() {
                    assert forall|m: int| 0 <= m < i + 1 && #[trigger] self.descriptions@[m].eq_spec(request)
                        implies exists|j: int| 0 <= j < candidates@.len() && candidates@[j] == m by {
                        if m < i {
                            let j = choose|j: int| 0 <= j < before.len() && before[j] == m;
                            assert(candidates@[j] == m);
                        } else {
                            assert(candidates@[candidates@.len() - 1] == m);
                        }
                    }
                }
            }
            i = i + 1;
        }
        if candidates.len() == 0 {
            proof {
                if D::obeys_eq_spec() && has_match(self.descriptions@, *request) {
                    let m = choose|m: int| 0 <= m < self.descriptions@.len() && #[trigger] self.descriptions@[m].eq_spec(request);
                    assert(exists|j: int| 0 <= j < candidates@.len() && candidates@[j] == m);
                }
            }
            Allocation::Failed { error: AllocatorError::NoMatchingResource }
        } else {
            proof {
                if D::obeys_eq_spec() {
                    let c = candidates@[0];
                    assert(self.descriptions@[c as int].eq_spec(request));
                }
            }
            Allocation::Racing { candidates }
        }
    }
}

/// Where one allocation request stands. Each state also says what is to be
/// done next: race the candidates for a permit, bind a listener for the
/// winner, hand the winner's port back (and serve the session), or report
/// the error.
#[derive(Debug)]
pub enum Allocation {
    /// The resources at these pool positions race for their permits.
    Racing { candidates: Vec<usize> },
    /// The resource at this position won its permit; a listener is to be bound.
    Granting { resource: usize },
    /// A listener is bound on `port` for the resource; its session is served.
    Serving { resource: usize, port: u16 },
    /// The request failed.
    Failed { error: AllocatorError },
}

/// What happened while an allocation was carried out.
#[derive(Debug)]
pub enum GrantEvent {
    /// The permit of the resource at this pool position was won first.
    Acquired { resource: usize },
    /// The permit issuer reported an error.
    AcquireFailed,
    /// The hand-off listener was bound on this port.
    Bound { port: u16 },
    /// The hand-off listener could not be bound, for this reason.
    BindFailed { detail: String },
}

impl Allocation {
    /// The state after `event`. An event that does not belong to the
    /// current state leaves it unchanged.
    pub open spec fn next(self, event: GrantEvent) -> Allocation {
        match self {
            Allocation::Racing { candidates } => match event {
                GrantEvent::Acquired { resource } => if candidates@.contains(resource) {
                    Allocation::Granting { resource }
                } else {
                    self
                },
                GrantEvent::AcquireFailed => Allocation::Failed { error: AllocatorError::SemaphoreProblem },
                _ => self,
            },
            Allocation::Granting { resource } => match event {
                GrantEvent::Bound { port } => Allocation::Serving { resource, port },
                GrantEvent::BindFailed { detail } => Allocation::Failed {
                    error: AllocatorError::ListenerProblem(detail),
                },
                _ => self,
            },
            _ => self,
        }
    }

    /// The state after the events, taken in order.
    pub open spec fn run(self, events: Seq<GrantEvent>) -> Allocation
        decreases events.len(),
    {
        if events.len() == 0 {
            self
        } else {
            self.next(events[0]).run(events.drop_first())
        }
    }

    /// In this state the winning resource's permit is held for the request.
    pub open spec fn holds_permit(self) -> bool {
        self is Granting || self is Serving
    }

    /// The pool position of the resource whose permit is held, if any.
    pub open spec fn granted(self) -> Option<usize> {
        match self {
            Allocation::Granting { resource } => Some(resource),
            Allocation::Serving { resource, port: _ } => Some(resource),
            _ => None,
        }
    }

    /// Advances the allocation by one event.
    pub fn step(self, event: GrantEvent) -> (r: Allocation)
        ensures
            r == self.next(event),
    {
        match self {
            Allocation::Racing { candidates } => match event {
                GrantEvent::Acquired { resource } => {
                    let mut i: usize = 0;
                    let mut found = false;
                    while i < candidates.len()
                        invariant
                            i <= candidates@.len(),
                            found <==> exists|j: int| 0 <= j < i && candidates@[j] == resource,
                        decreases candidates@.len() - i,
                    {
                        if candidates[i] == resource {
                            found = true;
                        }
                        i = i + 1;
                    }
                    if found {
                        Allocation::Granting { resource }
                    } else {
                        Allocation::Racing { candidates }
                    }
                },
                GrantEvent::AcquireFailed => Allocation::Failed { error: AllocatorError::SemaphoreProblem },
                _ => Allocation::Racing { candidates },
            },
            Allocation::Granting { resource } => match event {
                GrantEvent::Bound { port } => Allocation::Serving { resource, port },
                GrantEvent::BindFailed { detail } => Allocation::Failed {
                    error: AllocatorError::ListenerProblem(detail),
                },
                _ => Allocation::Granting { resource },
            },
            other => other,
        }
    }

    /// What goes back to the requester: the port once the session is being
    /// served, the error once the request failed, nothing before.
    pub fn into_reply(self) -> (r: Option<Result<u16, AllocatorError>>)
        ensures
            self is Serving ==> r == Some(Ok::<u16, AllocatorError>(self->port)),
            self is Failed ==> r == Some(Err::<u16, AllocatorError>(self->error)),
            self is Racing || self is Granting ==> r is None,
    {
        match self {
            Allocation::Serving { resource: _, port } => Some(Ok(port)),
            Allocation::Failed { error } => Some(Err(error)),
            _ => None,
        }
    }
}

/// A failed allocation is final: whatever happens afterwards, no listener
/// is bound and no permit is taken for it. In particular a request whose
/// description matched nothing fails without any listener being bound.
pub proof fn lemma_failed_allocation_is_final(state: Allocation, events: Seq<GrantEvent>)
    requires
        state is Failed,
    ensures
        state.run(events) == state,
        !state.run(events).holds_permit(),
    decreases events.len(),
{
    if events.len() > 0 {
        lemma_failed_allocation_is_final(state.next(events[0]), events.drop_first());
    }
}

/// Either still racing among `candidates`, or holding the permit of one of
/// them, or failed.
spec fn among(candidates: Seq<usize>, state: Allocation) -> bool {
    match state {
        Allocation::Racing { candidates: racing } => racing@ == candidates,
        Allocation::Failed { error: _ } => true,
        _ => candidates.contains(state.granted().unwrap()),
    }
}

proof fn lemma_stays_among(candidates: Seq<usize>, state: Allocation, events: Seq<GrantEvent>)
    requires
        among(candidates, state),
    ensures
        among(candidates, state.run(events)),
    decreases events.len(),
{
    if events.len() > 0 {
        lemma_stays_among(candidates, state.next(events[0]), events.drop_first());
    }
}

/// A request is only ever granted a resource whose description equals the
/// one asked for: from the race among the matching resources, whatever
/// happens next, a permit is held only for one of them.
pub proof fn lemma_grant_goes_to_a_match<D: PartialEq>(
    descriptions: Seq<D>,
    request: D,
    state: Allocation,
    events: Seq<GrantEvent>,
)
    requires
        state is Racing,
        lists_matches(descriptions, request, state->candidates@),
    ensures
        state.run(events).holds_permit() ==> {
            let resource = state.run(events).granted().unwrap();
            &&& resource < descriptions.len()
            &&& descriptions[resource as int].eq_spec(&request)
        },
{
    let candidates = state->candidates@;
    lemma_stays_among(candidates, state, events);
    let last = state.run(events);
    if last.holds_permit() {
        let resource = last.granted().unwrap();
        let j = choose|j: int| 0 <= j < candidates.len() && candidates[j] == resource;
        assert(candidates[j] < descriptions.len());
    }
}

} // verus!
