//! The tag registry of one connection: hands out correlation tags that are
//! unique among the calls in flight, and recycles them once answered.
use vstd::prelude::*;

use slab::Slab;

use crate::tagged::{Request, Response};

verus! {

/// `slab::Slab`, carried opaque; what it holds is read through
/// `slab_keys` and `slab_extent` below.
#[verifier::external_type_specification]
#[verifier::external_body]
#[verifier::reject_recursive_types(T)]
pub struct ExSlab<T>(Slab<T>);

/// The keys that hold a value in the slab.
pub uninterp spec fn slab_keys(s: Slab<()>) -> Set<usize>;

/// The number of slots the slab has laid out (the length of its vector of
/// entries): every key lies below it, and it only grows when no slot below it
/// is vacant.
pub uninterp spec fn slab_extent(s: Slab<()>) -> nat;

/// Relies on `slab::Slab::new`: an empty slab with no slot laid out.
#[verifier::external_body]
fn slab_new() -> (r: Slab<()>)
    ensures
        slab_keys(r) == Set::<usize>::empty(),
        slab_extent(r) == 0,
{
    Slab::new()
}

/// Relies on `slab::Slab::insert`: the value goes to the slot that the
/// slab's free list points at. That is a vacant slot below the extent when
/// there is one, and a new slot at the extent otherwise.
#[verifier::external_body]
fn slab_insert(s: &mut Slab<()>) -> (key: usize)
    ensures
        !slab_keys(*old(s)).contains(key),
        slab_keys(*final(s)) == slab_keys(*old(s)).insert(key),
        (exists|k: usize| k < slab_extent(*old(s)) && !#[trigger] slab_keys(*old(s)).contains(k)) ==> {
            &&& key < slab_extent(*old(s))
            &&& slab_extent(*final(s)) == slab_extent(*old(s))
        },
        !(exists|k: usize| k < slab_extent(*old(s)) && !#[trigger] slab_keys(*old(s)).contains(k)) ==> {
            &&& key == slab_extent(*old(s))
            &&& slab_extent(*final(s)) == slab_extent(*old(s)) + 1
        },
{
    s.insert(())
}

/// Relies on `slab::Slab::remove`: frees an occupied key, whose slot stays
/// laid out. It panics on a key that holds nothing, which `requires` leaves
/// out.
#[verifier::external_body]
fn slab_remove(s: &mut Slab<()>, key: usize)
    requires
        slab_keys(*old(s)).contains(key),
    ensures
        slab_keys(*final(s)) == slab_keys(*old(s)).remove(key),
        slab_extent(*final(s)) == slab_extent(*old(s)),
{
    s.remove(key);
}

/// Relies on `slab::Slab::contains`: whether the key holds a value.
#[verifier::external_body]
fn slab_contains(s: &Slab<()>, key: usize) -> (r: bool)
    ensures
        r == slab_keys(*s).contains(key),
{
    s.contains(key)
}

/// The registry's state: the tags of the calls in flight, and how many
/// slots it has laid out.
pub struct TagSlots {
    pub in_flight: Set<usize>,
    pub extent: nat,
}

/// One registry operation on the tag of one call.
pub enum TagStep {
    Assign { tag: usize },
    Finish { tag: usize },
}

impl TagSlots {
    /// A registry with nothing in flight and no slot laid out.
    pub open spec fn fresh() -> TagSlots {
        TagSlots { in_flight: Set::empty(), extent: 0 }
    }

    /// Some slot already laid out holds no call.
    pub open spec fn has_vacancy(self) -> bool {
        exists|k: usize| k < self.extent && !#[trigger] self.in_flight.contains(k)
    }

    /// `post` is this state after `tag` was assigned to a new call: the tag
    /// was free, and it reuses a vacant slot when there is one.
    pub open spec fn assigns(self, tag: usize, post: TagSlots) -> bool {
        &&& !self.in_flight.contains(tag)
        &&& post.in_flight == self.in_flight.insert(tag)
        &&& tag < post.extent
        &&& post.extent == if self.has_vacancy() { self.extent } else { self.extent + 1 }
    }

    /// `post` is this state after the call tagged `tag` was answered.
    pub open spec fn finishes(self, tag: usize, post: TagSlots) -> bool {
        &&& self.in_flight.contains(tag)
        &&& post.in_flight == self.in_flight.remove(tag)
        &&& post.extent == self.extent
    }

    /// `post` is this state after `step`.
    pub open spec fn takes(self, step: TagStep, post: TagSlots) -> bool {
        match step {
            TagStep::Assign { tag } => self.assigns(tag, post),
            TagStep::Finish { tag } => self.finishes(tag, post),
        }
    }
}

/// Tag registry of one connection, an index-recycling pool of slots.
pub struct SlabStore {
    slots: Slab<()>,
}

impl View for SlabStore {
    type V = TagSlots;

    closed spec fn view(&self) -> TagSlots {
        TagSlots { in_flight: slab_keys(self.slots), extent: slab_extent(self.slots) }
    }
}

impl SlabStore {
    /// A registry with nothing in flight.
    pub fn new() -> (r: Self)
        ensures
            r@ == TagSlots::fresh(),
    {
        Self { slots: slab_new() }
    }

    /// Takes a free tag, writes it into the request and returns it. The tag
    /// differs from every tag in flight; a vacant slot is reused when there
    /// is one.
    pub fn assign_tag<T>(&mut self, request: &mut Request<T>) -> (tag: usize)
        ensures
            old(self)@.assigns(tag, final(self)@),
            final(request).tag_of() == tag,
            final(request).payload() == old(request).payload(),
    {
        let tag = slab_insert(&mut self.slots);
        request.set_tag(tag);
        tag
    }

    /// Reads the tag of the response and frees it for reuse.
    pub fn finish_tag<T>(&mut self, response: &Response<T>) -> (tag: usize)
        requires
            old(self)@.in_flight.contains(response.tag_of()),
        ensures
            tag == response.tag_of(),
            old(self)@.finishes(tag, final(self)@),
    {
        let tag = response.tag();
        slab_remove(&mut self.slots, tag);
        tag
    }

    /// Whether a call tagged `tag` is in flight.
    pub fn is_in_flight(&self, tag: usize) -> (r: bool)
        ensures
            r == self@.in_flight.contains(tag),
    {
        slab_contains(&self.slots, tag)
    }
}

impl Default for SlabStore {
    fn default() -> (r: Self)
        ensures
            r@ == TagSlots::fresh(),
    {
        Self::new()
    }
}

/// The call that starts at `trace[2 * i]` is assigned `tags[i]` and then
/// answered, before the next call starts.
pub open spec fn completes_call(trace: Seq<TagSlots>, tags: Seq<usize>, i: int) -> bool {
    &&& trace[2 * i].assigns(tags[i], trace[2 * i + 1])
    &&& trace[2 * i + 1].finishes(tags[i], trace[2 * i + 2])
}

/// Calls that complete one after another on one connection reuse the same
/// tag: starting from a fresh registry, every such call is tagged 0 and the
/// registry never lays out more than one slot, however many calls there are.
pub proof fn lemma_sequential_calls_reuse_tags(trace: Seq<TagSlots>, tags: Seq<usize>)
    requires
        trace.len() == 2 * tags.len() + 1,
        trace[0] == TagSlots::fresh(),
        forall|i: int| 0 <= i < tags.len() ==> #[trigger] completes_call(trace, tags, i),
    ensures
        forall|i: int| 0 <= i < tags.len() ==> tags[i] == 0,
        forall|j: int| 0 <= j < trace.len() ==> trace[j].extent <= 1,
{
    assert forall|i: int| 0 <= i < tags.len() implies tags[i] == 0 && trace[2 * i + 1].extent <= 1 by {
        assert(completes_call(trace, tags, i));
        lemma_idle_between_calls(trace, tags, i);
        if i > 0 {
            assert(!trace[2 * i].in_flight.contains(0usize));
        }
    }
    assert forall|j: int| 0 <= j < trace.len() implies trace[j].extent <= 1 by {
        let i = j / 2;
        if j % 2 == 0 {
            lemma_idle_between_calls(trace, tags, i);
        } else {
            assert(completes_call(trace, tags, i));
            lemma_idle_between_calls(trace, tags, i);
            if i > 0 {
                assert(!trace[2 * i].in_flight.contains(0usize));
            }
        }
    }
}

proof fn lemma_idle_between_calls(trace: Seq<TagSlots>, tags: Seq<usize>, i: int)
    requires
        trace.len() == 2 * tags.len() + 1,
        trace[0] == TagSlots::fresh(),
        forall|i: int| 0 <= i < tags.len() ==> #[trigger] completes_call(trace, tags, i),
        0 <= i <= tags.len(),
    ensures
        trace[2 * i].in_flight.is_empty(),
        trace[2 * i].in_flight.finite(),
        trace[2 * i].extent == if i == 0 { 0nat } else { 1nat },
    decreases i,
{
    if i > 0 {
        lemma_idle_between_calls(trace, tags, i - 1);
        assert(completes_call(trace, tags, i - 1));
        let pre = trace[2 * (i - 1)];
        let mid = trace[2 * (i - 1) + 1];
        assert(mid.in_flight == pre.in_flight.insert(tags[i - 1]));
        if i > 1 {
            assert(!pre.in_flight.contains(0usize));
        }
        assert(trace[2 * i].in_flight =~= Set::<usize>::empty());
    }
}

/// Whatever the interleaving of calls and answers on one connection, a tag
/// is never handed to a second call while the call that holds it is still
/// in flight. So the tag of a response names exactly one pending call, in
/// whatever order the responses arrive.
pub proof fn lemma_in_flight_tags_never_collide(trace: Seq<TagSlots>, steps: Seq<TagStep>)
    requires
        trace.len() == steps.len() + 1,
        forall|m: int| 0 <= m < steps.len() ==> #[trigger] trace[m].takes(steps[m], trace[m + 1]),
    ensures
        forall|i: int, j: int|
            #![trigger steps[i], steps[j]]
            0 <= i < j < steps.len() && steps[i] is Assign && steps[j] == steps[i]
            ==> exists|k: int| i < k < j && #[trigger] steps[k] == (TagStep::Finish { tag: steps[i]->Assign_tag }),
{
    assert forall|i: int, j: int|
        #![trigger steps[i], steps[j]]
        0 <= i < j < steps.len() && steps[i] is Assign && steps[j] == steps[i]
        implies exists|k: int| i < k < j && #[trigger] steps[k] == (TagStep::Finish { tag: steps[i]->Assign_tag }) by {
        let t = steps[i]->Assign_tag;
        if !exists|k: int| i < k < j && #[trigger] steps[k] == (TagStep::Finish { tag: t }) {
            lemma_pending_tag_stays(trace, steps, i, t, j);
            assert(trace[j].takes(steps[j], trace[j + 1]));
        }
    }
}

proof fn lemma_pending_tag_stays(trace: Seq<TagSlots>, steps: Seq<TagStep>, i: int, t: usize, m: int)
    requires
        trace.len() == steps.len() + 1,
        forall|m: int| 0 <= m < steps.len() ==> #[trigger] trace[m].takes(steps[m], trace[m + 1]),
        0 <= i < m <= steps.len(),
        steps[i] == (TagStep::Assign { tag: t }),
        forall|k: int| i < k < m ==> #[trigger] steps[k] != (TagStep::Finish { tag: t }),
    ensures
        trace[m].in_flight.contains(t),
    decreases m - i,
{
    if m == i + 1 {
        assert(trace[i].takes(steps[i], trace[i + 1]));
    } else {
        lemma_pending_tag_stays(trace, steps, i, t, m - 1);
        let p = m - 1;
        assert(trace[p].takes(steps[p], trace[p + 1]));
        assert(steps[p] != (TagStep::Finish { tag: t }));
    }
}

} // verus!
