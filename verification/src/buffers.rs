//! The frames that the compositor still reads.

use vstd::prelude::*;

verus! {

/// The buffers that were handed to the compositor and not given back, by
/// their numbers, in the order in which they were handed over.
#[derive(Debug)]
pub struct PendingBuffers {
    ids: Vec<u32>,
}

impl View for PendingBuffers {
    type V = Seq<u32>;

    closed spec fn view(&self) -> Seq<u32> {
        self.ids@
    }
}

/// The buffers other than one.
pub open spec fn other_than(id: u32) -> spec_fn(u32) -> bool {
    |other: u32| other != id
}

/// The pending buffers after one was given back: it is gone, and the others
/// stand as they stood.
pub open spec fn without_buffer(pending: Seq<u32>, id: u32) -> Seq<u32> {
    pending.filter(other_than(id))
}

/// A buffer that is handed over and given back leaves the others as they were.
pub proof fn lemma_release_undoes_commit(pending: Seq<u32>, id: u32)
    requires
        !pending.contains(id),
    ensures
        without_buffer(pending.push(id), id) == pending,
{
    let keep = other_than(id);
    reveal(Seq::filter);
    assert(pending.push(id).drop_last() =~= pending);
    lemma_filter_of_kept(pending, keep);
}

/// A buffer that was given back is not pending, the others are as before, and
/// they keep their order: each buffer that was handed over after the others
/// still stands behind them.
pub proof fn lemma_release_takes_that_buffer_only(pending: Seq<u32>, id: u32, other: u32)
    ensures
        without_buffer(seq![], id) == Seq::<u32>::empty(),
        without_buffer(pending.push(id), id) == without_buffer(pending, id),
        other != id ==> without_buffer(pending.push(other), id) == without_buffer(
            pending,
            id,
        ).push(other),
        !without_buffer(pending, id).contains(id),
        other != id ==> (without_buffer(pending, id).contains(other) <==> pending.contains(other)),
{
    reveal(Seq::filter);
    assert(pending.push(id).drop_last() =~= pending);
    assert(pending.push(other).drop_last() =~= pending);
    lemma_filter_keeps_what_differs(pending, id, other);
}

proof fn lemma_filter_keeps_what_differs(pending: Seq<u32>, id: u32, other: u32)
    ensures
        !without_buffer(pending, id).contains(id),
        other != id ==> (without_buffer(pending, id).contains(other) <==> pending.contains(other)),
    decreases pending.len(),
{
    reveal(Seq::filter);
    if pending.len() > 0 {
        let short = pending.drop_last();
        let last = pending.last();
        lemma_filter_keeps_what_differs(short, id, other);
        assert(pending =~= short.push(last));
        vstd::seq_lib::lemma_seq_contains_after_push(short, last, other);
        vstd::seq_lib::lemma_seq_contains_after_push(without_buffer(short, id), last, other);
        vstd::seq_lib::lemma_seq_contains_after_push(without_buffer(short, id), last, id);
    }
}

proof fn lemma_filter_of_kept(list: Seq<u32>, keep: spec_fn(u32) -> bool)
    requires
        forall|i: int| 0 <= i < list.len() ==> #[trigger] keep(list[i]),
    ensures
        list.filter(keep) == list,
    decreases list.len(),
{
    reveal(Seq::filter);
    if list.len() > 0 {
        lemma_filter_of_kept(list.drop_last(), keep);
        assert(list.drop_last().push(list.last()) =~= list);
    }
}

impl PendingBuffers {
    /// No buffers.
    pub fn new() -> (pending: PendingBuffers)
        ensures
            pending@ == Seq::<u32>::empty(),
    {
        PendingBuffers { ids: Vec::new() }
    }

    /// A buffer was handed to the compositor.
    pub fn committed(&mut self, id: u32)
        ensures
            final(self)@ == old(self)@.push(id),
    {
        self.ids.push(id);
    }

    /// The compositor gave a buffer back. Tells whether it was pending, so that
    /// it is to be destroyed.
    pub fn released(&mut self, id: u32) -> (was_pending: bool)
        ensures
            final(self)@ == without_buffer(old(self)@, id),
            was_pending == old(self)@.contains(id),
    {
        let ghost all = self.ids@;
        let ghost keep = other_than(id);
        let mut kept: Vec<u32> = Vec::new();
        let mut was_pending: bool = false;
        let mut i: usize = 0;
        proof {
            reveal(Seq::filter);
        }
        while i < self.ids.len()
            invariant
                i <= all.len(),
                all == self.ids@,
                keep == other_than(id),
                kept@ == all.take(i as int).filter(keep),
                was_pending == all.take(i as int).contains(id),
            decreases all.len() - i,
        {
            let other = self.ids[i];
            proof {
                reveal(Seq::filter);
                assert(all.take(i + 1).drop_last() =~= all.take(i as int));
                assert(all.take(i + 1) =~= all.take(i as int).push(other));
                assert(all.take(i + 1)[i as int] == other);
                assert(forall|j: int|
                    0 <= j < i ==> all.take(i + 1)[j] == #[trigger] all.take(i as int)[j]);
            }
            if other == id {
                was_pending = true;
            } else {
                kept.push(other);
            }
            i = i + 1;
        }
        assert(all.take(all.len() as int) =~= all);
        self.ids = kept;
        was_pending
    }
}

} // verus!
