//! Ordered delivery of classified events from the producing (watcher)
//! side to the consuming side.

use vstd::prelude::*;
use crate::events::PdfEvent;

verus! {

/// An ordered, unbounded queue carrying classified events, each with its
/// display message, from the producer to the consumer. The producer
/// appends at the back, the consumer takes from the front, so the
/// consumer observes events in exactly the order they were sent.
pub struct DeliveryChannel {
    queue: Vec<(PdfEvent, String)>,
}

impl DeliveryChannel {
    /// The pending events, oldest first.
    pub closed spec fn pending(&self) -> Seq<(PdfEvent, String)> {
        self.queue@
    }

    /// A fresh channel with nothing pending.
    pub fn new() -> (r: Self)
        ensures
            r.pending() == Seq::<(PdfEvent, String)>::empty(),
    {
        DeliveryChannel { queue: Vec::new() }
    }

    /// Enqueue one classified event behind everything already pending.
    pub fn send(&mut self, event: PdfEvent, message: String)
        ensures
            final(self).pending() == old(self).pending().push((event, message)),
    {
        self.queue.push((event, message));
    }

    /// Take the oldest pending event, or `None` when nothing is pending;
    /// it never waits for the producer.
    pub fn try_recv(&mut self) -> (r: Option<(PdfEvent, String)>)
        ensures
            old(self).pending().len() == 0 ==> r is None
                && final(self).pending() == old(self).pending(),
            old(self).pending().len() > 0 ==> r == Some(old(self).pending()[0])
                && final(self).pending() == old(self).pending().drop_first(),
    {
        if self.queue.len() == 0 {
            None
        } else {
            let head = self.queue.remove(0);
            proof {
                assert(self.queue@ =~= old(self).pending().drop_first());
            }
            Some(head)
        }
    }
}

/// The pending sequence after sending each event of `sent`, in order,
/// into a channel whose pending sequence is `pending`.
pub open spec fn after_sends(
    pending: Seq<(PdfEvent, String)>,
    sent: Seq<(PdfEvent, String)>,
) -> Seq<(PdfEvent, String)>
    decreases sent.len(),
{
    if sent.len() == 0 {
        pending
    } else {
        after_sends(pending.push(sent[0]), sent.drop_first())
    }
}

/// The pending sequence after `k` successful receives from a channel
/// whose pending sequence is `pending`.
pub open spec fn after_recvs(pending: Seq<(PdfEvent, String)>, k: int) -> Seq<(PdfEvent, String)>
    recommends
        0 <= k <= pending.len(),
    decreases k,
{
    if k <= 0 {
        pending
    } else {
        after_recvs(pending, k - 1).drop_first()
    }
}

/// Sending a sequence of events appends them behind everything already
/// pending, in the order they were sent.
pub proof fn lemma_sends_append(pending: Seq<(PdfEvent, String)>, sent: Seq<(PdfEvent, String)>)
    ensures
        after_sends(pending, sent) == pending + sent,
    decreases sent.len(),
{
    if sent.len() == 0 {
        assert(pending + sent =~= pending);
    } else {
        lemma_sends_append(pending.push(sent[0]), sent.drop_first());
        assert(pending.push(sent[0]) + sent.drop_first() =~= pending + sent);
    }
}

/// Receives peel the pending sequence off its front, one event at a
/// time and in order.
pub proof fn lemma_recvs_skip(pending: Seq<(PdfEvent, String)>, k: int)
    requires
        0 <= k <= pending.len(),
    ensures
        after_recvs(pending, k) == pending.skip(k),
    decreases k,
{
    if k == 0 {
        assert(pending.skip(0) =~= pending);
    } else {
        lemma_recvs_skip(pending, k - 1);
        assert(pending.skip(k - 1).drop_first() =~= pending.skip(k));
    }
}

/// Ordering law: events sent in order are observed in the same order,
/// however the receives are grouped. After the events pending before the
/// sends have been received, the next receive after `k` further ones
/// returns exactly the `k`-th sent event.
pub proof fn lemma_fifo_order(
    pending: Seq<(PdfEvent, String)>,
    sent: Seq<(PdfEvent, String)>,
    k: int,
)
    requires
        0 <= k < sent.len(),
    ensures
        after_recvs(after_sends(pending, sent), pending.len() + k)[0] == sent[k],
{
    lemma_sends_append(pending, sent);
    lemma_recvs_skip(pending + sent, pending.len() + k);
    assert((pending + sent).skip(pending.len() + k)[0] == (pending + sent)[pending.len() + k]);
}

} // verus!
