use vstd::prelude::*;

use crate::layout::{lemma_slot_in_region, Completion, FabricError, SendWorkRequest, SlotLayout};
use crate::message::Message;

verus! {

/// What an adapter hands the fabric for one batch: the bytes to place at the
/// start of the send region and the chain of send work requests to post.
pub struct SendPlan {
    pub payload: Vec<u8>,
    pub chain: Vec<SendWorkRequest>,
}

/// Every message of `batch` is exactly one slot long.
pub open spec fn batch_fits(l: SlotLayout, batch: Seq<Message>) -> bool {
    forall|i: int| 0 <= i < batch.len() ==> (#[trigger] batch[i]).bytes().len() == l.msg_size
}

/// The request of position `i` in a chain of `n`: slot `i`, id `id`, signaled,
/// linked to the request of position `i + 1` unless it is the last.
pub open spec fn chain_request(l: SlotLayout, i: int, n: int, id: u64) -> SendWorkRequest {
    SendWorkRequest {
        wr_id: id,
        offset: l.slot_start(i) as usize,
        length: l.msg_size,
        next: if i + 1 < n { Some((i + 1) as usize) } else { None },
        signaled: true,
    }
}

/// The chain of send work requests for `batch`: one per message, in order,
/// each carrying the message's request id.
pub open spec fn send_chain(l: SlotLayout, batch: Seq<Message>) -> Seq<SendWorkRequest> {
    Seq::new(batch.len(), |i: int| chain_request(l, i, batch.len() as int, batch[i].id()))
}

/// Slot `i` of `payload` holds the bytes of `batch[i]`, for each message of the
/// batch, and nothing follows the last slot.
pub open spec fn payload_holds(l: SlotLayout, payload: Seq<u8>, batch: Seq<Message>) -> bool {
    &&& payload.len() == batch.len() * l.msg_size
    &&& forall|i: int|
        0 <= i < batch.len() ==> payload.subrange(l.slot_start(i), l.slot_start(i) + l.msg_size)
            == (#[trigger] batch[i]).bytes()
}

/// The elapsed cycles between two counter readings; zero if the counter went backwards.
pub open spec fn elapsed(t0: u64, t1: u64) -> u64 {
    if t1 >= t0 {
        (t1 - t0) as u64
    } else {
        0
    }
}

/// Elapsed cycles between two counter readings, saturating at zero.
pub fn rtt_cycles(t0: u64, t1: u64) -> (r: u64)
    ensures
        r == elapsed(t0, t1),
        t1 >= t0 ==> r == t1 - t0,
{
    t1.saturating_sub(t0)
}

/// Lays out a batch for one post: slot `i` of the send region receives
/// `batch[i]`, and the chain links one signaled request per message.
pub fn plan_send(l: &SlotLayout, batch: &[Message]) -> (r: Result<SendPlan, FabricError>)
    requires
        l.wf(),
        batch@.len() <= l.depth,
    ensures
        r is Ok <==> batch_fits(*l, batch@),
        r matches Ok(p) ==> payload_holds(*l, p.payload@, batch@) && p.chain@ == send_chain(
            *l,
            batch@,
        ),
        r matches Err(e) ==> exists|k: int|
            #![trigger batch@[k]]
            0 <= k < batch@.len() && e == (FabricError::PayloadSize { index: k as usize })
                && batch@[k].bytes().len() != l.msg_size && forall|j: int|
                0 <= j < k ==> (#[trigger] batch@[j]).bytes().len() == l.msg_size,
{
    let n = batch.len();
    let ms = l.msg_size;
    let mut payload: Vec<u8> = Vec::new();
    let mut chain: Vec<SendWorkRequest> = Vec::new();
    let mut i: usize = 0;
    while i < n
        invariant
            l.wf(),
            n == batch@.len(),
            n <= l.depth,
            ms == l.msg_size,
            0 <= i <= n,
            payload@.len() == i * ms,
            forall|k: int|
                0 <= k < i ==> payload@.subrange(l.slot_start(k), l.slot_start(k) + ms)
                    == (#[trigger] batch@[k]).bytes(),
            forall|k: int| 0 <= k < i ==> (#[trigger] batch@[k]).bytes().len() == ms,
            chain@.len() == i,
            forall|k: int|
                0 <= k < i ==> #[trigger] chain@[k] == chain_request(
                    *l,
                    k,
                    n as int,
                    batch@[k].id(),
                ),
        decreases n - i,
    {
        let bytes = batch[i].buffer();
        if bytes.len() != ms {
            return Err(FabricError::PayloadSize { index: i });
        }
        let start = l.slot_offset(i);
        proof {
            lemma_slot_in_region(*l, i as int);
            assert(i * ms == l.slot_start(i as int));
        }
        let ghost before = payload@;
        let mut j: usize = 0;
        while j < ms
            invariant
                bytes@.len() == ms,
                payload@.len() == start + j,
                start == before.len(),
                0 <= j <= ms,
                payload@.subrange(0, start as int) == before,
                forall|t: int| 0 <= t < j ==> payload@[start + t] == bytes@[t],
            decreases ms - j,
        {
            payload.push(bytes[j]);
            proof {
                assert(payload@.subrange(0, start as int) =~= before);
            }
            j = j + 1;
        }
        proof {
            assert(payload@.subrange(start as int, start + ms) =~= batch@[i as int].bytes());
            assert forall|k: int| 0 <= k < i implies payload@.subrange(
                l.slot_start(k),
                l.slot_start(k) + ms,
            ) == (#[trigger] batch@[k]).bytes() by {
                lemma_slot_in_region(*l, k);
                assert(l.slot_start(k) + ms <= start) by (nonlinear_arith)
                    requires
                        l.slot_start(k) == k * ms,
                        start == i * ms,
                        k < i,
                ;
                assert(payload@.subrange(l.slot_start(k), l.slot_start(k) + ms) =~= before.subrange(
                    l.slot_start(k),
                    l.slot_start(k) + ms,
                ));
            }
            assert(payload@.len() == (i + 1) * ms) by (nonlinear_arith)
                requires
                    payload@.len() == i * ms + ms,
            ;
        }
        let next = if i + 1 < n {
            Some(i + 1)
        } else {
            None
        };
        chain.push(
            SendWorkRequest {
                wr_id: batch[i].req_id(),
                offset: start,
                length: ms,
                next,
                signaled: true,
            },
        );
        i = i + 1;
    }
    proof {
        assert(chain@ =~= send_chain(*l, batch@));
    }
    Ok(SendPlan { payload, chain })
}

/// The send completions of one posted chain, awaited in posting order.
///
/// A reliable connection returns send completions in the order the requests
/// were posted, so the completion number `k` of a round must carry the
/// request id of the chain's request number `k`.
pub struct SendRound {
    expected: Vec<u64>,
    acked: usize,
}

/// What goes wrong, if anything, with completion `wc` taken as the
/// acknowledgement number `pos` of a round expecting `expected`.
pub open spec fn send_fault(expected: Seq<u64>, pos: int, wc: Completion) -> Option<FabricError> {
    if pos >= expected.len() {
        Some(FabricError::UnexpectedCompletion { wr_id: wc.wr_id })
    } else if !wc.success {
        Some(FabricError::CompletionFailed { wr_id: wc.wr_id })
    } else if wc.wr_id != expected[pos] {
        Some(FabricError::UnexpectedCompletion { wr_id: wc.wr_id })
    } else {
        None
    }
}

impl SendRound {
    /// The request ids of the chain, in posting order.
    pub closed spec fn expected_ids(&self) -> Seq<u64> {
        self.expected@
    }

    /// How many completions the round has accepted.
    pub closed spec fn acked(&self) -> nat {
        self.acked as nat
    }

    pub closed spec fn wf(&self) -> bool {
        self.acked <= self.expected@.len()
    }

    /// A round awaiting the completions of `plan`'s chain.
    pub fn start(plan: &SendPlan) -> (r: SendRound)
        ensures
            r.wf(),
            r.expected_ids() == plan.chain@.map_values(|w: SendWorkRequest| w.wr_id),
            r.acked() == 0,
    {
        let mut expected: Vec<u64> = Vec::new();
        let mut i: usize = 0;
        while i < plan.chain.len()
            invariant
                0 <= i <= plan.chain@.len(),
                expected@ == plan.chain@.subrange(0, i as int).map_values(
                    |w: SendWorkRequest| w.wr_id,
                ),
            decreases plan.chain@.len() - i,
        {
            expected.push(plan.chain[i].wr_id);
            i = i + 1;
            proof {
                assert(expected@ =~= plan.chain@.subrange(0, i as int).map_values(
                    |w: SendWorkRequest| w.wr_id,
                ));
            }
        }
        proof {
            assert(plan.chain@.subrange(0, i as int) =~= plan.chain@);
        }
        SendRound { expected, acked: 0 }
    }

    /// How many completions are still awaited.
    pub fn outstanding(&self) -> (r: usize)
        requires
            self.wf(),
        ensures
            r == self.expected_ids().len() - self.acked(),
    {
        self.expected.len() - self.acked
    }

    /// Whether every request of the chain has been acknowledged.
    pub fn is_complete(&self) -> (r: bool)
        requires
            self.wf(),
        ensures
            r == (self.acked() == self.expected_ids().len()),
    {
        self.acked == self.expected.len()
    }

    /// Accepts the completions of one poll, in order. Fails on the first one
    /// that carries an error status, or that is not the acknowledgement of the
    /// next outstanding request; the round is then left as it was.
    pub fn on_completions(&mut self, wcs: &[Completion]) -> (r: Result<(), FabricError>)
        requires
            old(self).wf(),
        ensures
            final(self).wf(),
            final(self).expected_ids() == old(self).expected_ids(),
            r is Ok <==> forall|k: int|
                0 <= k < wcs@.len() ==> send_fault(
                    old(self).expected_ids(),
                    old(self).acked() + k,
                    #[trigger] wcs@[k],
                ) is None,
            r is Ok ==> final(self).acked() == old(self).acked() + wcs@.len(),
            r is Err ==> final(self).acked() == old(self).acked(),
            r matches Err(e) ==> exists|k: int|
                #![trigger wcs@[k]]
                0 <= k < wcs@.len() && send_fault(
                    old(self).expected_ids(),
                    old(self).acked() + k,
                    wcs@[k],
                ) == Some(e) && forall|j: int|
                    0 <= j < k ==> send_fault(
                        old(self).expected_ids(),
                        old(self).acked() + j,
                        #[trigger] wcs@[j],
                    ) is None,
    {
        let mut k: usize = 0;
        while k < wcs.len()
            invariant
                self.wf(),
                self == old(self),
                0 <= k <= wcs@.len(),
                forall|j: int|
                    0 <= j < k ==> send_fault(
                        self.expected_ids(),
                        self.acked() + j,
                        #[trigger] wcs@[j],
                    ) is None,
            decreases wcs@.len() - k,
        {
            let wc = wcs[k];
            if k >= self.expected.len() - self.acked {
                return Err(FabricError::UnexpectedCompletion { wr_id: wc.wr_id });
            }
            if !wc.success {
                return Err(FabricError::CompletionFailed { wr_id: wc.wr_id });
            }
            if wc.wr_id != self.expected[self.acked + k] {
                return Err(FabricError::UnexpectedCompletion { wr_id: wc.wr_id });
            }
            k = k + 1;
        }
        let total = self.expected.len();
        proof {
            if wcs@.len() > 0 {
                let last = wcs@.len() - 1;
                assert(send_fault(self.expected_ids(), self.acked() + last, wcs@[last]) is None);
                assert(self.acked() + last < self.expected_ids().len());
            }
            assert(self.acked + wcs@.len() <= total);
        }
        self.acked = self.acked + wcs.len();
        Ok(())
    }
}

/// A send posted with request id `k` is acknowledged by a completion carrying
/// `k`: when a round over the chain of `batch` accepts the completions `wcs`
/// of a poll (each without fault, as `on_completions` requires for success),
/// completion `wcs[k]` succeeded and carries the request id of the message it
/// acknowledges, `batch[acked + k]`.
pub proof fn lemma_send_id_round_trip(
    l: SlotLayout,
    batch: Seq<Message>,
    plan: SendPlan,
    round: SendRound,
    wcs: Seq<Completion>,
    k: int,
)
    requires
        plan.chain@ == send_chain(l, batch),
        round.expected_ids() == plan.chain@.map_values(|w: SendWorkRequest| w.wr_id),
        forall|j: int|
            0 <= j < wcs.len() ==> send_fault(round.expected_ids(), round.acked() + j, #[trigger] wcs[j])
                is None,
        0 <= k < wcs.len(),
    ensures
        round.acked() + k < batch.len(),
        wcs[k].success,
        wcs[k].wr_id == batch[round.acked() + k].id(),
        plan.chain@[round.acked() + k].wr_id == wcs[k].wr_id,
{
    assert(send_fault(round.expected_ids(), round.acked() + k, wcs[k]) is None);
}

} // verus!
