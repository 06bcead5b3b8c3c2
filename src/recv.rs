use vstd::prelude::*;

use crate::layout::{lemma_slot_in_region, Completion, FabricError, RecvWorkRequest, SlotLayout};
use crate::message::Message;

verus! {

/// Where a receive slot stands: posted to the receive queue, or held by the
/// completion handler that will post it again.
#[derive(Clone, Copy, Debug, PartialEq, Eq, Structural)]
pub enum SlotState {
    Posted,
    Held,
}

/// How many entries of `s` stand in state `st`.
pub open spec fn count_state(s: Seq<SlotState>, st: SlotState) -> nat
    decreases s.len(),
{
    if s.len() == 0 {
        0
    } else {
        count_state(s.drop_last(), st) + if s.last() == st {
            1nat
        } else {
            0nat
        }
    }
}

/// Every slot is posted.
pub open spec fn all_posted(s: Seq<SlotState>) -> bool {
    forall|i: int| 0 <= i < s.len() ==> s[i] == SlotState::Posted
}

/// Every slot is either posted or held, whatever the states.
pub proof fn lemma_slot_conservation(s: Seq<SlotState>)
    ensures
        count_state(s, SlotState::Posted) + count_state(s, SlotState::Held) == s.len(),
    decreases s.len(),
{
    if s.len() > 0 {
        lemma_slot_conservation(s.drop_last());
    }
}

/// When every slot is posted, the posted count is the number of slots.
pub proof fn lemma_all_posted_count(s: Seq<SlotState>)
    requires
        all_posted(s),
    ensures
        count_state(s, SlotState::Posted) == s.len(),
        count_state(s, SlotState::Held) == 0,
    decreases s.len(),
{
    if s.len() > 0 {
        lemma_all_posted_count(s.drop_last());
    }
}

/// Setting one slot to `st` moves one unit of count from its old state to `st`.
proof fn lemma_count_update(s: Seq<SlotState>, i: int, st: SlotState)
    requires
        0 <= i < s.len(),
    ensures
        count_state(s.update(i, st), st) == count_state(s, st) + if s[i] == st {
            0int
        } else {
            1int
        },
        s[i] != st ==> count_state(s.update(i, st), s[i]) == count_state(s, s[i]) - 1,
    decreases s.len(),
{
    let u = s.update(i, st);
    if i == s.len() - 1 {
        assert(u.drop_last() =~= s.drop_last());
    } else {
        lemma_count_update(s.drop_last(), i, st);
        assert(u.drop_last() =~= s.drop_last().update(i, st));
    }
}

/// What goes wrong, if anything, with receive completion number `k` of a
/// poll, given the slot states before the poll.
pub open spec fn recv_fault(
    l: SlotLayout,
    states: Seq<SlotState>,
    wcs: Seq<Completion>,
    k: int,
) -> Option<FabricError> {
    let wc = wcs[k];
    if !wc.success {
        Some(FabricError::CompletionFailed { wr_id: wc.wr_id })
    } else if wc.byte_len != l.msg_size {
        Some(FabricError::LengthMismatch { wr_id: wc.wr_id, byte_len: wc.byte_len })
    } else if wc.wr_id >= l.depth {
        Some(FabricError::UnknownSlot { wr_id: wc.wr_id })
    } else if states[wc.wr_id as int] != SlotState::Posted || exists|j: int|
        0 <= j < k && (#[trigger] wcs[j]).wr_id == wc.wr_id {
        Some(FabricError::SlotNotPosted { wr_id: wc.wr_id })
    } else {
        None
    }
}

/// The bytes of slot `i` of `region`.
pub open spec fn slot_bytes(l: SlotLayout, region: Seq<u8>, i: int) -> Seq<u8> {
    region.subrange(l.slot_start(i), l.slot_start(i) + l.msg_size)
}

/// What one round of the receive path hands back: the messages, in
/// completion order, and the descriptors to post again.
pub struct Received {
    pub messages: Vec<Message>,
    pub reposts: Vec<RecvWorkRequest>,
}

/// The receive slots of an adapter.
///
/// A slot is posted to the receive queue, or held by the completion handler,
/// which posts it again before the round returns.
pub struct RecvPool {
    layout: SlotLayout,
    slots: Vec<SlotState>,
}

impl RecvPool {
    /// The layout of the receive region.
    pub closed spec fn layout(&self) -> SlotLayout {
        self.layout
    }

    /// The state of each slot.
    pub closed spec fn states(&self) -> Seq<SlotState> {
        self.slots@
    }

    /// The layout is well formed and there is one state per slot.
    pub open spec fn wf(&self) -> bool {
        &&& self.layout().wf()
        &&& self.states().len() == self.layout().depth
    }

    /// How many slots are posted to the receive queue.
    pub open spec fn posted_count(&self) -> nat {
        count_state(self.states(), SlotState::Posted)
    }

    /// How many slots are held by the completion handler.
    pub open spec fn held_count(&self) -> nat {
        count_state(self.states(), SlotState::Held)
    }

    /// A pool over `layout` with every slot posted, and the descriptors to
    /// post: slot `i` under work-request id `i`, in slot order.
    pub fn new(layout: SlotLayout) -> (r: (RecvPool, Vec<RecvWorkRequest>))
        requires
            layout.wf(),
        ensures
            r.0.wf(),
            r.0.layout() == layout,
            all_posted(r.0.states()),
            r.1@ == Seq::new(layout.depth as nat, |i: int| layout.recv_descriptor(i)),
    {
        let mut slots: Vec<SlotState> = Vec::new();
        let mut posts: Vec<RecvWorkRequest> = Vec::new();
        let mut i: usize = 0;
        while i < layout.depth
            invariant
                layout.wf(),
                0 <= i <= layout.depth,
                slots@.len() == i,
                all_posted(slots@),
                posts@ =~= Seq::new(i as nat, |k: int| layout.recv_descriptor(k)),
            decreases layout.depth - i,
        {
            slots.push(SlotState::Posted);
            posts.push(layout.recv_request(i));
            i = i + 1;
        }
        (RecvPool { layout, slots }, posts)
    }

    /// How many slots are posted to the receive queue.
    pub fn posted(&self) -> (r: usize)
        requires
            self.wf(),
        ensures
            r == self.posted_count(),
    {
        let mut n: usize = 0;
        let mut i: usize = 0;
        while i < self.slots.len()
            invariant
                0 <= i <= self.slots@.len(),
                n == count_state(self.slots@.subrange(0, i as int), SlotState::Posted),
                n <= i,
            decreases self.slots@.len() - i,
        {
            proof {
                let s = self.slots@.subrange(0, i + 1);
                assert(s.drop_last() =~= self.slots@.subrange(0, i as int));
            }
            if self.slots[i] == SlotState::Posted {
                n = n + 1;
            }
            i = i + 1;
        }
        proof {
            assert(self.slots@.subrange(0, i as int) =~= self.slots@);
        }
        n
    }

    /// One round of the receive path over the completions of one poll and the
    /// contents of the receive region.
    ///
    /// Each completion must succeed, have moved exactly one slot's worth of
    /// bytes, and name a posted slot that no earlier completion of the poll
    /// named; otherwise the first one that does not is reported and the pool
    /// is left as it was. Each completed slot is taken from the queue, its
    /// bytes become a message, and it is posted again under the same id.
    pub fn read_round(&mut self, wcs: &[Completion], region: &[u8]) -> (r: Result<
        Received,
        FabricError,
    >)
        requires
            old(self).wf(),
            region@.len() == old(self).layout().region_len(),
        ensures
            final(self).wf(),
            final(self).layout() == old(self).layout(),
            final(self).states() == old(self).states(),
            r is Ok <==> forall|k: int|
                0 <= k < wcs@.len() ==> recv_fault(old(self).layout(), old(self).states(), wcs@, k)
                    is None,
            r matches Err(e) ==> exists|k: int|
                0 <= k < wcs@.len() && recv_fault(old(self).layout(), old(self).states(), wcs@, k)
                    == Some(e) && forall|j: int|
                    0 <= j < k ==> recv_fault(old(self).layout(), old(self).states(), wcs@, j)
                        is None,
            r matches Ok(out) ==> {
                &&& out.messages@.len() == wcs@.len()
                &&& forall|k: int|
                    0 <= k < wcs@.len() ==> (#[trigger] out.messages@[k]).bytes() == slot_bytes(
                        old(self).layout(),
                        region@,
                        wcs@[k].wr_id as int,
                    ) && out.messages@[k].id() == 0
                &&& out.reposts@ == Seq::new(
                    wcs@.len(),
                    |k: int| old(self).layout().recv_descriptor(wcs@[k].wr_id as int),
                )
            },
    {
        let l = self.layout;
        let n = wcs.len();
        let ghost states0 = self.slots@;
        // Check the whole poll before touching any slot.
        let mut seen: Vec<bool> = Vec::new();
        let mut s: usize = 0;
        while s < l.depth
            invariant
                0 <= s <= l.depth,
                seen@.len() == s,
                forall|t: int| 0 <= t < s ==> !seen@[t],
            decreases l.depth - s,
        {
            seen.push(false);
            s = s + 1;
        }
        let mut k: usize = 0;
        while k < n
            invariant
                self.wf(),
                self.layout == l,
                self.slots@ == states0,
                n == wcs@.len(),
                0 <= k <= n,
                seen@.len() == l.depth,
                forall|t: int|
                    0 <= t < l.depth ==> (seen@[t] <==> exists|j: int|
                        0 <= j < k && (#[trigger] wcs@[j]).wr_id == t),
                forall|j: int| 0 <= j < k ==> recv_fault(l, states0, wcs@, j) is None,
            decreases n - k,
        {
            let wc = wcs[k];
            if !wc.success {
                proof {
                    assert(recv_fault(l, states0, wcs@, k as int) == Some(FabricError::CompletionFailed { wr_id: wcs@[k as int].wr_id }));
                }
                return Err(FabricError::CompletionFailed { wr_id: wc.wr_id });
            }
            if wc.byte_len != l.msg_size {
                proof {
                    assert(recv_fault(l, states0, wcs@, k as int) == Some(FabricError::LengthMismatch { wr_id: wcs@[k as int].wr_id, byte_len: wcs@[k as int].byte_len }));
                }
                return Err(FabricError::LengthMismatch { wr_id: wc.wr_id, byte_len: wc.byte_len });
            }
            if wc.wr_id >= l.depth as u64 {
                proof {
                    assert(recv_fault(l, states0, wcs@, k as int) == Some(FabricError::UnknownSlot { wr_id: wcs@[k as int].wr_id }));
                }
                return Err(FabricError::UnknownSlot { wr_id: wc.wr_id });
            }
            let slot = wc.wr_id as usize;
            if self.slots[slot] != SlotState::Posted || seen[slot] {
                proof {
                    assert(recv_fault(l, states0, wcs@, k as int) == Some(FabricError::SlotNotPosted { wr_id: wcs@[k as int].wr_id }));
                }
                return Err(FabricError::SlotNotPosted { wr_id: wc.wr_id });
            }
            seen.set(slot, true);
            proof {
                assert forall|t: int| 0 <= t < l.depth implies (seen@[t] <==> exists|j: int|
                    0 <= j < k + 1 && (#[trigger] wcs@[j]).wr_id == t) by {
                    if t == slot {
                        assert(wcs@[k as int].wr_id == t);
                    }
                }
            }
            k = k + 1;
        }
        proof {
            lemma_slot_conservation(self.slots@);
        }
        // Take every completed slot from the queue.
        let mut k: usize = 0;
        while k < n
            invariant
                self.wf(),
                self.layout == l,
                states0.len() == l.depth,
                n == wcs@.len(),
                0 <= k <= n,
                forall|j: int| 0 <= j < n ==> recv_fault(l, states0, wcs@, j) is None,
                forall|t: int|
                    0 <= t < l.depth ==> self.slots@[t] == if exists|j: int|
                        0 <= j < k && (#[trigger] wcs@[j]).wr_id == t {
                        SlotState::Held
                    } else {
                        states0[t]
                    },
                self.posted_count() + k == count_state(states0, SlotState::Posted),
                self.posted_count() + self.held_count() == l.depth,
            decreases n - k,
        {
            let slot = wcs[k].wr_id as usize;
            proof {
                assert(recv_fault(l, states0, wcs@, k as int) is None);
                assert(self.slots@[slot as int] == SlotState::Posted);
                lemma_count_update(self.slots@, slot as int, SlotState::Held);
                lemma_slot_conservation(self.slots@.update(slot as int, SlotState::Held));
            }
            self.slots.set(slot, SlotState::Held);
            proof {
                assert forall|t: int| 0 <= t < l.depth implies self.slots@[t] == if exists|j: int|
                    0 <= j < k + 1 && (#[trigger] wcs@[j]).wr_id == t {
                    SlotState::Held
                } else {
                    states0[t]
                } by {
                    if t == slot {
                        assert(wcs@[k as int].wr_id == t);
                    } else if exists|j: int| 0 <= j < k + 1 && (#[trigger] wcs@[j]).wr_id == t {
                        let j = choose|j: int| 0 <= j < k + 1 && (#[trigger] wcs@[j]).wr_id == t;
                        assert(j != k);
                    }
                }
            }
            k = k + 1;
        }
        // Copy each held slot into a message and post it again.
        let mut messages: Vec<Message> = Vec::new();
        let mut reposts: Vec<RecvWorkRequest> = Vec::new();
        let mut k: usize = 0;
        while k < n
            invariant
                self.wf(),
                self.layout == l,
                states0.len() == l.depth,
                n == wcs@.len(),
                region@.len() == l.region_len(),
                0 <= k <= n,
                forall|j: int| 0 <= j < n ==> recv_fault(l, states0, wcs@, j) is None,
                forall|t: int|
                    0 <= t < l.depth ==> self.slots@[t] == if exists|j: int|
                        k <= j < n && (#[trigger] wcs@[j]).wr_id == t {
                        SlotState::Held
                    } else {
                        states0[t]
                    },
                self.posted_count() + self.held_count() == l.depth,
                messages@.len() == k,
                forall|j: int|
                    0 <= j < k ==> (#[trigger] messages@[j]).bytes() == slot_bytes(
                        l,
                        region@,
                        wcs@[j].wr_id as int,
                    ) && messages@[j].id() == 0,
                reposts@ =~= Seq::new(k as nat, |j: int| l.recv_descriptor(wcs@[j].wr_id as int)),
            decreases n - k,
        {
            let slot = wcs[k].wr_id as usize;
            proof {
                assert(recv_fault(l, states0, wcs@, k as int) is None);
                lemma_slot_in_region(l, slot as int);
            }
            let start = l.slot_offset(slot);
            let bytes = vstd::slice::slice_subrange(region, start, start + l.msg_size);
            messages.push(Message::from_bytes(bytes));
            reposts.push(l.recv_request(slot));
            proof {
                assert(self.slots@[slot as int] == SlotState::Held) by {
                    assert(wcs@[k as int].wr_id == slot);
                }
                lemma_count_update(self.slots@, slot as int, SlotState::Posted);
                lemma_slot_conservation(self.slots@.update(slot as int, SlotState::Posted));
            }
            self.slots.set(slot, SlotState::Posted);
            proof {
                assert forall|t: int| 0 <= t < l.depth implies self.slots@[t] == if exists|j: int|
                    k + 1 <= j < n && (#[trigger] wcs@[j]).wr_id == t {
                    SlotState::Held
                } else {
                    states0[t]
                } by {
                    if t == slot {
                        if exists|j: int| k + 1 <= j < n && (#[trigger] wcs@[j]).wr_id == t {
                            let j = choose|j: int| k + 1 <= j < n && (#[trigger] wcs@[j]).wr_id == t;
                            assert(recv_fault(l, states0, wcs@, j) is None);
                            assert(wcs@[k as int].wr_id == wcs@[j].wr_id);
                        }
                    } else if exists|j: int| k <= j < n && (#[trigger] wcs@[j]).wr_id == t {
                        let j = choose|j: int| k <= j < n && (#[trigger] wcs@[j]).wr_id == t;
                        assert(j != k);
                    }
                }
            }
            k = k + 1;
        }
        proof {
            assert(self.slots@ =~= states0);
        }
        Ok(Received { messages, reposts })
    }
}

/// Receive-slot conservation: at every point each slot of a pool is either
/// posted or held, and after a round that succeeds from a quiescent pool
/// (every slot posted) every slot is posted again, one descriptor is posted
/// again for each message handed back, and no slot is lost.
pub proof fn lemma_receive_slot_conservation(before: RecvPool, after: RecvPool, handed_back: nat, reposted: nat)
    requires
        before.wf(),
        all_posted(before.states()),
        after.wf(),
        after.layout() == before.layout(),
        after.states() == before.states(),
        handed_back == reposted,
    ensures
        before.posted_count() + before.held_count() == before.layout().depth,
        after.posted_count() == after.layout().depth,
        after.held_count() == 0,
        after.posted_count() + handed_back == before.posted_count() + reposted,
{
    lemma_slot_conservation(before.states());
    lemma_all_posted_count(before.states());
}

} // verus!
