use vstd::prelude::*;

verus! {

/// A registered region cut into `depth` slots of `msg_size` bytes each.
///
/// Slot `i` occupies bytes `[i * msg_size, (i + 1) * msg_size)` of the region.
#[derive(Clone, Copy, Debug, PartialEq, Eq, Structural)]
pub struct SlotLayout {
    pub msg_size: usize,
    pub depth: usize,
}

/// One send work request of a chain posted with a single call.
#[derive(Clone, Copy, Debug, PartialEq, Eq, Structural)]
pub struct SendWorkRequest {
    /// Opaque correlator returned by the send completion: the message's request id.
    pub wr_id: u64,
    /// Start of the scatter-gather entry within the send region.
    pub offset: usize,
    /// Length of the scatter-gather entry.
    pub length: usize,
    /// Index of the following request of the chain, if any.
    pub next: Option<usize>,
    /// Whether the request asks for a completion.
    pub signaled: bool,
}

/// One receive descriptor, pointing at a slot of the receive region.
#[derive(Clone, Copy, Debug, PartialEq, Eq, Structural)]
pub struct RecvWorkRequest {
    /// The slot index, returned by the receive completion.
    pub wr_id: u64,
    /// Start of the slot within the receive region.
    pub offset: usize,
    /// Length of the slot.
    pub length: usize,
}

/// A work completion as polled from a completion queue.
#[derive(Clone, Copy, Debug, PartialEq, Eq, Structural)]
pub struct Completion {
    pub wr_id: u64,
    pub success: bool,
    pub byte_len: usize,
}

/// Runtime faults of the fabric, all fatal to the session.
#[derive(Clone, Copy, Debug, PartialEq, Eq, Structural)]
pub enum FabricError {
    /// A completion carried an error status.
    CompletionFailed { wr_id: u64 },
    /// A send completion that no outstanding request accounts for, in posting order.
    UnexpectedCompletion { wr_id: u64 },
    /// A receive completion that moved another number of bytes than a slot holds.
    LengthMismatch { wr_id: u64, byte_len: usize },
    /// A receive completion whose id names no slot of the region.
    UnknownSlot { wr_id: u64 },
    /// A receive completion for a slot that is not posted.
    SlotNotPosted { wr_id: u64 },
    /// A message of a batch whose payload is not one slot long.
    PayloadSize { index: usize },
}

impl SlotLayout {
    /// Both dimensions are positive and the region's length fits in `usize`.
    pub open spec fn wf(self) -> bool {
        &&& self.msg_size >= 1
        &&& self.depth >= 1
        &&& self.msg_size * self.depth <= usize::MAX
    }

    /// The length of the whole region, in bytes.
    pub open spec fn region_len(self) -> int {
        self.msg_size * self.depth
    }

    /// The first byte of slot `i`.
    pub open spec fn slot_start(self, i: int) -> int {
        i * self.msg_size
    }

    /// The receive descriptor of slot `i`: work-request id `i`, pointing at the slot.
    pub open spec fn recv_descriptor(self, i: int) -> RecvWorkRequest {
        RecvWorkRequest {
            wr_id: i as u64,
            offset: self.slot_start(i) as usize,
            length: self.msg_size,
        }
    }

    /// The layout of `depth` slots of `msg_size` bytes, where it is well formed.
    pub fn new(msg_size: usize, depth: usize) -> (r: Option<SlotLayout>)
        ensures
            r is Some <==> (SlotLayout { msg_size, depth }).wf(),
            r matches Some(l) ==> l == (SlotLayout { msg_size, depth }),
    {
        if msg_size == 0 || depth == 0 {
            return None;
        }
        match msg_size.checked_mul(depth) {
            Some(_) => Some(SlotLayout { msg_size, depth }),
            None => None,
        }
    }

    /// The length of the whole region, in bytes.
    pub fn region_bytes(&self) -> (r: usize)
        requires
            self.wf(),
        ensures
            r == self.region_len(),
    {
        self.msg_size * self.depth
    }

    /// The first byte of slot `i`.
    pub fn slot_offset(&self, i: usize) -> (r: usize)
        requires
            self.wf(),
            i < self.depth,
        ensures
            r == self.slot_start(i as int),
            r + self.msg_size <= self.region_len(),
    {
        proof {
            lemma_slot_in_region(*self, i as int);
        }
        i * self.msg_size
    }

    /// The receive descriptor of slot `i`.
    pub fn recv_request(&self, i: usize) -> (r: RecvWorkRequest)
        requires
            self.wf(),
            i < self.depth,
        ensures
            r == self.recv_descriptor(i as int),
    {
        RecvWorkRequest { wr_id: i as u64, offset: self.slot_offset(i), length: self.msg_size }
    }
}

/// Every slot of a well-formed layout lies within its region.
pub proof fn lemma_slot_in_region(l: SlotLayout, i: int)
    requires
        l.wf(),
        0 <= i < l.depth,
    ensures
        0 <= l.slot_start(i),
        l.slot_start(i) + l.msg_size <= l.region_len(),
        l.slot_start(i) + l.msg_size == l.slot_start(i + 1),
{
    let m = l.msg_size as int;
    let d = l.depth as int;
    assert(0 <= i * m) by (nonlinear_arith)
        requires
            0 <= i,
            0 <= m,
    ;
    assert(i * m + m <= m * d) by (nonlinear_arith)
        requires
            0 <= i < d,
            0 <= m,
    ;
    assert(i * m + m == (i + 1) * m) by (nonlinear_arith);
}

} // verus!
