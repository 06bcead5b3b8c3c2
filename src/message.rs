use vstd::prelude::*;

verus! {

/// A fixed-size byte payload tagged with a 64-bit request id.
pub struct Message {
    buf: Vec<u8>,
    id: u64,
}

impl Message {
    /// The payload bytes of the message.
    pub closed spec fn bytes(&self) -> Seq<u8> {
        self.buf@
    }

    /// The request id of the message.
    pub closed spec fn id(&self) -> u64 {
        self.id
    }

    /// A message of `size` zero bytes carrying `req_id`.
    pub fn new(size: usize, req_id: u64) -> (r: Self)
        ensures
            r.bytes() == Seq::new(size as nat, |i: int| 0u8),
            r.id() == req_id,
    {
        let buf = vec![0u8; size];
        proof {
            assert(buf@ =~= Seq::new(size as nat, |i: int| 0u8));
        }
        Message { buf, id: req_id }
    }

    /// The request id of the message.
    pub fn req_id(&self) -> (r: u64)
        ensures
            r == self.id(),
    {
        self.id
    }

    /// The payload bytes of the message.
    pub fn buffer(&self) -> (r: &Vec<u8>)
        ensures
            r@ == self.bytes(),
    {
        &self.buf
    }

    /// A message holding a copy of `bytes`, with request id zero.
    pub fn from_bytes(bytes: &[u8]) -> (r: Self)
        ensures
            r.bytes() == bytes@,
            r.id() == 0,
    {
        Message { buf: vstd::slice::slice_to_vec(bytes), id: 0 }
    }
}

impl Clone for Message {
    /// Copies the message, payload included.
    fn clone(&self) -> (r: Self)
        ensures
            r.bytes() == self.bytes(),
            r.id() == self.id(),
    {
        Message { buf: self.buf.clone(), id: self.id }
    }
}

impl Default for Message {
    /// An empty message with request id zero.
    fn default() -> (r: Self)
        ensures
            r.bytes() == Seq::<u8>::empty(),
            r.id() == 0,
    {
        let r = Message::new(0, 0);
        proof {
            assert(r.bytes() =~= Seq::<u8>::empty());
        }
        r
    }
}

} // verus!
