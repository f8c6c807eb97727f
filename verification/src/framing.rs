//! The byte framing used between the node and a unit's network endpoint:
//! each datagram travels as a two-byte little-endian length prefix followed
//! by that many payload bytes, so a stream of chunks of arbitrary sizes can
//! be cut back into the original datagrams.

use vstd::prelude::*;

use crate::bufext::{buf_advance, buf_as_slice, buf_bytes, buf_len, buf_extend, buf_split_to,
    buf_with_capacity};

verus! {

/// The largest payload a two-byte prefix can announce.
pub const MAX_FRAME_SIZE: usize = 65535;

/// The number of bytes the length prefix occupies.
pub const PREFIX_SIZE: usize = 2;

/// The length a prefix of bytes `b0`, `b1` announces.
pub open spec fn prefix_value(b0: u8, b1: u8) -> int {
    b0 + 256 * b1
}

/// The two prefix bytes announcing the length `n`.
pub open spec fn prefix_bytes_of(n: int) -> Seq<u8> {
    seq![(n % 256) as u8, ((n / 256) % 256) as u8]
}

/// Whether the front of `b` holds one complete frame.
pub open spec fn frame_ready(b: Seq<u8>) -> bool {
    b.len() >= PREFIX_SIZE && b.len() >= PREFIX_SIZE + prefix_value(b[0], b[1])
}

/// Reads the length prefix at the front of `src`, if both its bytes are
/// there.
pub fn read_prefix(src: &[u8]) -> (r: Option<u16>)
    ensures
        src@.len() < PREFIX_SIZE ==> r is None,
        src@.len() >= PREFIX_SIZE ==> r == Some((prefix_value(src@[0], src@[1]) as u16)),
{
    if src.len() < PREFIX_SIZE {
        return None;
    }
    let b0 = src[0];
    let b1 = src[1];
    Some(b0 as u16 + 256 * (b1 as u16))
}

/// Prepends the length prefix to a payload in place: afterwards the vector
/// is one complete frame announcing the old contents.
pub fn write_prefix(dst: &mut Vec<u8>)
    requires
        old(dst)@.len() <= MAX_FRAME_SIZE,
    ensures
        final(dst)@ == prefix_bytes_of(old(dst)@.len() as int) + old(dst)@,
        final(dst)@.len() == old(dst)@.len() + PREFIX_SIZE,
        prefix_value(final(dst)@[0], final(dst)@[1]) == old(dst)@.len(),
        frame_ready(final(dst)@),
        final(dst)@.skip(PREFIX_SIZE as int) == old(dst)@,
{
    let ghost data = dst@;
    let len = dst.len();
    let lo = (len % 256) as u8;
    let hi = ((len / 256) % 256) as u8;
    let mut out: Vec<u8> = Vec::new();
    out.push(lo);
    out.push(hi);
    out.append(dst);
    core::mem::swap(dst, &mut out);
    proof {
        assert(dst@ =~= prefix_bytes_of(data.len() as int) + data);
        assert(dst@.skip(PREFIX_SIZE as int) =~= data);
    }
}

/// Receive-side reassembly buffer: chunks arrive in arbitrary sizes, whole
/// frames come out. The buffer holds whatever tail does not yet form a
/// complete frame.
#[derive(Debug)]
pub struct RxBuffer {
    pub inner: bytes::BytesMut,
}

impl View for RxBuffer {
    type V = Seq<u8>;

    open spec fn view(&self) -> Seq<u8> {
        buf_bytes(self.inner)
    }
}

impl Default for RxBuffer {
    fn default() -> (r: Self)
        ensures
            r@ == Seq::<u8>::empty(),
    {
        RxBuffer { inner: buf_with_capacity(2 * (PREFIX_SIZE + MAX_FRAME_SIZE)) }
    }
}

impl RxBuffer {
    /// Appends one received chunk to the tail of the buffer.
    pub fn process(&mut self, received: &[u8])
        ensures
            final(self)@ == old(self)@ + received@,
    {
        buf_extend(&mut self.inner, received);
    }

    /// Cuts the next complete frame off the front of the buffer, or returns
    /// nothing (and changes nothing) while the front frame is still partial.
    pub fn next_frame(&mut self) -> (r: Option<Vec<u8>>)
        ensures
            !frame_ready(old(self)@) ==> r is None && final(self)@ == old(self)@,
            frame_ready(old(self)@) ==> (r matches Some(v) && {
                let len = prefix_value(old(self)@[0], old(self)@[1]);
                &&& v@ == old(self)@.subrange(PREFIX_SIZE as int, PREFIX_SIZE + len)
                &&& final(self)@ == old(self)@.skip(PREFIX_SIZE + len)
            }),
    {
        let len = {
            let s = buf_as_slice(&self.inner);
            match read_prefix(s) {
                None => {
                    return None;
                },
                Some(len) => len,
            }
        };
        let total = buf_len(&self.inner);
        if total < PREFIX_SIZE + len as usize {
            return None;
        }
        let ghost pre = self@;
        buf_advance(&mut self.inner, PREFIX_SIZE);
        let v = buf_split_to(&mut self.inner, len as usize);
        proof {
            assert(v@ =~= pre.subrange(PREFIX_SIZE as int, PREFIX_SIZE + len));
            assert(self@ =~= pre.skip(PREFIX_SIZE + len));
        }
        Some(v)
    }
}

/// One frame announces exactly its payload: after framing a payload and
/// appending whatever later bytes, the front frame is complete, decodes to
/// that payload, and leaves exactly the later bytes behind.
pub proof fn lemma_frame_round_trip(data: Seq<u8>, rest: Seq<u8>)
    requires
        data.len() <= MAX_FRAME_SIZE,
    ensures
        frame_ready(prefix_bytes_of(data.len() as int) + data + rest),
        ({
            let b = prefix_bytes_of(data.len() as int) + data + rest;
            &&& prefix_value(b[0], b[1]) == data.len()
            &&& b.subrange(PREFIX_SIZE as int, PREFIX_SIZE + data.len()) == data
            &&& b.skip(PREFIX_SIZE + data.len()) == rest
        }),
{
    let b = prefix_bytes_of(data.len() as int) + data + rest;
    assert(b[0] == (data.len() as int % 256) as u8);
    assert(b[1] == ((data.len() as int / 256) % 256) as u8);
    assert(b.subrange(PREFIX_SIZE as int, PREFIX_SIZE + data.len()) =~= data);
    assert(b.skip(PREFIX_SIZE + data.len()) =~= rest);
}

} // verus!
