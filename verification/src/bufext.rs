use vstd::prelude::*;

use bytes::Buf;

verus! {

#[verifier::external_type_specification]
#[verifier::external_body]
pub struct ExBytesMut(bytes::BytesMut);

/// What a `BytesMut` holds, front to back: the bytes it exposes as a slice.
pub uninterp spec fn buf_bytes(b: bytes::BytesMut) -> Seq<u8>;

/// Relies on BytesMut::with_capacity: an empty buffer (capacity is not part
/// of the contents).
#[verifier::external_body]
pub(crate) fn buf_with_capacity(cap: usize) -> (r: bytes::BytesMut)
    ensures
        buf_bytes(r) == Seq::<u8>::empty(),
{
    bytes::BytesMut::with_capacity(cap)
}

/// Relies on BytesMut::len: the number of bytes held.
#[verifier::external_body]
pub(crate) fn buf_len(b: &bytes::BytesMut) -> (r: usize)
    ensures
        r == buf_bytes(*b).len(),
{
    b.len()
}

/// Relies on BytesMut::extend_from_slice: appends the given bytes.
#[verifier::external_body]
pub(crate) fn buf_extend(b: &mut bytes::BytesMut, data: &[u8])
    ensures
        buf_bytes(*final(b)) == buf_bytes(*old(b)) + data@,
{
    b.extend_from_slice(data);
}

/// Relies on Buf::advance for BytesMut: drops the first `n` bytes. The call
/// panics past the end, so `n` is bounded here.
#[verifier::external_body]
pub(crate) fn buf_advance(b: &mut bytes::BytesMut, n: usize)
    requires
        n <= buf_bytes(*old(b)).len(),
    ensures
        buf_bytes(*final(b)) == buf_bytes(*old(b)).skip(n as int),
{
    b.advance(n);
}

/// Relies on BytesMut::split_to: removes the first `n` bytes and hands them
/// back, converted to a plain vector. The call panics past the end, so `n`
/// is bounded here.
#[verifier::external_body]
pub(crate) fn buf_split_to(b: &mut bytes::BytesMut, n: usize) -> (r: Vec<u8>)
    requires
        n <= buf_bytes(*old(b)).len(),
    ensures
        r@ == buf_bytes(*old(b)).take(n as int),
        buf_bytes(*final(b)) == buf_bytes(*old(b)).skip(n as int),
{
    b.split_to(n).to_vec()
}

/// Relies on BytesMut's Deref to [u8]: a borrowed view of the contents.
#[verifier::external_body]
pub(crate) fn buf_as_slice(b: &bytes::BytesMut) -> (r: &[u8])
    ensures
        r@ == buf_bytes(*b),
{
    b
}

} // verus!
