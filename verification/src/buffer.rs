use bytes::{Buf, BufMut, BytesMut};
use vstd::prelude::*;

use crate::wire::u64_be_bytes;

verus! {

/// `bytes::BytesMut`, the growable byte buffer that the frame codec reads
/// frames from and writes frames to.
#[verifier::external_type_specification]
#[verifier::external_body]
pub struct ExBytesMut(BytesMut);

/// The bytes that a `BytesMut` holds, in order.
pub uninterp spec fn bytes_mut_contents(buf: BytesMut) -> Seq<u8>;

/// The largest number of bytes that a `BytesMut` can hold: its
/// `remaining_mut` is `isize::MAX - len`.
pub open spec fn bytes_mut_max_len() -> int {
    isize::MAX as int
}

/// `<BytesMut as AsRef<[u8]>>::as_ref`: the bytes that the buffer holds.
#[verifier::external_body]
pub(crate) fn buffer_bytes(buf: &BytesMut) -> (bytes: &[u8])
    ensures
        bytes@ == bytes_mut_contents(*buf),
{
    buf.as_ref()
}

/// `<BytesMut as Buf>::advance`: drops the first `cnt` bytes. It panics when
/// `cnt` exceeds the length, which `requires` leaves out.
#[verifier::external_body]
pub(crate) fn buffer_advance(buf: &mut BytesMut, cnt: usize)
    requires
        cnt <= bytes_mut_contents(*old(buf)).len(),
    ensures
        bytes_mut_contents(*final(buf)) == bytes_mut_contents(*old(buf)).subrange(
            cnt as int,
            bytes_mut_contents(*old(buf)).len() as int,
        ),
{
    buf.advance(cnt)
}

/// `<BytesMut as BufMut>::put_u64`: appends the big-endian encoding of `n`.
/// It panics when the buffer would grow past `isize::MAX` bytes, which
/// `requires` leaves out.
#[verifier::external_body]
pub(crate) fn buffer_put_u64(buf: &mut BytesMut, n: u64)
    requires
        bytes_mut_contents(*old(buf)).len() + 8 <= bytes_mut_max_len(),
    ensures
        bytes_mut_contents(*final(buf)) == bytes_mut_contents(*old(buf)) + u64_be_bytes(n),
{
    buf.put_u64(n)
}

/// `<BytesMut as BufMut>::put` with a byte slice: appends the bytes of `src`.
/// It panics when the buffer would grow past `isize::MAX` bytes, which
/// `requires` leaves out.
#[verifier::external_body]
pub(crate) fn buffer_put(buf: &mut BytesMut, src: &[u8])
    requires
        bytes_mut_contents(*old(buf)).len() + src@.len() <= bytes_mut_max_len(),
    ensures
        bytes_mut_contents(*final(buf)) == bytes_mut_contents(*old(buf)) + src@,
{
    buf.put(src)
}

} // verus!
