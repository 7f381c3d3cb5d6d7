//! Block buffers: the payload a write pass sends and the landing buffers a
//! read pass fills.
use vstd::prelude::*;

verus! {

/// Relies on rand's `RngCore::fill_bytes` on the thread-local generator: it
/// overwrites the bytes of the slice in place and leaves its length alone.
#[verifier::external_body]
fn fill_random(buf: &mut Vec<u8>)
    ensures
        final(buf)@.len() == old(buf)@.len(),
{
    rand::RngCore::fill_bytes(&mut rand::rng(), buf.as_mut_slice())
}

/// A buffer of `buf_size` zero bytes.
pub fn zeroed_buffer(buf_size: usize) -> (r: Vec<u8>)
    ensures
        r@ == Seq::new(buf_size as nat, |i: int| 0u8),
{
    let mut buf: Vec<u8> = Vec::with_capacity(buf_size);
    let mut i: usize = 0;
    while i < buf_size
        invariant
            i <= buf_size,
            buf@ == Seq::new(i as nat, |j: int| 0u8),
        decreases buf_size - i,
    {
        buf.push(0u8);
        i = i + 1;
        assert(buf@ =~= Seq::new(i as nat, |j: int| 0u8));
    }
    buf
}

/// A write payload of `buf_size` unpredictable bytes, so that no layer below
/// can recognise the blocks as all-zero pages.
pub fn buf_data(buf_size: usize) -> (r: Vec<u8>)
    ensures
        r@.len() == buf_size,
{
    let mut buf = zeroed_buffer(buf_size);
    fill_random(&mut buf);
    buf
}

} // verus!
