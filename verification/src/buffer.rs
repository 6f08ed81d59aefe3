//! Sample buffers that grow and never shrink: the live samples sit in a
//! prefix, and what lies behind the prefix is kept for the next, longer use.
use vstd::prelude::*;

verus! {

/// `n` samples of positive zero.
pub open spec fn zeros(n: nat) -> Seq<u32> {
    Seq::new(n, |i: int| 0u32)
}

/// Lengthens the buffer to `len` with zeros. A buffer that is long enough is
/// left as it is.
pub fn grow_zeroed(buf: &mut Vec<u32>, len: usize)
    ensures
        len <= old(buf).len() ==> final(buf)@ == old(buf)@,
        len > old(buf).len() ==> final(buf)@ == old(buf)@ + zeros((len - old(buf).len()) as nat),
{
    if buf.len() < len {
        let ghost before = buf@;
        assert(buf@ =~= before + zeros(0));
        while buf.len() < len
            invariant
                before.len() <= buf.len() <= len,
                buf@ == before + zeros((buf.len() - before.len()) as nat),
            decreases len - buf.len(),
        {
            buf.push(0u32);
            assert(buf@ =~= before + zeros((buf.len() - before.len()) as nat));
        }
    }
}

/// Overwrites the prefix of the buffer with `src`.
pub fn write_prefix(buf: &mut Vec<u32>, src: &[u32])
    requires
        src.len() <= old(buf).len(),
    ensures
        final(buf)@ == src@ + old(buf)@.subrange(src.len() as int, old(buf).len() as int),
{
    let n = src.len();
    let mut i: usize = 0;
    while i < n
        invariant
            i <= n,
            n == src.len(),
            buf.len() == old(buf).len(),
            n <= buf.len(),
            forall|j: int| 0 <= j < i ==> buf[j] == src[j],
            forall|j: int| i <= j < buf.len() ==> buf[j] == old(buf)[j],
        decreases n - i,
    {
        buf[i] = src[i];
        i = i + 1;
    }
    assert(buf@ =~= src@ + old(buf)@.subrange(src.len() as int, old(buf).len() as int));
}

/// Overwrites the first `n` samples of the buffer with those of `src`.
pub fn copy_prefix(buf: &mut Vec<u32>, src: &Vec<u32>, n: usize)
    requires
        n <= old(buf).len(),
        n <= src.len(),
    ensures
        final(buf)@ == src@.subrange(0, n as int) + old(buf)@.subrange(
            n as int,
            old(buf).len() as int,
        ),
{
    let mut i: usize = 0;
    while i < n
        invariant
            i <= n,
            n <= src.len(),
            buf.len() == old(buf).len(),
            n <= buf.len(),
            forall|j: int| 0 <= j < i ==> buf[j] == src[j],
            forall|j: int| i <= j < buf.len() ==> buf[j] == old(buf)[j],
        decreases n - i,
    {
        buf[i] = src[i];
        i = i + 1;
    }
    assert(buf@ =~= src@.subrange(0, n as int) + old(buf)@.subrange(
        n as int,
        old(buf).len() as int,
    ));
}

/// Overwrites the first `n` samples of the buffer with zeros.
pub fn zero_prefix(buf: &mut Vec<u32>, n: usize)
    requires
        n <= old(buf).len(),
    ensures
        final(buf)@ == zeros(n as nat) + old(buf)@.subrange(n as int, old(buf).len() as int),
{
    let mut i: usize = 0;
    while i < n
        invariant
            i <= n,
            buf.len() == old(buf).len(),
            n <= buf.len(),
            forall|j: int| 0 <= j < i ==> buf[j] == 0,
            forall|j: int| i <= j < buf.len() ==> buf[j] == old(buf)[j],
        decreases n - i,
    {
        buf[i] = 0u32;
        i = i + 1;
    }
    assert(buf@ =~= zeros(n as nat) + old(buf)@.subrange(n as int, old(buf).len() as int));
}

/// A copy of the first `n` samples of the buffer.
pub fn prefix_to_vec(buf: &Vec<u32>, n: usize) -> (out: Vec<u32>)
    requires
        n <= buf.len(),
    ensures
        out@ == buf@.subrange(0, n as int),
{
    let mut out: Vec<u32> = Vec::new();
    let mut i: usize = 0;
    while i < n
        invariant
            i <= n <= buf.len(),
            out@ == buf@.subrange(0, i as int),
        decreases n - i,
    {
        out.push(buf[i]);
        assert(buf@.subrange(0, i + 1) =~= buf@.subrange(0, i as int).push(buf[i as int]));
        i = i + 1;
    }
    out
}

} // verus!
