//! Byte FIFOs and the flat byte strings snapshots hold them as.
use std::collections::VecDeque;

use vstd::prelude::*;

verus! {

/// The queued bytes, oldest first.
pub fn to_vec(queue: &VecDeque<u8>) -> (r: Vec<u8>)
    ensures
        r@ == queue@,
{
    let mut out: Vec<u8> = Vec::new();
    let mut i: usize = 0;
    while i < queue.len()
        invariant
            i <= queue@.len(),
            out@ == queue@.subrange(0, i as int),
        decreases queue@.len() - i,
    {
        out.push(queue[i]);
        i = i + 1;
        assert(out@ =~= queue@.subrange(0, i as int));
    }
    assert(out@ =~= queue@);
    out
}

/// Queue bytes behind what is already waiting.
pub fn push_all(queue: &mut VecDeque<u8>, bytes: &[u8])
    ensures
        final(queue)@ == old(queue)@ + bytes@,
{
    let mut i: usize = 0;
    while i < bytes.len()
        invariant
            i <= bytes@.len(),
            queue@ == old(queue)@ + bytes@.subrange(0, i as int),
        decreases bytes@.len() - i,
    {
        queue.push_back(bytes[i]);
        i = i + 1;
        assert(queue@ =~= old(queue)@ + bytes@.subrange(0, i as int));
    }
    assert(bytes@.subrange(0, bytes@.len() as int) =~= bytes@);
}

/// A queue holding exactly `bytes`.
pub fn from_slice(bytes: &[u8]) -> (r: VecDeque<u8>)
    ensures
        r@ == bytes@,
{
    let mut queue: VecDeque<u8> = VecDeque::new();
    push_all(&mut queue, bytes);
    assert(queue@ =~= bytes@);
    queue
}

/// Take the `count` oldest bytes.
pub fn take_front(queue: &mut VecDeque<u8>, count: usize) -> (r: Vec<u8>)
    requires
        count <= old(queue)@.len(),
    ensures
        r@ == old(queue)@.subrange(0, count as int),
        final(queue)@ == old(queue)@.subrange(count as int, old(queue)@.len() as int),
{
    let mut out: Vec<u8> = Vec::new();
    let mut i: usize = 0;
    assert(queue@ =~= old(queue)@.subrange(0, old(queue)@.len() as int));
    while i < count
        invariant
            i <= count <= old(queue)@.len(),
            out@ == old(queue)@.subrange(0, i as int),
            queue@ == old(queue)@.subrange(i as int, old(queue)@.len() as int),
        decreases count - i,
    {
        match queue.pop_front() {
            Some(b) => out.push(b),
            None => {},
        }
        i = i + 1;
        assert(out@ =~= old(queue)@.subrange(0, i as int));
        assert(queue@ =~= old(queue)@.subrange(i as int, old(queue)@.len() as int));
    }
    out
}

/// A copy of `bytes`.
pub fn copy_slice(bytes: &[u8]) -> (r: Vec<u8>)
    ensures
        r@ == bytes@,
{
    let mut out: Vec<u8> = Vec::new();
    append(&mut out, bytes);
    assert(out@ =~= bytes@);
    out
}

/// Append `bytes`.
pub fn append(out: &mut Vec<u8>, bytes: &[u8])
    ensures
        final(out)@ == old(out)@ + bytes@,
{
    let mut i: usize = 0;
    while i < bytes.len()
        invariant
            i <= bytes@.len(),
            out@ == old(out)@ + bytes@.subrange(0, i as int),
        decreases bytes@.len() - i,
    {
        out.push(bytes[i]);
        i = i + 1;
        assert(out@ =~= old(out)@ + bytes@.subrange(0, i as int));
    }
    assert(bytes@.subrange(0, bytes@.len() as int) =~= bytes@);
}

} // verus!
