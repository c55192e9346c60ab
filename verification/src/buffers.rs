//! Small operations on growing buffers.
use vstd::prelude::*;

verus! {

/// Appends a copy of `items`.
pub fn append_copy<T: Copy>(buffer: &mut Vec<T>, items: &[T])
    ensures
        final(buffer)@ == old(buffer)@ + items@,
{
    let mut i: usize = 0;
    while i < items.len()
        invariant
            i <= items@.len(),
            buffer@ == old(buffer)@ + items@.take(i as int),
        decreases items@.len() - i,
    {
        buffer.push(items[i]);
        i += 1;
        assert(items@.take(i as int) =~= items@.take(i - 1).push(items@[i - 1]));
    }
    assert(items@.take(items@.len() as int) =~= items@);
}

/// Takes the first `count` items out of the buffer.
pub fn drain_front<T>(buffer: &mut Vec<T>, count: usize) -> (front: Vec<T>)
    requires
        count <= old(buffer)@.len(),
    ensures
        front@ == old(buffer)@.take(count as int),
        final(buffer)@ == old(buffer)@.skip(count as int),
{
    let mut rest: Vec<T> = buffer.split_off(count);
    core::mem::swap(buffer, &mut rest);
    assert(rest@ =~= old(buffer)@.take(count as int));
    assert(buffer@ =~= old(buffer)@.skip(count as int));
    rest
}

} // verus!
