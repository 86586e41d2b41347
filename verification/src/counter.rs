//! Counters that start over at zero when they run out of bits.

use vstd::prelude::*;

verus! {

/// What a counter shows once it was raised `count` times.
pub open spec fn reading(count: int) -> int {
    count % (usize::MAX + 1)
}

/// The counter raised by one.
pub open spec fn raised(counter: usize) -> usize {
    if counter == usize::MAX {
        0
    } else {
        (counter + 1) as usize
    }
}

/// The counter lowered by one.
pub open spec fn lowered(counter: usize) -> usize {
    if counter == 0 {
        usize::MAX
    } else {
        (counter - 1) as usize
    }
}

/// The remainder of the successor.
pub(crate) proof fn lemma_mod_successor(count: int, size: int)
    requires
        size > 0,
    ensures
        (count + 1) % size == if count % size == size - 1 {
            0
        } else {
            count % size + 1
        },
{
    let quotient = count / size;
    vstd::arithmetic::div_mod::lemma_fundamental_div_mod(count, size);
    assert(count == quotient * size + count % size) by (nonlinear_arith)
        requires
            count == size * (count / size) + count % size,
            quotient == count / size,
    ;
    if count % size == size - 1 {
        assert(count + 1 == (quotient + 1) * size) by (nonlinear_arith)
            requires
                count == quotient * size + (size - 1),
        ;
        vstd::arithmetic::div_mod::lemma_fundamental_div_mod_converse(
            count + 1,
            size,
            quotient + 1,
            0,
        );
    } else {
        vstd::arithmetic::div_mod::lemma_fundamental_div_mod_converse(
            count + 1,
            size,
            quotient,
            count % size + 1,
        );
    }
}

/// Raising a counter that shows `count` makes it show `count + 1`.
pub(crate) proof fn lemma_raised(counter: usize, count: int)
    requires
        counter == reading(count),
    ensures
        raised(counter) == reading(count + 1),
{
    lemma_mod_successor(count, usize::MAX + 1);
}

/// Lowering a counter that shows `count` makes it show `count - 1`.
pub(crate) proof fn lemma_lowered(counter: usize, count: int)
    requires
        counter == reading(count),
    ensures
        lowered(counter) == reading(count - 1),
{
    lemma_mod_successor(count - 1, usize::MAX + 1);
}

/// A counter moved on by one is its successor, or zero behind the last.
pub(crate) proof fn lemma_moved(counter: usize)
    ensures
        raised(counter) == (counter + 1) % (usize::MAX + 1),
        raised(lowered(counter)) == counter,
{
    vstd::arithmetic::div_mod::lemma_small_mod(counter as nat, (usize::MAX + 1) as nat);
    lemma_raised(counter, counter as int);
}

} // verus!
