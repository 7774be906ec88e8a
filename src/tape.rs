use vstd::prelude::*;

verus! {

/// Number of cells on the tape.
pub const TAPE_SIZE: usize = 256;

/// The data pointer one cell to the right, wrapping from the last cell to the first.
pub fn increment_memory_pointer(memory_pointer: usize) -> (r: usize)
    requires
        memory_pointer < TAPE_SIZE,
    ensures
        r == (memory_pointer + 1) % (TAPE_SIZE as int),
{
    if memory_pointer + 1 < TAPE_SIZE {
        memory_pointer + 1
    } else {
        0
    }
}

/// The data pointer one cell to the left, wrapping from the first cell to the last.
pub fn decrement_memory_pointer(memory_pointer: usize) -> (r: usize)
    requires
        memory_pointer < TAPE_SIZE,
    ensures
        r == (memory_pointer + TAPE_SIZE - 1) % (TAPE_SIZE as int),
{
    if memory_pointer > 0 {
        memory_pointer - 1
    } else {
        TAPE_SIZE - 1
    }
}

} // verus!
