//! The per-task work of the buffer benchmarks: appending a counting byte pattern.
use vstd::prelude::*;

verus! {

/// The bytes `0, 1, 2, ...`, wrapping after 255, `n` of them.
pub open spec fn counting_bytes(n: nat) -> Seq<u8> {
    Seq::new(n, |i: int| (i % 256) as u8)
}

/// Appends `data_size` bytes, the `i`-th being `i` truncated to a byte.
pub fn do_with_buffer(buffer: &mut Vec<u8>, data_size: usize)
    ensures
        final(buffer)@ == old(buffer)@ + counting_bytes(data_size as nat),
{
    let ghost start = buffer@;
    let mut i: usize = 0;
    while i < data_size
        invariant
            i <= data_size,
            buffer@ == start + counting_bytes(i as nat),
        decreases data_size - i,
    {
        let b: u8 = i as u8;
        assert(b == (i % 256) as u8) by (bit_vector)
            requires
                b == i as u8,
        ;
        buffer.push(b);
        i = i + 1;
        assert(buffer@ =~= start + counting_bytes(i as nat));
    }
}

/// Appends `n` bytes, the `i`-th being `i % 256`.
pub fn do_init(vector: &mut Vec<u8>, n: usize)
    ensures
        final(vector)@ == old(vector)@ + counting_bytes(n as nat),
{
    let ghost start = vector@;
    let mut i: usize = 0;
    while i < n
        invariant
            i <= n,
            vector@ == start + counting_bytes(i as nat),
        decreases n - i,
    {
        vector.push((i % 256) as u8);
        i = i + 1;
        assert(vector@ =~= start + counting_bytes(i as nat));
    }
}

} // verus!
