//! Elementwise addition of two `i64` vectors, done directly and chunk by chunk.
use vstd::prelude::*;

verus! {

/// Number of elements that the chunked strategy handles per chunk.
pub const CHUNK_SIZE: usize = 1024;

/// The elementwise sums of `a` and `b`, over their common length.
pub open spec fn added(a: Seq<i64>, b: Seq<i64>) -> Seq<i64> {
    let n = if a.len() <= b.len() { a.len() } else { b.len() };
    Seq::new(n, |i: int| (a[i] + b[i]) as i64)
}

/// Each elementwise sum over the common length of `a` and `b` fits in an `i64`.
pub open spec fn sums_fit(a: Seq<i64>, b: Seq<i64>) -> bool {
    forall|i: int|
        0 <= i < a.len() && i < b.len() ==> i64::MIN <= #[trigger] a[i] + b[i] <= i64::MAX
}

/// The elementwise sums computed chunk by chunk: every full chunk of `k`
/// elements is added as a block, and what is left over is added at the end.
pub open spec fn chunked_added(a: Seq<i64>, b: Seq<i64>, k: nat) -> Seq<i64>
    decreases a.len(),
{
    if k == 0 || a.len() < k || b.len() < k {
        added(a, b)
    } else {
        added(a.take(k as int), b.take(k as int)) + chunked_added(
            a.skip(k as int),
            b.skip(k as int),
            k,
        )
    }
}

/// The sum of all elements of `s`.
pub open spec fn seq_sum(s: Seq<i64>) -> int
    decreases s.len(),
{
    if s.len() == 0 {
        0
    } else {
        seq_sum(s.drop_last()) + s.last()
    }
}

/// Adding chunk by chunk gives, element for element, what adding directly
/// gives, whatever the chunk size, for two sequences of equal length.
pub proof fn lemma_chunked_added(a: Seq<i64>, b: Seq<i64>, k: nat)
    requires
        a.len() == b.len(),
    ensures
        chunked_added(a, b, k) == added(a, b),
    decreases a.len(),
{
    if k == 0 || a.len() < k || b.len() < k {
    } else {
        lemma_chunked_added(a.skip(k as int), b.skip(k as int), k);
        assert(added(a.take(k as int), b.take(k as int)) + added(a.skip(k as int), b.skip(k as int))
            =~= added(a, b));
    }
}

/// The direct and the chunked strategy agree on equal-length inputs: they
/// produce the same sums, and so the same checksum.
pub proof fn lemma_add_strategies_agree(a: Seq<i64>, b: Seq<i64>)
    requires
        a.len() == b.len(),
    ensures
        chunked_added(a, b, CHUNK_SIZE as nat) == added(a, b),
        seq_sum(chunked_added(a, b, CHUNK_SIZE as nat)) == seq_sum(added(a, b)),
{
    lemma_chunked_added(a, b, CHUNK_SIZE as nat);
}

/// Adds `v0` and `v1` element by element, over their common length.
pub fn add_vector(v0: &Vec<i64>, v1: &Vec<i64>) -> (r: Vec<i64>)
    requires
        sums_fit(v0@, v1@),
    ensures
        r@ == added(v0@, v1@),
{
    let n: usize = if v0.len() <= v1.len() {
        v0.len()
    } else {
        v1.len()
    };
    let mut out: Vec<i64> = Vec::with_capacity(n);
    let mut i: usize = 0;
    while i < n
        invariant
            n == if v0.len() <= v1.len() { v0.len() } else { v1.len() },
            i <= n,
            sums_fit(v0@, v1@),
            out@ == added(v0@, v1@).take(i as int),
        decreases n - i,
    {
        assert(i64::MIN <= v0@[i as int] + v1@[i as int] <= i64::MAX);
        out.push(v0[i] + v1[i]);
        i = i + 1;
        assert(out@ =~= added(v0@, v1@).take(i as int));
    }
    assert(out@ =~= added(v0@, v1@));
    out
}

/// Adds `v0` and `v1` element by element, `CHUNK_SIZE` elements at a time,
/// then the elements past the last full chunk.
pub fn chunked_add_vector(v0: &Vec<i64>, v1: &Vec<i64>) -> (r: Vec<i64>)
    requires
        v0.len() == v1.len(),
        sums_fit(v0@, v1@),
    ensures
        r@ == chunked_added(v0@, v1@, CHUNK_SIZE as nat),
{
    let n: usize = v0.len();
    let mut out: Vec<i64> = vec![0i64; n];
    let full: usize = n - n % CHUNK_SIZE;
    let mut start: usize = 0;
    while start < full
        invariant
            n == v0.len() == v1.len() == out.len(),
            sums_fit(v0@, v1@),
            full <= n,
            full % CHUNK_SIZE == 0,
            start % CHUNK_SIZE == 0,
            start <= full,
            forall|j: int| 0 <= j < start ==> out@[j] == v0@[j] + v1@[j],
        decreases full - start,
    {
        let mut idx: usize = 0;
        while idx < CHUNK_SIZE
            invariant
                n == v0.len() == v1.len() == out.len(),
                sums_fit(v0@, v1@),
                start + CHUNK_SIZE <= n,
                idx <= CHUNK_SIZE,
                forall|j: int| 0 <= j < start + idx ==> out@[j] == v0@[j] + v1@[j],
            decreases CHUNK_SIZE - idx,
        {
            let p: usize = start + idx;
            assert(i64::MIN <= v0@[p as int] + v1@[p as int] <= i64::MAX);
            out.set(p, v0[p] + v1[p]);
            idx = idx + 1;
        }
        start = start + CHUNK_SIZE;
    }
    let mut p: usize = full;
    while p < n
        invariant
            n == v0.len() == v1.len() == out.len(),
            sums_fit(v0@, v1@),
            full <= p <= n,
            forall|j: int| 0 <= j < p ==> out@[j] == v0@[j] + v1@[j],
        decreases n - p,
    {
        assert(i64::MIN <= v0@[p as int] + v1@[p as int] <= i64::MAX);
        out.set(p, v0[p] + v1[p]);
        p = p + 1;
    }
    proof {
        lemma_chunked_added(v0@, v1@, CHUNK_SIZE as nat);
        assert(out@ =~= added(v0@, v1@));
    }
    out
}

/// The sum of all elements of `v`, the checksum that the benchmark reports.
pub fn checksum(v: &Vec<i64>) -> (r: i128)
    ensures
        r == seq_sum(v@),
{
    let mut acc: i128 = 0;
    let mut i: usize = 0;
    while i < v.len()
        invariant
            i <= v.len(),
            acc == seq_sum(v@.take(i as int)),
            -0x8000_0000_0000_0000 * i <= acc <= 0x7fff_ffff_ffff_ffff * i,
        decreases v.len() - i,
    {
        assert(v@.take(i as int + 1).drop_last() =~= v@.take(i as int));
        acc = acc + v[i] as i128;
        i = i + 1;
    }
    assert(v@.take(i as int) =~= v@);
    acc
}

} // verus!
