//! Time-domain buffer bookkeeping around the inverse transform: silence
//! buffers, concatenation of the per-chunk transform results, and the cut
//! that turns the working buffer into the returned block and the tail
//! carried over to the next call.

use vstd::prelude::*;

verus! {

/// A buffer holding `count` copies of `fill`; with silence as the fill value
/// this is the initial tail and the initial history spectrum.
pub fn filled_vec<T: Copy>(fill: T, count: usize) -> (r: Vec<T>)
    ensures
        r@.len() == count,
        forall|i: int| 0 <= i < count ==> r@[i] == fill,
{
    let mut buf: Vec<T> = Vec::new();
    let mut i: usize = 0;
    while i < count
        invariant
            i <= count,
            buf@.len() == i,
            forall|k: int| 0 <= k < i ==> buf@[k] == fill,
        decreases count - i,
    {
        buf.push(fill);
        i = i + 1;
    }
    buf
}

/// Concatenate equal-length segments in order into one working buffer, so
/// that chunk `j` occupies positions `j * segment_len ..` of the result.
pub fn concat_segments<T: Copy>(segments: &Vec<Vec<T>>, segment_len: usize) -> (r: Vec<T>)
    requires
        forall|j: int| 0 <= j < segments@.len() ==> (#[trigger] segments@[j])@.len()
            == segment_len,
        segments@.len() * segment_len <= usize::MAX,
    ensures
        r@.len() == segments@.len() * segment_len,
        forall|j: int, i: int|
            0 <= j < segments@.len() && 0 <= i < segment_len ==> #[trigger] segments@[j]@[i]
                == r@[j * segment_len + i],
{
    let mut out: Vec<T> = Vec::new();
    let mut j: usize = 0;
    proof {
        assert(0 * segment_len == 0) by (nonlinear_arith);
    }
    while j < segments.len()
        invariant
            j <= segments@.len(),
            forall|k: int| 0 <= k < segments@.len() ==> (#[trigger] segments@[k])@.len()
                == segment_len,
            segments@.len() * segment_len <= usize::MAX,
            out@.len() == j * segment_len,
            forall|k: int, i: int|
                0 <= k < j && 0 <= i < segment_len ==> #[trigger] segments@[k]@[i]
                    == out@[k * segment_len + i],
        decreases segments@.len() - j,
    {
        proof {
            assert((j + 1) * segment_len == j * segment_len + segment_len) by (nonlinear_arith);
            assert(segments@.len() * segment_len >= (j + 1) * segment_len) by (nonlinear_arith)
                requires
                    j + 1 <= segments@.len(),
                    segment_len >= 0,
            ;
        }
        let segment: &Vec<T> = &segments[j];
        let mut i: usize = 0;
        while i < segment_len
            invariant
                i <= segment_len,
                segment@ == segments@[j as int]@,
                segment@.len() == segment_len,
                j < segments@.len(),
                out@.len() == j * segment_len + i,
                forall|k: int, m: int|
                    0 <= k < j && 0 <= m < segment_len ==> #[trigger] segments@[k]@[m]
                        == out@[k * segment_len + m],
                forall|m: int| 0 <= m < i ==> out@[j * segment_len + m] == segment@[m],
                segments@.len() * segment_len <= usize::MAX,
                (j + 1) * segment_len == j * segment_len + segment_len,
                segments@.len() * segment_len >= (j + 1) * segment_len,
            decreases segment_len - i,
        {
            out.push(segment[i]);
            i = i + 1;
            proof {
                assert forall|k: int, m: int|
                    0 <= k < j && 0 <= m < segment_len implies #[trigger] segments@[k]@[m]
                    == out@[k * segment_len + m] by {
                    assert(k * segment_len + m < j as int * segment_len) by (nonlinear_arith)
                        requires
                            0 <= k < j as int,
                            0 <= m < segment_len,
                    ;
                }
            }
        }
        j = j + 1;
        proof {
            assert forall|k: int, m: int|
                0 <= k < j && 0 <= m < segment_len implies #[trigger] segments@[k]@[m] == out@[k
                * segment_len + m] by {
                if k < j - 1 {
                    assert(k * segment_len + m < (j - 1) as int * segment_len) by (nonlinear_arith)
                        requires
                            0 <= k < (j - 1) as int,
                            0 <= m < segment_len,
                    ;
                }
            }
        }
    }
    out
}

/// Cut the reconstructed working buffer at the caller's block length: the
/// leading `io_len` samples are the output block, everything after them is
/// the tail carried into the next call's overlap-add.
pub fn split_output<T: Copy>(working: &Vec<T>, io_len: usize) -> (r: (Vec<T>, Vec<T>))
    requires
        io_len <= working@.len(),
    ensures
        r.0@ == working@.subrange(0, io_len as int),
        r.1@ == working@.subrange(io_len as int, working@.len() as int),
{
    let mut block: Vec<T> = Vec::new();
    let mut i: usize = 0;
    while i < io_len
        invariant
            i <= io_len <= working@.len(),
            block@.len() == i,
            forall|k: int| 0 <= k < i ==> block@[k] == working@[k],
        decreases io_len - i,
    {
        block.push(working[i]);
        i = i + 1;
    }
    let mut tail: Vec<T> = Vec::new();
    let mut t: usize = io_len;
    while t < working.len()
        invariant
            io_len <= t <= working@.len(),
            tail@.len() == t - io_len,
            forall|k: int| 0 <= k < t - io_len ==> tail@[k] == working@[io_len + k],
        decreases working@.len() - t,
    {
        tail.push(working[t]);
        t = t + 1;
    }
    proof {
        assert(block@ =~= working@.subrange(0, io_len as int));
        assert(tail@ =~= working@.subrange(io_len as int, working@.len() as int));
    }
    (block, tail)
}

} // verus!
