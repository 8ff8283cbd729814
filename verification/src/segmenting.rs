//! Splitting a sample buffer into fixed-size, zero-extended chunks.
//!
//! A buffer is read in steps of `fft_size / 2` samples; each chunk is extended
//! with a fill value (silence) to the full transform size, so that the second
//! half of every chunk is empty.  The transform itself acts on complex
//! samples and is applied by the caller to each returned chunk in order.

use vstd::prelude::*;

verus! {

/// How many chunks a buffer of `len` samples yields when read in steps of
/// `seg` samples: one per started step.
pub open spec fn seg_count(len: int, seg: int) -> int
    decreases (if len <= 0 { 0int } else { len }),
{
    if len <= 0 || seg <= 0 {
        0
    } else {
        1 + seg_count(len - seg, seg)
    }
}

/// `seg_count` is the number of `seg`-sized steps that cover `len` samples:
/// the chunks reach at least to `len`, and dropping the last chunk would not.
pub proof fn lemma_seg_count_covers(len: int, seg: int)
    requires
        seg >= 1,
        len >= 0,
    ensures
        seg_count(len, seg) >= 0,
        seg_count(len, seg) * seg >= len,
        seg_count(len, seg) * seg < len + seg,
        len >= 1 ==> seg_count(len, seg) >= 1,
    decreases len,
{
    if len <= 0 {
    } else if len - seg >= 0 {
        lemma_seg_count_covers(len - seg, seg);
        let c = seg_count(len - seg, seg);
        assert((1 + c) * seg == seg + c * seg) by (nonlinear_arith);
    } else {
        assert(seg_count(len - seg, seg) == 0);
        assert(seg_count(len, seg) == 1 + seg_count(len - seg, seg));
        assert(1 * seg == seg) by (nonlinear_arith);
    }
}

/// The sample at offset `i` of chunk `j`: the buffer sample it covers, or the
/// fill value in the zero-extended half and past the end of the buffer.
pub open spec fn chunk_sample<T>(buffer: Seq<T>, fill: T, seg: int, j: int, i: int) -> T {
    if i < seg && j * seg + i < buffer.len() {
        buffer[j * seg + i]
    } else {
        fill
    }
}

/// Silence in, silence out at the segmentation step: a buffer holding only
/// the fill value yields chunks holding only the fill value, so any sound in
/// the output originates in the spectral arithmetic against the filter bank,
/// never in the bookkeeping.
pub proof fn lemma_chunk_sample_silence<T>(buffer: Seq<T>, fill: T, seg: int, j: int, i: int)
    requires
        forall|k: int| 0 <= k < buffer.len() ==> buffer[k] == fill,
        seg >= 0,
        j >= 0,
        i >= 0,
    ensures
        chunk_sample(buffer, fill, seg, j, i) == fill,
{
    assert(j * seg >= 0) by (nonlinear_arith)
        requires
            j >= 0,
            seg >= 0,
    ;
}

/// Segmentation is positional: combining two buffers sample by sample and
/// then chunking equals chunking each buffer and combining chunk by chunk,
/// for any combination that maps silence to silence.  Together with the
/// positional contracts of the concatenation and of the output/tail split,
/// whether the whole engine is a linear operator rests solely on the spectral
/// arithmetic between those steps.
pub proof fn lemma_chunk_sample_pointwise<T>(
    a: Seq<T>,
    b: Seq<T>,
    c: Seq<T>,
    fill_a: T,
    fill_b: T,
    fill_c: T,
    f: spec_fn(T, T) -> T,
    seg: int,
    j: int,
    i: int,
)
    requires
        b.len() == a.len(),
        c.len() == a.len(),
        forall|k: int| 0 <= k < a.len() ==> c[k] == f(a[k], b[k]),
        fill_c == f(fill_a, fill_b),
        seg >= 0,
        j >= 0,
        i >= 0,
    ensures
        chunk_sample(c, fill_c, seg, j, i) == f(
            chunk_sample(a, fill_a, seg, j, i),
            chunk_sample(b, fill_b, seg, j, i),
        ),
{
    assert(j * seg >= 0) by (nonlinear_arith)
        requires
            j >= 0,
            seg >= 0,
    ;
    if i < seg && j * seg + i < a.len() {
        assert(c[j * seg + i] == f(a[j * seg + i], b[j * seg + i]));
    }
}

/// Split `buffer` into chunks of `fft_size / 2` samples, advancing by
/// `fft_size / 2` each step, each chunk extended with `fill` to `fft_size`
/// entries; a short final chunk is filled up like any other.
pub fn segment_chunks<T: Copy>(buffer: &[T], fill: T, fft_size: usize) -> (r: Vec<Vec<T>>)
    requires
        fft_size >= 2,
        fft_size % 2 == 0,
        buffer@.len() + fft_size <= usize::MAX,
    ensures
        r@.len() == seg_count(buffer@.len() as int, fft_size as int / 2),
        forall|j: int| 0 <= j < r@.len() ==> (#[trigger] r@[j])@.len() == fft_size,
        forall|j: int, i: int|
            0 <= j < r@.len() && 0 <= i < fft_size ==> #[trigger] r@[j]@[i] == chunk_sample(
                buffer@,
                fill,
                fft_size as int / 2,
                j,
                i,
            ),
{
    let seg: usize = fft_size / 2;
    let len: usize = buffer.len();
    let mut segments: Vec<Vec<T>> = Vec::new();
    let mut index: usize = 0;
    proof {
        assert(segments@.len() * seg == 0) by (nonlinear_arith)
            requires
                segments@.len() == 0,
        ;
    }
    while index < len
        invariant
            seg >= 1,
            seg * 2 == fft_size,
            len == buffer@.len(),
            len + fft_size <= usize::MAX,
            index == segments@.len() * seg,
            seg_count(len as int, seg as int) == segments@.len() + seg_count(
                len as int - index as int,
                seg as int,
            ),
            forall|j: int| 0 <= j < segments@.len() ==> (#[trigger] segments@[j])@.len()
                == fft_size,
            forall|j: int, i: int|
                0 <= j < segments@.len() && 0 <= i < fft_size ==> #[trigger] segments@[j]@[i]
                    == chunk_sample(buffer@, fill, seg as int, j, i),
        decreases len + seg - index,
    {
        let take: usize = if len - index < seg {
            len - index
        } else {
            seg
        };
        let mut chunk: Vec<T> = Vec::new();
        let mut i: usize = 0;
        while i < take
            invariant
                take <= seg,
                index + take <= len,
                len == buffer@.len(),
                i <= take,
                chunk@.len() == i,
                forall|k: int| 0 <= k < i ==> chunk@[k] == buffer@[index + k],
            decreases take - i,
        {
            chunk.push(buffer[index + i]);
            i = i + 1;
        }
        while chunk.len() < fft_size
            invariant
                take <= chunk@.len() <= fft_size,
                len == buffer@.len(),
                index + take <= len,
                forall|k: int| 0 <= k < take ==> chunk@[k] == buffer@[index + k],
                forall|k: int| take <= k < chunk@.len() ==> chunk@[k] == fill,
            decreases fft_size - chunk@.len(),
        {
            chunk.push(fill);
        }
        proof {
            let j = segments@.len() as int;
            assert(forall|i: int|
                0 <= i < fft_size ==> chunk@[i] == chunk_sample(buffer@, fill, seg as int, j, i))
                by {
                assert(j * seg == index);
                assert forall|i: int| 0 <= i < fft_size implies chunk@[i] == chunk_sample(
                    buffer@,
                    fill,
                    seg as int,
                    j,
                    i,
                ) by {
                    if i < take {
                        assert(chunk@[i] == buffer@[index + i]);
                    } else {
                        assert(chunk@[i] == fill);
                        if i < seg {
                            assert(index + take == len || take == seg);
                        }
                    }
                }
            }
        }
        segments.push(chunk);
        index = index + seg;
        proof {
            assert(segments@.len() * seg == (segments@.len() - 1) * seg + seg) by (nonlinear_arith);
        }
    }
    segments
}

/// For a non-empty buffer, the chunks together span at least the buffer: read
/// back in the time domain, `seg_count` blocks of `2 * seg` samples reach past
/// every input sample, so an output of exactly the input's length can always
/// be cut from them.  This is the structural half of the length invariant.
pub proof fn lemma_output_covers_input(len: int, seg: int)
    requires
        seg >= 1,
        len >= 1,
    ensures
        seg_count(len, seg) >= 1,
        seg_count(len, seg) * (2 * seg) >= len,
{
    lemma_seg_count_covers(len, seg);
    let c = seg_count(len, seg);
    assert(c * (2 * seg) >= c * seg) by (nonlinear_arith)
        requires
            c >= 1,
            seg >= 1,
    ;
}

/// The tail kept after a call is the working buffer beyond the returned
/// block: `seg_count(len, seg) * 2 * seg - len` samples.  That length is a
/// function of the block length and the step alone and is bounded by them,
/// so repeated calls with a fixed block length retain a tail of one fixed,
/// bounded size: the structural half of the steady-memory property.
pub proof fn lemma_tail_length_steady(len: int, seg: int)
    requires
        seg >= 1,
        len >= 1,
    ensures
        seg_count(len, seg) * (2 * seg) - len >= 0,
        seg_count(len, seg) * (2 * seg) - len < len + 2 * seg,
{
    lemma_seg_count_covers(len, seg);
    let c = seg_count(len, seg);
    lemma_output_covers_input(len, seg);
    assert(c * (2 * seg) == 2 * (c * seg)) by (nonlinear_arith);
}

} // verus!
