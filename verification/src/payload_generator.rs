//! What a codec's fragmenter is, and the cut into runs of bounded size that
//! most of them are built on.

use crate::bytes::copy_range;
use vstd::prelude::*;

verus! {

/// The octets of each buffer of a list.
pub open spec fn runs_of(buffers: Vec<Vec<u8>>) -> Seq<Seq<u8>> {
    Seq::new(buffers@.len(), |i: int| buffers@[i]@)
}

/// The octets of each buffer of an optional list.
pub open spec fn optional_runs_of(buffers: Option<Vec<Vec<u8>>>) -> Option<Seq<Seq<u8>>> {
    match buffers {
        Some(buffers) => Some(runs_of(buffers)),
        None => None,
    }
}

/// A fragmenter: it cuts a frame of compressed media into the payloads of
/// the RTP packets that will carry it.
pub trait PayloadGenerator {
    /// Whether a call on this generator with `mtu` and `payload` may leave
    /// the generator as `after` and return `fragments`.
    ///
    /// A generator that draws on nothing but its arguments and its state
    /// admits one outcome for each call; one that may have to draw a random
    /// number first admits one for each number.
    spec fn generates(
        &self,
        after: &Self,
        mtu: usize,
        payload: Seq<u8>,
        fragments: Option<Seq<Seq<u8>>>,
    ) -> bool;

    /// Cuts `payload` into fragments of at most `mtu` octets, or returns
    /// `None` when it cannot produce a fragment.
    fn generate(&mut self, mtu: usize, payload: &[u8]) -> (fragments: Option<Vec<Vec<u8>>>)
        ensures
            old(self).generates(final(self), mtu, payload@, optional_runs_of(fragments)),
    ;
}

/// The number of runs of at most `size` octets that `len` octets are cut
/// into: `len / size`, rounded up.
pub open spec fn chunk_count(len: nat, size: nat) -> nat {
    if size == 0 {
        0
    } else {
        ((len + size - 1) / (size as int)) as nat
    }
}

/// Run `i` of the cut of `payload` into runs of `size` octets: the octets
/// from `i * size` up to `(i + 1) * size`, or to the end if that comes first.
pub open spec fn chunk(payload: Seq<u8>, size: nat, i: int) -> Seq<u8> {
    payload.subrange(
        i * size,
        if (i + 1) * size <= payload.len() {
            (i + 1) * size
        } else {
            payload.len() as int
        },
    )
}

/// The cut of `payload` into consecutive runs of `size` octets and a last
/// run of what is left.
pub open spec fn chunks(payload: Seq<u8>, size: nat) -> Seq<Seq<u8>> {
    Seq::new(chunk_count(payload.len(), size), |i: int| chunk(payload, size, i))
}

/// Where run `i` of a cut begins and what the count of runs has to do
/// with it.
pub proof fn lemma_chunk_bounds(len: nat, size: nat, i: int)
    requires
        size > 0,
        0 <= i,
    ensures
        i < chunk_count(len, size) <==> i * size < len,
        (i + 1) * size == i * size + size,
        0 <= i * size,
{
    let count = chunk_count(len, size) as int;
    assert((i + 1) * size == i * size + size) by (nonlinear_arith);
    assert(0 <= i * size) by (nonlinear_arith)
        requires
            0 <= i,
            size > 0,
    ;
    assert(count * size >= len && (count - 1) * size < len) by (nonlinear_arith)
        requires
            size > 0,
            count == (len + size - 1) / (size as int),
    ;
    assert(i < count ==> i * size <= (count - 1) * size) by (nonlinear_arith)
        requires
            size > 0,
    ;
    assert(i >= count ==> i * size >= count * size) by (nonlinear_arith)
        requires
            size > 0,
    ;
}

/// Computes the number of runs of a cut.
pub fn count_chunks(len: usize, size: usize) -> (count: usize)
    requires
        size > 0,
    ensures
        count == chunk_count(len as nat, size as nat),
{
    let whole: usize = len / size;
    assert(len % size != 0 ==> whole < len) by (nonlinear_arith)
        requires
            size > 0,
            whole == len / size,
    ;
    let count: usize = if len % size == 0 {
        whole
    } else {
        whole + 1
    };
    proof {
        let n = chunk_count(len as nat, size as nat) as int;
        assert(len == whole * size + len % size) by (nonlinear_arith)
            requires
                size > 0,
                whole == len / size,
        ;
        assert(0 <= len % size < size);
        lemma_chunk_bounds(len as nat, size as nat, count as int);
        if count > 0 {
            lemma_chunk_bounds(len as nat, size as nat, count - 1);
        }
        assert(count * size >= len) by (nonlinear_arith)
            requires
                len == whole * size + len % size,
                0 <= len % size < size,
                count == if len % size == 0 {
                    whole
                } else {
                    (whole + 1) as usize
                },
                count == whole || count == whole + 1,
        ;
        assert(count > 0 ==> (count - 1) * size < len) by (nonlinear_arith)
            requires
                len == whole * size + len % size,
                0 <= len % size < size,
                len % size == 0 ==> count == whole,
                len % size != 0 ==> count == whole + 1,
        ;
        if n > count {
            lemma_chunk_bounds(len as nat, size as nat, count as int);
        }
        if n < count {
            lemma_chunk_bounds(len as nat, size as nat, count - 1);
        }
    }
    count
}

/// Cuts `payload` into consecutive runs of `size` octets and a last run of
/// what is left.
pub fn cut(payload: &[u8], size: usize) -> (runs: Vec<Vec<u8>>)
    requires
        size > 0,
    ensures
        runs_of(runs) == chunks(payload@, size as nat),
{
    let len = payload.len();
    let count = count_chunks(len, size);
    let mut runs: Vec<Vec<u8>> = Vec::new();
    let mut start: usize = 0;
    let mut i: usize = 0;
    while i < count
        invariant
            size > 0,
            len == payload.len(),
            count == chunk_count(len as nat, size as nat),
            i <= count,
            i < count ==> start == i * size,
            runs.len() == i,
            forall|j: int| 0 <= j < i ==> (#[trigger] runs@[j])@ == chunk(payload@, size as nat, j),
        decreases count - i,
    {
        proof {
            lemma_chunk_bounds(len as nat, size as nat, i as int);
            lemma_chunk_bounds(len as nat, size as nat, i + 1);
        }
        let end: usize = if len - start > size {
            start + size
        } else {
            len
        };
        runs.push(copy_range(payload, start, end));
        start = end;
        i += 1;
    }
    assert(runs_of(runs) =~= chunks(payload@, size as nat));
    runs
}

/// The runs of a cut, put end to end, are the payload.
pub proof fn lemma_chunks_flatten(payload: Seq<u8>, size: nat)
    requires
        size > 0,
    ensures
        chunks(payload, size).flatten() == payload,
{
    let all = chunks(payload, size);
    lemma_chunks_prefix_flatten(payload, size, all.len() as int);
    lemma_chunk_bounds(payload.len(), size, all.len() as int);
    assert(all.take(all.len() as int) =~= all);
    assert(payload.subrange(0, payload.len() as int) =~= payload);
}

/// The first `k` runs of a cut, put end to end, are the first `k * size`
/// octets of the payload, or all of it if it is shorter.
proof fn lemma_chunks_prefix_flatten(payload: Seq<u8>, size: nat, k: int)
    requires
        size > 0,
        0 <= k <= chunk_count(payload.len(), size),
    ensures
        chunks(payload, size).take(k).flatten() == payload.subrange(
            0,
            if k * size <= payload.len() {
                k * size
            } else {
                payload.len() as int
            },
        ),
    decreases k,
{
    let all = chunks(payload, size);
    lemma_chunk_bounds(payload.len(), size, k);
    if k == 0 {
        assert(all.take(0).flatten() =~= Seq::<u8>::empty());
        assert(payload.subrange(0, 0) =~= Seq::<u8>::empty());
    } else {
        lemma_chunks_prefix_flatten(payload, size, k - 1);
        lemma_chunk_bounds(payload.len(), size, k - 1);
        let shorter = all.take(k - 1);
        assert(all.take(k) =~= shorter.push(all[k - 1]));
        shorter.lemma_flatten_push(all[k - 1]);
        assert(all.take(k).flatten() =~= shorter.flatten() + all[k - 1]);
        assert(shorter.flatten() + chunk(payload, size, k - 1) =~= payload.subrange(
            0,
            if k * size <= payload.len() {
                k * size
            } else {
                payload.len() as int
            },
        ));
    }
}

} // verus!
