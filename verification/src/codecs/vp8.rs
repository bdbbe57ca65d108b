//! VP8 video: each fragment begins with a one-octet payload descriptor,
//! whose S bit marks the first fragment of a frame.

use crate::bytes::push_range;
use crate::payload_generator::{
    chunk, chunk_count, chunks, count_chunks, lemma_chunk_bounds, lemma_chunks_flatten, runs_of,
    PayloadGenerator,
};
use vstd::prelude::*;

verus! {

/// The size in octets of the payload descriptor.
pub const VP8_HEADER_SIZE: usize = 1;

/// The fragmenter for VP8.
#[derive(Clone, Copy, Debug, Default)]
pub struct VP8PayloadGenerator;

/// The payload descriptor of fragment `i`: the S bit on the first fragment,
/// nothing on the others.
pub open spec fn vp8_descriptor(i: int) -> u8 {
    if i == 0 {
        0x10
    } else {
        0x00
    }
}

/// The fragments of a VP8 frame: the frame is cut into runs of `mtu - 1`
/// octets, and each run follows its descriptor. None for an empty frame or
/// an `mtu` that leaves no room after the descriptor.
pub open spec fn vp8_fragments(mtu: usize, payload: Seq<u8>) -> Option<Seq<Seq<u8>>> {
    if mtu <= 1 || payload.len() == 0 {
        None
    } else {
        Some(
            Seq::new(
                chunk_count(payload.len(), (mtu - 1) as nat),
                |i: int| seq![vp8_descriptor(i)] + chunk(payload, (mtu - 1) as nat, i),
            ),
        )
    }
}

impl PayloadGenerator for VP8PayloadGenerator {
    open spec fn generates(
        &self,
        after: &Self,
        mtu: usize,
        payload: Seq<u8>,
        fragments: Option<Seq<Seq<u8>>>,
    ) -> bool {
        fragments == vp8_fragments(mtu, payload)
    }

    fn generate(&mut self, mtu: usize, payload: &[u8]) -> (fragments: Option<Vec<Vec<u8>>>) {
        let len = payload.len();
        if mtu <= VP8_HEADER_SIZE || len == 0 {
            return None;
        }
        let size: usize = mtu - VP8_HEADER_SIZE;
        let count = count_chunks(len, size);
        let mut output: Vec<Vec<u8>> = Vec::new();
        let mut start: usize = 0;
        let mut i: usize = 0;
        while i < count
            invariant
                size == mtu - 1,
                size > 0,
                len == payload.len(),
                count == chunk_count(len as nat, size as nat),
                i <= count,
                i < count ==> start == i * size,
                output.len() == i,
                forall|j: int|
                    0 <= j < i ==> (#[trigger] output@[j])@ == seq![vp8_descriptor(j)] + chunk(
                        payload@,
                        size as nat,
                        j,
                    ),
            decreases count - i,
        {
            proof {
                lemma_chunk_bounds(len as nat, size as nat, i as int);
                lemma_chunk_bounds(len as nat, size as nat, i + 1);
            }
            let end: usize = if len - start > size {
                start + size
            } else {
                len
            };
            let mut generated: Vec<u8> = Vec::new();
            generated.push(if i == 0 { 0x10 } else { 0x00 });
            push_range(&mut generated, payload, start, end);
            output.push(generated);
            start = end;
            i += 1;
        }
        assert(runs_of(output) =~= vp8_fragments(mtu, payload@)->Some_0);
        Some(output)
    }
}

/// The fragments of a VP8 frame, each without its descriptor and put end to
/// end, are the frame; there is at least one, each has a descriptor and at
/// least one octet after it, and none is longer than `mtu`.
pub proof fn lemma_vp8_fragments_carry_payload(mtu: usize, payload: Seq<u8>)
    requires
        vp8_fragments(mtu, payload) is Some,
    ensures
        vp8_fragments(mtu, payload)->Some_0.map_values(|f: Seq<u8>| f.drop_first()).flatten()
            == payload,
        vp8_fragments(mtu, payload)->Some_0.len() > 0,
        forall|i: int|
            0 <= i < vp8_fragments(mtu, payload)->Some_0.len() ==> 1 < (
            #[trigger] vp8_fragments(mtu, payload)->Some_0[i]).len() <= mtu,
{
    let size = (mtu - 1) as nat;
    let fragments = vp8_fragments(mtu, payload)->Some_0;
    lemma_chunks_flatten(payload, size);
    lemma_chunk_bounds(payload.len(), size, 0);
    assert forall|i: int| 0 <= i < fragments.len() implies 1 < (#[trigger] fragments[i]).len()
        <= mtu && fragments[i].drop_first() == chunk(payload, size, i) by {
        lemma_chunk_bounds(payload.len(), size, i);
        assert(fragments[i].drop_first() =~= chunk(payload, size, i));
    }
    assert(fragments.map_values(|f: Seq<u8>| f.drop_first()) =~= chunks(payload, size));
}

} // verus!
