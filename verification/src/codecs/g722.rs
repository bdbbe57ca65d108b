//! G.722 audio: a frame is a run of samples that may be cut anywhere.

use crate::payload_generator::{
    chunks, cut, lemma_chunk_bounds, lemma_chunks_flatten, PayloadGenerator,
};
use vstd::prelude::*;

verus! {

/// The fragmenter for G.722.
#[derive(Clone, Copy, Debug, Default)]
pub struct G722PayloadGenerator;

/// The fragments of a G.722 frame: consecutive runs of `mtu` octets and a
/// last run of what is left; none for an empty frame or an `mtu` of zero.
pub open spec fn g722_fragments(mtu: usize, payload: Seq<u8>) -> Option<Seq<Seq<u8>>> {
    if mtu == 0 || payload.len() == 0 {
        None
    } else {
        Some(chunks(payload, mtu as nat))
    }
}

impl PayloadGenerator for G722PayloadGenerator {
    open spec fn generates(
        &self,
        after: &Self,
        mtu: usize,
        payload: Seq<u8>,
        fragments: Option<Seq<Seq<u8>>>,
    ) -> bool {
        fragments == g722_fragments(mtu, payload)
    }

    fn generate(&mut self, mtu: usize, payload: &[u8]) -> (fragments: Option<Vec<Vec<u8>>>) {
        if mtu == 0 || payload.len() == 0 {
            return None;
        }
        Some(cut(payload, mtu))
    }
}

/// The fragments of a G.722 frame, put end to end, are the frame; there is
/// at least one, none is empty and none is longer than `mtu`.
pub proof fn lemma_g722_fragments_carry_payload(mtu: usize, payload: Seq<u8>)
    requires
        g722_fragments(mtu, payload) is Some,
    ensures
        g722_fragments(mtu, payload)->Some_0.flatten() == payload,
        g722_fragments(mtu, payload)->Some_0.len() > 0,
        forall|i: int|
            0 <= i < g722_fragments(mtu, payload)->Some_0.len() ==> 0 < (
            #[trigger] g722_fragments(mtu, payload)->Some_0[i]).len() <= mtu,
{
    let fragments = g722_fragments(mtu, payload)->Some_0;
    lemma_chunks_flatten(payload, mtu as nat);
    lemma_chunk_bounds(payload.len(), mtu as nat, 0);
    assert forall|i: int| 0 <= i < fragments.len() implies 0 < (#[trigger] fragments[i]).len()
        <= mtu by {
        lemma_chunk_bounds(payload.len(), mtu as nat, i);
    }
}

} // verus!
