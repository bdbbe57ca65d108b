//! Opus audio: a frame is one packet, whatever its size.

use crate::bytes::copy_range;
use crate::payload_generator::{runs_of, PayloadGenerator};
use vstd::prelude::*;

verus! {

/// The fragmenter for Opus.
#[derive(Clone, Copy, Debug, Default)]
pub struct OpusPayloadGenerator;

/// The fragments of an Opus frame: the frame itself, whatever `mtu` is;
/// none for an empty frame.
pub open spec fn opus_fragments(payload: Seq<u8>) -> Option<Seq<Seq<u8>>> {
    if payload.len() == 0 {
        None
    } else {
        Some(seq![payload])
    }
}

impl PayloadGenerator for OpusPayloadGenerator {
    open spec fn generates(
        &self,
        after: &Self,
        mtu: usize,
        payload: Seq<u8>,
        fragments: Option<Seq<Seq<u8>>>,
    ) -> bool {
        fragments == opus_fragments(payload)
    }

    fn generate(&mut self, mtu: usize, payload: &[u8]) -> (fragments: Option<Vec<Vec<u8>>>) {
        if payload.len() == 0 {
            return None;
        }
        let mut output: Vec<Vec<u8>> = Vec::new();
        output.push(copy_range(payload, 0, payload.len()));
        assert(payload@.subrange(0, payload@.len() as int) =~= payload@);
        assert(runs_of(output) =~= seq![payload@]);
        Some(output)
    }
}

/// The one fragment of an Opus frame is the frame.
pub proof fn lemma_opus_fragments_carry_payload(payload: Seq<u8>)
    requires
        opus_fragments(payload) is Some,
    ensures
        opus_fragments(payload)->Some_0.len() == 1,
        opus_fragments(payload)->Some_0.flatten() == payload,
{
    seq![payload].lemma_flatten_one_element();
}

} // verus!
