//! VP9 video: each fragment begins with a three-octet payload descriptor
//! that marks the first and the last fragment of a frame and carries the
//! frame's 15-bit picture id.
//!
//! ```text
//!        0 1 2 3 4 5 6 7
//!       +-+-+-+-+-+-+-+-+
//!       |I|P|L|F|B|E|V|Z|   I and F are set: 0x90, B = 0x08, E = 0x04
//!       +-+-+-+-+-+-+-+-+
//!       |M| PICTURE ID  |   M is set: the id takes fifteen bits
//!       +-+-+-+-+-+-+-+-+
//!       |  PICTURE ID   |
//!       +-+-+-+-+-+-+-+-+
//! ```

use crate::ambient::random_u32;
use crate::bytes::push_range;
use crate::payload_generator::{
    chunk, chunk_count, chunks, count_chunks, lemma_chunk_bounds, lemma_chunks_flatten, runs_of,
    PayloadGenerator,
};
use vstd::prelude::*;

verus! {

/// The size in octets of the payload descriptor.
pub const VP9_HEADER_SIZE: usize = 3;

/// The fragmenter for VP9. It numbers the frames it is given.
#[derive(Clone, Copy, Debug)]
pub struct VP9PayloadGenerator {
    /// The picture id of the next frame.
    pub picture_id: u16,
    /// Whether `picture_id` has been given its first value.
    pub initialized: bool,
}

/// The first octet of the descriptor of fragment `i` of `count`.
pub open spec fn vp9_flags(i: int, count: int) -> u8 {
    (0x90 + (if i == 0 { 0x08int } else { 0 }) + (if i == count - 1 { 0x04int } else { 0 })) as u8
}

/// The descriptor of fragment `i` of `count` of the frame `picture_id`: the
/// flags, then the low fifteen bits of the id under the M bit.
pub open spec fn vp9_descriptor(picture_id: u16, i: int, count: int) -> Seq<u8> {
    seq![
        vp9_flags(i, count),
        (0x80 + (picture_id / 0x100) % 0x80) as u8,
        (picture_id % 0x100) as u8,
    ]
}

/// The fragments of the VP9 frame `picture_id`, for an `mtu` above three
/// and a frame that is not empty: the frame is cut into runs of `mtu - 3`
/// octets, and each run follows its descriptor.
pub open spec fn vp9_fragments(picture_id: u16, mtu: usize, payload: Seq<u8>) -> Seq<Seq<u8>> {
    let count = chunk_count(payload.len(), (mtu - 3) as nat);
    Seq::new(
        count,
        |i: int| vp9_descriptor(picture_id, i, count as int) + chunk(payload, (mtu - 3) as nat, i),
    )
}

/// The picture id of the frame after the frame `picture_id`: one more, and
/// zero after the last id of fifteen bits.
pub open spec fn vp9_next_picture_id(picture_id: u16) -> u16 {
    if picture_id + 1 >= 0x8000 {
        0
    } else {
        (picture_id + 1) as u16
    }
}

/// Whether a call on `before` with `mtu` and `payload` may, with the frame
/// numbered `picture_id`, leave the generator as `after` and return
/// `fragments`. A generator that is initialized numbers the frame with its
/// own picture id; one that is not may number it with any id of fifteen
/// bits.
pub open spec fn vp9_generates_numbered(
    before: VP9PayloadGenerator,
    picture_id: u16,
    after: VP9PayloadGenerator,
    mtu: usize,
    payload: Seq<u8>,
    fragments: Option<Seq<Seq<u8>>>,
) -> bool {
    &&& if before.initialized {
        picture_id == before.picture_id
    } else {
        picture_id < 0x8000
    }
    &&& after.initialized
    &&& after.picture_id == vp9_next_picture_id(picture_id)
    &&& fragments == Some(vp9_fragments(picture_id, mtu, payload))
}

impl VP9PayloadGenerator {
    /// Gives the picture id a random first value of fifteen bits.
    pub fn initialize(&mut self)
        ensures
            final(self).initialized,
            final(self).picture_id < 0x8000,
    {
        self.picture_id = (random_u32() % 0x8000) as u16;
        self.initialized = true;
    }

    /// Cuts the frame `payload` into fragments numbered with the current
    /// picture id, and moves on to the next id.
    pub fn fragment(&mut self, mtu: usize, payload: &[u8]) -> (fragments: Vec<Vec<u8>>)
        requires
            mtu > 3,
            payload.len() > 0,
        ensures
            runs_of(fragments) == vp9_fragments(old(self).picture_id, mtu, payload@),
            fragments.len() > 0,
            final(self).picture_id == vp9_next_picture_id(old(self).picture_id),
            final(self).initialized == old(self).initialized,
    {
        let len = payload.len();
        let size: usize = mtu - VP9_HEADER_SIZE;
        let count = count_chunks(len, size);
        let picture_id = self.picture_id;
        let mut output: Vec<Vec<u8>> = Vec::new();
        let mut start: usize = 0;
        let mut i: usize = 0;
        proof {
            lemma_chunk_bounds(len as nat, size as nat, 0);
        }
        while i < count
            invariant
                size == mtu - 3,
                size > 0,
                len == payload.len(),
                count == chunk_count(len as nat, size as nat),
                i <= count,
                i < count ==> start == i * size,
                output.len() == i,
                forall|j: int|
                    0 <= j < i ==> (#[trigger] output@[j])@ == vp9_descriptor(
                        picture_id,
                        j,
                        count as int,
                    ) + chunk(payload@, size as nat, j),
            decreases count - i,
        {
            proof {
                lemma_chunk_bounds(len as nat, size as nat, i as int);
                lemma_chunk_bounds(len as nat, size as nat, i + 1);
            }
            let end: usize = if len - start > size {
                start + size
            } else {
                len
            };
            let mut flags: u8 = 0x90;
            if i == 0 {
                flags += 0x08;
            }
            if end == len {
                flags += 0x04;
            }
            let mut generated: Vec<u8> = Vec::new();
            generated.push(flags);
            generated.push((0x80 + (picture_id / 0x100) % 0x80) as u8);
            generated.push((picture_id % 0x100) as u8);
            push_range(&mut generated, payload, start, end);
            assert(generated@ =~= vp9_descriptor(picture_id, i as int, count as int) + chunk(
                payload@,
                size as nat,
                i as int,
            ));
            output.push(generated);
            start = end;
            i += 1;
        }
        assert(runs_of(output) =~= vp9_fragments(picture_id, mtu, payload@));
        self.picture_id = if picture_id >= 0x7fff {
            0
        } else {
            picture_id + 1
        };
        output
    }
}

impl Default for VP9PayloadGenerator {
    fn default() -> (generator: VP9PayloadGenerator)
        ensures
            generator.initialized,
            generator.picture_id < 0x8000,
    {
        let mut generator = VP9PayloadGenerator { picture_id: 0, initialized: false };
        generator.initialize();
        generator
    }
}

impl PayloadGenerator for VP9PayloadGenerator {
    open spec fn generates(
        &self,
        after: &Self,
        mtu: usize,
        payload: Seq<u8>,
        fragments: Option<Seq<Seq<u8>>>,
    ) -> bool {
        if payload.len() == 0 || mtu <= 3 {
            fragments is None && *after == *self
        } else {
            exists|picture_id: u16|
                vp9_generates_numbered(*self, picture_id, *after, mtu, payload, fragments)
        }
    }

    fn generate(&mut self, mtu: usize, payload: &[u8]) -> (fragments: Option<Vec<Vec<u8>>>) {
        if payload.len() == 0 || mtu <= VP9_HEADER_SIZE {
            return None;
        }
        if !self.initialized {
            self.initialize();
        }
        let ghost picture_id = self.picture_id;
        let fragments = self.fragment(mtu, payload);
        assert(vp9_generates_numbered(
            *old(self),
            picture_id,
            *self,
            mtu,
            payload@,
            Some(runs_of(fragments)),
        ));
        Some(fragments)
    }
}

/// The fragments of a VP9 frame, each without its descriptor and put end to
/// end, are the frame; there is at least one, each has its descriptor and
/// at least one octet after it, and none is longer than `mtu`.
pub proof fn lemma_vp9_fragments_carry_payload(picture_id: u16, mtu: usize, payload: Seq<u8>)
    requires
        mtu > 3,
        payload.len() > 0,
    ensures
        vp9_fragments(picture_id, mtu, payload).map_values(|f: Seq<u8>| f.skip(3)).flatten()
            == payload,
        vp9_fragments(picture_id, mtu, payload).len() > 0,
        forall|i: int|
            0 <= i < vp9_fragments(picture_id, mtu, payload).len() ==> 3 < (
            #[trigger] vp9_fragments(picture_id, mtu, payload)[i]).len() <= mtu,
{
    let size = (mtu - 3) as nat;
    let fragments = vp9_fragments(picture_id, mtu, payload);
    lemma_chunks_flatten(payload, size);
    lemma_chunk_bounds(payload.len(), size, 0);
    assert forall|i: int| 0 <= i < fragments.len() implies 3 < (#[trigger] fragments[i]).len()
        <= mtu && fragments[i].skip(3) == chunk(payload, size, i) by {
        lemma_chunk_bounds(payload.len(), size, i);
        assert(fragments[i].skip(3) =~= chunk(payload, size, i));
    }
    assert(fragments.map_values(|f: Seq<u8>| f.skip(3)) =~= chunks(payload, size));
}

} // verus!
