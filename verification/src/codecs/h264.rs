//! H.264 video: a frame is a byte stream of NAL units behind start codes
//! (RFC 6184).
//!
//! A start code is the octet 0x01 after two or more zero octets. What lies
//! between one start code and the next, or the end of the frame, is a NAL
//! unit; what lies before the first start code is skipped. A frame without
//! a start code is one NAL unit. A unit that fits the MTU is sent whole; a
//! larger one is cut into FU-A fragments, each behind two octets:
//!
//! ```text
//! +---------------+---------------+
//! |0|1|2|3|4|5|6|7|0|1|2|3|4|5|6|7|
//! +-+-+-+-+-+-+-+-+-+-+-+-+-+-+-+-+
//! |F|NRI|  28     |S|E|R|  type   |
//! +---------------+---------------+
//! ```

use crate::bytes::{copy_range, push_range};
use crate::payload_generator::{
    chunk, chunk_count, chunks, count_chunks, lemma_chunk_bounds, lemma_chunks_flatten, runs_of,
    PayloadGenerator,
};
use vstd::prelude::*;
use vstd::slice::slice_subrange;

verus! {

/// The size in octets of the two headers of an FU-A fragment.
pub const FUA_HEADER_SIZE: usize = 2;

/// The fragmenter for H.264.
#[derive(Clone, Copy, Debug, Default)]
pub struct H264PayloadGenerator;

/// A start code ends at `i`: there stands 0x01, after at least two zero
/// octets, none of them before `from`.
pub open spec fn start_code_ends_at(frame: Seq<u8>, from: int, i: int) -> bool {
    from + 2 <= i < frame.len() && frame[i] == 1 && frame[i - 1] == 0 && frame[i - 2] == 0
}

/// The number of zero octets in a row that end just before `i`, none of
/// them before `from`.
pub open spec fn zero_run(frame: Seq<u8>, from: int, i: int) -> int
    decreases i - from,
{
    if from < i <= frame.len() && frame[i - 1] == 0 {
        1 + zero_run(frame, from, i - 1)
    } else {
        0
    }
}

/// Where the first start code ends that ends at `i` or later.
pub open spec fn first_start_code_end(frame: Seq<u8>, from: int, i: int) -> Option<int>
    decreases frame.len() - i,
{
    if i >= frame.len() {
        None
    } else if start_code_ends_at(frame, from, i) {
        Some(i)
    } else {
        first_start_code_end(frame, from, i + 1)
    }
}

/// The first start code in the frame from `from` on: where it begins and
/// how many octets it has, all the zero octets before its 0x01 counted in.
pub open spec fn next_start_code(frame: Seq<u8>, from: int) -> Option<(int, int)> {
    match first_start_code_end(frame, from, from) {
        Some(end) => Some((end - zero_run(frame, from, end), zero_run(frame, from, end) + 1)),
        None => None,
    }
}

/// The type of a NAL unit: the low five bits of its first octet.
pub open spec fn nal_unit_type(unit: Seq<u8>) -> u8 {
    unit[0] % 32
}

/// The NRI bits of a NAL unit, in place: bits 5 and 6 of its first octet.
pub open spec fn nal_ref_idc(unit: Seq<u8>) -> u8 {
    (((unit[0] / 32) % 4) * 32) as u8
}

/// FU-A fragment `i` of `count` of a NAL unit: the FU indicator with the
/// unit's NRI, the FU header with the unit's type and the S bit on the
/// first fragment and the E bit on the last, and run `i` of the unit's
/// octets after its first.
pub open spec fn fu_a_fragment(unit: Seq<u8>, mtu: usize, i: int, count: int) -> Seq<u8> {
    seq![
        (28 + nal_ref_idc(unit)) as u8,
        (nal_unit_type(unit) + (if i == 0 { 128int } else { 0 }) + (if i == count - 1 {
            64int
        } else {
            0
        })) as u8,
    ] + chunk(unit.subrange(1, unit.len() as int), (mtu - 2) as nat, i)
}

/// The fragments of one NAL unit. There are none for an empty unit, for an
/// access unit delimiter (type 9) or filler data (type 12), and for a unit
/// that neither fits the MTU nor can be cut because the MTU leaves no room
/// after the FU-A headers. A unit shorter than the MTU is its own fragment.
/// Any other is cut, after its first octet, into runs of `mtu - 2` octets.
pub open spec fn nal_unit_fragments(mtu: usize, unit: Seq<u8>) -> Seq<Seq<u8>> {
    if unit.len() == 0 || nal_unit_type(unit) == 9 || nal_unit_type(unit) == 12 {
        Seq::empty()
    } else if unit.len() < mtu {
        seq![unit]
    } else if mtu <= 2 {
        Seq::empty()
    } else {
        let count = chunk_count((unit.len() - 1) as nat, (mtu - 2) as nat);
        Seq::new(count, |i: int| fu_a_fragment(unit, mtu, i, count as int))
    }
}

/// The fragments of the NAL units of a frame from `from` on, a place just
/// after a start code: those of the unit that begins there, then those of
/// the units after the next start code. (A start code always ends after
/// `from` and within the frame; the test for it is what makes the
/// definition well founded.)
pub open spec fn nal_units_fragments(mtu: usize, frame: Seq<u8>, from: int) -> Seq<Seq<u8>>
    decreases frame.len() - from,
{
    match next_start_code(frame, from) {
        Some((start, length)) => {
            if from < start + length <= frame.len() {
                nal_unit_fragments(mtu, frame.subrange(from, start)) + nal_units_fragments(
                    mtu,
                    frame,
                    start + length,
                )
            } else {
                Seq::empty()
            }
        },
        None => nal_unit_fragments(mtu, frame.subrange(from, frame.len() as int)),
    }
}

/// The fragments of an H.264 frame: those of its NAL units in turn, or of
/// the whole frame if it has no start code; none if that leaves nothing.
pub open spec fn h264_fragments(mtu: usize, frame: Seq<u8>) -> Option<Seq<Seq<u8>>> {
    let all = match next_start_code(frame, 0) {
        Some((start, length)) => nal_units_fragments(mtu, frame, start + length),
        None => nal_unit_fragments(mtu, frame),
    };
    if all.len() == 0 {
        None
    } else {
        Some(all)
    }
}

impl H264PayloadGenerator {
    /// Finds the first start code in `units` from `start` on, and returns
    /// where it begins and how many octets it has.
    pub fn get_nal_unit_boundaries(units: &[u8], start: usize) -> (boundaries: Option<
        (usize, usize),
    >)
        requires
            start <= units.len(),
        ensures
            match boundaries {
                Some((begin, length)) => next_start_code(units@, start as int) == Some(
                    (begin as int, length as int),
                ) && start <= begin && begin + length <= units.len() && length >= 3,
                None => next_start_code(units@, start as int) is None,
            },
    {
        let len = units.len();
        let mut zero_count: usize = 0;
        let mut index: usize = start;
        while index < len
            invariant
                len == units.len(),
                start <= index <= len,
                zero_count == zero_run(units@, start as int, index as int),
                zero_count <= index - start,
                first_start_code_end(units@, start as int, start as int) == first_start_code_end(
                    units@,
                    start as int,
                    index as int,
                ),
            decreases len - index,
        {
            let byte = units[index];
            proof {
                lemma_zero_run_two(units@, start as int, index as int);
            }
            if byte == 0 {
                zero_count += 1;
            } else if byte == 1 && zero_count >= 2 {
                return Some((index - zero_count, zero_count + 1));
            } else {
                zero_count = 0;
            }
            index += 1;
        }
        None
    }

    /// Cuts one NAL unit into the payloads that carry it, or returns `None`
    /// for a unit that gives none.
    pub fn generate_payloads_from_nal_unit(mtu: usize, unit: &[u8]) -> (payloads: Option<
        Vec<Vec<u8>>,
    >)
        ensures
            match payloads {
                Some(list) => list.len() > 0 && runs_of(list) == nal_unit_fragments(mtu, unit@),
                None => nal_unit_fragments(mtu, unit@).len() == 0,
            },
    {
        let len = unit.len();
        if len == 0 {
            return None;
        }
        let unit_type: u8 = unit[0] % 32;
        if unit_type == 9 || unit_type == 12 {
            return None;
        }
        let mut payloads: Vec<Vec<u8>> = Vec::new();
        if len < mtu {
            payloads.push(copy_range(unit, 0, len));
            assert(unit@.subrange(0, len as int) =~= unit@);
            assert(runs_of(payloads) =~= seq![unit@]);
            return Some(payloads);
        }
        if mtu <= FUA_HEADER_SIZE {
            return None;
        }
        let ref_idc: u8 = ((unit[0] / 32) % 4) * 32;
        let size: usize = mtu - FUA_HEADER_SIZE;
        let data_len: usize = len - 1;
        let count = count_chunks(data_len, size);
        let ghost data = unit@.subrange(1, len as int);
        let mut start: usize = 0;
        let mut i: usize = 0;
        proof {
            lemma_chunk_bounds(data_len as nat, size as nat, 0);
        }
        while i < count
            invariant
                size == mtu - 2,
                size > 0,
                len == unit.len(),
                data_len == len - 1,
                data == unit@.subrange(1, len as int),
                unit_type == nal_unit_type(unit@),
                ref_idc == nal_ref_idc(unit@),
                count == chunk_count(data_len as nat, size as nat),
                i <= count,
                i < count ==> start == i * size,
                payloads.len() == i,
                forall|j: int|
                    0 <= j < i ==> (#[trigger] payloads@[j])@ == fu_a_fragment(
                        unit@,
                        mtu,
                        j,
                        count as int,
                    ),
            decreases count - i,
        {
            proof {
                lemma_chunk_bounds(data_len as nat, size as nat, i as int);
                lemma_chunk_bounds(data_len as nat, size as nat, i + 1);
            }
            let end: usize = if data_len - start > size {
                start + size
            } else {
                data_len
            };
            let mut header: u8 = unit_type;
            if i == 0 {
                header += 128;
            }
            if end == data_len {
                header += 64;
            }
            let mut payload: Vec<u8> = Vec::new();
            payload.push(28 + ref_idc);
            payload.push(header);
            push_range(&mut payload, unit, 1 + start, 1 + end);
            assert(unit@.subrange(1 + start, 1 + end) =~= chunk(data, size as nat, i as int));
            assert(payload@ =~= fu_a_fragment(unit@, mtu, i as int, count as int));
            payloads.push(payload);
            start = end;
            i += 1;
        }
        assert(runs_of(payloads) =~= nal_unit_fragments(mtu, unit@));
        Some(payloads)
    }
}

impl PayloadGenerator for H264PayloadGenerator {
    open spec fn generates(
        &self,
        after: &Self,
        mtu: usize,
        payload: Seq<u8>,
        fragments: Option<Seq<Seq<u8>>>,
    ) -> bool {
        fragments == h264_fragments(mtu, payload)
    }

    fn generate(&mut self, mtu: usize, payload: &[u8]) -> (fragments: Option<Vec<Vec<u8>>>) {
        let len = payload.len();
        let mut output: Vec<Vec<u8>> = Vec::new();
        match Self::get_nal_unit_boundaries(payload, 0) {
            None => {
                assert(payload@.subrange(0, len as int) =~= payload@);
                append_unit(&mut output, mtu, payload, 0, len);
                assert(runs_of(output) =~= nal_unit_fragments(mtu, payload@));
            },
            Some((start, length)) => {
                let ghost first: int = start + length;
                let mut from: usize = start + length;
                let mut done = false;
                assert(runs_of(output) + nal_units_fragments(mtu, payload@, first)
                    =~= nal_units_fragments(mtu, payload@, first));
                while !done
                    invariant
                        len == payload.len(),
                        from <= len,
                        !done ==> runs_of(output) + nal_units_fragments(mtu, payload@, from as int)
                            == nal_units_fragments(mtu, payload@, first),
                        done ==> runs_of(output) == nal_units_fragments(mtu, payload@, first),
                    decreases
                            (if done {
                                0
                            } else {
                                1 + len - from
                            }),
                {
                    let ghost before = runs_of(output);
                    let ghost unit_at: int = from as int;
                    match Self::get_nal_unit_boundaries(payload, from) {
                        Some((next, next_length)) => {
                            append_unit(&mut output, mtu, payload, from, next);
                            from = next + next_length;
                            assert(runs_of(output) + nal_units_fragments(
                                mtu,
                                payload@,
                                from as int,
                            ) =~= before + (nal_unit_fragments(
                                mtu,
                                payload@.subrange(unit_at, next as int),
                            ) + nal_units_fragments(mtu, payload@, from as int)));
                        },
                        None => {
                            append_unit(&mut output, mtu, payload, from, len);
                            done = true;
                        },
                    }
                }
            },
        }
        if output.len() > 0 {
            Some(output)
        } else {
            None
        }
    }
}

/// Appends the payloads that carry the NAL unit `frame[from..to]`.
fn append_unit(output: &mut Vec<Vec<u8>>, mtu: usize, frame: &[u8], from: usize, to: usize)
    requires
        from <= to <= frame.len(),
    ensures
        runs_of(*final(output)) == runs_of(*old(output)) + nal_unit_fragments(
            mtu,
            frame@.subrange(from as int, to as int),
        ),
{
    let unit = slice_subrange(frame, from, to);
    match H264PayloadGenerator::generate_payloads_from_nal_unit(mtu, unit) {
        Some(mut payloads) => {
            let ghost added = runs_of(payloads);
            output.append(&mut payloads);
            assert(runs_of(*output) =~= runs_of(*old(output)) + added);
        },
        None => {
            assert(runs_of(*output) =~= runs_of(*old(output)) + nal_unit_fragments(mtu, unit@));
        },
    }
}

/// Two zero octets end just before `i`, none of them before `from`, exactly
/// when the run of zero octets there has two or more.
proof fn lemma_zero_run_two(frame: Seq<u8>, from: int, i: int)
    requires
        from <= i < frame.len(),
    ensures
        zero_run(frame, from, i) >= 0,
        zero_run(frame, from, i) <= i - from,
        zero_run(frame, from, i) >= 2 <==> (from + 2 <= i && frame[i - 1] == 0 && frame[i - 2]
            == 0),
        zero_run(frame, from, i + 1) == if frame[i] == 0 {
            zero_run(frame, from, i) + 1
        } else {
            0
        },
    decreases i - from,
{
    if from < i {
        lemma_zero_run_two(frame, from, i - 1);
        if from < i - 1 {
            lemma_zero_run_two(frame, from, i - 2);
        }
    }
}

/// No fragment of a NAL unit is empty or longer than `mtu`; a unit that is
/// sent whole is shorter than `mtu`, and a unit that is cut is cut into at
/// least two fragments, whose runs put end to end are the unit after its
/// first octet.
pub proof fn lemma_nal_unit_fragments_fit(mtu: usize, unit: Seq<u8>)
    ensures
        forall|i: int|
            0 <= i < nal_unit_fragments(mtu, unit).len() ==> 0 < (#[trigger] nal_unit_fragments(
                mtu,
                unit,
            )[i]).len() <= mtu,
        nal_unit_fragments(mtu, unit).len() > 0 && unit.len() >= mtu ==> {
            &&& nal_unit_fragments(mtu, unit).len() >= 2
            &&& nal_unit_fragments(mtu, unit).map_values(|f: Seq<u8>| f.skip(2)).flatten()
                == unit.skip(1)
        },
{
    let fragments = nal_unit_fragments(mtu, unit);
    if fragments.len() > 0 && unit.len() >= mtu {
        let size = (mtu - 2) as nat;
        let data = unit.subrange(1, unit.len() as int);
        assert(data =~= unit.skip(1));
        lemma_chunks_flatten(data, size);
        lemma_chunk_bounds(data.len(), size, 1);
        assert(1 * size == size) by (nonlinear_arith);
        assert forall|i: int| 0 <= i < fragments.len() implies 0 < (#[trigger] fragments[i]).len()
            <= mtu && fragments[i].skip(2) == chunk(data, size, i) by {
            lemma_chunk_bounds(data.len(), size, i);
            assert(fragments[i].skip(2) =~= chunk(data, size, i));
        }
        assert(fragments.map_values(|f: Seq<u8>| f.skip(2)) =~= chunks(data, size));
    }
}

/// What `zero_run` counts: the octets it counts are zero, and the octet
/// before them, if it is not before `from`, is not.
pub proof fn lemma_zero_run_is_maximal(frame: Seq<u8>, from: int, i: int)
    requires
        0 <= from <= i <= frame.len(),
    ensures
        0 <= zero_run(frame, from, i) <= i - from,
        forall|k: int| i - zero_run(frame, from, i) <= k < i ==> frame[k] == 0,
        i - zero_run(frame, from, i) > from ==> frame[i - zero_run(frame, from, i) - 1] != 0,
    decreases i - from,
{
    if from < i && frame[i - 1] == 0 {
        lemma_zero_run_is_maximal(frame, from, i - 1);
    }
}

/// What `first_start_code_end` finds: the first place at `i` or later where
/// a start code ends, if there is one.
pub proof fn lemma_first_start_code_end_is_first(frame: Seq<u8>, from: int, i: int)
    requires
        from <= i,
    ensures
        match first_start_code_end(frame, from, i) {
            Some(end) => i <= end && start_code_ends_at(frame, from, end) && forall|j: int|
                i <= j < end ==> !start_code_ends_at(frame, from, j),
            None => forall|j: int| i <= j ==> !start_code_ends_at(frame, from, j),
        },
    decreases frame.len() - i,
{
    if i < frame.len() && !start_code_ends_at(frame, from, i) {
        lemma_first_start_code_end_is_first(frame, from, i + 1);
    }
}

/// What `next_start_code` finds: the start code that ends first, from the
/// first of the zero octets before its 0x01 that are not before `from`. It
/// has three octets or more and lies within the frame.
pub proof fn lemma_next_start_code_is_first(frame: Seq<u8>, from: int)
    requires
        0 <= from <= frame.len(),
    ensures
        match next_start_code(frame, from) {
            Some((start, length)) => {
                &&& from <= start
                &&& length >= 3
                &&& start + length <= frame.len()
                &&& frame[start + length - 1] == 1
                &&& forall|k: int| start <= k < start + length - 1 ==> frame[k] == 0
                &&& start > from ==> frame[start - 1] != 0
                &&& forall|j: int| j < start + length - 1 ==> !start_code_ends_at(frame, from, j)
            },
            None => forall|j: int| !start_code_ends_at(frame, from, j),
        },
{
    lemma_first_start_code_end_is_first(frame, from, from);
    match first_start_code_end(frame, from, from) {
        Some(end) => {
            lemma_zero_run_is_maximal(frame, from, end);
            lemma_zero_run_two(frame, from, end);
        },
        None => {},
    }
}

} // verus!
