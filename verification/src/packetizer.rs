//! The packetizer: it has a fragmenter cut each frame, and sends each
//! fragment as an RTP packet of its stream.
//!
//! All packets of a frame carry the stream's payload type and SSRC and the
//! frame's timestamp; their sequence numbers follow one another; the last
//! one carries the marker bit and, when the abs-send-time extension is
//! registered, that extension. After a frame is sent the timestamp moves on
//! by the frame's number of samples.

use crate::ambient::{random_u32, unix_nanos_now};
use crate::bytes::{be24_bytes, copy_range, push_u24_be};
use crate::codecs::g711::{lemma_g711_fragments_carry_payload, G711PayloadGenerator};
use crate::codecs::g722::{lemma_g722_fragments_carry_payload, G722PayloadGenerator};
use crate::codecs::h264::H264PayloadGenerator;
use crate::codecs::opus::{lemma_opus_fragments_carry_payload, OpusPayloadGenerator};
use crate::codecs::vp8::{lemma_vp8_fragments_carry_payload, VP8PayloadGenerator};
use crate::codecs::vp9::VP9PayloadGenerator;
use crate::packet::{optional_bytes, Packet, PacketView, HEADER_SIZE, PACKET_VERSION};
use crate::payload_generator::{optional_runs_of, runs_of, PayloadGenerator};
use crate::sequencer::{lemma_sequencer_steps, Sequencer};
use vstd::arithmetic::div_mod::{lemma_add_mod_noop, lemma_small_mod};
use vstd::prelude::*;

verus! {

/// A packetizer for G.711.
pub type G711Packetizer = Packetizer<G711PayloadGenerator>;

/// A packetizer for G.722.
pub type G722Packetizer = Packetizer<G722PayloadGenerator>;

/// A packetizer for H.264.
pub type H264Packetizer = Packetizer<H264PayloadGenerator>;

/// A packetizer for Opus.
pub type OpusPacketizer = Packetizer<OpusPayloadGenerator>;

/// A packetizer for VP8.
pub type VP8Packetizer = Packetizer<VP8PayloadGenerator>;

/// A packetizer for VP9.
pub type VP9Packetizer = Packetizer<VP9PayloadGenerator>;

/// The profile of a header extension in the one-byte form of RFC 5285.
pub const ONE_BYTE_EXTENSION_PROFILE: u16 = 0xbede;

/// The seconds from the NTP epoch, 1900, to the Unix epoch, 1970.
pub const NTP_UNIX_OFFSET: u64 = 0x83aa_7e80;

/// A header extension that a packetizer can be told to emit.
#[derive(Clone, Copy, Debug, PartialEq, Eq, Structural)]
pub enum ExtensionNumber {
    /// The abs-send-time extension, under the given identifier.
    AbsSendTime(u32),
    /// An extension that this library does not emit.
    Unknown,
}

/// The NTP timestamp of an instant given in nanoseconds since the Unix
/// epoch: the seconds since 1900, modulo 2^32, in the upper half, and the
/// fraction of the second, in units of 2^-32 s, in the lower.
pub open spec fn ntp_of(unix_nanos: u64) -> u64 {
    (((unix_nanos / 1_000_000_000 + 0x83aa_7e80) % 0x1_0000_0000) * 0x1_0000_0000 + ((unix_nanos
        % 1_000_000_000) * 0x1_0000_0000) / 1_000_000_000) as u64
}

/// The NTP timestamp that a reading of the clock stands for. A reading
/// before the Unix epoch, or none at all, stands for the epoch itself.
pub open spec fn ntp_of_reading(reading: Option<i64>) -> u64 {
    match reading {
        Some(nanos) if nanos >= 0 => ntp_of(nanos as u64),
        _ => ntp_of(0),
    }
}

/// The abs-send-time of an NTP timestamp: its bits 6 to 29, counted from
/// the least significant, which are 24 bits of the fraction of the second.
pub open spec fn abs_send_time_of(ntp: u64) -> u32 {
    ((ntp / 64) % 0x100_0000) as u32
}

/// The abs-send-time extension in the one-byte form: one octet with the
/// low four bits of the identifier above the length code 2, then the three
/// octets of the abs-send-time.
pub open spec fn abs_send_time_extension(id: u32, ntp: u64) -> Seq<u8> {
    seq![((id % 16) * 16 + 2) as u8] + be24_bytes(abs_send_time_of(ntp))
}

/// The identifier under which abs-send-time is emitted: that of the
/// registration made last, if one was made.
pub open spec fn abs_send_time_id(extensions: Seq<ExtensionNumber>) -> Option<u32>
    decreases extensions.len(),
{
    if extensions.len() == 0 {
        None
    } else {
        match extensions.last() {
            ExtensionNumber::AbsSendTime(id) => Some(id),
            ExtensionNumber::Unknown => abs_send_time_id(extensions.drop_last()),
        }
    }
}

/// The extension that the last packet of a frame carries at the time
/// `ntp`, with the given registrations.
pub open spec fn marker_extension(extensions: Seq<ExtensionNumber>, ntp: u64) -> Option<Seq<u8>> {
    match abs_send_time_id(extensions) {
        Some(id) => Some(abs_send_time_extension(id, ntp)),
        None => None,
    }
}

/// The packet that carries fragment `i` of a frame, when the sequence
/// number handed out last was `last_number` and the frame's last packet
/// carries `extension`.
pub open spec fn framed_packet(
    payload_type: u8,
    ssrc: u32,
    timestamp: u32,
    last_number: u16,
    extension: Option<Seq<u8>>,
    fragments: Seq<Seq<u8>>,
    i: int,
) -> PacketView {
    let last = i == fragments.len() - 1;
    let carried = last && extension is Some;
    PacketView {
        version: 2,
        padding: false,
        extension: carried,
        marker: last,
        payload_type,
        sequence_number: ((last_number + 1 + i) % 0x1_0000) as u16,
        timestamp,
        ssrc,
        csrc: Seq::empty(),
        extension_profile: if carried {
            Some(0xbede)
        } else {
            None
        },
        extension_payload: if carried {
            extension
        } else {
            None
        },
        payload: fragments[i],
    }
}

/// The packets that carry the fragments of a frame.
pub open spec fn framed(
    payload_type: u8,
    ssrc: u32,
    timestamp: u32,
    last_number: u16,
    extension: Option<Seq<u8>>,
    fragments: Seq<Seq<u8>>,
) -> Seq<PacketView> {
    Seq::new(
        fragments.len(),
        |i: int| framed_packet(payload_type, ssrc, timestamp, last_number, extension, fragments, i),
    )
}

/// The fields of each packet of a list.
pub open spec fn views_of(packets: Vec<Packet>) -> Seq<PacketView> {
    Seq::new(packets@.len(), |i: int| packets@[i]@)
}

/// The fields of each packet of an optional list.
pub open spec fn optional_views_of(packets: Option<Vec<Packet>>) -> Option<Seq<PacketView>> {
    match packets {
        Some(packets) => Some(views_of(packets)),
        None => None,
    }
}

/// Converts an instant, in nanoseconds since the Unix epoch, into an NTP
/// timestamp.
pub fn to_ntp_time(unix_epoch: u64) -> (ntp: u64)
    ensures
        ntp == ntp_of(unix_epoch),
{
    let seconds: u64 = (unix_epoch / 1_000_000_000 + NTP_UNIX_OFFSET) % 0x1_0000_0000;
    let fraction: u64 = ((unix_epoch % 1_000_000_000) * 0x1_0000_0000) / 1_000_000_000;
    seconds * 0x1_0000_0000 + fraction
}

/// Converts a reading of the clock into an NTP timestamp.
pub fn ntp_time_of_reading(reading: Option<i64>) -> (ntp: u64)
    ensures
        ntp == ntp_of_reading(reading),
{
    match reading {
        Some(nanos) => {
            if nanos >= 0 {
                to_ntp_time(nanos as u64)
            } else {
                to_ntp_time(0)
            }
        },
        None => to_ntp_time(0),
    }
}

/// The time of day as an NTP timestamp: the timestamp that the clock's
/// reading stands for, whatever the clock reads.
pub fn get_ntp_time() -> (ntp: u64)
    ensures
        exists|reading: Option<i64>| ntp == ntp_of_reading(reading),
{
    let reading = unix_nanos_now();
    ntp_time_of_reading(reading)
}

/// Makes the abs-send-time extension for the time `ntp`.
pub fn make_abs_send_time_extension(id: u32, ntp: u64) -> (extension: Vec<u8>)
    ensures
        extension@ == abs_send_time_extension(id, ntp),
        extension@.len() == 4,
{
    let mut extension: Vec<u8> = Vec::new();
    extension.push(((id % 16) * 16 + 2) as u8);
    push_u24_be(&mut extension, ((ntp / 64) % 0x100_0000) as u32);
    extension
}

/// Looks up the identifier under which abs-send-time is emitted.
pub fn find_abs_send_time(extensions: &[ExtensionNumber]) -> (id: Option<u32>)
    ensures
        id == abs_send_time_id(extensions@),
{
    let mut found: Option<u32> = None;
    let mut i: usize = 0;
    assert(extensions@.take(0) =~= Seq::<ExtensionNumber>::empty());
    while i < extensions.len()
        invariant
            i <= extensions.len(),
            found == abs_send_time_id(extensions@.take(i as int)),
        decreases extensions.len() - i,
    {
        if let ExtensionNumber::AbsSendTime(id) = extensions[i] {
            found = Some(id);
        }
        i += 1;
        assert(extensions@.take(i as int).drop_last() =~= extensions@.take(i - 1));
    }
    assert(extensions@.take(i as int) =~= extensions@);
    found
}

/// Wraps each fragment of a frame in an RTP packet, numbering the packets
/// with `sequencer`. The last packet carries the marker bit and, if there
/// is one, the extension.
pub fn frame_fragments(
    fragments: &Vec<Vec<u8>>,
    payload_type: u8,
    ssrc: u32,
    timestamp: u32,
    sequencer: &mut Sequencer,
    extension: Option<Vec<u8>>,
) -> (packets: Vec<Packet>)
    requires
        extension matches Some(content) ==> content.len() / 4 <= 0xffff,
    ensures
        packets.len() == fragments.len(),
        views_of(packets) == framed(
            payload_type,
            ssrc,
            timestamp,
            old(sequencer).last_number(),
            optional_bytes(extension),
            runs_of(*fragments),
        ),
        forall|i: int|
            0 <= i < packets.len() ==> (#[trigger] packets@[i]).raw is None && packets@[i].payload_offset
                == packets@[i]@.header_len(),
        final(sequencer).last_number() == old(sequencer).number_after(fragments.len() as nat),
        final(sequencer).roll_overs() == old(sequencer).roll_overs_after(fragments.len() as nat),
{
    let count = fragments.len();
    let ghost carried = optional_bytes(extension);
    let ghost target = framed(
        payload_type,
        ssrc,
        timestamp,
        old(sequencer).last_number(),
        carried,
        runs_of(*fragments),
    );
    let mut packets: Vec<Packet> = Vec::new();
    let mut i: usize = 0;
    proof {
        lemma_sequencer_steps(*old(sequencer), *old(sequencer), 0);
    }
    while i < count
        invariant
            count == fragments.len(),
            i <= count,
            carried == optional_bytes(extension),
            extension matches Some(content) ==> content.len() / 4 <= 0xffff,
            target == framed(
                payload_type,
                ssrc,
                timestamp,
                old(sequencer).last_number(),
                carried,
                runs_of(*fragments),
            ),
            packets.len() == i,
            forall|j: int| 0 <= j < i ==> (#[trigger] packets@[j])@ == target[j],
            forall|j: int|
                0 <= j < i ==> (#[trigger] packets@[j]).raw is None && packets@[j].payload_offset
                    == packets@[j]@.header_len(),
            sequencer.last_number() == old(sequencer).number_after(i as nat),
            sequencer.roll_overs() == old(sequencer).roll_overs_after(i as nat),
        decreases count - i,
    {
        let marker = i == count - 1;
        let fragment = &fragments[i];
        let payload = copy_range(fragment.as_slice(), 0, fragment.len());
        assert(fragment@.subrange(0, fragment@.len() as int) =~= fragment@);
        let mut extension_profile: Option<u16> = None;
        let mut extension_payload: Option<Vec<u8>> = None;
        let mut payload_offset: usize = HEADER_SIZE;
        if marker {
            if let Some(content) = &extension {
                extension_profile = Some(ONE_BYTE_EXTENSION_PROFILE);
                extension_payload = Some(copy_range(content.as_slice(), 0, content.len()));
                assert(content@.subrange(0, content@.len() as int) =~= content@);
                payload_offset = payload_offset + 4 + content.len();
            }
        }
        proof {
            lemma_sequencer_steps(*old(sequencer), *sequencer, i as nat);
        }
        let sequence_number = sequencer.next_sequence_number();
        let packet = Packet {
            version: PACKET_VERSION,
            padding: false,
            extension: extension_payload.is_some(),
            marker,
            payload_type,
            sequence_number,
            timestamp,
            ssrc,
            csrc: Vec::new(),
            extension_profile,
            extension_payload,
            payload_offset,
            payload,
            raw: None,
        };
        assert(packet@ == target[i as int]);
        packets.push(packet);
        i += 1;
    }
    assert(views_of(packets) =~= target);
    packets
}

/// Turns the frames of one stream into RTP packets.
#[derive(Clone, Debug)]
pub struct Packetizer<G: PayloadGenerator + Default> {
    /// The largest size of a packet, header and payload together.
    pub mtu: usize,
    /// The payload type of the stream's packets.
    pub payload_type: u8,
    /// The synchronization source of the stream's packets.
    pub synchronization_source: u32,
    /// The timestamp that the packets of the next frame will carry.
    pub timestamp: u32,
    /// The extensions registered so far, in the order of registration.
    pub extensions: Vec<ExtensionNumber>,
    /// The fragmenter.
    pub generator: G,
    /// The sequencer.
    pub sequencer: Sequencer,
}

impl<G: PayloadGenerator + Default> Packetizer<G> {
    /// Whether a call of `packetize` on this packetizer with `data` and
    /// `samples`, for which the fragmenter returned `fragments` and the
    /// clock read `ntp`, may leave the packetizer as `after` and return
    /// `packets`.
    ///
    /// Without fragments nothing is sent, and timestamp and sequencer stay
    /// as they were. With fragments each one is framed in turn, the
    /// timestamp moves on by `samples` modulo 2^32, and the sequencer by the
    /// number of fragments.
    pub open spec fn packetizes_with(
        &self,
        after: &Self,
        data: Seq<u8>,
        samples: u32,
        packets: Option<Seq<PacketView>>,
        fragments: Option<Seq<Seq<u8>>>,
        ntp: u64,
    ) -> bool {
        &&& self.generator.generates(
            &after.generator,
            (self.mtu - 12) as usize,
            data,
            fragments,
        )
        &&& if fragments is Some && fragments->Some_0.len() > 0 {
            let fragments = fragments->Some_0;
            &&& packets == Some(
                framed(
                    self.payload_type,
                    self.synchronization_source,
                    self.timestamp,
                    self.sequencer.last_number(),
                    marker_extension(self.extensions@, ntp),
                    fragments,
                ),
            )
            &&& after.timestamp == (self.timestamp + samples) % 0x1_0000_0000
            &&& after.sequencer.last_number() == self.sequencer.number_after(
                fragments.len(),
            )
            &&& after.sequencer.roll_overs() == self.sequencer.roll_overs_after(
                fragments.len(),
            )
        } else {
            &&& packets is None
            &&& after.timestamp == self.timestamp
            &&& after.sequencer == self.sequencer
        }
    }

    /// Whether a call of `packetize` on this packetizer with `data` and
    /// `samples` may leave the packetizer as `after` and return `packets`.
    ///
    /// The configuration and the registrations stay. An empty frame, or an
    /// MTU that leaves no room after the twelve octets of the fixed header,
    /// gives nothing and changes nothing. Any other call hands the frame to
    /// the fragmenter, with the MTU less twelve, and goes by what comes
    /// back.
    pub open spec fn packetizes(
        &self,
        after: &Self,
        data: Seq<u8>,
        samples: u32,
        packets: Option<Seq<PacketView>>,
    ) -> bool {
        &&& after.mtu == self.mtu
        &&& after.payload_type == self.payload_type
        &&& after.synchronization_source == self.synchronization_source
        &&& after.extensions@ == self.extensions@
        &&& if data.len() == 0 || self.mtu <= 12 {
            &&& packets is None
            &&& after.timestamp == self.timestamp
            &&& after.sequencer == self.sequencer
            &&& after.generator == self.generator
        } else {
            exists|fragments: Option<Seq<Seq<u8>>>, ntp: u64|
                self.packetizes_with(after, data, samples, packets, fragments, ntp)
        }
    }

    /// A packetizer whose timestamp and sequence numbers start at random.
    pub fn new(mtu: usize, payload_type: u8, ssrc: u32) -> (packetizer: Self)
        ensures
            packetizer.mtu == mtu,
            packetizer.payload_type == payload_type,
            packetizer.synchronization_source == ssrc,
            packetizer.extensions@ == Seq::<ExtensionNumber>::empty(),
            packetizer.sequencer.roll_overs() == 0,
    {
        Self::starting_at(mtu, payload_type, ssrc, random_u32(), Sequencer::new(), G::default())
    }

    /// A packetizer that starts at the given timestamp, with the given
    /// sequencer and fragmenter.
    pub fn starting_at(
        mtu: usize,
        payload_type: u8,
        ssrc: u32,
        timestamp: u32,
        sequencer: Sequencer,
        generator: G,
    ) -> (packetizer: Self)
        ensures
            packetizer.mtu == mtu,
            packetizer.payload_type == payload_type,
            packetizer.synchronization_source == ssrc,
            packetizer.timestamp == timestamp,
            packetizer.extensions@ == Seq::<ExtensionNumber>::empty(),
            packetizer.sequencer == sequencer,
            packetizer.generator == generator,
    {
        Packetizer {
            mtu,
            payload_type,
            synchronization_source: ssrc,
            timestamp,
            extensions: Vec::new(),
            generator,
            sequencer,
        }
    }

    /// The timestamp that the packets of the next frame will carry.
    pub fn current_timestamp(&self) -> (timestamp: u32)
        ensures
            timestamp == self.timestamp,
    {
        self.timestamp
    }

    /// The time of day as an NTP timestamp: the timestamp that the
    /// clock's reading stands for, whatever the clock reads.
    pub fn ntp_time(&self) -> (ntp: u64)
        ensures
            exists|reading: Option<i64>| ntp == ntp_of_reading(reading),
    {
        get_ntp_time()
    }

    /// Registers a header extension.
    pub fn add_extension_number(&mut self, extension: ExtensionNumber)
        ensures
            final(self).extensions@ == old(self).extensions@.push(extension),
            final(self).mtu == old(self).mtu,
            final(self).payload_type == old(self).payload_type,
            final(self).synchronization_source == old(self).synchronization_source,
            final(self).timestamp == old(self).timestamp,
            final(self).sequencer == old(self).sequencer,
            final(self).generator == old(self).generator,
    {
        self.extensions.push(extension);
    }

    /// Cuts a frame into fragments and sends each as an RTP packet.
    ///
    /// Returns `None`, and leaves timestamp and sequence numbers alone, for
    /// an empty frame, for an MTU of twelve or less, and when the
    /// fragmenter gives no fragment.
    pub fn packetize(&mut self, data: &[u8], samples: u32) -> (packets: Option<Vec<Packet>>)
        ensures
            old(self).packetizes(final(self), data@, samples, optional_views_of(packets)),
            packets matches Some(list) ==> list.len() > 0 && forall|i: int|
                0 <= i < list.len() ==> (#[trigger] list@[i]).raw is None && list@[i].payload_offset
                    == list@[i]@.header_len(),
    {
        if data.len() == 0 || self.mtu <= HEADER_SIZE {
            return None;
        }
        let fragments = self.generator.generate(self.mtu - HEADER_SIZE, data);
        let ghost generated = optional_runs_of(fragments);
        let fragments = match fragments {
            Some(fragments) => fragments,
            None => {
                assert(old(self).packetizes_with(self, data@, samples, None, generated, 0));
                return None;
            },
        };
        if fragments.len() == 0 {
            assert(old(self).packetizes_with(self, data@, samples, None, generated, 0));
            return None;
        }
        let mut ntp: u64 = 0;
        let extension = match find_abs_send_time(self.extensions.as_slice()) {
            Some(id) => {
                ntp = get_ntp_time();
                Some(make_abs_send_time_extension(id, ntp))
            },
            None => None,
        };
        let packets = frame_fragments(
            &fragments,
            self.payload_type,
            self.synchronization_source,
            self.timestamp,
            &mut self.sequencer,
            extension,
        );
        self.timestamp = self.timestamp.wrapping_add(samples);
        assert(old(self).packetizes_with(
            self,
            data@,
            samples,
            Some(views_of(packets)),
            generated,
            ntp,
        ));
        Some(packets)
    }
}

/// The payloads of a list of packets.
pub open spec fn payloads_of(packets: Seq<PacketView>) -> Seq<Seq<u8>> {
    packets.map_values(|packet: PacketView| packet.payload)
}

/// A call that is given no data, or an MTU of twelve or less, returns
/// nothing and leaves the packetizer as it was.
pub proof fn lemma_nothing_without_data_or_room<G: PayloadGenerator + Default>(
    before: Packetizer<G>,
    after: Packetizer<G>,
    data: Seq<u8>,
    samples: u32,
    packets: Option<Seq<PacketView>>,
)
    requires
        before.packetizes(&after, data, samples, packets),
        data.len() == 0 || before.mtu <= 12,
    ensures
        packets is None,
        after.timestamp == before.timestamp,
        after.sequencer == before.sequencer,
        after.generator == before.generator,
{
}

/// The packets of one call are those of the fragments that the fragmenter
/// returned for the frame and the MTU less twelve: as many, in the same
/// order, each with one fragment as its payload.
pub proof fn lemma_packets_carry_fragments<G: PayloadGenerator + Default>(
    before: Packetizer<G>,
    after: Packetizer<G>,
    data: Seq<u8>,
    samples: u32,
    packets: Seq<PacketView>,
)
    requires
        before.packetizes(&after, data, samples, Some(packets)),
    ensures
        data.len() > 0,
        before.mtu > 12,
        packets.len() > 0,
        before.generator.generates(
            &after.generator,
            (before.mtu - 12) as usize,
            data,
            Some(payloads_of(packets)),
        ),
{
    let (fragments, ntp) = choose|fragments: Option<Seq<Seq<u8>>>, ntp: u64|
        before.packetizes_with(&after, data, samples, Some(packets), fragments, ntp);
    assert(payloads_of(packets) =~= fragments->Some_0);
}

/// The sequence numbers of the packets of one call follow one another
/// modulo 2^16: the first is one more than the number handed out last
/// before the call, each other is one more than the number before it, and
/// the last is the number handed out last after the call.
pub proof fn lemma_sequence_numbers_follow<G: PayloadGenerator + Default>(
    before: Packetizer<G>,
    after: Packetizer<G>,
    data: Seq<u8>,
    samples: u32,
    packets: Seq<PacketView>,
)
    requires
        before.packetizes(&after, data, samples, Some(packets)),
    ensures
        packets.len() > 0,
        packets[0].sequence_number == (before.sequencer.last_number() + 1) % 0x1_0000,
        forall|i: int|
            0 <= i < packets.len() - 1 ==> (#[trigger] packets[i + 1]).sequence_number == (
            packets[i].sequence_number + 1) % 0x1_0000,
        packets.last().sequence_number == after.sequencer.last_number(),
{
    let (fragments, ntp) = choose|fragments: Option<Seq<Seq<u8>>>, ntp: u64|
        before.packetizes_with(&after, data, samples, Some(packets), fragments, ntp);
    let last_number = before.sequencer.last_number() as int;
    assert(packets[0].sequence_number == (last_number + 1) % 0x1_0000);
    assert(packets.last().sequence_number == (last_number + 1 + (packets.len() - 1)) % 0x1_0000);
    assert forall|i: int| 0 <= i < packets.len() - 1 implies (#[trigger] packets[i
        + 1]).sequence_number == (packets[i].sequence_number + 1) % 0x1_0000 by {
        let number = last_number + 1 + i;
        assert(packets[i].sequence_number == number % 0x1_0000);
        assert(packets[i + 1].sequence_number == (number + 1) % 0x1_0000);
        lemma_add_mod_noop(number, 1, 0x1_0000);
        lemma_small_mod(1, 0x1_0000);
    }
}

/// Exactly one packet of a call has the marker bit: the last. It is also
/// the only one that may carry a header extension.
pub proof fn lemma_marker_on_last_only<G: PayloadGenerator + Default>(
    before: Packetizer<G>,
    after: Packetizer<G>,
    data: Seq<u8>,
    samples: u32,
    packets: Seq<PacketView>,
)
    requires
        before.packetizes(&after, data, samples, Some(packets)),
    ensures
        packets.len() > 0,
        forall|i: int|
            0 <= i < packets.len() ==> ((#[trigger] packets[i]).marker <==> i == packets.len() - 1),
        forall|i: int| 0 <= i < packets.len() - 1 ==> !(#[trigger] packets[i]).extension,
        packets.last().extension <==> abs_send_time_id(before.extensions@) is Some,
{
    let (fragments, ntp) = choose|fragments: Option<Seq<Seq<u8>>>, ntp: u64|
        before.packetizes_with(&after, data, samples, Some(packets), fragments, ntp);
}

/// A call that returns packets moves the timestamp on by `samples`, modulo
/// 2^32, however many packets there are; all of them carry the timestamp
/// from before the call.
pub proof fn lemma_timestamp_advances<G: PayloadGenerator + Default>(
    before: Packetizer<G>,
    after: Packetizer<G>,
    data: Seq<u8>,
    samples: u32,
    packets: Seq<PacketView>,
)
    requires
        before.packetizes(&after, data, samples, Some(packets)),
    ensures
        after.timestamp == (before.timestamp + samples) % 0x1_0000_0000,
        forall|i: int|
            0 <= i < packets.len() ==> (#[trigger] packets[i]).timestamp == before.timestamp,
{
    let (fragments, ntp) = choose|fragments: Option<Seq<Seq<u8>>>, ntp: u64|
        before.packetizes_with(&after, data, samples, Some(packets), fragments, ntp);
}

/// Every packet of a call is of version 2, without padding and without
/// contributing sources, and carries the stream's payload type and SSRC. If
/// the payload type fits its seven bits, every packet is well formed and
/// its extension aligned, so that it can be serialized.
pub proof fn lemma_packets_of_the_stream<G: PayloadGenerator + Default>(
    before: Packetizer<G>,
    after: Packetizer<G>,
    data: Seq<u8>,
    samples: u32,
    packets: Seq<PacketView>,
)
    requires
        before.packetizes(&after, data, samples, Some(packets)),
    ensures
        forall|i: int|
            0 <= i < packets.len() ==> {
                let packet = #[trigger] packets[i];
                &&& packet.version == 2
                &&& !packet.padding
                &&& packet.csrc.len() == 0
                &&& packet.payload_type == before.payload_type
                &&& packet.ssrc == before.synchronization_source
                &&& packet.extension_aligned()
                &&& before.payload_type <= 127 ==> packet.well_formed()
            },
{
    let (fragments, ntp) = choose|fragments: Option<Seq<Seq<u8>>>, ntp: u64|
        before.packetizes_with(&after, data, samples, Some(packets), fragments, ntp);
}

/// The payloads of the packets of a G.711 frame, put end to end, are the
/// frame.
pub proof fn lemma_g711_packets_carry_frame(
    before: G711Packetizer,
    after: G711Packetizer,
    data: Seq<u8>,
    samples: u32,
    packets: Seq<PacketView>,
)
    requires
        before.packetizes(&after, data, samples, Some(packets)),
    ensures
        payloads_of(packets).flatten() == data,
{
    lemma_packets_carry_fragments(before, after, data, samples, packets);
    lemma_g711_fragments_carry_payload((before.mtu - 12) as usize, data);
}

/// The payloads of the packets of a G.722 frame, put end to end, are the
/// frame.
pub proof fn lemma_g722_packets_carry_frame(
    before: G722Packetizer,
    after: G722Packetizer,
    data: Seq<u8>,
    samples: u32,
    packets: Seq<PacketView>,
)
    requires
        before.packetizes(&after, data, samples, Some(packets)),
    ensures
        payloads_of(packets).flatten() == data,
{
    lemma_packets_carry_fragments(before, after, data, samples, packets);
    lemma_g722_fragments_carry_payload((before.mtu - 12) as usize, data);
}

/// An Opus frame is sent as one packet, whose payload is the frame.
pub proof fn lemma_opus_packet_carries_frame(
    before: OpusPacketizer,
    after: OpusPacketizer,
    data: Seq<u8>,
    samples: u32,
    packets: Seq<PacketView>,
)
    requires
        before.packetizes(&after, data, samples, Some(packets)),
    ensures
        packets.len() == 1,
        packets[0].payload == data,
        payloads_of(packets).flatten() == data,
{
    lemma_packets_carry_fragments(before, after, data, samples, packets);
    lemma_opus_fragments_carry_payload(data);
}

/// The payloads of the packets of a VP8 frame, each without its
/// descriptor octet and put end to end, are the frame.
pub proof fn lemma_vp8_packets_carry_frame(
    before: VP8Packetizer,
    after: VP8Packetizer,
    data: Seq<u8>,
    samples: u32,
    packets: Seq<PacketView>,
)
    requires
        before.packetizes(&after, data, samples, Some(packets)),
    ensures
        payloads_of(packets).map_values(|payload: Seq<u8>| payload.drop_first()).flatten() == data,
{
    lemma_packets_carry_fragments(before, after, data, samples, packets);
    lemma_vp8_fragments_carry_payload((before.mtu - 12) as usize, data);
}

} // verus!
