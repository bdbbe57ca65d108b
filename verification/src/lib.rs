//! Wire codecs for RTP and RTCP packets, and codec-aware packetizers that cut
//! media frames into RTP packets.
//!
//! Every function states what it returns over a mathematical model of its
//! arguments: octet buffers are `Seq<u8>`, packets are plain records of their
//! fields. Each wire format is written down once, as a pair of specification
//! functions, one from buffers to packets and one back; the parsers and
//! serializers are proved to compute them, and the two are proved to undo
//! one another.
//!
//! - [`packet`]: the RTP packet.
//! - [`rtcp`]: the RTCP header, the reception report block, Goodbye and
//!   Sender Report.
//! - [`codecs`]: the fragmenters for G.711, G.722, Opus, H.264, VP8 and VP9.
//! - [`packetizer`]: frames in, RTP packets out.
//! - [`sequencer`]: the sequence numbers of a stream.
//! - [`bytes`]: big-endian integers.

mod ambient;
pub mod bytes;
pub mod codecs;
pub mod errors;
pub mod packet;
pub mod packetizer;
pub mod payload_generator;
pub mod prelude;
pub mod rtcp;
pub mod sequencer;

pub use packet::Packet;
pub use packetizer::{
    ExtensionNumber, G711Packetizer, G722Packetizer, H264Packetizer, OpusPacketizer, Packetizer,
    VP8Packetizer, VP9Packetizer,
};
pub use payload_generator::PayloadGenerator;
pub use sequencer::Sequencer;
