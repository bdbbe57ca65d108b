//! The names that most users of the library need, for one import.

pub use crate::errors::{RtcpPacketError, RtpPacketError};
pub use crate::packet::{Packet, HEADER_SIZE, PACKET_VERSION};
pub use crate::packetizer::{
    ExtensionNumber, G711Packetizer, G722Packetizer, H264Packetizer, OpusPacketizer, Packetizer,
    VP8Packetizer, VP9Packetizer,
};
pub use crate::payload_generator::PayloadGenerator;
pub use crate::sequencer::Sequencer;
