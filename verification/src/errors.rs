//! What the codecs report when a buffer or a packet cannot be taken.

use vstd::prelude::*;

verus! {

/// Why an RTP packet was not parsed or not emitted.
#[derive(Clone, Copy, Debug, PartialEq, Eq, Structural)]
pub enum RtpPacketError {
    /// The version field of the buffer is not 2.
    InvalidRtpVersion { version: u8 },
    /// The header extension's payload is not a whole number of 32-bit words.
    InvalidRtpHeaderExtension { length: usize },
    /// The buffer ends before the header, the CSRC list or the header
    /// extension that its fields announce.
    InvalidRtpPacket,
}

/// Why an RTCP packet, header or report block was not parsed or not emitted.
#[derive(Clone, Copy, Debug, PartialEq, Eq, Structural)]
pub enum RtcpPacketError {
    /// The buffer is truncated, misaligned, of another version or packet type
    /// than expected, or carries a reason that is not UTF-8; or the value to
    /// emit has a count, a reason or a loss total that its field cannot hold.
    InvalidRtcpPacket,
}

} // verus!
