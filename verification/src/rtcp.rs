//! RTCP: the common header, the reception report block, and the Goodbye and
//! Sender Report packets (RFC 3550, section 6).

pub mod goodbye;
pub mod header;
pub mod packet;
pub mod reception_report;
pub mod sender_report;

pub use goodbye::Goodbye;
pub use header::{Header, PacketType};
pub use packet::Packet;
pub use reception_report::{ReceptionReport, RECEPTION_REPORT_LENGTH};
pub use sender_report::SenderReport;
