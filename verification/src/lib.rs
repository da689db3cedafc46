//! The Serial Wire Debug (SWD) protocol for probes that shift raw bits.
//!
//! A J-Link probe does not know about debug registers: it clocks a sequence of
//! bits over the SWDIO line and hands back what it sampled. This crate turns
//! register accesses into such sequences, works out which extra transfers a
//! batch of accesses needs, and reads the target's answers back.

pub mod access;
pub mod batch;
pub mod bits;
pub mod error;
pub mod line_reset;
pub mod probe;
pub mod recovery;
pub mod registers;
pub mod response;
pub mod schedule;
pub mod sequence;
pub mod transfer;

pub use access::DAPAccess;
pub use batch::{perform_transfers, plan_transfers, settle_transfers, TransferPlan};
pub use error::{DapError, DebugProbeError};
pub use line_reset::swd_line_reset;
pub use probe::RawSwdIo;
pub use registers::PortType;
pub use response::parse_swd_response;
pub use sequence::IoSequence;
pub use transfer::{
    build_swd_transfer, rdbuff_read, response_length, SwdTransfer, TransferDirection,
    TransferStatus, TransferType,
};
