//! A single-connection request/response channel: a framing codec, a request table that
//! collapses equal requests into one exchange, and a dispatch state machine that drives
//! requests across the wire and reconciles the replies.

pub mod protocol;
pub mod table;
pub mod dispatch;

pub use dispatch::{Action, Dispatcher, Phase};
pub use protocol::{FrameError, Header, Message};
pub use table::{Network, RequestId};
