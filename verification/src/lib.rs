//! The verified core of a cooperative runtime for guest programs: per-channel
//! inboxes of byte messages, a millisecond clock, timers, receivers, and the
//! decisions of each scheduling round. Polling futures, the host calls and
//! the guest entry points live with the driver that uses this library.

pub mod channel;
pub mod inbox;
pub mod rt;
pub mod wait;

pub use channel::{Channel, Inbound, Outbound, Receiver, Recv};
pub use inbox::Inboxes;
pub use rt::{Round, Runtime, Step};
pub use wait::{wait, Wait};
