//! Verified core of a mail load generator: a corpus of template messages is
//! injected at a controlled pace into a distribution queue, drained by
//! per-account SMTP senders, while IMAP IDLE watchers extract newly arrived
//! message sequence numbers from server notifications.
pub mod account;
pub mod errors;
pub mod mail_reader;
pub mod mail_sender;
pub mod message;
pub mod pace_maker;
pub mod pace_setter;
pub mod utils;
