//! File transfer over a WebRTC data channel: what each side says and does, from
//! the offer of a connection to the last byte of a file.
//!
//! The connections and channels themselves are left to a driver. It is handed
//! actions and comes back with events:
//!
//! - [`negotiation`] agrees on a connection, for either side;
//! - [`sender`] sends the files, and [`assembly`] reads what comes back;
//! - [`receiver`] waits for the channel and serves it, [`intake`] takes in what
//!   is offered, and [`reply`] tells the sender what was selected.
//!
//! Beneath them, [`sdp`] turns session descriptions into short texts, [`chunks`]
//! cuts data into messages, [`streaming`] does so while the data comes in, and
//! [`tokens`] are given out for files. What holds of whole runs stands beside the
//! code, or in the modules that end in `_laws`.

pub mod assembly;
pub mod base64url;
pub mod buffer;
pub mod chunks;
pub mod intake;
pub mod messages;
pub mod negotiation;
pub mod negotiation_laws;
pub mod peer;
pub mod receiver;
pub mod reply;
pub mod reply_laws;
pub mod sdp;
pub mod sender;
pub mod sender_laws;
pub mod streaming;
pub mod string_map;
pub mod text;
pub mod tokens;
