//! Verified client library for a multiplayer radio relay protocol:
//! binary voice-packet framing, newline-delimited JSON control-message
//! framing, session identity and server settings, the session driver's
//! decision logic, and the mission directive grammar that yields
//! station configurations.
pub mod client;
pub mod extractor;
pub mod driver;
pub mod floatbits;
pub mod message;
pub mod msg_codec;
pub mod voice_codec;
pub mod position;
pub mod sguid;
pub mod util;
