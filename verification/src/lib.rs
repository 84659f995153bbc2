//! Client-side synchronisation layer for two-player online chess.
//!
//! Two peers talk through a relay that broadcasts every frame it receives to
//! all connected clients. The modules, leaves first:
//!
//! * [`text`]: byte-level helpers shared by the rest (runs, words, UTF-8);
//! * [`decimal`]: decimal numerals;
//! * [`frame`]: fixed-size, null-padded frames and the text codec over them;
//! * [`message`]: the grammar of the protocol messages;
//! * [`matchmaker`]: the join handshake and the assignment of colours;
//! * [`session`]: the turn counter that orders moves and detects divergence;
//! * [`worker`]: the decisions of the connection's polling loop.
pub mod text;
pub mod decimal;
pub mod frame;
pub mod matchmaker;
pub mod message;
pub mod session;
pub mod worker;
