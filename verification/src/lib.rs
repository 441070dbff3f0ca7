//! Verified core of a slot-machine game server.
//!
//! A game is described by a par table: its symbols (encoded as single-bit
//! codes), the reference masks that implement wildcard matching, the paytable
//! of winning patterns with their payouts per bet level, and the reel strips.
//! On top of the table sit a pure spin resolver, the client/server message
//! schema, and the per-connection session state machine that tracks a balance.

pub mod bits;
pub mod par_table;
pub mod protocol;
pub mod session;
pub mod spin;
pub mod text;
pub mod utils;
