//! Messages exchanged between the client and the server.
//!
//! Every message is one of the closed sets of shapes below; the transport
//! frames one message per line. The timestamps and durations travel as
//! nanosecond counts, so the session logic can be stated over plain values.

use vstd::prelude::*;

verus! {

/// Maximum number of bytes a single read from the transport may consume,
/// so one line-framed message never grows without bound.
pub const MAX_BYTES_READ: u64 = 4096;

/// Error code reported when the balance cannot cover the requested bet.
pub const ERR_INSUFFICIENT_BALANCE: u64 = 1;

/// Error code reported when a command names a game the server does not hold.
pub const ERR_UNKNOWN_GAME: u64 = 2;

/// Error code reported when the bet level is out of the game's range.
pub const ERR_INVALID_BET: u64 = 3;

/// The client commands that can be sent to the server.
#[derive(Debug, Clone)]
pub enum ClientCommand {
    /// Sent at the start of the game to retrieve the balance and maximum bet
    /// allowed for the game.
    Init {
        /// Game string identifier.
        game: String,
    },
    /// Sent to ask the server for a random spin result. The bet information
    /// is needed to compute the eventual payout.
    Play {
        /// Game string identifier.
        game: String,
        /// Bet size: the zero-based index into the payouts vector stored in
        /// the par table, so the interface displays this value + 1.
        bet: usize,
    },
    /// Sent to retrieve the status of the server.
    Status {
        /// The client's clock at send time, in nanoseconds since its epoch;
        /// the server uses it to estimate the connection latency.
        clock: u64,
    },
}

/// The value of a client command, with strings as character sequences.
pub enum CmdModel {
    /// The value of [`ClientCommand::Init`].
    Init {
        /// Game string identifier.
        game: Seq<char>,
    },
    /// The value of [`ClientCommand::Play`].
    Play {
        /// Game string identifier.
        game: Seq<char>,
        /// Zero-based bet level.
        bet: usize,
    },
    /// The value of [`ClientCommand::Status`].
    Status {
        /// The client's clock at send time, in nanoseconds.
        clock: u64,
    },
}

impl View for ClientCommand {
    type V = CmdModel;

    open spec fn view(&self) -> CmdModel {
        match self {
            ClientCommand::Init { game } => CmdModel::Init { game: game@ },
            ClientCommand::Play { game, bet } => CmdModel::Play { game: game@, bet: *bet },
            ClientCommand::Status { clock } => CmdModel::Status { clock: *clock },
        }
    }
}

/// The states of the client / server connection.
#[derive(Debug, Clone, Copy, PartialEq, Eq, Structural)]
pub enum ServerStatus {
    /// Server is not running.
    Stopped,
    /// Server is running but the client is not connected.
    Disconnected,
    /// Client is connected to the server.
    Connected,
}

/// Information about the client connection from the server point-of-view.
#[derive(Debug, Clone, Copy, PartialEq, Eq, Structural)]
pub struct Status {
    /// Connection status.
    pub server_status: ServerStatus,
    /// Uptime of the client connection, in nanoseconds.
    pub uptime: u64,
    /// Latency of the client connection, in nanoseconds.
    pub latency: u64,
}

impl Default for Status {
    /// The status before any connection: stopped, with zero durations.
    fn default() -> (r: Self)
        ensures
            r.server_status is Stopped,
            r.uptime == 0,
            r.latency == 0,
    {
        Status { server_status: ServerStatus::Stopped, uptime: 0, latency: 0 }
    }
}

/// The server responses that will be sent to the client.
#[derive(Debug, Clone)]
pub enum ServerResponse {
    /// In response to the client starting a new game.
    Init {
        /// Client balance. It is shared across all games that the client
        /// plays, and resets on every connection.
        balance: u64,
        /// Maximum bet that the requested game allows.
        max_bet: u64,
    },
    /// In response to the client requesting a spin.
    Spin {
        /// The amount won on the spin.
        win: u64,
        /// The new balance adjusted for the cost of the bet and win amount.
        balance: u64,
        /// The spin result as a vector of reel stop indices, one per reel.
        result: Vec<usize>,
    },
    /// Sent when an invalid request is received or when a request could not
    /// be fulfilled.
    Error {
        /// Error code identifier.
        code: u64,
        /// Error message.
        message: String,
    },
    /// In response to the client requesting the server status.
    Status(Status),
}

/// The value of a server response, with strings and vectors as sequences.
pub enum RespModel {
    /// The value of [`ServerResponse::Init`].
    Init {
        /// Client balance.
        balance: u64,
        /// Maximum bet of the game.
        max_bet: u64,
    },
    /// The value of [`ServerResponse::Spin`].
    Spin {
        /// The amount won.
        win: u64,
        /// The new balance.
        balance: u64,
        /// The drawn stop indices.
        result: Seq<usize>,
    },
    /// The value of [`ServerResponse::Error`].
    Error {
        /// Error code identifier.
        code: u64,
        /// Error message.
        message: Seq<char>,
    },
    /// The value of [`ServerResponse::Status`].
    Status(Status),
}

impl View for ServerResponse {
    type V = RespModel;

    open spec fn view(&self) -> RespModel {
        match self {
            ServerResponse::Init { balance, max_bet } => RespModel::Init {
                balance: *balance,
                max_bet: *max_bet,
            },
            ServerResponse::Spin { win, balance, result } => RespModel::Spin {
                win: *win,
                balance: *balance,
                result: result@,
            },
            ServerResponse::Error { code, message } => RespModel::Error {
                code: *code,
                message: message@,
            },
            ServerResponse::Status(s) => RespModel::Status(*s),
        }
    }
}

} // verus!
