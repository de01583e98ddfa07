//! Quote streaming: the text form of stock quotes, the command protocol
//! between the quote server and its clients, and the server's rules for
//! serving and streaming quotes.
use vstd::prelude::*;

pub mod client;
pub mod decimal;
pub mod endpoint;
pub mod error;
pub mod protocol;
pub mod quote;
pub mod random;
pub mod server;
pub mod text;

verus! {

/// The TCP address the quote server listens on.
pub const BASE_SERVER_TCP_URL: &'static str = "127.0.0.1:8080";

/// Seconds without a keep-alive ping after which the server stops streaming
/// to a client.
pub const UDP_STREAM_TIMEOUT: u64 = 5;

} // verus!
