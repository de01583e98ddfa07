//! Why a client's stream request is refused.
use vstd::prelude::*;
use vstd::string::*;

verus! {

/// Errors in a client's stream request.
#[derive(Debug, Clone, Copy, PartialEq, Eq, Structural)]
pub enum ParseStreamError {
    /// The `udp://` address to stream to is missing.
    MissingAddress,
    /// The tickers to stream are missing.
    MissingTickers,
    /// The URL is malformed.
    InvalidUrl,
    /// The address to stream to is not a valid socket address.
    InvalidAddress,
    /// None of the tickers asked for can be streamed.
    InvalidTickers,
    /// The port to stream to is missing or invalid.
    InvalidPort,
}

/// The text that describes each error.
pub open spec fn error_message(e: ParseStreamError) -> Seq<char> {
    match e {
        ParseStreamError::MissingAddress => "missing UDP address. Expected udp://..."@,
        ParseStreamError::MissingTickers =>
            "missing ticker list. Expected message -> STREAM udp://127.0.0.1:34254 AAPL,TSLA"@,
        ParseStreamError::InvalidUrl => "invalid URL format"@,
        ParseStreamError::InvalidAddress => "invalid socket address"@,
        ParseStreamError::InvalidTickers => "no valid tickers provided"@,
        ParseStreamError::InvalidPort => "no valid port"@,
    }
}

impl ParseStreamError {
    /// The text that describes the error (its `Display` form).
    pub fn message(&self) -> (r: String)
        ensures
            r@ == error_message(*self),
    {
        match self {
            ParseStreamError::MissingAddress => String::from_str(
                "missing UDP address. Expected udp://...",
            ),
            ParseStreamError::MissingTickers => String::from_str(
                "missing ticker list. Expected message -> STREAM udp://127.0.0.1:34254 AAPL,TSLA",
            ),
            ParseStreamError::InvalidUrl => String::from_str("invalid URL format"),
            ParseStreamError::InvalidAddress => String::from_str("invalid socket address"),
            ParseStreamError::InvalidTickers => String::from_str("no valid tickers provided"),
            ParseStreamError::InvalidPort => String::from_str("no valid port"),
        }
    }
}

} // verus!
