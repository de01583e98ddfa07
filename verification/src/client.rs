//! The client's side of the protocol: the greeting and the answers it reads,
//! and the stream request it sends.
use vstd::prelude::*;
use crate::text::{
    append_chars, chars_eq, chars_of, join, join_chars, slice_chars, starts_with_chars,
    string_of, string_views, trim, trim_chars, views,
};

verus! {

/// The client's TCP conversation with the server.
pub struct TcpClient {}

impl TcpClient {
    /// A client.
    pub fn new() -> Self {
        TcpClient {  }
    }
}

/// The request that asks the server to stream `tickers` to the UDP address
/// `local_addr`.
pub open spec fn stream_command_text(local_addr: Seq<char>, tickers: Seq<Seq<char>>) -> Seq<char> {
    "STREAM udp://"@ + local_addr + seq![' '] + join(tickers, seq![',']) + seq!['\n']
}

/// The request that asks the server to stream `tickers` to the UDP address
/// `local_addr`.
pub fn stream_command(local_addr: &str, tickers: &Vec<String>) -> (r: String)
    ensures
        r@ == stream_command_text(local_addr@, string_views(tickers@)),
{
    let mut v = chars_of("STREAM udp://");
    let a = chars_of(local_addr);
    append_chars(&mut v, &a);
    v.push(' ');
    let mut ts: Vec<Vec<char>> = Vec::new();
    let mut i: usize = 0;
    while i < tickers.len()
        invariant
            i <= tickers.len(),
            views(ts@) =~= string_views(tickers@).take(i as int),
        decreases tickers.len() - i,
    {
        let t = chars_of(tickers[i].as_str());
        let ghost t0 = ts@;
        ts.push(t);
        assert(views(ts@) =~= views(t0).push(tickers@[i as int]@));
        assert(string_views(tickers@).take(i + 1) =~= string_views(tickers@).take(i as int).push(
            tickers@[i as int]@,
        ));
        i += 1;
    }
    assert(string_views(tickers@).take(tickers.len() as int) =~= string_views(tickers@));
    let mut comma: Vec<char> = Vec::new();
    comma.push(',');
    assert(comma@ =~= seq![',']);
    let joined = join_chars(&ts, &comma);
    append_chars(&mut v, &joined);
    v.push('\n');
    string_of(&v)
}

/// The answer to a ping, trimmed, is `PONG`.
pub open spec fn is_pong_text(response: Seq<char>) -> bool {
    trim(response) == "PONG"@
}

/// Whether an answer is the answer to a ping.
pub fn is_pong(response: &str) -> (r: bool)
    ensures
        r == is_pong_text(response@),
{
    let v = chars_of(response);
    let t = trim_chars(&v);
    let pong = chars_of("PONG");
    chars_eq(&t, &pong)
}

/// The address to send keep-alive pings to, read from the server's answer to
/// a stream request: the trimmed answer must begin with `OK: send_PING_to `,
/// and the address is the rest.
pub open spec fn stream_target_text(response: Seq<char>) -> Option<Seq<char>> {
    let clean = trim(response);
    let prefix = "OK: send_PING_to "@;
    if prefix.len() <= clean.len() && clean.take(prefix.len() as int) == prefix {
        Some(clean.skip(prefix.len() as int))
    } else {
        None
    }
}

/// The address to send keep-alive pings to, if the answer accepts the request.
pub fn stream_target(response: &str) -> (r: Option<String>)
    ensures
        match r {
            Some(a) => stream_target_text(response@) == Some(a@),
            None => stream_target_text(response@) is None,
        },
{
    let v = chars_of(response);
    let clean = trim_chars(&v);
    let prefix = chars_of("OK: send_PING_to ");
    if starts_with_chars(&clean, &prefix) {
        let rest = slice_chars(&clean, prefix.len(), clean.len());
        assert(rest@ =~= clean@.skip(prefix@.len() as int));
        Some(string_of(&rest))
    } else {
        None
    }
}

/// The first line of the server's greeting, trimmed, is `Welcome!`.
pub open spec fn is_greeting_text(line: Seq<char>) -> bool {
    trim(line) == "Welcome!"@
}

/// Whether a line is the first line of the server's greeting.
pub fn is_greeting(line: &str) -> (r: bool)
    ensures
        r == is_greeting_text(line@),
{
    let v = chars_of(line);
    let t = trim_chars(&v);
    let w = chars_of("Welcome!");
    chars_eq(&t, &w)
}

/// The client's UDP side: it receives the quotes and keeps the stream alive.
pub struct UpdClient {}

impl UpdClient {
    /// A UDP side.
    pub fn new() -> Self {
        UpdClient {  }
    }
}

} // verus!
