//! The quote server's rules: reading a client's stream request, the replies it
//! sends, the batches of quotes it streams, and the upkeep of its subscribers.
use vstd::prelude::*;
use crate::decimal::{decimal, decimal_chars};
use crate::endpoint::{endpoint, endpoint_view, parse_url, parsed_url, url_endpoint};
use crate::error::{error_message, ParseStreamError};
use crate::quote::{quote_text, QuoteFields, QuoteRecord};
use crate::random::{gen_range_inclusive, thread_rng};
use crate::text::{
    append_chars, chars_eq, chars_of, split_chars, split_on, starts_with_chars, string_of,
    newline_ended, string_views, strings_of, trim, trim_chars, trim_pieces, trimmed_nonempty,
    words, words_of,
};

verus! {

/// The tickers that a request's ticker field names: the field split at each
/// `','`, each piece trimmed, the empty ones left out.
pub open spec fn ticker_field(s: Seq<char>) -> Seq<Seq<char>> {
    trimmed_nonempty(split_on(s, ','))
}

/// What a line from a client asks of the server.
pub enum RequestView {
    /// A blank line: nothing is asked.
    Blank,
    /// A ping: the client checks that the server answers.
    Ping,
    /// A first word other than `PING` or `STREAM`.
    Unknown,
    /// A stream request that cannot be served, and why.
    Rejected(ParseStreamError),
    /// A stream request: the host and port to stream to, and the tickers.
    Stream(Seq<char>, u16, Seq<Seq<char>>),
}

/// How the server reads a line from a client. The line is trimmed; a blank
/// line asks nothing. A line whose first word is `PING` is a ping. Otherwise
/// its first word must be `STREAM`; the second
/// word is the address to stream to, and must be there and begin with
/// `udp://`; the third is the ticker list, and must be there; the address must
/// name a `udp` URL with a host and a port (see `endpoint`). Words after the
/// third are ignored.
pub open spec fn read_request(line: Seq<char>) -> RequestView {
    let input = trim(line);
    if input.len() == 0 {
        RequestView::Blank
    } else {
        let w = words(input);
        if w.len() > 0 && w[0] == "PING"@ {
            RequestView::Ping
        } else if w.len() == 0 || w[0] != "STREAM"@ {
            RequestView::Unknown
        } else if w.len() < 2 {
            RequestView::Rejected(ParseStreamError::MissingAddress)
        } else if w.len() < 3 {
            RequestView::Rejected(ParseStreamError::MissingTickers)
        } else if !("udp://"@.len() <= w[1].len() && w[1].take("udp://"@.len() as int)
            == "udp://"@) {
            RequestView::Rejected(ParseStreamError::MissingAddress)
        } else {
            match endpoint(parsed_url(w[1])) {
                Err(e) => RequestView::Rejected(e),
                Ok((host, port)) => RequestView::Stream(host, port, ticker_field(w[2])),
            }
        }
    }
}

/// How a line's words decide what it asks: a line that trims to nothing is
/// blank, and only such a line; a first word other than `PING` and `STREAM`
/// is unknown; `STREAM` alone lacks the address and `STREAM` with one more
/// word lacks the tickers; a second word that does not begin with `udp://` is
/// a missing address; and a stream request streams to the endpoint its second
/// word names, the tickers of its third word.
pub proof fn lemma_request_by_words(line: Seq<char>)
    ensures
        read_request(line) is Blank <==> trim(line).len() == 0,
        ({
            let w = words(trim(line));
            &&& (trim(line).len() > 0 && w.len() > 0 && w[0] != "PING"@ && w[0] != "STREAM"@)
                ==> read_request(line) is Unknown
            &&& (trim(line).len() > 0 && w.len() == 1 && w[0] == "STREAM"@) ==> read_request(line)
                == RequestView::Rejected(ParseStreamError::MissingAddress)
            &&& (trim(line).len() > 0 && w.len() == 2 && w[0] == "STREAM"@) ==> read_request(line)
                == RequestView::Rejected(ParseStreamError::MissingTickers)
            &&& (trim(line).len() > 0 && w.len() >= 3 && w[0] == "STREAM"@ && !(w[1].len() >= 6
                && w[1].take(6) == "udp://"@)) ==> read_request(line) == RequestView::Rejected(
                ParseStreamError::MissingAddress,
            )
            &&& read_request(line) is Stream ==> {
                &&& w.len() >= 3
                &&& w[0] == "STREAM"@
                &&& endpoint(parsed_url(w[1])) == Ok::<(Seq<char>, u16), ParseStreamError>(
                    (read_request(line)->Stream_0, read_request(line)->Stream_1),
                )
                &&& read_request(line)->Stream_2 == ticker_field(w[2])
            }
        }),
{
    reveal_strlit("udp://");
    reveal_strlit("STREAM");
    reveal_strlit("PING");
    assert("STREAM"@ != "PING"@) by {
        assert("STREAM"@.len() != "PING"@.len());
    }
}

/// A stream request: where to stream, and which tickers.
pub struct StreamRequest {
    /// The host to stream to.
    pub host: String,
    /// The UDP port to stream to.
    pub port: u16,
    /// The tickers asked for.
    pub tickers: Vec<String>,
}

/// What a line from a client asks of the server.
pub enum Request {
    /// A blank line: nothing is asked.
    Blank,
    /// A ping: the client checks that the server answers.
    Ping,
    /// A first word other than `PING` or `STREAM`.
    Unknown,
    /// A stream request that cannot be served, and why.
    Rejected(ParseStreamError),
    /// A stream request.
    Stream(StreamRequest),
}

impl View for Request {
    type V = RequestView;

    open spec fn view(&self) -> RequestView {
        match self {
            Request::Blank => RequestView::Blank,
            Request::Ping => RequestView::Ping,
            Request::Unknown => RequestView::Unknown,
            Request::Rejected(e) => RequestView::Rejected(*e),
            Request::Stream(s) => RequestView::Stream(s.host@, s.port, string_views(s.tickers@)),
        }
    }
}

/// Handles the TCP conversation with one client.
pub struct TcpHandler {}

impl TcpHandler {
    /// A handler.
    pub fn new() -> Self {
        TcpHandler {  }
    }

    /// The host and port that the `udp://` URL `addr_str` names.
    pub fn validate_client_url(&mut self, addr_str: &str) -> (r: Result<(String, u16), ParseStreamError>)
        ensures
            endpoint_view(r) == endpoint(parsed_url(addr_str@)),
    {
        let parsed = parse_url(addr_str);
        url_endpoint(parsed)
    }

    /// Reads what a line from a client asks.
    pub fn read_request(&mut self, line: &str) -> (r: Request)
        ensures
            r@ == read_request(line@),
    {
        let all = chars_of(line);
        let input = trim_chars(&all);
        if input.len() == 0 {
            return Request::Blank;
        }
        let w = words_of(&input);
        let ping = chars_of("PING");
        if w.len() > 0 && chars_eq(&w[0], &ping) {
            return Request::Ping;
        }
        let stream = chars_of("STREAM");
        if w.len() == 0 || !chars_eq(&w[0], &stream) {
            return Request::Unknown;
        }
        if w.len() < 2 {
            return Request::Rejected(ParseStreamError::MissingAddress);
        }
        if w.len() < 3 {
            return Request::Rejected(ParseStreamError::MissingTickers);
        }
        let prefix = chars_of("udp://");
        if !starts_with_chars(&w[1], &prefix) {
            return Request::Rejected(ParseStreamError::MissingAddress);
        }
        let addr = string_of(&w[1]);
        match self.validate_client_url(addr.as_str()) {
            Err(e) => Request::Rejected(e),
            Ok((host, port)) => {
                let tickers = ticker_list_field(&w[2]);
                Request::Stream(StreamRequest { host, port, tickers })
            },
        }
    }
}

/// The tickers that the ticker field `field` names.
pub fn ticker_list_field(field: &Vec<char>) -> (r: Vec<String>)
    ensures
        string_views(r@) == ticker_field(field@),
{
    let pieces = split_chars(field, ',');
    let kept = trim_pieces(&pieces);
    strings_of(&kept)
}

/// The tickers can be streamed: there is at least one, and each is known.
pub open spec fn servable(tickers: Seq<Seq<char>>, known: Seq<Seq<char>>) -> bool {
    tickers.len() > 0 && forall|i: int| 0 <= i < tickers.len() ==> known.contains(#[trigger] tickers[i])
}

/// Whether `t` is among `known`.
fn is_known(t: &String, known: &Vec<String>) -> (r: bool)
    ensures
        r == string_views(known@).contains(t@),
{
    let mut j: usize = 0;
    while j < known.len()
        invariant
            j <= known.len(),
            forall|k: int| 0 <= k < j ==> known@[k]@ != t@,
        decreases known.len() - j,
    {
        if *t == known[j] {
            assert(string_views(known@)[j as int] == t@);
            return true;
        }
        j += 1;
    }
    proof {
        if string_views(known@).contains(t@) {
            let k = choose|k: int| 0 <= k < known@.len() && string_views(known@)[k] == t@;
            assert(known@[k]@ == t@);
        }
    }
    false
}

/// Checks the tickers of a stream request against the tickers the server
/// quotes: `Ok` when there is at least one and each is quoted,
/// `InvalidTickers` otherwise.
pub fn check_tickers(tickers: &Vec<String>, known: &Vec<String>) -> (r: Result<(), ParseStreamError>)
    ensures
        r is Ok <==> servable(string_views(tickers@), string_views(known@)),
        r is Err ==> r == Err::<(), ParseStreamError>(ParseStreamError::InvalidTickers),
        r is Ok ==> tickers@.len() > 0,
        r is Ok ==> forall|i: int|
            0 <= i < tickers@.len() ==> string_views(known@).contains(#[trigger] tickers@[i]@),
{
    let mut i: usize = 0;
    while i < tickers.len()
        invariant
            i <= tickers.len(),
            forall|k: int|
                0 <= k < i ==> string_views(known@).contains(#[trigger] string_views(tickers@)[k]),
        decreases tickers.len() - i,
    {
        if !is_known(&tickers[i], known) {
            assert(!string_views(known@).contains(string_views(tickers@)[i as int]));
            return Err(ParseStreamError::InvalidTickers);
        }
        i += 1;
    }
    if tickers.len() == 0 {
        return Err(ParseStreamError::InvalidTickers);
    }
    assert forall|i: int| 0 <= i < tickers@.len() implies string_views(known@).contains(
        #[trigger] tickers@[i]@,
    ) by {
        assert(string_views(tickers@)[i] == tickers@[i]@);
    }
    Ok(())
}

/// Which ticker lists can be streamed: a list with any ticker the server
/// does not quote, wherever it stands, is refused; so is the empty list; a
/// non-empty list of quoted tickers is served.
pub proof fn lemma_servable_tickers(tickers: Seq<Seq<char>>, known: Seq<Seq<char>>)
    ensures
        forall|i: int|
            0 <= i < tickers.len() && !known.contains(#[trigger] tickers[i]) ==> !servable(
                tickers,
                known,
            ),
        tickers.len() == 0 ==> !servable(tickers, known),
        tickers.len() > 0 && (forall|i: int| 0 <= i < tickers.len() ==> known.contains(tickers[i]))
            ==> servable(tickers, known),
{
}

/// The `host:port` text of an endpoint.
pub open spec fn host_port(host: Seq<char>, port: u16) -> Seq<char> {
    host + seq![':'] + decimal(port as nat)
}

impl StreamRequest {
    /// The endpoint to stream to, as `host:port`.
    pub fn client_addr(&self) -> (r: String)
        ensures
            r@ == host_port(self.host@, self.port),
    {
        let mut v = chars_of(self.host.as_str());
        v.push(':');
        let p = decimal_chars(self.port as u64);
        append_chars(&mut v, &p);
        string_of(&v)
    }
}

/// The reply to a refused stream request.
pub open spec fn error_reply_text(e: ParseStreamError) -> Seq<char> {
    "ERROR: "@ + error_message(e) + seq!['\n']
}

/// The reply to a line whose first word is not `STREAM`.
pub open spec fn unknown_reply_text() -> Seq<char> {
    "ERROR: unknown command"@ + seq!['\n']
}

/// The reply to an accepted stream request: where to send keep-alive pings.
pub open spec fn stream_ok_reply_text(server_addr: Seq<char>) -> Seq<char> {
    "OK: send_PING_to "@ + server_addr + seq!['\n']
}

/// The answer to a ping.
pub open spec fn pong_reply_text() -> Seq<char> {
    "PONG"@ + seq!['\n']
}

/// What the server answers a request at once: the answer to a ping, or the
/// error for a line it cannot serve. A blank line gets no answer, and a valid
/// stream request is answered only once its tickers are checked and its
/// socket is open (`None` for both).
pub open spec fn immediate_reply(r: RequestView) -> Option<Seq<char>> {
    match r {
        RequestView::Blank => None,
        RequestView::Ping => Some(pong_reply_text()),
        RequestView::Unknown => Some(unknown_reply_text()),
        RequestView::Rejected(e) => Some(error_reply_text(e)),
        RequestView::Stream(_, _, _) => None,
    }
}

/// Every line that the server refuses is answered at once with `ERROR: `,
/// the error's text and a newline; a ping is answered with `PONG`; only a
/// blank line and a valid stream request get no immediate answer.
pub proof fn lemma_refused_lines_answered(line: Seq<char>)
    ensures
        read_request(line) matches RequestView::Rejected(e) ==> immediate_reply(read_request(line))
            == Some("ERROR: "@ + error_message(e) + seq!['\n']),
        forall|e: ParseStreamError|
            #[trigger] immediate_reply(RequestView::Rejected(e)) == Some(
                "ERROR: "@ + error_message(e) + seq!['\n'],
            ),
        read_request(line) is Ping ==> immediate_reply(read_request(line)) == Some(
            "PONG"@ + seq!['\n'],
        ),
        immediate_reply(read_request(line)) is None <==> (read_request(line) is Blank
            || read_request(line) is Stream),
{
}

/// The greeting to a new client.
pub open spec fn welcome_text() -> Seq<char> {
    "Welcome!"@ + seq!['\n', '\n']
}

/// The reply to a refused stream request.
pub fn error_reply(e: ParseStreamError) -> (r: String)
    ensures
        r@ == error_reply_text(e),
{
    let mut v = chars_of("ERROR: ");
    let m = e.message();
    let mv = chars_of(m.as_str());
    append_chars(&mut v, &mv);
    v.push('\n');
    string_of(&v)
}

/// The reply to a line whose first word is not `STREAM`.
pub fn unknown_command_reply() -> (r: String)
    ensures
        r@ == unknown_reply_text(),
{
    let mut v = chars_of("ERROR: unknown command");
    v.push('\n');
    string_of(&v)
}

/// The reply to an accepted stream request, naming the server's UDP address.
pub fn stream_ok_reply(server_addr: &str) -> (r: String)
    ensures
        r@ == stream_ok_reply_text(server_addr@),
{
    let mut v = chars_of("OK: send_PING_to ");
    let a = chars_of(server_addr);
    append_chars(&mut v, &a);
    v.push('\n');
    string_of(&v)
}

/// The answer to a ping.
pub fn pong_reply() -> (r: String)
    ensures
        r@ == pong_reply_text(),
{
    let mut v = chars_of("PONG");
    v.push('\n');
    string_of(&v)
}

/// What the server answers a request at once, if anything.
pub fn reply_for(request: &Request) -> (r: Option<String>)
    ensures
        match r {
            Some(text) => immediate_reply(request@) == Some(text@),
            None => immediate_reply(request@) is None,
        },
{
    match request {
        Request::Blank => None,
        Request::Ping => Some(pong_reply()),
        Request::Unknown => Some(unknown_command_reply()),
        Request::Rejected(e) => Some(error_reply(*e)),
        Request::Stream(_) => None,
    }
}

/// The greeting to a new client.
pub fn welcome_reply() -> (r: String)
    ensures
        r@ == welcome_text(),
{
    let mut v = chars_of("Welcome!");
    v.push('\n');
    v.push('\n');
    string_of(&v)
}

/// A datagram from the client is a keep-alive ping: its text, trimmed, is `PING`.
pub open spec fn is_ping_text(msg: Seq<char>) -> bool {
    trim(msg) == "PING"@
}

/// A datagram keeps a stream alive when it comes from the client that the
/// stream goes to and is a ping.
pub open spec fn refreshes_stream_spec(from_client: bool, msg: Seq<char>) -> bool {
    from_client && is_ping_text(msg)
}

/// Whether a datagram keeps a stream alive; `from_client` tells whether it
/// came from the address the stream goes to.
pub fn refreshes_stream(from_client: bool, msg: &str) -> (r: bool)
    ensures
        r == refreshes_stream_spec(from_client, msg@),
{
    from_client && is_ping(msg)
}

/// Whether a datagram's text is a keep-alive ping.
pub fn is_ping(msg: &str) -> (r: bool)
    ensures
        r == is_ping_text(msg@),
{
    let m = chars_of(msg);
    let t = trim_chars(&m);
    let ping = chars_of("PING");
    chars_eq(&t, &ping)
}

/// The quotes, as values.
pub open spec fn quote_views(quotes: Seq<QuoteRecord>) -> Seq<QuoteFields> {
    quotes.map_values(|q: QuoteRecord| q@)
}

/// The first quote of `ticker` among `quotes`.
pub open spec fn find_quote(quotes: Seq<QuoteFields>, ticker: Seq<char>) -> Option<QuoteFields>
    decreases quotes.len(),
{
    if quotes.len() == 0 {
        None
    } else if quotes[0].ticker == ticker {
        Some(quotes[0])
    } else {
        find_quote(quotes.drop_first(), ticker)
    }
}

/// The lines of a batch: for each ticker asked for, in order, the line of its
/// quote, where there is one.
pub open spec fn batch_lines(tickers: Seq<Seq<char>>, quotes: Seq<QuoteFields>) -> Seq<Seq<char>>
    decreases tickers.len(),
{
    if tickers.len() == 0 {
        seq![]
    } else {
        let prev = batch_lines(tickers.drop_last(), quotes);
        match find_quote(quotes, tickers.last()) {
            Some(q) => prev.push(quote_text(q)),
            None => prev,
        }
    }
}

/// The quotes of a batch: for each ticker asked for, in order, its quote,
/// where there is one.
pub open spec fn batch_quotes(tickers: Seq<Seq<char>>, quotes: Seq<QuoteFields>) -> Seq<QuoteFields>
    decreases tickers.len(),
{
    if tickers.len() == 0 {
        seq![]
    } else {
        let prev = batch_quotes(tickers.drop_last(), quotes);
        match find_quote(quotes, tickers.last()) {
            Some(q) => prev.push(q),
            None => prev,
        }
    }
}

/// The lines of a batch are the lines of its quotes.
pub proof fn lemma_batch_lines_quotes(tickers: Seq<Seq<char>>, quotes: Seq<QuoteFields>)
    ensures
        batch_lines(tickers, quotes) == batch_quotes(tickers, quotes).map_values(
            |q: QuoteFields| quote_text(q),
        ),
    decreases tickers.len(),
{
    if tickers.len() > 0 {
        lemma_batch_lines_quotes(tickers.drop_last(), quotes);
        let prev = batch_quotes(tickers.drop_last(), quotes);
        match find_quote(quotes, tickers.last()) {
            Some(q) => {
                assert(prev.push(q).map_values(|q: QuoteFields| quote_text(q)) =~= prev.map_values(
                    |q: QuoteFields| quote_text(q),
                ).push(quote_text(q)));
            },
            None => {},
        }
    } else {
        assert(batch_quotes(tickers, quotes).map_values(|q: QuoteFields| quote_text(q))
            =~= Seq::<Seq<char>>::empty());
    }
}

/// Whether some quote has the ticker, as a predicate on tickers.
pub open spec fn quoted_in(quotes: Seq<QuoteFields>) -> spec_fn(Seq<char>) -> bool {
    |t: Seq<char>| has_ticker(quotes, t)
}

/// A batch holds one line for each requested ticker that has a quote, counted
/// with repetition and in the order requested, and that line is the text of
/// the quote under that ticker (quotes with distinct tickers, as a map holds
/// them).
pub proof fn lemma_batch_one_line_per_quoted_ticker(tickers: Seq<Seq<char>>, quotes: Seq<QuoteFields>)
    requires
        unique_tickers(quotes),
    ensures
        batch_lines(tickers, quotes).len() == tickers.filter(quoted_in(quotes)).len(),
        forall|i: int, j: int|
            0 <= i < batch_lines(tickers, quotes).len() && 0 <= j < quotes.len() && quotes[j].ticker
                == tickers.filter(quoted_in(quotes))[i] ==> #[trigger] batch_lines(tickers, quotes)[i]
                == quote_text(#[trigger] quotes[j]),
    decreases tickers.len(),
{
    reveal(Seq::filter);
    if tickers.len() > 0 {
        let init = tickers.drop_last();
        let last = tickers.last();
        lemma_batch_one_line_per_quoted_ticker(init, quotes);
        lemma_find_quote_as_map(quotes, last);
        let f = init.filter(quoted_in(quotes));
        let bl = batch_lines(init, quotes);
        assert(tickers.filter(quoted_in(quotes)) == if quoted_in(quotes)(last) {
            f.push(last)
        } else {
            f
        });
        if has_ticker(quotes, last) {
            let q = find_quote(quotes, last)->0;
            assert forall|i: int, j: int|
                0 <= i < bl.len() + 1 && 0 <= j < quotes.len() && quotes[j].ticker == f.push(
                    last,
                )[i] implies #[trigger] bl.push(quote_text(q))[i] == quote_text(
                #[trigger] quotes[j],
            ) by {
                if i < bl.len() {
                    assert(f.push(last)[i] == f[i]);
                } else {
                    assert(find_quote(quotes, last) == Some(quotes[j]));
                }
            }
        }
    }
}

/// No two quotes have the same ticker, as in a map from tickers to quotes.
pub open spec fn unique_tickers(quotes: Seq<QuoteFields>) -> bool {
    forall|i: int, j: int| 0 <= i < j < quotes.len() ==> quotes[i].ticker != quotes[j].ticker
}

/// Some quote has the ticker `ticker`.
pub open spec fn has_ticker(quotes: Seq<QuoteFields>, ticker: Seq<char>) -> bool {
    exists|i: int| 0 <= i < quotes.len() && quotes[i].ticker == ticker
}

/// When no two quotes share a ticker, the quotes behave as a map from ticker
/// to quote: the quote found for a ticker is the one quote under that ticker,
/// and none is found for a ticker that no quote has.
pub proof fn lemma_find_quote_as_map(quotes: Seq<QuoteFields>, ticker: Seq<char>)
    requires
        unique_tickers(quotes),
    ensures
        find_quote(quotes, ticker) is None <==> !has_ticker(quotes, ticker),
        forall|i: int|
            0 <= i < quotes.len() && quotes[i].ticker == ticker ==> find_quote(quotes, ticker)
                == Some(#[trigger] quotes[i]),
    decreases quotes.len(),
{
    if quotes.len() > 0 {
        let rest = quotes.drop_first();
        assert(unique_tickers(rest)) by {
            assert forall|i: int, j: int| 0 <= i < j < rest.len() implies rest[i].ticker
                != rest[j].ticker by {
                assert(rest[i] == quotes[i + 1] && rest[j] == quotes[j + 1]);
            }
        }
        lemma_find_quote_as_map(rest, ticker);
        if quotes[0].ticker == ticker {
            assert forall|i: int| 0 <= i < quotes.len() && quotes[i].ticker == ticker implies find_quote(
                quotes,
                ticker,
            ) == Some(#[trigger] quotes[i]) by {
                if i > 0 {
                    assert(quotes[0].ticker != quotes[i].ticker);
                }
            }
            assert(has_ticker(quotes, ticker));
        } else {
            assert forall|i: int| 0 <= i < quotes.len() && quotes[i].ticker == ticker implies find_quote(
                quotes,
                ticker,
            ) == Some(#[trigger] quotes[i]) by {
                assert(i > 0);
                assert(rest[i - 1] == quotes[i]);
            }
            if has_ticker(quotes, ticker) {
                let k = choose|k: int| 0 <= k < quotes.len() && quotes[k].ticker == ticker;
                assert(rest[k - 1] == quotes[k]);
            }
            if has_ticker(rest, ticker) {
                let k = choose|k: int| 0 <= k < rest.len() && rest[k].ticker == ticker;
                assert(quotes[k + 1] == rest[k]);
            }
        }
    }
}

/// The quote of `ticker`, if `quotes` has one.
fn lookup_quote<'a>(quotes: &'a Vec<QuoteRecord>, ticker: &String) -> (r: Option<&'a QuoteRecord>)
    ensures
        match r {
            Some(q) => find_quote(quote_views(quotes@), ticker@) == Some(q@),
            None => find_quote(quote_views(quotes@), ticker@) is None,
        },
{
    let mut i: usize = 0;
    assert(quote_views(quotes@).skip(0) =~= quote_views(quotes@));
    while i < quotes.len()
        invariant
            i <= quotes.len(),
            find_quote(quote_views(quotes@), ticker@) == find_quote(
                quote_views(quotes@).skip(i as int),
                ticker@,
            ),
        decreases quotes.len() - i,
    {
        let ghost rest = quote_views(quotes@).skip(i as int);
        assert(rest[0] == quotes@[i as int]@);
        assert(rest.drop_first() =~= quote_views(quotes@).skip(i + 1));
        if quotes[i].ticker == *ticker {
            return Some(&quotes[i]);
        }
        i += 1;
    }
    assert(quote_views(quotes@).skip(i as int) =~= Seq::<QuoteFields>::empty());
    None
}

/// The datagram that streams the quotes of `tickers`: the line of each
/// ticker's quote, in the order of `tickers`, each ended by `'\n'`; `None`
/// when no ticker has a quote, and nothing is to be sent.
pub fn stream_batch(tickers: &Vec<String>, quotes: &Vec<QuoteRecord>) -> (r: Option<String>)
    ensures
        match r {
            Some(text) => {
                &&& batch_lines(string_views(tickers@), quote_views(quotes@)).len() > 0
                &&& text@ == newline_ended(batch_lines(string_views(tickers@), quote_views(quotes@)))
            },
            None => batch_lines(string_views(tickers@), quote_views(quotes@)).len() == 0,
        },
{
    let ghost qs = quote_views(quotes@);
    let mut out: Vec<char> = Vec::new();
    let mut count: usize = 0;
    let mut i: usize = 0;
    assert(string_views(tickers@).take(0) =~= Seq::<Seq<char>>::empty());
    while i < tickers.len()
        invariant
            i <= tickers.len(),
            qs == quote_views(quotes@),
            count <= i,
            count == batch_lines(string_views(tickers@).take(i as int), qs).len(),
            out@ == newline_ended(batch_lines(string_views(tickers@).take(i as int), qs)),
        decreases tickers.len() - i,
    {
        let ghost tk = string_views(tickers@).take(i + 1);
        assert(tk.drop_last() =~= string_views(tickers@).take(i as int));
        assert(tk.last() == tickers@[i as int]@);
        match lookup_quote(quotes, &tickers[i]) {
            Some(q) => {
                let line = q.to_line();
                let lv = chars_of(line.as_str());
                let ghost before = batch_lines(string_views(tickers@).take(i as int), qs);
                append_chars(&mut out, &lv);
                out.push('\n');
                assert(before.push(quote_text(q@)).drop_last() =~= before);
                count += 1;
            },
            None => {},
        }
        i += 1;
    }
    assert(string_views(tickers@).take(tickers.len() as int) =~= string_views(tickers@));
    if count == 0 {
        None
    } else {
        Some(string_of(&out))
    }
}

/// The positions at or after `lo` of `s` that are not in `dead`, in order.
pub open spec fn kept_from<T>(s: Seq<T>, dead: Set<int>, lo: int) -> Seq<T>
    decreases s.len() - lo,
{
    if lo >= s.len() || lo < 0 {
        seq![]
    } else if dead.contains(lo) {
        kept_from(s, dead, lo + 1)
    } else {
        seq![s[lo]] + kept_from(s, dead, lo + 1)
    }
}

/// The positions of `dead`, as a set.
pub open spec fn position_set(dead: Seq<usize>) -> Set<int> {
    Set::new(|i: int| exists|k: int| 0 <= k < dead.len() && dead[k] == i)
}

/// Strictly increasing positions, each below `n`.
pub open spec fn positions_below(dead: Seq<usize>, n: nat) -> bool {
    &&& forall|a: int, b: int| 0 <= a < b < dead.len() ==> dead[a] < dead[b]
    &&& forall|a: int| 0 <= a < dead.len() ==> dead[a] < n
}

proof fn lemma_kept_from_run<T>(s: Seq<T>, dead: Set<int>, lo: int, hi: int)
    requires
        0 <= lo <= hi <= s.len(),
        forall|k: int| lo <= k < hi ==> !dead.contains(k),
    ensures
        kept_from(s, dead, lo) == s.subrange(lo, hi) + kept_from(s, dead, hi),
    decreases hi - lo,
{
    if lo < hi {
        lemma_kept_from_run(s, dead, lo + 1, hi);
        assert(s.subrange(lo, hi) =~= seq![s[lo]] + s.subrange(lo + 1, hi));
        assert(seq![s[lo]] + (s.subrange(lo + 1, hi) + kept_from(s, dead, hi)) =~= s.subrange(
            lo,
            hi,
        ) + kept_from(s, dead, hi));
    } else {
        assert(s.subrange(lo, hi) =~= Seq::<T>::empty());
        assert(Seq::<T>::empty() + kept_from(s, dead, hi) =~= kept_from(s, dead, hi));
    }
}

/// The elements at or after `lo` of `s` whose entry in `delivered` is true,
/// in order.
pub open spec fn delivered_from<T>(s: Seq<T>, delivered: Seq<bool>, lo: int) -> Seq<T>
    decreases s.len() - lo,
{
    if lo >= s.len() || lo < 0 {
        seq![]
    } else if delivered[lo] {
        seq![s[lo]] + delivered_from(s, delivered, lo + 1)
    } else {
        delivered_from(s, delivered, lo + 1)
    }
}

/// Removing the positions that `QuoteHandler::dead_senders` names leaves
/// exactly the subscribers to which the notice was delivered, in their order.
pub proof fn lemma_pruning_keeps_delivered<T>(s: Seq<T>, delivered: Seq<bool>, dead: Seq<usize>)
    requires
        s.len() == delivered.len(),
        positions_below(dead, delivered.len()),
        forall|i: int| 0 <= i < delivered.len() ==> (position_set(dead).contains(i) <==> !delivered[i]),
    ensures
        kept_from(s, position_set(dead), 0) == delivered_from(s, delivered, 0),
{
    lemma_kept_delivered_from(s, delivered, dead, 0);
}

proof fn lemma_kept_delivered_from<T>(s: Seq<T>, delivered: Seq<bool>, dead: Seq<usize>, lo: int)
    requires
        s.len() == delivered.len(),
        0 <= lo,
        forall|i: int| 0 <= i < delivered.len() ==> (position_set(dead).contains(i) <==> !delivered[i]),
    ensures
        kept_from(s, position_set(dead), lo) == delivered_from(s, delivered, lo),
    decreases s.len() - lo,
{
    if lo < s.len() {
        lemma_kept_delivered_from(s, delivered, dead, lo + 1);
    }
}

/// Upkeep of the quotes and of the clients subscribed to them.
pub struct QuoteHandler {}

impl QuoteHandler {
    /// The positions of the subscribers to which a notice could not be
    /// delivered, in increasing order.
    pub fn dead_senders(delivered: &Vec<bool>) -> (r: Vec<usize>)
        ensures
            positions_below(r@, delivered@.len()),
            forall|i: int|
                0 <= i < delivered@.len() ==> (position_set(r@).contains(i) <==> !delivered@[i]),
    {
        let mut dead: Vec<usize> = Vec::new();
        let mut i: usize = 0;
        while i < delivered.len()
            invariant
                i <= delivered.len(),
                positions_below(dead@, i as nat),
                forall|j: int| 0 <= j < i ==> (position_set(dead@).contains(j) <==> !delivered@[j]),
            decreases delivered.len() - i,
        {
            if !delivered[i] {
                let ghost d0 = dead@;
                dead.push(i);
                assert forall|j: int| 0 <= j <= i implies (position_set(dead@).contains(j)
                    <==> !delivered@[j]) by {
                    if position_set(d0).contains(j) {
                        let k = choose|k: int| 0 <= k < d0.len() && d0[k] == j;
                        assert(dead@[k] == j);
                    }
                    if j < i && position_set(dead@).contains(j) {
                        let k = choose|k: int| 0 <= k < dead@.len() && dead@[k] == j;
                        assert(k < d0.len());
                        assert(d0[k] == j);
                    }
                    if j == i {
                        assert(dead@[d0.len() as int] == i);
                    }
                }
            } else {
                assert(!position_set(dead@).contains(i as int));
            }
            i += 1;
        }
        dead
    }

    /// Removes the subscribers at the positions `dead`, last first, keeping
    /// the others in order.
    pub fn remove_dead<T>(list: &mut Vec<T>, dead: &Vec<usize>)
        requires
            positions_below(dead@, old(list)@.len()),
        ensures
            final(list)@ == kept_from(old(list)@, position_set(dead@), 0),
    {
        let ghost s = list@;
        let ghost ds = position_set(dead@);
        let mut j: usize = dead.len();
        proof {
            lemma_kept_from_run(s, ds, s.len() as int, s.len() as int);
            assert(s.subrange(0, s.len() as int) =~= s);
            if dead@.len() > 0 {
                assert forall|k: int| dead[dead.len() - 1] < k < s.len() implies !ds.contains(k) by {
                    if ds.contains(k) {
                        let m = choose|m: int| 0 <= m < dead@.len() && dead@[m] == k;
                        assert(dead@[m] <= dead@[dead.len() - 1]);
                    }
                }
            }
        }
        while j > 0
            invariant
                j <= dead.len(),
                positions_below(dead@, s.len()),
                ds == position_set(dead@),
                j == dead.len() ==> list@ == s,
                j < dead.len() ==> list@ == s.take(dead@[j as int] as int) + kept_from(
                    s,
                    ds,
                    dead@[j as int] as int,
                ),
            decreases j,
        {
            let p = dead[j - 1];
            let ghost hi: int = if j == dead.len() {
                s.len() as int
            } else {
                dead@[j as int] as int
            };
            proof {
                assert forall|k: int| p < k < hi implies !ds.contains(k) by {
                    if ds.contains(k) {
                        let m = choose|m: int| 0 <= m < dead@.len() && dead@[m] == k;
                        if m < j - 1 {
                            assert(dead@[m] < dead@[j - 1]);
                        } else if m == j - 1 {
                        } else if m == j {
                        } else {
                            assert(dead@[j as int] < dead@[m]);
                        }
                    }
                }
                assert(ds.contains(p as int));
                lemma_kept_from_run(s, ds, p + 1, hi);
                if j == dead.len() {
                    lemma_kept_from_run(s, ds, hi, hi);
                    assert(s.subrange(hi, hi) =~= Seq::<T>::empty());
                    assert(s =~= s.take(hi) + Seq::<T>::empty());
                }
                assert(list@ =~= s.take(hi) + kept_from(s, ds, hi));
                assert(s.take(hi) =~= s.take(p as int) + seq![s[p as int]] + s.subrange(p + 1, hi));
            }
            list.remove(p);
            proof {
                assert(list@ =~= s.take(p as int) + kept_from(s, ds, p as int));
            }
            j -= 1;
        }
        proof {
            if dead.len() > 0 {
                assert forall|k: int| 0 <= k < dead@[0] implies !ds.contains(k) by {
                    if ds.contains(k) {
                        let m = choose|m: int| 0 <= m < dead@.len() && dead@[m] == k;
                        if m > 0 {
                            assert(dead@[0] < dead@[m]);
                        }
                    }
                }
                lemma_kept_from_run(s, ds, 0, dead@[0] as int);
                assert(s.take(dead@[0] as int) =~= s.subrange(0, dead@[0] as int));
            } else {
                assert forall|k: int| 0 <= k < s.len() implies !ds.contains(k) by {
                    if ds.contains(k) {
                        let m = choose|m: int| 0 <= m < dead@.len() && dead@[m] == k;
                    }
                }
                lemma_kept_from_run(s, ds, 0, s.len() as int);
                lemma_kept_from_run(s, ds, s.len() as int, s.len() as int);
                assert(s.subrange(0, s.len() as int) =~= s);
                assert(s.subrange(s.len() as int, s.len() as int) =~= Seq::<T>::empty());
                assert(kept_from(s, ds, s.len() as int) =~= Seq::<T>::empty());
            }
        }
    }

    /// How long to wait, in milliseconds, before the next update of the
    /// quotes: a random time from 100 up to 1000.
    pub fn next_update_delay_ms() -> (r: u64)
        ensures
            100 <= r <= 1000,
    {
        let mut rng = thread_rng();
        gen_range_inclusive(&mut rng, 100, 1000)
    }
}

} // verus!
