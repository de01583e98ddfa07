//! What the two sides of the protocol make of each other's messages.
use vstd::prelude::*;
use crate::client::{is_greeting_text, is_pong_text, stream_command_text, stream_target_text};
use crate::decimal::{decimal, is_digit, lemma_decimal_digits};
use crate::quote::{lemma_quote_roundtrip, quote_text, read_quote, QuoteFields};
use crate::endpoint::{endpoint, parsed_url};
use crate::error::{error_message, ParseStreamError};
use crate::server::{
    error_reply_text, unknown_reply_text,
    batch_lines, batch_quotes, find_quote, immediate_reply, lemma_batch_lines_quotes,
    read_request, stream_ok_reply_text, ticker_field, welcome_text, RequestView,
};
use crate::text::{
    is_space, join, lemma_join_no_space, lemma_split_join, lemma_trim_line,
    lemma_lines_newline_ended, lemma_split_on_concat, lemma_split_on_single, lemma_trim_no_space,
    lemma_trimmed_nonempty_id, lines, newline_ended, plain_line, split_on, strip_cr, lemma_words_concat, lemma_words_single, no_space, trim, words,
};

verus! {

/// The server reads the client's stream command as a request to stream the
/// same tickers to the endpoint that `udp://` and the client's address name:
/// whatever the URL parser makes of that address decides between the
/// endpoint and the error, and the tickers come back as the client listed
/// them. This holds when the address holds no whitespace and the tickers are
/// non-empty, hold no whitespace and no `','`, and there is at least one.
pub proof fn lemma_server_reads_stream_command(local_addr: Seq<char>, tickers: Seq<Seq<char>>)
    requires
        no_space(local_addr),
        tickers.len() > 0,
        forall|i: int|
            0 <= i < tickers.len() ==> (#[trigger] tickers[i]).len() > 0 && no_space(tickers[i])
                && !tickers[i].contains(','),
    ensures
        read_request(stream_command_text(local_addr, tickers)) == match endpoint(
            parsed_url("udp://"@ + local_addr),
        ) {
            Err(e) => RequestView::Rejected(e),
            Ok((host, port)) => RequestView::Stream(host, port, tickers),
        },
{
    reveal_strlit("STREAM udp://");
    reveal_strlit("STREAM");
    reveal_strlit("udp://");
    reveal_strlit("PING");
    let kw = "STREAM"@;
    assert(kw.len() != "PING"@.len());
    let scheme = "udp://"@;
    let addr = scheme + local_addr;
    let joined = join(tickers, seq![',']);
    let body = kw + seq![' '] + addr + seq![' '] + joined;
    let cmd = stream_command_text(local_addr, tickers);
    assert(cmd =~= body.push('\n'));
    // The ticker list is one word and reads back as the tickers.
    assert forall|i: int| 0 <= i < tickers.len() implies no_space(#[trigger] tickers[i]) by {}
    assert(no_space(seq![','])) by {
        assert(!is_space(seq![','][0]));
    }
    lemma_join_no_space(tickers, seq![',']);
    assert(joined.len() > 0) by {
        lemma_join_len(tickers);
    }
    assert(no_space(addr)) by {
        assert forall|i: int| 0 <= i < addr.len() implies !is_space(#[trigger] addr[i]) by {
            if i >= scheme.len() {
                assert(addr[i] == local_addr[i - scheme.len()]);
            }
        }
    }
    assert(no_space(kw));
    // The command trims to its body.
    assert(body[0] == 'S');
    assert(body.last() == joined.last());
    lemma_trim_line(body);
    assert(trim(cmd) == body);
    // The body's words are the keyword, the address and the ticker list.
    lemma_words_concat(kw, addr + seq![' '] + joined, ' ');
    assert(kw + seq![' '] + (addr + seq![' '] + joined) =~= body);
    lemma_words_concat(addr, joined, ' ');
    lemma_words_single(kw);
    lemma_words_single(addr);
    lemma_words_single(joined);
    let w = words(body);
    assert(w =~= seq![kw, addr, joined]);
    assert(addr.take(scheme.len() as int) =~= scheme);
    lemma_split_join(tickers, ',');
    lemma_trimmed_nonempty_id(tickers);
    assert(ticker_field(joined) == tickers);
}

/// Joined non-empty pieces make a non-empty text.
proof fn lemma_join_len(ps: Seq<Seq<char>>)
    requires
        ps.len() > 0,
        forall|i: int| 0 <= i < ps.len() ==> (#[trigger] ps[i]).len() > 0,
    ensures
        join(ps, seq![',']).len() > 0,
        join(ps, seq![',']).last() == ps.last().last(),
{
    if ps.len() > 1 {
        assert(ps.last() == ps[ps.len() - 1]);
    }
}

/// The client reads the server's acceptance of a stream request as the
/// address that the server named, when that address is not empty and does not
/// end in whitespace.
pub proof fn lemma_client_reads_stream_reply(server_addr: Seq<char>)
    requires
        server_addr.len() > 0,
        !is_space(server_addr.last()),
    ensures
        stream_target_text(stream_ok_reply_text(server_addr)) == Some(server_addr),
{
    reveal_strlit("OK: send_PING_to ");
    let prefix = "OK: send_PING_to "@;
    let body = prefix + server_addr;
    assert(stream_ok_reply_text(server_addr) =~= body.push('\n'));
    assert(body[0] == 'O');
    assert(body.last() == server_addr.last());
    lemma_trim_line(body);
    assert(body.take(prefix.len() as int) =~= prefix);
    assert(body.skip(prefix.len() as int) =~= server_addr);
}

/// The server answers the client's ping, `PING` and a newline, with an answer
/// that the client takes for `PONG`.
pub proof fn lemma_server_answers_ping()
    ensures
        read_request("PING"@ + seq!['\n']) == RequestView::Ping,
        immediate_reply(RequestView::Ping) matches Some(answer) && is_pong_text(answer),
{
    reveal_strlit("PING");
    reveal_strlit("PONG");
    let ping = "PING"@;
    assert(no_space(ping));
    assert(ping + seq!['\n'] =~= ping.push('\n'));
    lemma_trim_line(ping);
    lemma_words_single(ping);
    let pong = "PONG"@;
    assert(pong + seq!['\n'] =~= pong.push('\n'));
    lemma_trim_line(pong);
}

/// The server's greeting is two lines: `Welcome!`, which the client knows
/// for the greeting, and a blank line.
pub proof fn lemma_greeting_lines()
    ensures
        lines(welcome_text()) == seq!["Welcome!"@, Seq::<char>::empty()],
        is_greeting_text(lines(welcome_text())[0]),
        trim(lines(welcome_text())[1]).len() == 0,
{
    reveal_strlit("Welcome!");
    let w = "Welcome!"@;
    let e = Seq::<char>::empty();
    assert(welcome_text() =~= w + seq!['\n'] + (e + seq!['\n'] + e));
    lemma_split_on_concat(w, e + seq!['\n'] + e, '\n');
    lemma_split_on_concat(e, e, '\n');
    assert(!w.contains('\n')) by {
        if w.contains('\n') {
            let k = choose|k: int| 0 <= k < w.len() && w[k] == '\n';
        }
    }
    lemma_split_on_single(w, '\n');
    let p = split_on(welcome_text(), '\n');
    assert(p =~= seq![w, e, e]);
    assert(strip_cr(w) == w);
    assert(p.take(2).map_values(|x: Seq<char>| strip_cr(x)) =~= seq![w, e]);
    assert(no_space(w));
    assert(w[0] == 'W' && w.last() == '!');
    lemma_trim_no_space(w);
}

/// Ticker and price texts that hold neither `'|'` nor `'\n'`.
pub open spec fn plain_quote(q: QuoteFields) -> bool {
    &&& !q.ticker.contains('|')
    &&& !q.price.contains('|')
    &&& !q.ticker.contains('\n')
    &&& !q.price.contains('\n')
}

proof fn lemma_quote_text_plain(q: QuoteFields)
    requires
        plain_quote(q),
    ensures
        plain_line(quote_text(q)),
{
    lemma_decimal_digits(q.volume as nat);
    lemma_decimal_digits(q.timestamp as nat);
    let t = quote_text(q);
    let dv = decimal(q.volume as nat);
    let dt = decimal(q.timestamp as nat);
    assert(t.last() == dt.last());
    assert(is_digit(dt[dt.len() - 1]));
    if t.contains('\n') {
        let k = choose|k: int| 0 <= k < t.len() && t[k] == '\n';
        let a = q.ticker.len() as int;
        let b = a + 1 + q.price.len();
        let c = b + 1 + dv.len();
        if k < a {
            assert(q.ticker[k] == '\n');
        } else if a < k < b {
            assert(q.price[k - a - 1] == '\n');
        } else if b < k < c {
            assert(is_digit(dv[k - b - 1]));
        } else if c < k {
            assert(is_digit(dt[k - c - 1]));
        }
    }
}

proof fn lemma_found_quote_plain(quotes: Seq<QuoteFields>, ticker: Seq<char>)
    requires
        forall|i: int| 0 <= i < quotes.len() ==> plain_quote(#[trigger] quotes[i]),
    ensures
        find_quote(quotes, ticker) matches Some(q) ==> plain_quote(q),
    decreases quotes.len(),
{
    if quotes.len() > 0 && quotes[0].ticker != ticker {
        let rest = quotes.drop_first();
        assert forall|i: int| 0 <= i < rest.len() implies plain_quote(#[trigger] rest[i]) by {
            assert(rest[i] == quotes[i + 1]);
        }
        lemma_found_quote_plain(rest, ticker);
    }
}

proof fn lemma_batch_quotes_plain(tickers: Seq<Seq<char>>, quotes: Seq<QuoteFields>)
    requires
        forall|i: int| 0 <= i < quotes.len() ==> plain_quote(#[trigger] quotes[i]),
    ensures
        forall|i: int|
            0 <= i < batch_quotes(tickers, quotes).len() ==> plain_quote(
                #[trigger] batch_quotes(tickers, quotes)[i],
            ),
    decreases tickers.len(),
{
    if tickers.len() > 0 {
        lemma_batch_quotes_plain(tickers.drop_last(), quotes);
        lemma_found_quote_plain(quotes, tickers.last());
        let prev = batch_quotes(tickers.drop_last(), quotes);
        let bq = batch_quotes(tickers, quotes);
        assert forall|i: int| 0 <= i < bq.len() implies plain_quote(#[trigger] bq[i]) by {
            if i < prev.len() {
                assert(bq[i] == prev[i]);
            }
        }
    }
}

/// The client reads a streamed batch back as the batch's quotes: the
/// datagram's lines are the lines of the quotes of the tickers asked for, in
/// order, and each reads back as its quote. This holds when no quote's ticker
/// or price text holds a `'|'` or a `'\n'`.
pub proof fn lemma_client_reads_batch(tickers: Seq<Seq<char>>, quotes: Seq<QuoteFields>)
    requires
        forall|i: int| 0 <= i < quotes.len() ==> plain_quote(#[trigger] quotes[i]),
    ensures
        lines(newline_ended(batch_lines(tickers, quotes))).len() == batch_quotes(
            tickers,
            quotes,
        ).len(),
        forall|i: int|
            0 <= i < batch_quotes(tickers, quotes).len() ==> read_quote(
                #[trigger] lines(newline_ended(batch_lines(tickers, quotes)))[i],
            ) == Some(batch_quotes(tickers, quotes)[i]),
{
    let bq = batch_quotes(tickers, quotes);
    lemma_batch_lines_quotes(tickers, quotes);
    lemma_batch_quotes_plain(tickers, quotes);
    let ls = batch_lines(tickers, quotes);
    assert forall|i: int| 0 <= i < ls.len() implies plain_line(#[trigger] ls[i]) by {
        assert(ls[i] == quote_text(bq[i]));
        lemma_quote_text_plain(bq[i]);
    }
    lemma_lines_newline_ended(ls);
    assert forall|i: int| 0 <= i < bq.len() implies read_quote(
        #[trigger] lines(newline_ended(ls))[i],
    ) == Some(bq[i]) by {
        assert(ls[i] == quote_text(bq[i]));
        assert(plain_quote(bq[i]));
        lemma_quote_roundtrip(bq[i]);
    }
}

/// The client never takes a refusal for an answer: no error reply and not the
/// reply to an unknown command is taken for `PONG` or names an address to
/// ping.
pub proof fn lemma_refusals_not_accepted(e: ParseStreamError)
    ensures
        !is_pong_text(error_reply_text(e)),
        stream_target_text(error_reply_text(e)) is None,
        !is_pong_text(unknown_reply_text()),
        stream_target_text(unknown_reply_text()) is None,
{
    reveal_strlit("ERROR: ");
    reveal_strlit("ERROR: unknown command");
    reveal_strlit("PONG");
    reveal_strlit("OK: send_PING_to ");
    reveal_strlit("missing UDP address. Expected udp://...");
    reveal_strlit(
        "missing ticker list. Expected message -> STREAM udp://127.0.0.1:34254 AAPL,TSLA",
    );
    reveal_strlit("invalid URL format");
    reveal_strlit("invalid socket address");
    reveal_strlit("no valid tickers provided");
    reveal_strlit("no valid port");
    let m = error_message(e);
    let body = "ERROR: "@ + m;
    assert(error_reply_text(e) =~= body.push('\n'));
    assert(m.len() > 0 && !is_space(m.last()));
    assert(body.last() == m.last());
    assert(body[0] == 'E');
    lemma_trim_line(body);
    assert(body[0] != "PONG"@[0]);
    assert(body.len() >= 17 ==> body.take(17)[0] != "OK: send_PING_to "@[0]);
    let u = "ERROR: unknown command"@;
    assert(unknown_reply_text() =~= u.push('\n'));
    assert(u[0] == 'E' && u.last() == 'd');
    lemma_trim_line(u);
    assert(u[0] != "PONG"@[0]);
    assert(u.len() >= 17 ==> u.take(17)[0] != "OK: send_PING_to "@[0]);
}

} // verus!
