//! The text form of a stock quote, `ticker|price|volume|timestamp`, and the
//! rule that sets the traded volume of a fresh quote.
use vstd::prelude::*;
use vstd::string::*;
use vstd::utf8::*;
use crate::decimal::{
    decimal, decimal_chars, is_digit, lemma_decimal_digits, lemma_parse_decimal_roundtrip,
    parse_decimal, parse_decimal_chars,
};
use crate::random::{gen_range_inclusive, thread_rng};
use crate::text::{
    append_chars, chars_of, join, lemma_join_split_on, lemma_split_on_concat, lemma_split_on_pieces, lemma_split_on_single, split_chars, split_on,
    chars_eq, string_of,
};

verus! {

/// A stock quote as it travels on the wire. The price is kept as the decimal
/// text that stands in the price field; the other fields are numbers.
pub struct QuoteRecord {
    /// The security's unique name on the market.
    pub ticker: String,
    /// The price of one share, as text.
    pub price: String,
    /// The number of shares traded.
    pub volume: u32,
    /// The time of the trade.
    pub timestamp: u64,
}

/// The fields of a quote, as values.
pub struct QuoteFields {
    pub ticker: Seq<char>,
    pub price: Seq<char>,
    pub volume: u32,
    pub timestamp: u64,
}

impl View for QuoteRecord {
    type V = QuoteFields;

    open spec fn view(&self) -> QuoteFields {
        QuoteFields {
            ticker: self.ticker@,
            price: self.price@,
            volume: self.volume,
            timestamp: self.timestamp,
        }
    }
}

/// The text of a quote: its four fields, separated by `'|'`, the numbers in
/// decimal.
pub open spec fn quote_text(q: QuoteFields) -> Seq<char> {
    q.ticker + seq!['|'] + q.price + seq!['|'] + decimal(q.volume as nat) + seq!['|']
        + decimal(q.timestamp as nat)
}

/// What a quote line reads as: exactly four `'|'`-separated fields, of which
/// the third is a `u32` and the fourth a `u64` in the form `FromStr` accepts;
/// `None` for any other line.
pub open spec fn read_quote(s: Seq<char>) -> Option<QuoteFields> {
    let parts = split_on(s, '|');
    if parts.len() == 4 {
        match (parse_decimal(parts[2], u32::MAX as nat), parse_decimal(parts[3], u64::MAX as nat)) {
            (Some(v), Some(t)) => Some(
                QuoteFields { ticker: parts[0], price: parts[1], volume: v as u32, timestamp: t as u64 },
            ),
            _ => None,
        }
    } else {
        None
    }
}

impl QuoteRecord {
    /// The quote as a line of text (the `Display` form of a quote).
    pub fn to_line(&self) -> (r: String)
        ensures
            r@ == quote_text(self@),
    {
        let mut v = chars_of(self.ticker.as_str());
        v.push('|');
        let price = chars_of(self.price.as_str());
        append_chars(&mut v, &price);
        v.push('|');
        let vol = decimal_chars(self.volume as u64);
        append_chars(&mut v, &vol);
        v.push('|');
        let ts = decimal_chars(self.timestamp);
        append_chars(&mut v, &ts);
        assert(v@ =~= quote_text(self@));
        string_of(&v)
    }

    /// The quote as bytes: the UTF-8 encoding of its line of text.
    pub fn to_bytes(&self) -> (r: Vec<u8>)
        ensures
            r@ == encode_utf8(quote_text(self@)),
    {
        let line = self.to_line();
        line.as_str().as_bytes_vec()
    }

    /// Reads a quote from a line of text.
    pub fn from_line(s: &str) -> (r: Option<QuoteRecord>)
        ensures
            match r {
                Some(q) => read_quote(s@) == Some(q@),
                None => read_quote(s@) is None,
            },
    {
        let v = chars_of(s);
        let parts = split_chars(&v, '|');
        if parts.len() != 4 {
            return None;
        }
        let volume = parse_decimal_chars(&parts[2], u32::MAX as u64);
        let timestamp = parse_decimal_chars(&parts[3], u64::MAX);
        match (volume, timestamp) {
            (Some(vol), Some(ts)) => {
                let q = QuoteRecord {
                    ticker: string_of(&parts[0]),
                    price: string_of(&parts[1]),
                    volume: vol as u32,
                    timestamp: ts,
                };
                Some(q)
            },
            _ => None,
        }
    }
}

/// A quote's line reads back as the same quote, as long as neither its ticker
/// nor its price text holds a `'|'`.
pub proof fn lemma_quote_roundtrip(q: QuoteFields)
    requires
        !q.ticker.contains('|'),
        !q.price.contains('|'),
    ensures
        read_quote(quote_text(q)) == Some(q),
{
    let dv = decimal(q.volume as nat);
    let dt = decimal(q.timestamp as nat);
    lemma_decimal_digits(q.volume as nat);
    lemma_decimal_digits(q.timestamp as nat);
    assert(!dv.contains('|')) by {
        if dv.contains('|') {
            let k = choose|k: int| 0 <= k < dv.len() && dv[k] == '|';
            assert(is_digit(dv[k]));
        }
    }
    assert(!dt.contains('|')) by {
        if dt.contains('|') {
            let k = choose|k: int| 0 <= k < dt.len() && dt[k] == '|';
            assert(is_digit(dt[k]));
        }
    }
    let s = quote_text(q);
    let rest2 = dv + seq!['|'] + dt;
    let rest1 = q.price + seq!['|'] + rest2;
    assert(s =~= q.ticker + seq!['|'] + rest1);
    lemma_split_on_concat(q.ticker, rest1, '|');
    lemma_split_on_concat(q.price, rest2, '|');
    lemma_split_on_concat(dv, dt, '|');
    lemma_split_on_single(q.ticker, '|');
    lemma_split_on_single(q.price, '|');
    lemma_split_on_single(dv, '|');
    lemma_split_on_single(dt, '|');
    let parts = split_on(s, '|');
    assert(parts =~= seq![q.ticker, q.price, dv, dt]);
    lemma_parse_decimal_roundtrip(q.volume as nat, u32::MAX as nat);
    lemma_parse_decimal_roundtrip(q.timestamp as nat, u64::MAX as nat);
}

/// A line reads as a quote only when it is the quote's ticker, `'|'`, its
/// price text, `'|'`, a text that reads as its volume, `'|'` and a text that
/// reads as its timestamp; and writing that quote out gives a line that reads
/// back as the same quote.
pub proof fn lemma_read_quote_shape(s: Seq<char>)
    ensures
        read_quote(s) matches Some(q) ==> exists|v: Seq<char>, t: Seq<char>|
            {
                &&& s == q.ticker + seq!['|'] + q.price + seq!['|'] + v + seq!['|'] + t
                &&& parse_decimal(v, u32::MAX as nat) == Some(q.volume as nat)
                &&& parse_decimal(t, u64::MAX as nat) == Some(q.timestamp as nat)
            },
        read_quote(s) matches Some(q) ==> read_quote(quote_text(q)) == Some(q),
        split_on(s, '|').len() != 4 ==> read_quote(s) is None,
{
    if let Some(q) = read_quote(s) {
        let p = split_on(s, '|');
        lemma_join_split_on(s, '|');
        lemma_split_on_pieces(s, '|');
        assert(!p[0].contains('|') && !p[1].contains('|'));
        let sep = seq!['|'];
        let p3 = p.drop_last();
        let p2 = p3.drop_last();
        let p1 = p2.drop_last();
        assert(p1 =~= seq![p[0]]);
        assert(join(p1, sep) == p[0]);
        assert(join(p2, sep) == join(p1, sep) + sep + p[1]);
        assert(join(p3, sep) == join(p2, sep) + sep + p[2]);
        assert(join(p, sep) == join(p3, sep) + sep + p[3]);
        assert(s =~= p[0] + seq!['|'] + p[1] + seq!['|'] + p[2] + seq!['|'] + p[3]);
        lemma_quote_roundtrip(q);
    }
}

/// The tickers that trade in larger volumes.
pub open spec fn is_popular(ticker: Seq<char>) -> bool {
    ticker == "AAPL"@ || ticker == "MSFT"@ || ticker == "TSLA"@
}

/// The least volume of a fresh quote of `ticker`.
pub open spec fn volume_base(ticker: Seq<char>) -> nat {
    if is_popular(ticker) {
        1000
    } else {
        100
    }
}

/// How many volumes, from the least one up, a fresh quote of `ticker` can have.
pub open spec fn volume_span(ticker: Seq<char>) -> nat {
    if is_popular(ticker) {
        5000
    } else {
        1000
    }
}

/// Exactly `AAPL`, `MSFT` and `TSLA` trade in larger volumes: a fresh quote of
/// one of them has a volume from 1000 up to 5999, of any other ticker from 100
/// up to 1099.
pub proof fn lemma_volume_by_ticker(ticker: Seq<char>)
    ensures
        (ticker == "AAPL"@ || ticker == "MSFT"@ || ticker == "TSLA"@) ==> volume_base(ticker)
            == 1000 && volume_span(ticker) == 5000,
        (ticker != "AAPL"@ && ticker != "MSFT"@ && ticker != "TSLA"@) ==> volume_base(ticker)
            == 100 && volume_span(ticker) == 1000,
{
}

/// Whether `ticker` is one that trades in larger volumes.
pub fn is_popular_ticker(ticker: &str) -> (r: bool)
    ensures
        r == is_popular(ticker@),
{
    let t = chars_of(ticker);
    let a = chars_of("AAPL");
    let m = chars_of("MSFT");
    let s = chars_of("TSLA");
    chars_eq(&t, &a) || chars_eq(&t, &m) || chars_eq(&t, &s)
}

/// The volume of a fresh quote of `ticker` for the draw `draw`, a number below
/// the ticker's span: the ticker's least volume plus the draw.
pub fn volume_for(ticker: &str, draw: u32) -> (r: u32)
    requires
        draw < volume_span(ticker@),
    ensures
        r == volume_base(ticker@) + draw,
{
    if is_popular_ticker(ticker) {
        1000 + draw
    } else {
        100 + draw
    }
}

/// A random volume for a fresh quote of `ticker`: popular tickers trade from
/// 1000 up to 5999 shares, the others from 100 up to 1099.
pub fn draw_volume(ticker: &str) -> (r: u32)
    ensures
        volume_base(ticker@) <= r < volume_base(ticker@) + volume_span(ticker@),
{
    let span: u64 = if is_popular_ticker(ticker) {
        5000
    } else {
        1000
    };
    let mut rng = thread_rng();
    let draw = gen_range_inclusive(&mut rng, 0, span - 1);
    volume_for(ticker, draw as u32)
}

} // verus!
