//! The UDP endpoint that a client names in a stream request, as a `udp://`
//! URL read with the `url` crate.
use vstd::prelude::*;
use crate::error::ParseStreamError;

verus! {

/// The parts of a parsed URL that the server reads.
pub struct UrlParts {
    /// The scheme, without the `':'`.
    pub scheme: String,
    /// The host, as text, if the URL has one.
    pub host: Option<String>,
    /// The port, if the URL names one.
    pub port: Option<u16>,
}

/// The parts of a parsed URL, as values: scheme, host text, port.
pub type UrlView = (Seq<char>, Option<Seq<char>>, Option<u16>);

/// The parts, as values.
pub open spec fn url_view(p: UrlParts) -> UrlView {
    (
        p.scheme@,
        match p.host {
            Some(h) => Some(h@),
            None => None,
        },
        p.port,
    )
}

/// The parts, as values, of what the parser gave, if anything.
pub open spec fn parsed_view(p: Option<UrlParts>) -> Option<UrlView> {
    match p {
        Some(u) => Some(url_view(u)),
        None => None,
    }
}

/// What `url::Url::parse` makes of `input`, read by its scheme
/// (`Url::scheme`), its host text (`Url::host_str`) and its explicit port
/// (`Url::port`); `None` where the parser refuses the input.
pub uninterp spec fn parsed_url(input: Seq<char>) -> Option<UrlView>;

/// Calls `url::Url::parse` on `input` and reads the scheme, host text and port
/// of the result. The contract names the outcome `parsed_url(input@)` and
/// states nothing more of it: the URL grammar is the `url` crate's.
#[verifier::external_body]
pub(crate) fn parse_url(input: &str) -> (r: Option<UrlParts>)
    ensures
        parsed_view(r) == parsed_url(input@),
{
    match url::Url::parse(input) {
        Ok(u) => Some(
            UrlParts {
                scheme: u.scheme().to_string(),
                host: match u.host_str() {
                    Some(h) => Some(h.to_string()),
                    None => None,
                },
                port: u.port(),
            },
        ),
        Err(_) => None,
    }
}

/// The endpoint that a parsed URL names: its host and port when the scheme is
/// `udp` and both are there; `InvalidAddress` for a URL that did not parse, a
/// scheme other than `udp` or a missing host, `InvalidPort` for a missing port.
pub open spec fn endpoint(parsed: Option<UrlView>) -> Result<(Seq<char>, u16), ParseStreamError> {
    match parsed {
        None => Err(ParseStreamError::InvalidAddress),
        Some((scheme, host, port)) => {
            if scheme != "udp"@ {
                Err(ParseStreamError::InvalidAddress)
            } else {
                match host {
                    None => Err(ParseStreamError::InvalidAddress),
                    Some(h) => match port {
                        None => Err(ParseStreamError::InvalidPort),
                        Some(p) => Ok((h, p)),
                    },
                }
            }
        },
    }
}

/// A `udp` URL with a host and a port names that host and that port, whatever
/// the port; a missing port, and only a missing port, gives `InvalidPort`;
/// a URL that did not parse, another scheme or a missing host gives
/// `InvalidAddress`.
pub proof fn lemma_endpoint_cases(parsed: Option<UrlView>)
    ensures
        forall|h: Seq<char>, p: u16|
            #[trigger] endpoint(Some(("udp"@, Some(h), Some(p)))) == Ok::<
                (Seq<char>, u16),
                ParseStreamError,
            >((h, p)),
        endpoint(parsed) == Err::<(Seq<char>, u16), ParseStreamError>(ParseStreamError::InvalidPort)
            <==> (parsed matches Some((s, Some(_), None)) && s == "udp"@),
        parsed is None ==> endpoint(parsed) == Err::<(Seq<char>, u16), ParseStreamError>(
            ParseStreamError::InvalidAddress,
        ),
        parsed matches Some((s, _, _)) && s != "udp"@ ==> endpoint(parsed) == Err::<
            (Seq<char>, u16),
            ParseStreamError,
        >(ParseStreamError::InvalidAddress),
        parsed matches Some((_, None, _)) ==> endpoint(parsed) == Err::<
            (Seq<char>, u16),
            ParseStreamError,
        >(ParseStreamError::InvalidAddress),
        endpoint(parsed) matches Ok((h, p)) ==> parsed == Some(("udp"@, Some(h), Some(p))),
{
}

/// An endpoint result, as values.
pub open spec fn endpoint_view(r: Result<(String, u16), ParseStreamError>) -> Result<
    (Seq<char>, u16),
    ParseStreamError,
> {
    match r {
        Ok((h, p)) => Ok((h@, p)),
        Err(e) => Err(e),
    }
}

/// The endpoint that the parser's result names.
pub fn url_endpoint(parsed: Option<UrlParts>) -> (r: Result<(String, u16), ParseStreamError>)
    ensures
        endpoint_view(r) == endpoint(parsed_view(parsed)),
{
    match parsed {
        None => Err(ParseStreamError::InvalidAddress),
        Some(u) => {
            let scheme = crate::text::chars_of(u.scheme.as_str());
            let udp = crate::text::chars_of("udp");
            if !crate::text::chars_eq(&scheme, &udp) {
                return Err(ParseStreamError::InvalidAddress);
            }
            match u.host {
                None => Err(ParseStreamError::InvalidAddress),
                Some(h) => match u.port {
                    None => Err(ParseStreamError::InvalidPort),
                    Some(p) => Ok((h, p)),
                },
            }
        },
    }
}

} // verus!
