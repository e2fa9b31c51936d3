//! Where a peer connects: the scheme, host and port read from a hub URL.

use crate::constants::DEFAULT_PORT;
use crate::error::Error;
use crate::text::{chars_of, eq_lit, extend_chars, extend_lit, string_of};
use vstd::prelude::*;

verus! {

/// What the `url` crate reads from a URL text: its scheme, its host (if
/// any) and its explicit port (if any); or the parser's error message when
/// the text is no URL.
pub uninterp spec fn url_parts(text: Seq<char>) -> Result<
    (Seq<char>, Option<Seq<char>>, Option<u16>),
    Seq<char>,
>;

/// The host the `url` crate finds in a URL text (`None` when the text does
/// not parse or has no host).
pub open spec fn url_host(text: Seq<char>) -> Option<Seq<char>> {
    match url_parts(text) {
        Ok(p) => p.1,
        Err(_) => None,
    }
}

/// `url::Url::parse`, then `scheme`, `host_str` and `port` of the result,
/// or the parse error's text. What the parser makes of a text is named, not
/// stated: the result is `url_parts` of the text.
#[verifier::external_body]
pub(crate) fn parsed_url(text: &str) -> (r: Result<(String, Option<String>, Option<u16>), String>)
    ensures
        url_parts(text@) == parts_view(r),
{
    match url::Url::parse(text) {
        Ok(u) => Ok((u.scheme().to_string(), u.host_str().map(str::to_string), u.port())),
        Err(e) => Err(e.to_string()),
    }
}

/// The message for a URL the parser refused.
pub open spec fn bad_url_message(parser_error: Seq<char>) -> Seq<char> {
    "parse url: "@ + parser_error
}

/// The message for a scheme other than `wss` or `ws`: the scheme in
/// quotes.
pub open spec fn bad_scheme_message(scheme: Seq<char>) -> Seq<char> {
    "unsupported scheme \""@ + scheme + "\" (expected wss://)"@
}

/// The plain values of what [`parsed_url`] hands back.
pub open spec fn parts_view(parts: Result<(String, Option<String>, Option<u16>), String>) -> Result<
    (Seq<char>, Option<Seq<char>>, Option<u16>),
    Seq<char>,
> {
    match parts {
        Ok((s, h, p)) => Ok(
            (
                s@,
                match h {
                    Some(h) => Some(h@),
                    None => None,
                },
                p,
            ),
        ),
        Err(e) => Err(e@),
    }
}

/// The port a `wss` or `ws` URL without one means: the scheme's own, 443
/// ([`DEFAULT_PORT`]) for `wss` and 80 for `ws`.
pub open spec fn scheme_default_port(scheme: Seq<char>) -> u16 {
    if scheme == "ws"@ {
        80
    } else {
        DEFAULT_PORT
    }
}

/// Where a hub URL's parts lead: host and port when the scheme is `wss` or
/// `ws` and a host is given (the port defaults to the scheme's own); else
/// the message of the network error a connection attempt reports.
pub open spec fn endpoint_spec(
    parts: Result<(Seq<char>, Option<Seq<char>>, Option<u16>), Seq<char>>,
) -> Result<(Seq<char>, u16), Seq<char>> {
    match parts {
        Err(e) => Err(bad_url_message(e)),
        Ok((scheme, host, port)) => if scheme != "wss"@ && scheme != "ws"@ {
            Err(bad_scheme_message(scheme))
        } else {
            match host {
                None => Err("url missing host"@),
                Some(h) => Ok(
                    (
                        h,
                        match port {
                            Some(p) => p,
                            None => scheme_default_port(scheme),
                        },
                    ),
                ),
            }
        },
    }
}

/// Whether a connection result agrees with [`endpoint_spec`]: the same
/// host and port, or a network error with the same message.
pub open spec fn endpoint_matches(
    r: Result<(String, u16), Error>,
    expected: Result<(Seq<char>, u16), Seq<char>>,
) -> bool {
    match expected {
        Ok((h, p)) => r matches Ok((rh, rp)) && rh@ == h && rp == p,
        Err(m) => r matches Err(Error::Network(rm)) && rm@ == m,
    }
}

/// The host and port to connect to, from what the URL parser read: the
/// scheme must be `wss` or `ws` and a host must be given; a missing port
/// is the scheme's own (443 for `wss`, 80 for `ws`).
pub fn endpoint_from_parts(parts: Result<(String, Option<String>, Option<u16>), String>) -> (r: Result<
    (String, u16),
    Error,
>)
    ensures
        endpoint_matches(r, endpoint_spec(parts_view(parts))),
{
    match parts {
        Err(e) => {
            let mut m: Vec<char> = Vec::new();
            extend_lit(&mut m, "parse url: ");
            extend_chars(&mut m, &chars_of(e.as_str()));
            proof {
                reveal_strlit("parse url: ");
            }
            Err(Error::Network(string_of(m.as_slice())))
        },
        Ok((scheme, host, port)) => {
            let sc = chars_of(scheme.as_str());
            proof {
                reveal_strlit("wss");
                reveal_strlit("ws");
            }
            let is_ws = eq_lit(&sc, "ws");
            if !eq_lit(&sc, "wss") && !is_ws {
                let mut m: Vec<char> = Vec::new();
                extend_lit(&mut m, "unsupported scheme \"");
                extend_chars(&mut m, &sc);
                extend_lit(&mut m, "\" (expected wss://)");
                return Err(Error::Network(string_of(m.as_slice())));
            }
            match host {
                None => Err(Error::Network(String::from_str("url missing host"))),
                Some(h) => {
                    let p = match port {
                        Some(p) => p,
                        None => if is_ws {
                            80
                        } else {
                            DEFAULT_PORT
                        },
                    };
                    Ok((h, p))
                },
            }
        },
    }
}

/// The host and port a peer connects to for the hub URL `url`, or the
/// network error a connection attempt reports: a URL the
/// parser refuses, a scheme other than `wss`/`ws`, or no host.
pub fn hub_endpoint(url: &str) -> (r: Result<(String, u16), Error>)
    ensures
        endpoint_matches(r, endpoint_spec(url_parts(url@))),
{
    let parts = parsed_url(url);
    endpoint_from_parts(parts)
}

} // verus!
