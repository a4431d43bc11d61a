//! HTTP header names and values given as `Name: value` text, checked with the
//! `http` crate.

use vstd::prelude::*;
use std::str::FromStr;
use http::header::{HeaderName, HeaderValue};
use crate::error::{ConfigError, WsBlastError};
use crate::numeric::{slice_chars, trim_chars, trimmed};
use crate::text::{chars_of, push_chars, push_str, string_of};

verus! {

/// A `tchar` of RFC 9110: ASCII letters, digits and ``!#$%&'*+-.^_`|~``.
pub open spec fn is_token_char(c: char) -> bool {
    ('a' <= c && c <= 'z') || ('A' <= c && c <= 'Z') || ('0' <= c && c <= '9') || c == '!'
        || c == '#' || c == '$' || c == '%' || c == '&' || c == '\'' || c == '*' || c == '+'
        || c == '-' || c == '.' || c == '^' || c == '_' || c == '`' || c == '|' || c == '~'
}

/// A header name `HeaderName::from_str` accepts: 1 to 65535 token characters.
pub open spec fn valid_header_name(s: Seq<char>) -> bool {
    1 <= s.len() <= 65535 && forall|i: int| 0 <= i < s.len() ==> is_token_char(#[trigger] s[i])
}

/// ASCII upper case letters mapped to lower case.
pub open spec fn ascii_lower(c: char) -> char {
    if 'A' <= c && c <= 'Z' { ((c as u32) + 32) as char } else { c }
}

/// `s` with its ASCII letters in lower case.
pub open spec fn lowercase(s: Seq<char>) -> Seq<char> {
    s.map_values(|c: char| ascii_lower(c))
}

/// A header value `HeaderValue::from_str` accepts: no control character but tab.
pub open spec fn valid_header_value(s: Seq<char>) -> bool {
    forall|i: int| 0 <= i < s.len() ==> (#[trigger] s[i] == '\t' || (' ' <= s[i] && s[i] != '\u{7f}'))
}

/// `HeaderName::from_str(s)`, its result as the name's text: it accepts
/// exactly the valid header names and normalises them to lower case.
#[verifier::external_body]
fn header_name_from_str(s: &str) -> (res: Option<String>)
    ensures
        res is Some <==> valid_header_name(s@),
        res matches Some(n) ==> n@ == lowercase(s@),
{
    HeaderName::from_str(s).ok().map(|n| n.as_str().to_string())
}

/// `HeaderValue::from_str(s)`, whether it accepts `s`: exactly when no byte is
/// a control character other than tab.
#[verifier::external_body]
pub(crate) fn header_value_accepts(s: &str) -> (ok: bool)
    ensures
        ok == valid_header_value(s@),
{
    HeaderValue::from_str(s).is_ok()
}

/// Index of the first `:` in `h`, or `h.len()` when there is none.
pub open spec fn colon_index(h: Seq<char>) -> nat
    decreases h.len(),
{
    if h.len() == 0 {
        0
    } else if h[0] == ':' {
        0
    } else {
        1 + colon_index(h.drop_first())
    }
}

/// The `(name, value)` text around the first `:`, untrimmed.
pub open spec fn header_halves(h: Seq<char>) -> Option<(Seq<char>, Seq<char>)> {
    let k = colon_index(h);
    if k < h.len() {
        Some((h.take(k as int), h.skip((k + 1) as int)))
    } else {
        None
    }
}

/// The header written in `h` as a normalised `(name, value)` pair, or `None`
/// when it is malformed.
pub open spec fn header_pair(h: Seq<char>) -> Option<(Seq<char>, Seq<char>)> {
    match header_halves(h) {
        Some((np, vp)) => {
            if valid_header_name(trimmed(np)) && valid_header_value(trimmed(vp)) {
                Some((lowercase(trimmed(np)), trimmed(vp)))
            } else {
                None
            }
        },
        None => None,
    }
}

/// The message of the error for the malformed header `h`.
pub open spec fn header_error_message(h: Seq<char>) -> Seq<char> {
    match header_halves(h) {
        Some((np, vp)) => {
            if !valid_header_name(trimmed(np)) {
                "Invalid header name '"@ + np + "'"@
            } else {
                "Invalid header value '"@ + vp + "'"@
            }
        },
        None => h,
    }
}

/// The error for the malformed header `h`.
pub open spec fn is_header_error(e: WsBlastError, h: Seq<char>) -> bool {
    e matches WsBlastError::Config(ConfigError::InvalidHeader(m)) && m@ == header_error_message(h)
}

/// Parses a `Header-Name: value` pair; the name is normalised to lower case,
/// both parts are trimmed.
pub fn parse_header_pair(header: &str) -> (res: Result<(String, String), WsBlastError>)
    ensures
        match header_pair(header@) {
            Some((n, v)) => res matches Ok(p) && p.0@ == n && p.1@ == v,
            None => res matches Err(e) && is_header_error(e, header@),
        },
{
    let h = chars_of(header);
    let n = h.len();
    let mut k: usize = 0;
    assert(h@.subrange(0, n as int) =~= h@);
    while k < n && h[k] != ':'
        invariant
            k <= n == h.len(),
            colon_index(h@) == k + colon_index(h@.subrange(k as int, n as int)),
        decreases n - k,
    {
        assert(h@.subrange(k as int, n as int).drop_first() =~= h@.subrange(k + 1, n as int));
        k = k + 1;
    }
    if k == n {
        return Err(WsBlastError::Config(ConfigError::InvalidHeader(string_of(h))));
    }
    let name_part = slice_chars(&h, 0, k);
    let value_part = slice_chars(&h, k + 1, n);
    assert(name_part@ =~= h@.take(k as int));
    assert(value_part@ =~= h@.skip(k + 1));
    let name_text = string_of(trim_chars(&name_part));
    let value_text = string_of(trim_chars(&value_part));
    let name = match header_name_from_str(name_text.as_str()) {
        Some(name) => name,
        None => {
            let mut msg: Vec<char> = Vec::new();
            push_str(&mut msg, "Invalid header name '");
            push_chars(&mut msg, &name_part);
            push_str(&mut msg, "'");
            return Err(WsBlastError::Config(ConfigError::InvalidHeader(string_of(msg))));
        },
    };
    if !header_value_accepts(value_text.as_str()) {
        let mut msg: Vec<char> = Vec::new();
        push_str(&mut msg, "Invalid header value '");
        push_chars(&mut msg, &value_part);
        push_str(&mut msg, "'");
        return Err(WsBlastError::Config(ConfigError::InvalidHeader(string_of(msg))));
    }
    Ok((name, value_text))
}

} // verus!
