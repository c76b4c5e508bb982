//! Handing a link to the system browser.
//!
//! A pull request lives on GitHub, and GitHub in a web view with no address
//! bar, no tabs and no sign-in is not GitHub, so the one thing this app does
//! with a `url` is give it away — through the web view, with a script that
//! asks for a new window and falls back to clicking a `target="_blank"`
//! link. What is decided here is which URLs travel and what the script says.

use vstd::prelude::*;

use crate::text::{ascii_lower, chars_of, holds_at, push_str, to_ascii_lower, trim_chars, trim_ws};

verus! {

/// `s` with its ASCII letters lowered.
pub open spec fn lowered(s: Seq<char>) -> Seq<char> {
    s.map_values(|c: char| ascii_lower(c))
}

/// `https://` and `http://`.
pub open spec fn https_prefix() -> Seq<char> {
    seq!['h', 't', 't', 'p', 's', ':', '/', '/']
}

pub open spec fn http_prefix() -> Seq<char> {
    seq!['h', 't', 't', 'p', ':', '/', '/']
}

/// Whether a URL is one this app will hand to the browser: an `http` or
/// `https` address, in any case.
pub open spec fn web_url(url: Seq<char>) -> bool {
    holds_at(lowered(url), 0, https_prefix()) || holds_at(lowered(url), 0, http_prefix())
}

/// Whether a URL is one this app will hand to the browser.
///
/// These URLs come off the wire, and a `javascript:` URL opened from the
/// web view does not leave the app at all — it runs, in the web view that
/// is holding the session. Only http and https travel.
pub fn is_web_url(url: &str) -> (b: bool)
    ensures
        b == web_url(url@),
{
    let cs = chars_of(url);
    let n = cs.len();
    let mut lower: Vec<char> = Vec::new();
    let mut k: usize = 0;
    while k < n
        invariant
            cs@ == url@,
            n == cs@.len(),
            k <= n,
            lower@ == lowered(url@).take(k as int),
        decreases n - k,
    {
        lower.push(to_ascii_lower(cs[k]));
        assert(lower@ =~= lowered(url@).take(k + 1));
        k += 1;
    }
    assert(lowered(url@).take(n as int) =~= lowered(url@));
    let https = chars_of("https://");
    let http = chars_of("http://");
    proof {
        reveal_strlit("https://");
        reveal_strlit("http://");
        assert(https@ =~= https_prefix());
        assert(http@ =~= http_prefix());
    }
    crate::text::starts_at(&lower, 0, &https) || crate::text::starts_at(&lower, 0, &http)
}

/// The lowercase hexadecimal digit for `d`.
pub open spec fn hex_digit(d: int) -> char {
    if d < 10 {
        (48 + d) as char
    } else {
        (87 + d) as char
    }
}

/// How a character reads inside a JSON string: the quote and the backslash
/// escaped, the five controls with a short escape given it, every other
/// control as `\u00XX`, and anything else as itself.
pub open spec fn json_escape(c: char) -> Seq<char> {
    if c == '"' {
        seq!['\\', '"']
    } else if c == '\\' {
        seq!['\\', '\\']
    } else if c == '\u{8}' {
        seq!['\\', 'b']
    } else if c == '\t' {
        seq!['\\', 't']
    } else if c == '\n' {
        seq!['\\', 'n']
    } else if c == '\u{c}' {
        seq!['\\', 'f']
    } else if c == '\r' {
        seq!['\\', 'r']
    } else if (c as int) < 0x20 {
        seq!['\\', 'u', '0', '0', hex_digit(c as int / 16), hex_digit(c as int % 16)]
    } else {
        seq![c]
    }
}

/// A string's characters escaped for JSON, in order.
pub open spec fn json_body(s: Seq<char>) -> Seq<char>
    decreases s.len(),
{
    if s.len() == 0 {
        Seq::empty()
    } else {
        json_escape(s[0]) + json_body(s.drop_first())
    }
}

/// A string as a JSON string literal.
pub open spec fn json_string(s: Seq<char>) -> Seq<char> {
    seq!['"'] + json_body(s) + seq!['"']
}

/// `s` as a JSON string literal, through `serde_json::to_string`, which
/// quotes it and escapes it character by character as `json_escape` says.
/// A `str` is written with `serialize_str` into a `Vec<u8>`, whose writes
/// do not fail, so the call succeeds.
#[verifier::external_body]
fn json_literal(s: &str) -> (r: Option<String>)
    ensures
        r is Some,
        r matches Some(l) ==> l@ == json_string(s@),
{
    match serde_json::to_string(s) {
        Ok(l) => Some(l),
        Err(_) => None,
    }
}

/// The script that opens a URL, given the URL as a JSON literal: a new
/// window if the web view grants one, else a click on a `target="_blank"`
/// link made for the purpose.
pub open spec fn open_script_spec(literal: Seq<char>) -> Seq<char> {
    "(() => { const u = "@ + literal
        + "; if (window.open(u, '_blank', 'noopener')) return; const a = document.createElement('a'); a.href = u; a.target = '_blank'; a.rel = 'noopener noreferrer'; document.body.appendChild(a); a.click(); a.remove(); })();"@
}

/// The script that opens the URL whose JSON literal is `literal`. The URL
/// is spliced in serialised rather than between quotes: a URL with an
/// apostrophe in it would otherwise close the string, and the rest of it
/// would be script.
pub fn open_script(literal: &str) -> (out: String)
    ensures
        out@ == open_script_spec(literal@),
{
    let mut out = String::new();
    push_str(&mut out, "(() => { const u = ");
    push_str(&mut out, literal);
    push_str(
        &mut out,
        "; if (window.open(u, '_blank', 'noopener')) return; const a = document.createElement('a'); a.href = u; a.target = '_blank'; a.rel = 'noopener noreferrer'; document.body.appendChild(a); a.click(); a.remove(); })();",
    );
    out
}

/// The script that opens `url` outside the app, if it is the sort of thing
/// that can be: its surrounding whitespace trimmed, an http or https
/// address, and serialisable. `None` when it is not.
pub fn open_external_script(url: &str) -> (r: Option<String>)
    ensures
        r is Some <==> web_url(trim_ws(url@)),
        r matches Some(script) ==> script@ == open_script_spec(json_string(trim_ws(url@))),
{
    let cs = chars_of(url);
    let trimmed = crate::text::string_from(&trim_chars(&cs));
    if !is_web_url(trimmed.as_str()) {
        return None;
    }
    match json_literal(trimmed.as_str()) {
        Some(literal) => Some(open_script(literal.as_str())),
        None => None,
    }
}

} // verus!
