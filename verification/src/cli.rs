//! Command-line values and the bind address they override.
//!
//! Reading the argument list is the program's job; what the library decides is
//! whether a value is acceptable and which address the server finally binds.

use vstd::prelude::*;
use crate::text::{
    is_digit, lemma_decimal_digits, chars_of, decimal, find_char_from, first_index, is_blank, last_index, lemma_first_index,
    lemma_last_index, parse_unsigned, push_chars, push_decimal, push_str, slice_range,
    string_from_chars, string_from_str, trim_seq, unsigned_text_value, contains_char,
};

verus! {

/// The options the program accepts on its command line.
#[derive(Debug, Clone, PartialEq, Eq)]
pub struct CliOptions {
    /// The configuration file path.
    pub config_path: Option<String>,
    /// Overrides the host of the HTTP bind address.
    pub host: Option<String>,
    /// Overrides the port of the HTTP bind address.
    pub port: Option<u16>,
    /// Turns the operator TUI on or off; `None` keeps the configured value.
    pub tui: Option<bool>,
    /// Opens the web console at start-up or not; `None` keeps the configured value.
    pub web: Option<bool>,
}

/// The port a text denotes: a decimal number from 1 to 65535.
pub open spec fn port_value(t: Seq<char>) -> Option<u16> {
    match unsigned_text_value(t) {
        Some(v) => if 1 <= v <= 65535 {
            Some(v as u16)
        } else {
            None
        },
        None => None,
    }
}

/// Accepts a value that is not blank, unchanged.
pub fn parse_non_empty(value: &str) -> (r: Result<String, String>)
    ensures
        text_result(r) == if trim_seq(value@).len() == 0 {
            Err("value must not be empty"@)
        } else {
            Ok(value@)
        },
{
    if is_blank(value) {
        return Err(string_from_str("value must not be empty"));
    }
    Ok(string_from_str(value))
}

/// What the port option makes of its text: the port, or why it is refused.
pub open spec fn port_arg_spec(t: Seq<char>) -> Result<u16, Seq<char>> {
    match unsigned_text_value(t) {
        Some(v) => if v == 0 {
            Err("port must be greater than zero"@)
        } else if v <= 65535 {
            Ok(v as u16)
        } else {
            Err("port must be an integer from 1 to 65535"@)
        },
        None => Err("port must be an integer from 1 to 65535"@),
    }
}

/// The view of a port result.
pub open spec fn port_result(r: Result<u16, String>) -> Result<u16, Seq<char>> {
    match r {
        Ok(p) => Ok(p),
        Err(e) => Err(e@),
    }
}

/// Accepts a port number from 1 to 65535.
pub fn parse_port(value: &str) -> (r: Result<u16, String>)
    ensures
        port_result(r) == port_arg_spec(value@),
{
    let chars = chars_of(value);
    match parse_unsigned(chars.as_slice(), 65535) {
        None => Err(string_from_str("port must be an integer from 1 to 65535")),
        Some(port) => {
            if port == 0 {
                Err(string_from_str("port must be greater than zero"))
            } else {
                Ok(port as u16)
            }
        },
    }
}

/// The message for a configured address whose port cannot be found.
pub open spec fn no_port_message(configured: Seq<char>) -> Seq<char> {
    "configured server.address '"@ + configured + "' has no port"@
}

/// The message for a configured address with nothing before its port.
pub open spec fn no_host_message(configured: Seq<char>) -> Seq<char> {
    "configured server.address '"@ + configured + "' has no host"@
}

/// The message for a configured address whose port is not from 1 to 65535.
pub open spec fn invalid_port_message(configured: Seq<char>) -> Seq<char> {
    "configured server.address '"@ + configured + "' has an invalid port"@
}

/// A configured `host:port` (or `[v6-host]:port`) split into host and port.
pub open spec fn split_bind_spec(c: Seq<char>) -> Result<(Seq<char>, u16), Seq<char>> {
    if c.len() > 0 && c[0] == '[' && first_index(c, ']', 1) is Some {
        let p = first_index(c, ']', 1)->0;
        let rest = c.subrange(p + 1, c.len() as int);
        if rest.len() > 0 && rest[0] == ':' {
            match port_value(rest.drop_first()) {
                Some(port) => Ok((c.subrange(1, p), port)),
                None => Err(invalid_port_message(c)),
            }
        } else {
            Err(no_port_message(c))
        }
    } else {
        match last_index(c, ':', c.len() as int) {
            None => Err(no_port_message(c)),
            Some(i) => if i == 0 {
                Err(no_host_message(c))
            } else {
                match port_value(c.subrange(i + 1, c.len() as int)) {
                    Some(port) => Ok((c.subrange(0, i), port)),
                    None => Err(invalid_port_message(c)),
                }
            },
        }
    }
}

/// `host:port`, with an IPv6 host put in brackets.
pub open spec fn format_bind_spec(host: Seq<char>, port: u16) -> Result<Seq<char>, Seq<char>> {
    if trim_seq(host).len() == 0 {
        Err("bind host must not be empty"@)
    } else if host.contains(':') && !(host.len() > 0 && host[0] == '[') {
        Ok("["@ + host + "]:"@ + decimal(port as nat))
    } else {
        Ok(host + ":"@ + decimal(port as nat))
    }
}

/// The address the server binds: the configured one, with the host and port
/// replaced where the command line overrides them.
pub open spec fn resolve_bind_spec(
    configured: Seq<char>,
    host_override: Option<Seq<char>>,
    port_override: Option<u16>,
) -> Result<Seq<char>, Seq<char>> {
    if host_override is None && port_override is None {
        Ok(configured)
    } else {
        match split_bind_spec(configured) {
            Err(e) => Err(e),
            Ok((host, port)) => format_bind_spec(
                match host_override {
                    Some(h) => h,
                    None => host,
                },
                match port_override {
                    Some(p) => p,
                    None => port,
                },
            ),
        }
    }
}

/// The view of a string result.
pub open spec fn text_result(r: Result<String, String>) -> Result<Seq<char>, Seq<char>> {
    match r {
        Ok(s) => Ok(s@),
        Err(e) => Err(e@),
    }
}

/// The view of an optional host.
pub open spec fn opt_str_view(o: Option<&str>) -> Option<Seq<char>> {
    match o {
        Some(s) => Some(s@),
        None => None,
    }
}

/// Applies the command-line host and port overrides to the configured bind address.
pub fn resolve_bind_address(
    configured: &str,
    host_override: Option<&str>,
    port_override: Option<u16>,
) -> (r: Result<String, String>)
    ensures
        text_result(r) == resolve_bind_spec(configured@, opt_str_view(host_override), port_override),
{
    if host_override.is_none() && port_override.is_none() {
        return Ok(string_from_str(configured));
    }
    let (configured_host, configured_port) = match split_bind_address(configured) {
        Ok(parts) => parts,
        Err(e) => return Err(e),
    };
    let port = match port_override {
        Some(p) => p,
        None => configured_port,
    };
    match host_override {
        Some(h) => format_bind_address(h, port),
        None => format_bind_address(configured_host.as_str(), port),
    }
}

/// The message `configured server.address '<configured>'<tail>`.
fn bind_message(configured: &str, tail: &str) -> (m: String)
    ensures
        m@ == "configured server.address '"@ + configured@ + tail@,
{
    let mut m = string_from_str("configured server.address '");
    push_str(&mut m, configured);
    push_str(&mut m, tail);
    m
}

/// The port written in `t`, if it is one from 1 to 65535.
fn port_from_chars(t: &[char]) -> (r: Option<u16>)
    ensures
        r == port_value(t@),
{
    match parse_unsigned(t, 65535) {
        Some(v) => if v == 0 {
            None
        } else {
            Some(v as u16)
        },
        None => None,
    }
}

/// Splits a configured bind address into its host and its port.
fn split_bind_address(configured: &str) -> (r: Result<(String, u16), String>)
    ensures
        match (r, split_bind_spec(configured@)) {
            (Ok((h, p)), Ok((sh, sp))) => h@ == sh && p == sp,
            (Err(e), Err(se)) => e@ == se,
            _ => false,
        },
{
    let c = chars_of(configured);
    let n = c.len();
    if n > 0 && c[0] == '[' {
        let found = find_char_from(c.as_slice(), ']', 1);
        if let Some(p) = found {
            proof {
                assert(c@ == configured@);
                assert(first_index(configured@, ']', 1) == Some(p as int));
            }
            let host = string_from_chars(slice_range(c.as_slice(), 1, p).as_slice());
            if p + 1 < n && c[p + 1] == ':' {
                let port_text = slice_range(c.as_slice(), p + 2, n);
                proof {
                    assert(port_text@ =~= c@.subrange(p + 1, n as int).drop_first());
                }
                return match port_from_chars(port_text.as_slice()) {
                    Some(port) => Ok((host, port)),
                    None => Err(bind_message(configured, "' has an invalid port")),
                };
            }
            return Err(bind_message(configured, "' has no port"));
        }
    }
    proof {
        lemma_last_index(c@, ':', n as int);
    }
    let mut i: usize = n;
    while i > 0
        invariant
            i <= n == c@.len(),
            last_index(c@, ':', n as int) == last_index(c@, ':', i as int),
        ensures
            i <= n,
            last_index(c@, ':', n as int) == last_index(c@, ':', i as int),
            i == 0 || c@[i - 1] == ':',
        decreases i,
    {
        if c[i - 1] == ':' {
            break;
        }
        i -= 1;
    }
    if i == 0 {
        return Err(bind_message(configured, "' has no port"));
    }
    let colon = i - 1;
    if colon == 0 {
        return Err(bind_message(configured, "' has no host"));
    }
    let port_text = slice_range(c.as_slice(), colon + 1, n);
    match port_from_chars(port_text.as_slice()) {
        Some(port) => Ok((string_from_chars(slice_range(c.as_slice(), 0, colon).as_slice()), port)),
        None => Err(bind_message(configured, "' has an invalid port")),
    }
}

/// Joins a host and a port, putting an IPv6 host in brackets.
fn format_bind_address(host: &str, port: u16) -> (r: Result<String, String>)
    ensures
        text_result(r) == format_bind_spec(host@, port),
{
    if is_blank(host) {
        return Err(string_from_str("bind host must not be empty"));
    }
    let h = chars_of(host);
    let mut out = String::new();
    if contains_char(h.as_slice(), ':') && !(h.len() > 0 && h[0] == '[') {
        push_str(&mut out, "[");
        push_str(&mut out, host);
        push_str(&mut out, "]:");
    } else {
        push_str(&mut out, host);
        push_str(&mut out, ":");
    }
    push_decimal(&mut out, port as u64);
    proof {
        assert(Seq::<char>::empty() + "["@ + host@ + "]:"@ =~= "["@ + host@ + "]:"@);
        assert(Seq::<char>::empty() + host@ + ":"@ =~= host@ + ":"@);
    }
    Ok(out)
}

/// The message shown when the server cannot bind its address: a hint about
/// the configuration when the port is taken, else the error itself.
pub fn format_bind_error(bind_address: &str, address_in_use: bool, error: &str) -> (m: String)
    ensures
        m@ == if address_in_use {
            "Failed to bind "@ + bind_address@
                + ": the port is already in use. Stop the other process or change `server.address` in the config."@
        } else {
            "Failed to bind "@ + bind_address@ + ": "@ + error@
        },
{
    let mut m = string_from_str("Failed to bind ");
    push_str(&mut m, bind_address);
    if address_in_use {
        push_str(
            &mut m,
            ": the port is already in use. Stop the other process or change `server.address` in the config.",
        );
    } else {
        push_str(&mut m, ": ");
        push_str(&mut m, error);
    }
    m
}

/// `first_index` finds `c` at `i` when nothing from `from` up to `i` is `c`.
proof fn lemma_first_index_at(s: Seq<char>, c: char, from: int, i: int)
    requires
        0 <= from <= i < s.len(),
        s[i] == c,
        forall|k: int| from <= k < i ==> s[k] != c,
    ensures
        first_index(s, c, from) == Some(i),
    decreases i - from,
{
    if from < i {
        lemma_first_index_at(s, c, from + 1, i);
    }
}

/// `last_index` finds `c` at `i` when nothing after `i` and before `n` is `c`.
proof fn lemma_last_index_at(s: Seq<char>, c: char, n: int, i: int)
    requires
        0 <= i < n <= s.len(),
        s[i] == c,
        forall|k: int| i < k < n ==> s[k] != c,
    ensures
        last_index(s, c, n) == Some(i),
    decreases n,
{
    if i < n - 1 {
        lemma_last_index_at(s, c, n - 1, i);
    }
}

/// The decimal text of a port from 1 to 65535 denotes that port.
proof fn lemma_port_text(port: u16)
    requires
        port != 0,
    ensures
        port_value(decimal(port as nat)) == Some(port),
        forall|k: int| 0 <= k < decimal(port as nat).len() ==> is_digit(#[trigger] decimal(port as nat)[k]),
{
    lemma_decimal_digits(port as nat);
}

/// Writing a host and port as a bind address and splitting it again gives
/// them back, for a host that is not blank and holds no bracket and a port
/// from 1 to 65535.
pub proof fn lemma_split_format_round_trip(host: Seq<char>, port: u16)
    requires
        trim_seq(host).len() > 0,
        !host.contains('['),
        !host.contains(']'),
        port != 0,
    ensures
        format_bind_spec(host, port) matches Ok(text) && split_bind_spec(text) == Ok::<
            (Seq<char>, u16),
            Seq<char>,
        >((host, port)),
{
    lemma_port_text(port);
    reveal_strlit("[");
    reveal_strlit("]:");
    reveal_strlit(":");
    let digits = decimal(port as nat);
    assert(host.len() > 0);
    if host.contains(':') {
        let text = "["@ + host + "]:"@ + digits;
        assert(format_bind_spec(host, port) == Ok::<Seq<char>, Seq<char>>(text));
        let close: int = host.len() as int + 1;
        assert(text[0] == '[');
        assert(text[close] == ']');
        assert forall|k: int| 1 <= k < close implies text[k] != ']' by {
            assert(text[k] == host[k - 1]);
            if text[k] == ']' {
                assert(host.contains(']'));
            }
        }
        lemma_first_index_at(text, ']', 1, close);
        let rest = text.subrange(close + 1, text.len() as int);
        assert(rest =~= ":"@ + digits);
        assert(rest.drop_first() =~= digits);
        assert(text.subrange(1, close) =~= host);
    } else {
        let text = host + ":"@ + digits;
        assert(format_bind_spec(host, port) == Ok::<Seq<char>, Seq<char>>(text));
        assert(text[0] == host[0]);
        assert(text[0] != '[');
        let colon = host.len() as int;
        assert(text[colon] == ':');
        assert forall|k: int| colon < k < text.len() implies text[k] != ':' by {
            assert(text[k] == digits[k - colon - 1]);
        }
        lemma_last_index_at(text, ':', text.len() as int, colon);
        assert(text.subrange(colon + 1, text.len() as int) =~= digits);
        assert(text.subrange(0, colon) =~= host);
    }
}

/// Overriding one part of the bind address keeps the other: without
/// overrides the configured address stands; with them, the address the server
/// binds splits back into the override where one is given and the configured
/// part where not. (A host that is blank or holds a bracket, or port 0,
/// cannot be written back and split the same way.)
pub proof fn lemma_override_keeps_other_component(
    configured: Seq<char>,
    host_override: Option<Seq<char>>,
    port_override: Option<u16>,
)
    requires
        split_bind_spec(configured) is Ok,
        ({
            let (host, port) = split_bind_spec(configured)->Ok_0;
            let h = match host_override {
                Some(h) => h,
                None => host,
            };
            let p = match port_override {
                Some(p) => p,
                None => port,
            };
            (host_override is Some || port_override is Some) ==> (trim_seq(h).len() > 0
                && !h.contains('[') && !h.contains(']') && p != 0)
        }),
    ensures
        host_override is None && port_override is None ==> resolve_bind_spec(
            configured,
            host_override,
            port_override,
        ) == Ok::<Seq<char>, Seq<char>>(configured),
        host_override is Some || port_override is Some ==> ({
            let (host, port) = split_bind_spec(configured)->Ok_0;
            resolve_bind_spec(configured, host_override, port_override) matches Ok(bound)
                && split_bind_spec(bound) == Ok::<(Seq<char>, u16), Seq<char>>(
                (
                    match host_override {
                        Some(h) => h,
                        None => host,
                    },
                    match port_override {
                        Some(p) => p,
                        None => port,
                    },
                ),
            )
        }),
{
    if host_override is Some || port_override is Some {
        let (host, port) = split_bind_spec(configured)->Ok_0;
        let h = match host_override {
            Some(h) => h,
            None => host,
        };
        let p = match port_override {
            Some(p) => p,
            None => port,
        };
        lemma_split_format_round_trip(h, p);
    }
}

} // verus!
