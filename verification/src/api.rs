//! The envelope of the HTTP API and the request rules its handlers share:
//! status codes, error replies, query pagination and identifier checks.

use vstd::prelude::*;
use crate::config::ConfigError;
use crate::config_store::ConfigStoreError;
use crate::execution_service::ExecutionError;
use crate::text::{chars_of, find_char_from, parse_unsigned, slice_range, string_from_str, unsigned_text_value, first_index, lemma_first_index};

verus! {

/// The code of a successful reply.
pub const OK: i32 = 0;

/// The code of a malformed request.
pub const BAD_REQUEST: i32 = 40001;

/// The code of a request without valid credentials.
pub const UNAUTHORIZED: i32 = 40101;

/// The code of a request the policy refuses.
pub const FORBIDDEN: i32 = 40301;

/// The code of a request for something that does not exist.
pub const NOT_FOUND: i32 = 40401;

/// The code of a request with a method the route does not take.
pub const METHOD_NOT_ALLOWED: i32 = 40501;

/// The code of a request that conflicts with the current state.
pub const CONFLICT: i32 = 40901;

/// The code of a failure on the server's side.
pub const INTERNAL_ERROR: i32 = 50001;

/// The status part of every reply.
#[derive(Debug, Clone)]
pub struct ApiStatus {
    pub code: i32,
    pub message: String,
}

/// A reply: its status and its data.
#[derive(Debug, Clone)]
pub struct ApiResponse<T> {
    pub status: ApiStatus,
    pub data: T,
}

/// The successful reply carrying `data`.
pub fn success<T>(data: T) -> (r: ApiResponse<T>)
    ensures
        r.status.code == OK,
        r.status.message@ == "OK"@,
        r.data == data,
{
    ApiResponse { status: ApiStatus { code: OK, message: string_from_str("OK") }, data }
}

/// An error reply: the HTTP status, the code and the message.
#[derive(Debug, Clone)]
pub struct ApiError {
    http_status: u16,
    code: i32,
    message: String,
}

impl View for ApiError {
    type V = (u16, i32, Seq<char>);

    closed spec fn view(&self) -> (u16, i32, Seq<char>) {
        (self.http_status, self.code, self.message@)
    }
}

impl ApiError {
    /// An error reply with the given status, code and message.
    pub fn new(http_status: u16, code: i32, message: String) -> (e: Self)
        ensures
            e@ == (http_status, code, message@),
    {
        ApiError { http_status, code, message }
    }

    /// The HTTP status.
    pub fn http_status(&self) -> (s: u16)
        ensures
            s == self@.0,
    {
        self.http_status
    }

    /// The code.
    pub fn code(&self) -> (c: i32)
        ensures
            c == self@.1,
    {
        self.code
    }

    /// The message.
    pub fn message(&self) -> (m: &String)
        ensures
            m@ == self@.2,
    {
        &self.message
    }

    /// 400, for a malformed request.
    pub fn bad_request(message: String) -> (e: Self)
        ensures
            e@ == (400u16, BAD_REQUEST, message@),
    {
        Self::new(400, BAD_REQUEST, message)
    }

    /// 401, for a request without valid credentials.
    pub fn unauthorized(message: String) -> (e: Self)
        ensures
            e@ == (401u16, UNAUTHORIZED, message@),
    {
        Self::new(401, UNAUTHORIZED, message)
    }

    /// 403, for a request the policy refuses.
    pub fn forbidden(message: String) -> (e: Self)
        ensures
            e@ == (403u16, FORBIDDEN, message@),
    {
        Self::new(403, FORBIDDEN, message)
    }

    /// 404, for something that does not exist.
    pub fn not_found(message: String) -> (e: Self)
        ensures
            e@ == (404u16, NOT_FOUND, message@),
    {
        Self::new(404, NOT_FOUND, message)
    }

    /// 405, for a method the route does not take.
    pub fn method_not_allowed(message: String) -> (e: Self)
        ensures
            e@ == (405u16, METHOD_NOT_ALLOWED, message@),
    {
        Self::new(405, METHOD_NOT_ALLOWED, message)
    }

    /// 409, for a conflict with the current state.
    pub fn conflict(message: String) -> (e: Self)
        ensures
            e@ == (409u16, CONFLICT, message@),
    {
        Self::new(409, CONFLICT, message)
    }

    /// 500, for a failure on the server's side.
    pub fn internal(message: String) -> (e: Self)
        ensures
            e@ == (500u16, INTERNAL_ERROR, message@),
    {
        Self::new(500, INTERNAL_ERROR, message)
    }

    /// The reply to this error: its status and no data.
    pub fn to_response(&self) -> (r: ApiResponse<()>)
        ensures
            r.status.code == self@.1,
            r.status.message@ == self@.2,
    {
        ApiResponse { status: ApiStatus { code: self.code, message: self.message.clone() }, data: () }
    }
}

/// The error reply to a failed command execution.
pub open spec fn execution_error_reply(error: ExecutionError) -> (u16, i32, Seq<char>) {
    match error {
        ExecutionError::NotFound(_) => (404u16, NOT_FOUND, "execution was not found"@),
        ExecutionError::OutputStore(m) => (500u16, INTERNAL_ERROR, m@),
        ExecutionError::Denied => (403u16, FORBIDDEN, "command execution is denied by policy"@),
        _ => (400u16, BAD_REQUEST, error.message_spec()),
    }
}

/// Maps an execution error to its reply.
pub fn execution_error_to_api(error: ExecutionError) -> (e: ApiError)
    ensures
        e@ == execution_error_reply(error),
{
    match error {
        ExecutionError::NotFound(_) => ApiError::not_found(string_from_str("execution was not found")),
        ExecutionError::OutputStore(message) => ApiError::internal(message),
        ExecutionError::Denied => ApiError::forbidden(string_from_str("command execution is denied by policy")),
        other => ApiError::bad_request(other.message()),
    }
}

/// The error reply to a failed configuration read or write.
pub open spec fn config_error_reply(error: ConfigStoreError) -> (u16, i32, Seq<char>) {
    match error {
        ConfigStoreError::Config(ConfigError::Parse { .. }) => (400u16, BAD_REQUEST, error.message_spec()),
        ConfigStoreError::Config(ConfigError::Validation(_)) => (400u16, BAD_REQUEST, error.message_spec()),
        _ => (500u16, INTERNAL_ERROR, error.message_spec()),
    }
}

/// Maps a configuration store error to its reply: a text that is not a
/// valid configuration is the client's fault, the rest the server's.
pub fn config_error_to_api(error: ConfigStoreError) -> (e: ApiError)
    ensures
        e@ == config_error_reply(error),
{
    let message = error.message();
    match error {
        ConfigStoreError::Config(ConfigError::Parse { .. }) => ApiError::bad_request(message),
        ConfigStoreError::Config(ConfigError::Validation(_)) => ApiError::bad_request(message),
        _ => ApiError::internal(message),
    }
}


/// The largest page a request may ask for.
pub const MAX_PAGE_LIMIT: usize = 1000;

/// The page size when a request names none.
pub const DEFAULT_PAGE_LIMIT: usize = 100;

/// The number a pagination value names, if it is one that fits in `usize`.
pub open spec fn usize_value(s: Seq<char>) -> Option<usize> {
    match unsigned_text_value(s) {
        Some(v) => if v <= usize::MAX {
            Some(v as usize)
        } else {
            None
        },
        None => None,
    }
}

/// Applies one `key=value` pair of a query to the offset and limit read so
/// far; the error is the message of the reply.
pub open spec fn apply_query_pair(pair: Seq<char>, offset: usize, limit: usize) -> Result<(usize, usize), Seq<char>> {
    if pair.len() == 0 {
        Ok((offset, limit))
    } else {
        match first_index(pair, '=', 0) {
            None => Err("query parameters must use key=value format"@),
            Some(i) => {
                let key = pair.take(i);
                let value = pair.skip(i + 1);
                if key == "offset"@ {
                    match usize_value(value) {
                        Some(v) => Ok((v, limit)),
                        None => Err("offset must be a non-negative integer"@),
                    }
                } else if key == "limit"@ {
                    match usize_value(value) {
                        Some(v) => if v > MAX_PAGE_LIMIT {
                            Err("limit must not exceed 1000"@)
                        } else {
                            Ok((offset, v))
                        },
                        None => Err("limit must be a non-negative integer"@),
                    }
                } else {
                    Ok((offset, limit))
                }
            },
        }
    }
}

/// The end of the `&`-separated piece of `s` that starts at `pos`.
pub open spec fn piece_end(s: Seq<char>, pos: int) -> int {
    match first_index(s, '&', pos) {
        Some(e) => e,
        None => s.len() as int,
    }
}

/// Reads the `&`-separated pieces of `s` from `pos` on, in order, starting
/// from the given offset and limit; the first bad piece decides the error.
pub open spec fn query_pieces(s: Seq<char>, pos: int, offset: usize, limit: usize) -> Result<(usize, usize), Seq<char>>
    decreases s.len() - pos,
{
    if pos < 0 || pos > s.len() {
        Ok((offset, limit))
    } else {
        let end = piece_end(s, pos);
        match apply_query_pair(s.subrange(pos, end), offset, limit) {
            Err(m) => Err(m),
            Ok((o, l)) => if end < s.len() {
                proof {
                    lemma_first_index(s, '&', pos);
                }
                query_pieces(s, end + 1, o, l)
            } else {
                Ok((o, l))
            },
        }
    }
}

/// The offset and limit a query asks for: offset 0 and limit 100 unless a
/// piece names another; pieces with other keys, and empty ones, are ignored.
pub open spec fn pagination_spec(query: Seq<char>) -> Result<(usize, usize), Seq<char>> {
    query_pieces(query, 0, 0, DEFAULT_PAGE_LIMIT)
}

/// Applies one piece, `s[a..b]`, of a query.
fn apply_piece(s: &[char], a: usize, b: usize, offset: usize, limit: usize) -> (r: Result<(usize, usize), String>)
    requires
        a <= b <= s@.len(),
    ensures
        match r {
            Ok(p) => apply_query_pair(s@.subrange(a as int, b as int), offset, limit) == Ok::<(usize, usize), Seq<char>>(p),
            Err(m) => apply_query_pair(s@.subrange(a as int, b as int), offset, limit) == Err::<(usize, usize), Seq<char>>(m@),
        },
{
    let pair = slice_range(s, a, b);
    let ghost p = pair@;
    if pair.len() == 0 {
        return Ok((offset, limit));
    }
    match find_char_from(pair.as_slice(), '=', 0) {
        None => Err(string_from_str("query parameters must use key=value format")),
        Some(i) => {
            let key = slice_range(pair.as_slice(), 0, i);
            let value = slice_range(pair.as_slice(), i + 1, pair.len());
            assert(key@ =~= p.take(i as int));
            assert(value@ =~= p.skip(i + 1));
            let offset_key = chars_of("offset");
            let limit_key = chars_of("limit");
            let max: u64 = usize::MAX as u64;
            if crate::text::chars_equal(key.as_slice(), offset_key.as_slice()) {
                match parse_unsigned(value.as_slice(), max) {
                    Some(v) => Ok((v as usize, limit)),
                    None => Err(string_from_str("offset must be a non-negative integer")),
                }
            } else if crate::text::chars_equal(key.as_slice(), limit_key.as_slice()) {
                match parse_unsigned(value.as_slice(), max) {
                    Some(v) => {
                        if v > MAX_PAGE_LIMIT as u64 {
                            Err(string_from_str("limit must not exceed 1000"))
                        } else {
                            Ok((offset, v as usize))
                        }
                    },
                    None => Err(string_from_str("limit must be a non-negative integer")),
                }
            } else {
                Ok((offset, limit))
            }
        },
    }
}

/// Reads the offset and limit of a history or log page from the raw query
/// string of the request; without a query, offset 0 and limit 100.
pub fn parse_pagination(raw_query: Option<&str>) -> (r: Result<(usize, usize), ApiError>)
    ensures
        match pagination_spec(
            match raw_query {
                Some(q) => q@,
                None => Seq::<char>::empty(),
            },
        ) {
            Ok(p) => r == Ok::<(usize, usize), ApiError>(p),
            Err(m) => r matches Err(e) && e@ == (400u16, BAD_REQUEST, m),
        },
{
    let s: Vec<char> = match raw_query {
        Some(q) => chars_of(q),
        None => Vec::new(),
    };
    let ghost q = s@;
    let mut offset: usize = 0;
    let mut limit: usize = DEFAULT_PAGE_LIMIT;
    let mut pos: usize = 0;
    loop
        invariant
            pos <= s@.len(),
            q == s@,
            q == match raw_query {
                Some(qq) => qq@,
                None => Seq::<char>::empty(),
            },
            query_pieces(q, pos as int, offset, limit) == pagination_spec(q),
        decreases s@.len() - pos,
    {
        proof {
            lemma_first_index(q, '&', pos as int);
        }
        let end: usize = match find_char_from(s.as_slice(), '&', pos) {
            Some(e) => e,
            None => s.len(),
        };
        assert(end == piece_end(q, pos as int));
        match apply_piece(s.as_slice(), pos, end, offset, limit) {
            Err(m) => {
                return Err(ApiError::bad_request(m));
            },
            Ok((o, l)) => {
                if end < s.len() {
                    offset = o;
                    limit = l;
                    pos = end + 1;
                } else {
                    return Ok((o, l));
                }
            },
        }
    }
}

/// Whether `c` is a hexadecimal digit in either case.
pub open spec fn is_hex_char(c: char) -> bool {
    ('0' <= c && c <= '9') || ('a' <= c && c <= 'f') || ('A' <= c && c <= 'F')
}

/// Whether `t` is 32 hexadecimal digits.
pub open spec fn is_simple_uuid_form(t: Seq<char>) -> bool {
    t.len() == 32 && forall|i: int| 0 <= i < 32 ==> is_hex_char(#[trigger] t[i])
}

/// Whether `t` is 36 characters: hyphens at 8, 13, 18 and 23 and
/// hexadecimal digits in either case elsewhere.
pub open spec fn is_hyphenated_uuid_form(t: Seq<char>) -> bool {
    &&& t.len() == 36
    &&& forall|i: int|
        0 <= i < 36 ==> if i == 8 || i == 13 || i == 18 || i == 23 {
            t[i] == '-'
        } else {
            is_hex_char(#[trigger] t[i])
        }
}

/// 32 digits in groups of 8, 4, 4, 4 and 12 joined by hyphens.
pub open spec fn insert_uuid_hyphens(d: Seq<char>) -> Seq<char> {
    d.subrange(0, 8) + "-"@ + d.subrange(8, 12) + "-"@ + d.subrange(12, 16) + "-"@ + d.subrange(16, 20)
        + "-"@ + d.subrange(20, 32)
}

/// The canonical text of the UUID that `text` spells, if it spells one in a
/// form that `uuid::Uuid::parse_str` reads: 32 hexadecimal digits; the
/// hyphenated form; the hyphenated form in braces; or `urn:uuid:` (in any
/// case) and the hyphenated form. Digits may be in either case; the
/// canonical text is the hyphenated form in lower case.
pub open spec fn uuid_canonical(text: Seq<char>) -> Option<Seq<char>> {
    if is_simple_uuid_form(text) {
        Some(crate::text::ascii_lower_seq(insert_uuid_hyphens(text)))
    } else if is_hyphenated_uuid_form(text) {
        Some(crate::text::ascii_lower_seq(text))
    } else if text.len() == 38 && text[0] == '{' && text[37] == '}' && is_hyphenated_uuid_form(
        text.subrange(1, 37),
    ) {
        Some(crate::text::ascii_lower_seq(text.subrange(1, 37)))
    } else if text.len() == 45 && crate::text::ascii_lower_seq(text.subrange(0, 9)) == "urn:uuid:"@
        && is_hyphenated_uuid_form(text.subrange(9, 45)) {
        Some(crate::text::ascii_lower_seq(text.subrange(9, 45)))
    } else {
        None
    }
}

/// Whether `t` has the shape of a UUID in lower-case hyphenated form.
pub open spec fn is_hyphenated_uuid(t: Seq<char>) -> bool {
    &&& t.len() == 36
    &&& forall|i: int|
        0 <= i < 36 ==> if i == 8 || i == 13 || i == 18 || i == 23 {
            t[i] == '-'
        } else {
            crate::session::is_lower_hex(#[trigger] t[i])
        }
}

/// Reads a UUID with `uuid::Uuid::parse_str` and writes it back with
/// `hyphenated().to_string()`: the uuid crate reads the forms
/// `uuid_canonical` lists (by the length of the text, then its characters)
/// and writes 36 characters, lower-case hexadecimal digits in groups of 8,
/// 4, 4, 4 and 12 joined by hyphens.
#[verifier::external_body]
fn canonical_uuid(text: &str) -> (r: Option<String>)
    ensures
        match r {
            Some(t) => uuid_canonical(text@) == Some(t@),
            None => uuid_canonical(text@) is None,
        },
        r matches Some(t) ==> is_hyphenated_uuid(t@),
{
    match uuid::Uuid::parse_str(text) {
        Ok(id) => Some(id.hyphenated().to_string()),
        Err(_) => None,
    }
}

/// Reads the execution id of a request path, in canonical form.
pub fn parse_execution_id(value: &str) -> (r: Result<String, ApiError>)
    ensures
        match uuid_canonical(value@) {
            Some(t) => r matches Ok(id) && id@ == t,
            None => r matches Err(e) && e@ == (400u16, BAD_REQUEST, "execution_id must be a valid UUID"@),
        },
        r matches Ok(id) ==> is_hyphenated_uuid(id@),
{
    match canonical_uuid(value) {
        Some(id) => Ok(id),
        None => Err(ApiError::bad_request(string_from_str("execution_id must be a valid UUID"))),
    }
}

/// Reads the approval id of a request path, in canonical form.
pub fn parse_approval_id(value: &str) -> (r: Result<String, ApiError>)
    ensures
        match uuid_canonical(value@) {
            Some(t) => r matches Ok(id) && id@ == t,
            None => r matches Err(e) && e@ == (400u16, BAD_REQUEST, "approval_id must be a valid UUID"@),
        },
        r matches Ok(id) ==> is_hyphenated_uuid(id@),
{
    match canonical_uuid(value) {
        Some(id) => Ok(id),
        None => Err(ApiError::bad_request(string_from_str("approval_id must be a valid UUID"))),
    }
}
/// Checks a request to write an SSH password file: the server name must have
/// more than white space, and the password must not be empty.
pub fn check_password_file_request(server_name: &str, password: &str) -> (r: Result<(), ApiError>)
    ensures
        crate::text::trim_seq(server_name@).len() == 0 ==> (r matches Err(e) && e@ == (
            400u16,
            BAD_REQUEST,
            "server_name cannot be empty"@,
        )),
        crate::text::trim_seq(server_name@).len() > 0 && password@.len() == 0 ==> (r matches Err(e)
            && e@ == (400u16, BAD_REQUEST, "password cannot be empty"@)),
        crate::text::trim_seq(server_name@).len() > 0 && password@.len() > 0 ==> r is Ok,
{
    if crate::text::is_blank(server_name) {
        return Err(ApiError::bad_request(string_from_str("server_name cannot be empty")));
    }
    if chars_of(password).len() == 0 {
        return Err(ApiError::bad_request(string_from_str("password cannot be empty")));
    }
    Ok(())
}
} // verus!
