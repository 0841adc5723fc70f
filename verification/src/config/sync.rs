//! Settings and secrets on the server: where they are, and what its answers mean.
//!
//! Every write and every removal names the revision that it expects. Where another
//! device was faster the server answers with the revision that it has.

use vstd::prelude::*;
use crate::config::crypto::Sealed;
use crate::config::crypto;
use crate::config::scope::Revision;
use crate::config::scope::Scope;
use crate::config::scope::ScopedValue;
use crate::json::Json;
use crate::json::JsonView;
use crate::text;

verus! {

/// Where the server is and how to speak to it.
pub struct ConfigEndpoint {
    pub base_url: String,
    pub bearer_token: String,
}

/// A page of values.
pub struct ListResponse {
    pub values: Vec<ScopedValue>,
    /// The highest revision of the page, from which the next one starts.
    pub head_revision: Revision,
}

/// Why a setting could not be read or written.
pub enum SyncError {
    Http(String),
    Status(u16),
    Conflict { current: Revision },
    NotFound(String),
    Json(String),
}

/// What such a failure is.
#[verifier::ext_equal]
pub enum SyncErrorView {
    Http(Seq<char>),
    Status(u16),
    Conflict { current: Revision },
    NotFound(Seq<char>),
    Json(Seq<char>),
}

impl View for SyncError {
    type V = SyncErrorView;

    open spec fn view(&self) -> SyncErrorView {
        match self {
            SyncError::Http(t) => SyncErrorView::Http(t@),
            SyncError::Status(s) => SyncErrorView::Status(*s),
            SyncError::Conflict { current } => SyncErrorView::Conflict { current: *current },
            SyncError::NotFound(t) => SyncErrorView::NotFound(t@),
            SyncError::Json(t) => SyncErrorView::Json(t@),
        }
    }
}

/// A status in words.
pub uninterp spec fn status_words(status: u16) -> Seq<char>;

/// `reqwest::StatusCode`, printed: the number of the status and its usual name; for a
/// number that is no status, the words of the error of `StatusCode::from_u16`.
#[verifier::external_body]
fn status_text(status: u16) -> (words: String)
    ensures
        words@ == status_words(status),
{
    match reqwest::StatusCode::from_u16(status) {
        Ok(s) => s.to_string(),
        Err(e) => e.to_string(),
    }
}

impl SyncErrorView {
    /// The failure in words.
    pub open spec fn message(self) -> Seq<char> {
        match self {
            SyncErrorView::Http(t) => "http: "@ + t,
            SyncErrorView::Status(s) => "server returned "@ + status_words(s),
            SyncErrorView::Conflict { current } => "CAS conflict: current revision is Revision("@
                + text::decimal(current.0 as nat) + ")"@,
            SyncErrorView::NotFound(t) => "not found: "@ + t,
            SyncErrorView::Json(t) => "json: "@ + t,
        }
    }
}

impl SyncError {
    /// The failure in words.
    pub fn message(&self) -> (words: String)
        ensures
            words@ == self@.message(),
    {
        match self {
            SyncError::Http(t) => "http: ".to_string().concat(t.as_str()),
            SyncError::Status(s) => "server returned ".to_string().concat(
                status_text(*s).as_str(),
            ),
            SyncError::Conflict { current } => {
                let mut words = "CAS conflict: current revision is Revision(".to_string();
                words.append(text::decimal_text(current.0).as_str());
                words.append(")");
                words
            },
            SyncError::NotFound(t) => "not found: ".to_string().concat(t.as_str()),
            SyncError::Json(t) => "json: ".to_string().concat(t.as_str()),
        }
    }
}

// ---------------------------------------------------------------------------
// Addresses
// ---------------------------------------------------------------------------

/// Whether a byte stands for itself in an address: a letter or digit, or one of
/// hyphen, underscore, dot and tilde.
pub open spec fn unreserved(b: u8) -> bool {
    (65 <= b <= 90) || (97 <= b <= 122) || (48 <= b <= 57) || b == 45 || b == 95 || b == 46
        || b == 126
}

/// The upper-case digit of a number below sixteen.
pub open spec fn upper_digit(n: int) -> char {
    if n < 10 {
        (48 + n) as char
    } else {
        (55 + n) as char
    }
}

/// A byte in an address.
pub open spec fn escaped_byte(b: u8) -> Seq<char> {
    if unreserved(b) {
        seq![b as char]
    } else {
        seq!['%', upper_digit(b as int / 16), upper_digit(b as int % 16)]
    }
}

/// Bytes in an address.
pub open spec fn escaped(bytes: Seq<u8>) -> Seq<char>
    decreases bytes.len(),
{
    if bytes.len() == 0 {
        Seq::empty()
    } else {
        escaped_byte(bytes[0]) + escaped(bytes.drop_first())
    }
}

/// A text in an address.
pub open spec fn url_escaped(s: Seq<char>) -> Seq<char> {
    escaped(vstd::utf8::encode_utf8(s))
}

fn upper_digit_char(n: u8) -> (c: char)
    requires
        n < 16,
    ensures
        c == upper_digit(n as int),
{
    if n < 10 {
        (48 + n) as char
    } else {
        (55 + n) as char
    }
}

/// A text in an address.
pub fn url_escape(s: &str) -> (result: String)
    ensures
        result@ == url_escaped(s@),
{
    let bytes = s.as_bytes_vec();
    let mut result = String::new();
    let mut i: usize = 0;
    assert(bytes@.skip(0) =~= bytes@);
    assert(result@ + escaped(bytes@) =~= escaped(bytes@));
    while i < bytes.len()
        invariant
            i <= bytes.len(),
            result@ + escaped(bytes@.skip(i as int)) == escaped(bytes@),
        decreases bytes.len() - i,
    {
        let b: u8 = bytes[i];
        let ghost before = result@;
        let ghost rest = bytes@.skip(i as int);
        assert(rest[0] == b);
        assert(rest.drop_first() =~= bytes@.skip(i + 1));
        if (65 <= b && b <= 90) || (97 <= b && b <= 122) || (48 <= b && b <= 57) || b == 45 || b
            == 95 || b == 46 || b == 126 {
            result.push(b as char);
            assert(result@ =~= before + escaped_byte(b));
        } else {
            result.push('%');
            result.push(upper_digit_char(b / 16));
            result.push(upper_digit_char(b % 16));
            assert(result@ =~= before + escaped_byte(b));
        }
        assert(result@ + escaped(bytes@.skip(i + 1)) =~= before + escaped(rest));
        i += 1;
    }
    assert(bytes@.skip(i as int) =~= Seq::<u8>::empty());
    assert(result@ + Seq::<char>::empty() =~= result@);
    result
}

/// The address of the parameters of a user.
pub open spec fn kdf_address(base: Seq<char>) -> Seq<char> {
    base + "/v1/config/secrets/_kdf"@
}

/// The address of the values of a tier since a revision.
pub open spec fn list_address(base: Seq<char>, scope: Scope, since: Revision) -> Seq<char> {
    base + "/v1/config/"@ + scope.path() + "?since="@ + text::decimal(since.0 as nat)
}

/// The address of one value.
pub open spec fn value_address(base: Seq<char>, scope: Scope, key: Seq<char>) -> Seq<char> {
    base + "/v1/config/"@ + scope.path() + "/"@ + url_escaped(key)
}

impl ConfigEndpoint {
    /// The address of the parameters of the user.
    pub fn kdf_url(&self) -> (url: String)
        ensures
            url@ == kdf_address(self.base_url@),
    {
        self.base_url.clone().concat("/v1/config/secrets/_kdf")
    }

    /// The address of the values of a tier since a revision.
    pub fn list_url(&self, scope: Scope, since: Revision) -> (url: String)
        ensures
            url@ == list_address(self.base_url@, scope, since),
    {
        let mut url = self.base_url.clone();
        url.append("/v1/config/");
        url.append(scope.as_path());
        url.append("?since=");
        url.append(text::decimal_text(since.0).as_str());
        url
    }

    /// The address of one value.
    pub fn value_url(&self, scope: Scope, key: &str) -> (url: String)
        ensures
            url@ == value_address(self.base_url@, scope, key@),
    {
        let mut url = self.base_url.clone();
        url.append("/v1/config/");
        url.append(scope.as_path());
        url.append("/");
        url.append(url_escape(key).as_str());
        url
    }
}

/// The revision that a request expects, as its header has it.
pub fn if_match(revision: Revision) -> (header: String)
    ensures
        header@ == text::decimal(revision.0 as nat),
{
    text::decimal_text(revision.0)
}

/// The body of a write.
pub open spec fn write_json(payload: JsonView) -> JsonView {
    JsonView::Object(Map::empty().insert("payload"@, payload))
}

/// The body of a write.
pub fn write_body(payload: &Json) -> (body: Json)
    ensures
        body@ == write_json(payload@),
{
    Json::object().with("payload", payload.copy())
}

/// The body of the write of a secret: only what was sealed goes to the server.
pub fn secret_body(sealed: &Sealed) -> (body: Json)
    ensures
        body@ == write_json(crypto::sealed_json(sealed@)),
{
    write_body(&sealed.to_json())
}

// ---------------------------------------------------------------------------
// Answers
// ---------------------------------------------------------------------------

/// Whether a status tells of success.
pub open spec fn is_success(status: u16) -> bool {
    200 <= status < 300
}

/// Whether a status tells that the expected revision was not the one there is.
pub open spec fn is_conflict(status: u16) -> bool {
    status == 412 || status == 409
}

/// What the answer to a request for a user's parameters means.
pub fn kdf_outcome(status: u16) -> (result: Result<(), SyncError>)
    ensures
        match result {
            Ok(()) => is_success(status),
            Err(e) => !is_success(status) && e@ == (if status == 404 {
                SyncErrorView::NotFound("_kdf"@)
            } else {
                SyncErrorView::Status(status)
            }),
        },
{
    if status == 404 {
        Err(SyncError::NotFound("_kdf".to_string()))
    } else if 200 <= status && status < 300 {
        Ok(())
    } else {
        Err(SyncError::Status(status))
    }
}

/// What the answer to a request for values means.
pub fn list_outcome(status: u16) -> (result: Result<(), SyncError>)
    ensures
        match result {
            Ok(()) => is_success(status),
            Err(e) => !is_success(status) && e@ == SyncErrorView::Status(status),
        },
{
    if 200 <= status && status < 300 {
        Ok(())
    } else {
        Err(SyncError::Status(status))
    }
}

/// What the answer to a write means, with the revision in it or why it cannot be read.
pub open spec fn write_view(status: u16, revision: Result<u64, Seq<char>>) -> Result<
    Revision,
    SyncErrorView,
> {
    if is_success(status) {
        match revision {
            Ok(r) => Ok(Revision(r)),
            Err(e) => Err(SyncErrorView::Http(e)),
        }
    } else if is_conflict(status) {
        Err(
            SyncErrorView::Conflict {
                current: match revision {
                    Ok(r) => Revision(r),
                    Err(e) => Revision(0),
                },
            },
        )
    } else {
        Err(SyncErrorView::Status(status))
    }
}

/// What a revision that was read or not is.
pub open spec fn revision_view(r: Result<u64, String>) -> Result<u64, Seq<char>> {
    match r {
        Ok(n) => Ok(n),
        Err(e) => Err(e@),
    }
}

/// What the answer to a write means.
pub fn write_outcome(status: u16, revision: Result<u64, String>) -> (result: Result<
    Revision,
    SyncError,
>)
    ensures
        (match result {
            Ok(r) => Ok(r),
            Err(e) => Err(e@),
        }) == write_view(status, revision_view(revision)),
{
    if 200 <= status && status < 300 {
        match revision {
            Ok(r) => Ok(Revision(r)),
            Err(e) => Err(SyncError::Http(e)),
        }
    } else if status == 412 || status == 409 {
        let current = match revision {
            Ok(r) => Revision(r),
            Err(_) => Revision(0),
        };
        Err(SyncError::Conflict { current })
    } else {
        Err(SyncError::Status(status))
    }
}

/// What the answer to a removal means.
pub open spec fn delete_view(status: u16, key: Seq<char>, revision: Result<u64, Seq<char>>) -> Result<
    (),
    SyncErrorView,
> {
    if is_success(status) {
        Ok(())
    } else if is_conflict(status) {
        Err(
            SyncErrorView::Conflict {
                current: match revision {
                    Ok(r) => Revision(r),
                    Err(e) => Revision(0),
                },
            },
        )
    } else if status == 404 {
        Err(SyncErrorView::NotFound(key))
    } else {
        Err(SyncErrorView::Status(status))
    }
}

/// What the answer to a removal means.
pub fn delete_outcome(status: u16, key: &str, revision: Result<u64, String>) -> (result: Result<
    (),
    SyncError,
>)
    ensures
        (match result {
            Ok(()) => Ok(()),
            Err(e) => Err(e@),
        }) == delete_view(status, key@, revision_view(revision)),
{
    if 200 <= status && status < 300 {
        Ok(())
    } else if status == 412 || status == 409 {
        let current = match revision {
            Ok(r) => Revision(r),
            Err(_) => Revision(0),
        };
        Err(SyncError::Conflict { current })
    } else if status == 404 {
        Err(SyncError::NotFound(key.to_string()))
    } else {
        Err(SyncError::Status(status))
    }
}

// ---------------------------------------------------------------------------
// What addresses promise
// ---------------------------------------------------------------------------

proof fn lemma_escaped_injective(a: Seq<u8>, b: Seq<u8>)
    requires
        escaped(a) == escaped(b),
    ensures
        a == b,
    decreases a.len(),
{
    if a.len() == 0 {
        if b.len() > 0 {
            assert(escaped(b).len() > 0);
        }
        assert(a =~= b);
    } else if b.len() == 0 {
        assert(escaped(a).len() > 0);
    } else {
        let x = escaped_byte(a[0]);
        let y = escaped_byte(b[0]);
        let rest_a = escaped(a.drop_first());
        let rest_b = escaped(b.drop_first());
        assert((x + rest_a)[0] == x[0]);
        assert((y + rest_b)[0] == y[0]);
        if unreserved(a[0]) {
            assert(x[0] != '%');
            assert(a[0] == b[0]);
        } else {
            assert(x[0] == '%');
            if unreserved(b[0]) {
                assert(y[0] != '%');
            }
            assert((x + rest_a)[1] == x[1]);
            assert((y + rest_b)[1] == y[1]);
            assert((x + rest_a)[2] == x[2]);
            assert((y + rest_b)[2] == y[2]);
            assert(a[0] as int / 16 == b[0] as int / 16);
            assert(a[0] as int % 16 == b[0] as int % 16);
            assert(a[0] == b[0]);
        }
        assert(rest_a =~= (x + rest_a).skip(x.len() as int));
        assert(rest_b =~= (y + rest_b).skip(y.len() as int));
        lemma_escaped_injective(a.drop_first(), b.drop_first());
        assert(a =~= seq![a[0]] + a.drop_first());
        assert(b =~= seq![b[0]] + b.drop_first());
    }
}

/// Two values never share an address: different names are escaped differently.
pub proof fn lemma_addresses_are_apart(a: Seq<char>, b: Seq<char>)
    requires
        url_escaped(a) == url_escaped(b),
    ensures
        a == b,
{
    lemma_escaped_injective(vstd::utf8::encode_utf8(a), vstd::utf8::encode_utf8(b));
    vstd::utf8::encode_utf8_decode_utf8(a);
    vstd::utf8::encode_utf8_decode_utf8(b);
}

proof fn lemma_unreserved_escaped(bytes: Seq<u8>)
    requires
        forall|i: int| 0 <= i < bytes.len() ==> unreserved(#[trigger] bytes[i]),
    ensures
        escaped(bytes) == Seq::new(bytes.len(), |i: int| bytes[i] as char),
    decreases bytes.len(),
{
    if bytes.len() > 0 {
        let rest = bytes.drop_first();
        assert forall|i: int| 0 <= i < rest.len() implies unreserved(#[trigger] rest[i]) by {
            assert(rest[i] == bytes[i + 1]);
        }
        lemma_unreserved_escaped(rest);
    }
    assert(escaped(bytes) =~= Seq::new(bytes.len(), |i: int| bytes[i] as char));
}

/// Whether a character stands for itself in an address.
pub open spec fn safe(c: char) -> bool {
    c <= '~' && unreserved(c as u8)
}

proof fn lemma_lowest(c: char)
    ensures
        '\0' <= c,
{
}

/// A name of letters, digits, hyphens, underscores, dots and tildes stands in an address
/// as it is.
pub proof fn lemma_safe_names_pass(s: Seq<char>)
    requires
        forall|i: int|
            0 <= i < s.len() ==> safe(#[trigger] s[i]),
    ensures
        url_escaped(s) == s,
{
    let bytes = vstd::utf8::encode_utf8(s);
    assert forall|i: int| 0 <= i < s.len() implies '\0' <= #[trigger] s[i] <= '\u{7f}' by {
        let c = s[i];
        assert(safe(c));
        lemma_lowest(c);
    }
    assert(vstd::utf8::is_ascii_chars(s));
    vstd::utf8::is_ascii_chars_encode_utf8(s);
    assert(bytes.len() == s.len());
    assert forall|i: int| 0 <= i < bytes.len() implies unreserved(#[trigger] bytes[i]) && bytes[i]
        == s[i] as u8 by {
        assert(safe(s[i]));
    }
    lemma_unreserved_escaped(bytes);
    assert(escaped(bytes) =~= s) by {
        assert forall|i: int| 0 <= i < s.len() implies escaped(bytes)[i] == s[i] by {
            assert(safe(s[i]));
            assert(bytes[i] == s[i] as u8);
        }
    }
}

proof fn lemma_escaped_chars(bytes: Seq<u8>, i: int)
    requires
        0 <= i < escaped(bytes).len(),
    ensures
        escaped(bytes)[i] == '%' || safe(escaped(bytes)[i]),
    decreases bytes.len(),
{
    let piece = escaped_byte(bytes[0]);
    let rest = escaped(bytes.drop_first());
    if i < piece.len() {
        assert(escaped(bytes)[i] == piece[i]);
    } else {
        assert(escaped(bytes)[i] == rest[i - piece.len()]);
        lemma_escaped_chars(bytes.drop_first(), i - piece.len());
    }
}

/// What is escaped has no character with a meaning of its own in an address but the
/// percent sign.
pub proof fn lemma_escaped_is_safe(s: Seq<char>, i: int)
    requires
        0 <= i < url_escaped(s).len(),
    ensures
        url_escaped(s)[i] == '%' || safe(url_escaped(s)[i]),
{
    lemma_escaped_chars(vstd::utf8::encode_utf8(s), i);
}

} // verus!
