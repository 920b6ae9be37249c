//! The group and user named by a page address: base64 text of `server_id:user_id`.

use base64::Engine as _;
use vstd::prelude::*;
use vstd::utf8::{decode_utf8, valid_utf8};

verus! {

/// base64's `DecodeError`, returned by `decode_base64` and mapped to `UrlError`.
#[verifier::external_type_specification]
#[verifier::external_body]
pub struct ExBase64DecodeError(base64::DecodeError);

/// The bytes that standard-alphabet, padded base64 text decodes to, if it is valid.
pub uninterp spec fn base64_decoded(s: Seq<char>) -> Option<Seq<u8>>;

/// Relies on base64's `STANDARD` engine `decode`: whether the text is valid and
/// the bytes it yields depend on the text alone.
#[verifier::external_body]
fn decode_base64(s: &str) -> (r: Result<Vec<u8>, base64::DecodeError>)
    ensures
        r is Ok <==> base64_decoded(s@) is Some,
        r matches Ok(v) ==> base64_decoded(s@) == Some(v@),
{
    base64::engine::general_purpose::STANDARD.decode(s)
}

/// Relies on `String::from_utf8`: it accepts exactly the valid UTF-8 byte
/// sequences and yields the characters they encode.
#[verifier::external_body]
fn utf8_text(bytes: Vec<u8>) -> (r: Option<String>)
    ensures
        r is Some <==> valid_utf8(bytes@),
        r matches Some(t) ==> t@ == decode_utf8(bytes@),
{
    String::from_utf8(bytes).ok()
}

/// Why an address could not be decoded.
#[derive(Clone, Copy, Debug, PartialEq, Eq, Structural)]
pub enum UrlError {
    /// The address is not base64 text.
    InvalidBase64,
    /// The decoded bytes are not UTF-8.
    InvalidUtf8,
    /// The decoded text has no `:` between the two fields.
    MissingField,
}

/// Index of the first `:` in `s` from `j` on; `s.len()` when none.
pub open spec fn colon_index(s: Seq<char>, j: int) -> int
    decreases s.len() - j,
{
    if j < 0 || j >= s.len() || s[j] == ':' {
        j
    } else {
        colon_index(s, j + 1)
    }
}

/// The first two `:`-separated fields of `s`: the text before the first `:`, and
/// the text after it up to the next `:` or the end. None when `s` has no `:`.
pub open spec fn two_fields(s: Seq<char>) -> Option<(Seq<char>, Seq<char>)> {
    let first = colon_index(s, 0);
    if first >= s.len() {
        None
    } else {
        let second = colon_index(s, first + 1);
        Some((s.subrange(0, first), s.subrange(first + 1, second)))
    }
}

proof fn lemma_colon_index(s: Seq<char>, j: int)
    requires
        0 <= j <= s.len(),
    ensures
        j <= colon_index(s, j) <= s.len(),
    decreases s.len() - j,
{
    if j < s.len() && s[j] != ':' {
        lemma_colon_index(s, j + 1);
    }
}

/// Finds the first `:` of `s` from `j` on.
fn find_colon(s: &str, j: usize) -> (r: usize)
    requires
        j <= s@.len(),
    ensures
        r == colon_index(s@, j as int),
        j <= r <= s@.len(),
{
    proof {
        lemma_colon_index(s@, j as int);
    }
    let n = s.unicode_len();
    let mut k = j;
    while k < n && s.get_char(k) != ':'
        invariant
            j <= k <= n,
            n == s@.len(),
            colon_index(s@, k as int) == colon_index(s@, j as int),
        decreases n - k,
    {
        k = k + 1;
    }
    k
}

/// The group and the user that an address names.
#[derive(Clone, Debug)]
pub struct UrlParams {
    server_id: String,
    user_id: String,
}

impl UrlParams {
    pub closed spec fn server_id_view(&self) -> Seq<char> {
        self.server_id@
    }

    pub closed spec fn user_id_view(&self) -> Seq<char> {
        self.user_id@
    }

    /// Decodes base64 text of `server_id:user_id`. Text after a second `:` is ignored.
    pub fn decode_url(url: String) -> (r: Result<UrlParams, UrlError>)
        ensures
            match base64_decoded(url@) {
                None => r == Err::<UrlParams, UrlError>(UrlError::InvalidBase64),
                Some(bytes) => if !valid_utf8(bytes) {
                    r == Err::<UrlParams, UrlError>(UrlError::InvalidUtf8)
                } else {
                    match two_fields(decode_utf8(bytes)) {
                        None => r == Err::<UrlParams, UrlError>(UrlError::MissingField),
                        Some(f) => r matches Ok(p) && p.server_id_view() == f.0
                            && p.user_id_view() == f.1,
                    }
                },
            },
    {
        let bytes = match decode_base64(url.as_str()) {
            Ok(b) => b,
            Err(_) => return Err(UrlError::InvalidBase64),
        };
        let text = match utf8_text(bytes) {
            Some(t) => t,
            None => return Err(UrlError::InvalidUtf8),
        };
        let s = text.as_str();
        let first = find_colon(s, 0);
        if first >= s.unicode_len() {
            return Err(UrlError::MissingField);
        }
        let second = find_colon(s, first + 1);
        let server_id = s.substring_char(0, first).to_owned();
        let user_id = s.substring_char(first + 1, second).to_owned();
        Ok(UrlParams { server_id, user_id })
    }

    pub fn get_server_id(&self) -> (r: String)
        ensures
            r@ == self.server_id_view(),
    {
        self.server_id.clone()
    }

    pub fn get_user_id(&self) -> (r: String)
        ensures
            r@ == self.user_id_view(),
    {
        self.user_id.clone()
    }
}

} // verus!
