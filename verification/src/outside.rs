//! The calls into other crates, each behind a function whose contract states
//! what is relied on.

use vstd::prelude::*;

verus! {

// ---------------------------------------------------------------------------
// bcrypt
// ---------------------------------------------------------------------------
/// The error of the bcrypt functions, carried without looking inside.
#[verifier::external_type_specification]
#[verifier::external_body]
pub struct ExBcryptError(bcrypt::BcryptError);

/// What `bcrypt::verify` answers for a password and a stored hash; `None`
/// where it reports an error, such as a malformed hash.
pub uninterp spec fn bcrypt_verdict(password: Seq<char>, hash: Seq<char>) -> Option<bool>;

/// `bcrypt::verify` recomputes the hash with the cost and salt that the stored
/// hash names and compares; its answer depends on the two arguments alone.
#[verifier::external_body]
pub(crate) fn bcrypt_verify(password: &str, hash: &str) -> (r: Result<bool, bcrypt::BcryptError>)
    ensures
        match r {
            Ok(matches) => bcrypt_verdict(password@, hash@) == Some(matches),
            Err(_) => bcrypt_verdict(password@, hash@) is None,
        },
{
    bcrypt::verify(password, hash)
}

/// A bcrypt hash of version 2b and cost 12: the prefix that names them, then 22
/// characters of salt and 31 of hash.
pub open spec fn is_default_hash(hash: Seq<char>) -> bool {
    hash.len() == 60 && hash.take(7) == "$2b$12$"@
}

/// `bcrypt::hash` hashes a password with the crate's default cost, which is 12,
/// and a random salt. Which hash comes out is left to chance, and so is whether
/// one does: an error means that the system gave no randomness. Every hash that
/// comes out names version 2b and that cost, and verifies against the password
/// it was made from.
#[verifier::external_body]
pub(crate) fn bcrypt_hash(password: &str) -> (r: Result<String, bcrypt::BcryptError>)
    ensures
        r matches Ok(hash) ==> bcrypt_verdict(password@, hash@) == Some(true) && is_default_hash(
            hash@,
        ),
{
    bcrypt::hash(password, bcrypt::DEFAULT_COST)
}

// ---------------------------------------------------------------------------
// rand
// ---------------------------------------------------------------------------
/// An ASCII letter or digit.
pub open spec fn is_alphanumeric(c: char) -> bool {
    ||| 'A' <= c && c <= 'Z'
    ||| 'a' <= c && c <= 'z'
    ||| '0' <= c && c <= '9'
}

/// `Rng::sample` of `rand::distributions::Alphanumeric` with the generator of
/// the thread draws one ASCII letter or digit. Which one is left to chance.
#[verifier::external_body]
pub(crate) fn sample_alphanumeric() -> (c: char)
    ensures
        is_alphanumeric(c),
{
    char::from(rand::Rng::sample(&mut rand::thread_rng(), rand::distributions::Alphanumeric))
}

// ---------------------------------------------------------------------------
// wake_on_lan
// ---------------------------------------------------------------------------
/// `wake_on_lan::MagicPacket` of a MAC address: six bytes of `0xFF`, then the
/// address sixteen times.
#[verifier::external_body]
pub(crate) fn magic_packet(mac: &[u8; 6]) -> (packet: [u8; 102])
    ensures
        forall|i: int| 0 <= i < 6 ==> #[trigger] packet@[i] == 0xff,
        forall|i: int| 6 <= i < 102 ==> #[trigger] packet@[i] == mac@[(i - 6) % 6],
{
    *wake_on_lan::MagicPacket::new(mac).magic_bytes()
}

// ---------------------------------------------------------------------------
// reqwest
// ---------------------------------------------------------------------------
/// The host that `reqwest::Url` finds in a URL, written as `Url::host_str`
/// writes it; `None` where the URL does not parse or names no host.
pub uninterp spec fn url_host_name(url: Seq<char>) -> Option<Seq<char>>;

/// `Url::parse` and `Url::host_str` of `reqwest::Url`. The host depends on the
/// text of the URL alone.
#[verifier::external_body]
pub(crate) fn url_host(url: &str) -> (r: Option<String>)
    ensures
        match r {
            Some(host) => url_host_name(url@) == Some(host@),
            None => url_host_name(url@) is None,
        },
{
    match reqwest::Url::parse(url) {
        Ok(parsed) => parsed.host_str().map(str::to_owned),
        Err(_) => None,
    }
}

/// A status code followed by its reason, as `reqwest::StatusCode` displays it,
/// such as "404 Not Found".
pub uninterp spec fn status_line(code: u16) -> Seq<char>;

/// `StatusCode::from_u16` and the `Display` of `reqwest::StatusCode`. Codes
/// outside 100 to 999 are not status codes and are left out.
#[verifier::external_body]
pub(crate) fn status_text(code: u16) -> (r: String)
    requires
        100 <= code <= 999,
    ensures
        r@ == status_line(code),
{
    reqwest::StatusCode::from_u16(code).unwrap().to_string()
}

/// A byte that may stand in the name of an HTTP method.
pub open spec fn is_method_byte(b: u8) -> bool {
    ||| 48 <= b <= 57
    ||| 65 <= b <= 90
    ||| 97 <= b <= 122
    ||| b == 33 || b == 42 || b == 43 || b == 45 || b == 46 || b == 124 || b == 126
    ||| 35 <= b <= 39
    ||| 94 <= b <= 96
}

/// `reqwest::Method::from_bytes` accepts a name exactly when it is not empty
/// and made of the bytes of an HTTP token.
#[verifier::external_body]
pub(crate) fn is_method(name: &[u8]) -> (r: bool)
    ensures
        r == (name@.len() > 0 && forall|i: int|
            0 <= i < name@.len() ==> is_method_byte(#[trigger] name@[i])),
{
    reqwest::Method::from_bytes(name).is_ok()
}

// ---------------------------------------------------------------------------
// std
// ---------------------------------------------------------------------------
/// The text that `String::from_utf8_lossy` makes of bytes.
pub uninterp spec fn lossy_text(bytes: Seq<u8>) -> Seq<char>;

/// `String::from_utf8_lossy` turns bytes into text: valid UTF-8 into the text
/// that it encodes, and other bytes with replacement characters in the place
/// of what is not valid.
#[verifier::external_body]
pub(crate) fn utf8_lossy(bytes: &[u8]) -> (r: String)
    ensures
        r@ == lossy_text(bytes@),
        vstd::utf8::valid_utf8(bytes@) ==> r@ == vstd::utf8::decode_utf8(bytes@),
{
    String::from_utf8_lossy(bytes).into_owned()
}

} // verus!
