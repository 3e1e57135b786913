//! Bearer-token authentication: the users, the tokens issued to them, and the
//! decisions on requests, logins and logouts.
//!
//! Times are readings of a monotonic clock in nanoseconds.

use vstd::prelude::*;

use crate::app_config::UserConfig;
use crate::assoc_map;
use crate::assoc_map::StringMap;
use crate::outside;
use crate::outside::{bcrypt_hash, bcrypt_verify, sample_alphanumeric};
use crate::reply::{Body, Reply};
use crate::text;
use crate::text::{same_text, slice_chars, string_of, trim_of, CharClass};

verus! {

/// Credentials sent to log in.
#[derive(Debug)]
pub struct LoginRequest {
    pub username: String,
    pub password: String,
}

/// Body of the answer to a successful login.
#[derive(Debug)]
pub struct LoginResponse {
    pub token: String,
    /// Seconds until the token expires.
    pub expires_in: u64,
}

/// Hashing a password failed.
#[derive(Debug)]
pub struct HashingFailed;

/// The tokens that were issued.
pub struct TokenStore {
    /// Lifetime of a token in seconds.
    ttl: u64,
    /// Expiry of every token that was issued and not yet dropped.
    expiries: StringMap<u128>,
}

/// The users and the tokens issued to them.
pub struct AuthState {
    pub users: Vec<UserConfig>,
    pub store: TokenStore,
}

// ---------------------------------------------------------------------------
// The Authorization header
// ---------------------------------------------------------------------------
/// A byte of a header value that is read as text.
pub open spec fn is_visible(b: u8) -> bool {
    32 <= b < 127 || b == 9
}

/// The text of a header value: every byte must be visible ASCII, a space or a
/// tab.
pub open spec fn header_text(value: Seq<u8>) -> Option<Seq<char>> {
    if forall|i: int| 0 <= i < value.len() ==> is_visible(#[trigger] value[i]) {
        Some(value.map_values(|b: u8| b as char))
    } else {
        None
    }
}

/// The token of an `Authorization` value: what follows the scheme, which is
/// "Bearer" and one space in any case, without white space around it.
pub open spec fn bearer(value: Seq<char>) -> Option<Seq<char>> {
    let v = text::trim(value, CharClass::Whitespace);
    if v.len() > 7 && text::lower(v.take(7)) == text::lower("Bearer "@) {
        Some(text::trim(v.skip(7), CharClass::Whitespace))
    } else {
        None
    }
}

/// The token that an `Authorization` header presents, if it presents one.
pub open spec fn presented(value: Option<Seq<u8>>) -> Option<Seq<char>> {
    match value {
        Some(bytes) => match header_text(bytes) {
            Some(v) => bearer(v),
            None => None,
        },
        None => None,
    }
}

/// The contents of an optional slice.
pub open spec fn bytes_of(value: Option<&[u8]>) -> Option<Seq<u8>> {
    match value {
        Some(b) => Some(b@),
        None => None,
    }
}

/// Reads a header value as text.
fn read_header(value: &[u8]) -> (r: Option<Vec<char>>)
    ensures
        match r {
            Some(v) => header_text(value@) == Some(v@),
            None => header_text(value@) is None,
        },
{
    let mut out: Vec<char> = Vec::new();
    let mut i: usize = 0;
    while i < value.len()
        invariant
            i <= value.len(),
            out@ == value@.take(i as int).map_values(|b: u8| b as char),
            forall|k: int| 0 <= k < i ==> is_visible(#[trigger] value@[k]),
        decreases value.len() - i,
    {
        let b: u8 = value[i];
        if !((32 <= b && b < 127) || b == 9) {
            proof {
                assert(!is_visible(value@[i as int]));
            }
            return None;
        }
        out.push(b as char);
        proof {
            assert(value@.take(i + 1).map_values(|b: u8| b as char) == value@.take(
                i as int,
            ).map_values(|b: u8| b as char).push(b as char));
        }
        i += 1;
    }
    proof {
        assert(value@.take(value@.len() as int) == value@);
    }
    Some(out)
}

/// Tells whether text starts with the scheme "Bearer " in any case.
fn has_bearer_scheme(v: &Vec<char>) -> (r: bool)
    ensures
        r == (v@.len() > 7 && text::lower(v@.take(7)) == text::lower("Bearer "@)),
{
    if v.len() <= 7 {
        return false;
    }
    let scheme = string_of(&slice_chars(v, 0, 7));
    proof {
        assert(v@.subrange(0, 7) == v@.take(7));
    }
    text::same_ignoring_case(scheme.as_str(), "Bearer ")
}

/// Extracts the token from the value of an `Authorization` header.
pub fn bearer_token(value: Option<&[u8]>) -> (r: Option<String>)
    ensures
        match r {
            Some(t) => presented(bytes_of(value)) == Some(t@),
            None => presented(bytes_of(value)) is None,
        },
{
    match value {
        Some(bytes) => match read_header(bytes) {
            Some(raw) => {
                let v = trim_of(&raw, &CharClass::Whitespace);
                if has_bearer_scheme(&v) {
                    let rest = slice_chars(&v, 7, v.len());
                    proof {
                        assert(rest@ == v@.skip(7));
                    }
                    let token = trim_of(&rest, &CharClass::Whitespace);
                    Some(string_of(&token))
                } else {
                    None
                }
            },
            None => None,
        },
        None => None,
    }
}

// ---------------------------------------------------------------------------
// Tokens
// ---------------------------------------------------------------------------
/// Number of characters of a token.
pub const TOKEN_LENGTH: usize = 64;

/// Nanoseconds in a second.
pub const NANOS_PER_SECOND: u64 = 1_000_000_000;

/// A token as it is issued: 64 ASCII letters and digits.
pub open spec fn is_token(t: Seq<char>) -> bool {
    t.len() == 64 && forall|i: int| 0 <= i < t.len() ==> outside::is_alphanumeric(#[trigger] t[i])
}

/// A token is valid at a time: it is known and the time is before its expiry.
pub open spec fn valid_at(tokens: Map<Seq<char>, u128>, token: Seq<char>, now: int) -> bool {
    tokens.contains_key(token) && now < tokens[token]
}

/// The tokens after one more was issued: expired ones are dropped, and the new
/// one expires when its lifetime is over.
pub open spec fn issued(
    tokens: Map<Seq<char>, u128>,
    token: Seq<char>,
    ttl: u64,
    now: u64,
) -> Map<Seq<char>, u128> {
    assoc_map::above(tokens, now as int).insert(token, expiry(ttl, now))
}

/// When a token issued at `now` expires.
pub open spec fn expiry(ttl: u64, now: u64) -> u128 {
    (now + ttl * NANOS_PER_SECOND) as u128
}

/// Makes a token of the characters that were drawn for it.
pub fn token_of(drawn: &Vec<char>) -> (r: String)
    ensures
        r@ == drawn@,
{
    string_of(drawn)
}

/// Generates a fresh token: as many characters as it has are drawn at random,
/// and they are the token. Which they are is left to chance.
pub fn generate_token() -> (r: String)
    ensures
        is_token(r@),
{
    let mut drawn: Vec<char> = Vec::new();
    let mut i: usize = 0;
    while i < TOKEN_LENGTH
        invariant
            i <= TOKEN_LENGTH,
            drawn@.len() == i,
            forall|k: int| 0 <= k < i ==> outside::is_alphanumeric(#[trigger] drawn@[k]),
        decreases TOKEN_LENGTH - i,
    {
        drawn.push(sample_alphanumeric());
        i += 1;
    }
    token_of(&drawn)
}

impl TokenStore {
    /// The tokens that are known, with their expiry.
    pub closed spec fn tokens(self) -> Map<Seq<char>, u128> {
        self.expiries@
    }

    /// The lifetime of a token in seconds.
    pub closed spec fn lifetime(self) -> u64 {
        self.ttl
    }
}

impl AuthState {
    /// The tokens that are known, with their expiry.
    pub open spec fn tokens(self) -> Map<Seq<char>, u128> {
        self.store.tokens()
    }

    /// The users that may log in.
    pub open spec fn accounts(self) -> Seq<UserConfig> {
        self.users@
    }

    /// The lifetime of a token in seconds.
    pub open spec fn ttl(self) -> u64 {
        self.store.lifetime()
    }

    /// A request with this `Authorization` header passes at a time: there are
    /// no users, or the header presents a token that is valid.
    pub open spec fn admits(self, authorization: Option<Seq<u8>>, now: int) -> bool {
        self.accounts().len() == 0 || match presented(authorization) {
            Some(t) => valid_at(self.tokens(), t, now),
            None => false,
        }
    }

    /// Users and a token lifetime, with no token issued yet.
    pub fn new(users: Vec<UserConfig>, token_ttl_seconds: u64) -> (r: Self)
        ensures
            r.accounts() == users@,
            r.ttl() == token_ttl_seconds,
            r.tokens() == Map::<Seq<char>, u128>::empty(),
    {
        AuthState { users, store: TokenStore { ttl: token_ttl_seconds, expiries: StringMap::new() } }
    }

    /// Tells whether `token` is known and not yet expired.
    pub fn is_valid_token(&self, token: &str, now: u64) -> (r: bool)
        ensures
            r == valid_at(self.tokens(), token@, now as int),
    {
        match self.store.expiries.get(&token.to_owned()) {
            Some(exp) => (now as u128) < *exp,
            None => false,
        }
    }

    /// Tells whether authentication is disabled: no users are configured.
    pub fn is_disabled(&self) -> (r: bool)
        ensures
            r == (self.accounts().len() == 0),
    {
        self.users.is_empty()
    }

    /// Tells whether a request with this `Authorization` header may pass.
    pub fn check_request(&self, authorization: Option<&[u8]>, now: u64) -> (r: bool)
        ensures
            r == self.admits(bytes_of(authorization), now as int),
    {
        if self.is_disabled() {
            return true;
        }
        match bearer_token(authorization) {
            Some(t) => self.is_valid_token(t.as_str(), now),
            None => false,
        }
    }

    /// Stores a token with its expiry and drops the expired ones.
    pub fn store_token(&mut self, token: String, now: u64)
        ensures
            final(self).tokens() == issued(old(self).tokens(), token@, old(self).ttl(), now),
            final(self).accounts() == old(self).accounts(),
            final(self).ttl() == old(self).ttl(),
    {
        self.store.expiries.keep_above(now);
        assert(self.store.ttl * NANOS_PER_SECOND + now <= u128::MAX) by (nonlinear_arith)
            requires
                self.store.ttl <= u64::MAX,
                now <= u64::MAX,
                NANOS_PER_SECOND == 1_000_000_000u64,
        ;
        assert(self.store.ttl * NANOS_PER_SECOND >= 0) by (nonlinear_arith);
        let exp: u128 = now as u128 + self.store.ttl as u128 * NANOS_PER_SECOND as u128;
        self.store.expiries.insert(token, exp);
    }

    /// Issues a fresh token: generates it, stores it and returns it.
    pub fn issue_token(&mut self, now: u64) -> (token: String)
        ensures
            is_token(token@),
            final(self).tokens() == issued(old(self).tokens(), token@, old(self).ttl(), now),
            final(self).accounts() == old(self).accounts(),
            final(self).ttl() == old(self).ttl(),
    {
        let token = generate_token();
        self.store_token(token.clone(), now);
        token
    }

    /// Forgets a token.
    pub fn revoke_token(&mut self, token: &str)
        ensures
            final(self).tokens() == old(self).tokens().remove(token@),
            final(self).accounts() == old(self).accounts(),
            final(self).ttl() == old(self).ttl(),
    {
        self.store.expiries.remove(&token.to_owned());
    }
}

// ---------------------------------------------------------------------------
// Login and logout
// ---------------------------------------------------------------------------
/// A well-formed hash that belongs to no user; checked for unknown names so
/// that the answer takes the same time.
pub open spec fn dummy_hash() -> Seq<char> {
    "$2b$12$invalidhashpaddingtomekethisconstanttimeXXXXXXXXXXXXW"@
}

/// The first user with a name.
pub open spec fn user_named(users: Seq<UserConfig>, name: Seq<char>) -> Option<UserConfig>
    decreases users.len(),
{
    if users.len() == 0 {
        None
    } else if users[0].username@ == name {
        Some(users[0])
    } else {
        user_named(users.drop_first(), name)
    }
}

/// The hash that a login under a name is checked against.
pub open spec fn hash_for(users: Seq<UserConfig>, name: Seq<char>) -> Seq<char> {
    match user_named(users, name) {
        Some(u) => u.password_hash@,
        None => dummy_hash(),
    }
}

/// The credentials are those of a user.
pub open spec fn credentials_match(
    users: Seq<UserConfig>,
    name: Seq<char>,
    password: Seq<char>,
) -> bool {
    user_named(users, name) is Some && outside::bcrypt_verdict(password, hash_for(users, name))
        == Some(true)
}

/// Finds the hash that a login under a name is checked against, and tells
/// whether there is such a user.
pub fn find_hash(users: &Vec<UserConfig>, name: &str) -> (r: (bool, String))
    ensures
        r.0 == (user_named(users@, name@) is Some),
        r.1@ == hash_for(users@, name@),
{
    let mut i: usize = 0;
    proof {
        assert(users@.skip(0) == users@);
    }
    while i < users.len()
        invariant
            i <= users.len(),
            user_named(users@, name@) == user_named(users@.skip(i as int), name@),
        decreases users.len() - i,
    {
        proof {
            assert(users@.skip(i as int)[0] == users@[i as int]);
            assert(users@.skip(i as int).drop_first() == users@.skip(i + 1));
        }
        if same_text(users[i].username.as_str(), name) {
            return (true, users[i].password_hash.clone());
        }
        i += 1;
    }
    (false, "$2b$12$invalidhashpaddingtomekethisconstanttimeXXXXXXXXXXXXW".to_owned())
}

/// Decides on credentials, given whether the user is known and what checking
/// the password against the hash gave (`None` where it reported an error).
pub fn accepts(known: bool, verdict: Option<bool>) -> (r: bool)
    ensures
        r == (known && verdict == Some(true)),
{
    match verdict {
        Some(matches) => known && matches,
        None => false,
    }
}

/// Checks credentials. The password is checked also for an unknown name.
pub fn check_credentials(users: &Vec<UserConfig>, body: &LoginRequest) -> (r: bool)
    ensures
        r == credentials_match(users@, body.username@, body.password@),
{
    let (known, hash) = find_hash(users, body.username.as_str());
    let verdict = match bcrypt_verify(body.password.as_str(), hash.as_str()) {
        Ok(matches) => Some(matches),
        Err(_) => None,
    };
    accepts(known, verdict)
}

/// The answer to a granted login: the token and its lifetime.
pub open spec fn is_granted(r: Reply, token: Seq<char>, ttl: u64) -> bool {
    &&& r.status == 200
    &&& r.challenge is None
    &&& r.body matches Body::Login(l)
    &&& l.token@ == token
    &&& l.expires_in == ttl
}

/// The answer to a refused login.
pub open spec fn is_refused(r: Reply) -> bool {
    r.is_plain(401, "Invalid username or password"@)
}

/// Grants a login with a given token, which is stored from now on.
pub fn grant_login(auth: &mut AuthState, token: String, now: u64) -> (r: Reply)
    ensures
        is_granted(r, token@, old(auth).ttl()),
        final(auth).tokens() == issued(old(auth).tokens(), token@, old(auth).ttl(), now),
        final(auth).accounts() == old(auth).accounts(),
        final(auth).ttl() == old(auth).ttl(),
{
    let expires_in: u64 = auth.store.ttl;
    auth.store_token(token.clone(), now);
    Reply { status: 200, challenge: None, body: Body::Login(LoginResponse { token, expires_in }) }
}

/// Answers a login whose credentials were found to be good or not: a fresh
/// token if they were, a refusal that changes nothing if not.
pub fn answer_login(auth: &mut AuthState, accepted: bool, now: u64) -> (r: Reply)
    ensures
        accepted ==> exists|token: Seq<char>|
            {
                &&& is_token(token)
                &&& #[trigger] is_granted(r, token, old(auth).ttl())
                &&& final(auth).tokens() == issued(old(auth).tokens(), token, old(auth).ttl(), now)
                &&& final(auth).accounts() == old(auth).accounts()
                &&& final(auth).ttl() == old(auth).ttl()
            },
        !accepted ==> is_refused(r) && *final(auth) == *old(auth),
{
    if accepted {
        let token = generate_token();
        let ghost t = token@;
        let r = grant_login(auth, token, now);
        proof {
            assert(is_granted(r, t, old(auth).ttl()));
        }
        r
    } else {
        Reply::plain(401, "Invalid username or password")
    }
}

/// Answers `POST /login`.
pub fn login_handler(body: &LoginRequest, auth: &mut AuthState, now: u64) -> (r: Reply)
    ensures
        credentials_match(old(auth).accounts(), body.username@, body.password@) ==> exists|
            token: Seq<char>,
        |
            {
                &&& is_token(token)
                &&& #[trigger] is_granted(r, token, old(auth).ttl())
                &&& final(auth).tokens() == issued(old(auth).tokens(), token, old(auth).ttl(), now)
                &&& final(auth).accounts() == old(auth).accounts()
                &&& final(auth).ttl() == old(auth).ttl()
            },
        !credentials_match(old(auth).accounts(), body.username@, body.password@) ==> is_refused(r)
            && *final(auth) == *old(auth),
{
    let accepted = check_credentials(&auth.users, body);
    answer_login(auth, accepted, now)
}

/// The tokens after the one that a request presents was revoked.
pub open spec fn logged_out(
    tokens: Map<Seq<char>, u128>,
    authorization: Option<Seq<u8>>,
) -> Map<Seq<char>, u128> {
    match presented(authorization) {
        Some(t) => tokens.remove(t),
        None => tokens,
    }
}

/// Answers `POST /logout`: the token that the request presents is forgotten.
pub fn logout_handler(authorization: Option<&[u8]>, auth: &mut AuthState) -> (r: Reply)
    ensures
        r.is_plain(200, "Logged out"@),
        final(auth).tokens() == logged_out(old(auth).tokens(), bytes_of(authorization)),
        final(auth).accounts() == old(auth).accounts(),
        final(auth).ttl() == old(auth).ttl(),
{
    if let Some(t) = bearer_token(authorization) {
        auth.revoke_token(t.as_str());
    }
    Reply::plain(200, "Logged out")
}

/// Hands on what came of hashing a password: the hash as it is, or that there
/// is none.
pub fn hashing_result(outcome: Result<String, bcrypt::BcryptError>) -> (r: Result<
    String,
    HashingFailed,
>)
    ensures
        match outcome {
            Ok(hash) => r == Ok::<String, HashingFailed>(hash),
            Err(_) => r == Err::<String, HashingFailed>(HashingFailed),
        },
{
    match outcome {
        Ok(hash) => Ok(hash),
        Err(_) => Err(HashingFailed),
    }
}

/// Hashes a password for the configuration. A hash that comes out verifies
/// against the password. There is none when the system gives no randomness for
/// the salt, which no argument decides.
pub fn hash_password(password: &str) -> (r: Result<String, HashingFailed>)
    ensures
        r matches Ok(hash) ==> outside::bcrypt_verdict(password@, hash@) == Some(true)
            && outside::is_default_hash(hash@),
{
    hashing_result(bcrypt_hash(password))
}

// ---------------------------------------------------------------------------
// Laws
// ---------------------------------------------------------------------------
/// A token is valid from when it is issued until its lifetime is over, and not
/// after that.
pub proof fn issued_token_lives_for_its_lifetime(
    tokens: Map<Seq<char>, u128>,
    token: Seq<char>,
    ttl: u64,
    now: u64,
    at: int,
)
    ensures
        valid_at(issued(tokens, token, ttl, now), token, at) <==> at < now + ttl * NANOS_PER_SECOND,
{
    assert(0 <= ttl * NANOS_PER_SECOND) by (nonlinear_arith);
    assert(now + ttl * NANOS_PER_SECOND <= u128::MAX) by (nonlinear_arith)
        requires
            ttl <= u64::MAX,
            now <= u64::MAX,
            NANOS_PER_SECOND == 1_000_000_000u64,
    ;
}

/// Issuing a token changes the validity of no other token from then on,
/// although expired tokens are dropped.
pub proof fn issuing_keeps_other_tokens(
    tokens: Map<Seq<char>, u128>,
    token: Seq<char>,
    other: Seq<char>,
    ttl: u64,
    now: u64,
    at: int,
)
    requires
        other != token,
        at >= now,
    ensures
        valid_at(issued(tokens, token, ttl, now), other, at) <==> valid_at(tokens, other, at),
{
}

/// After a token was issued no expired token is kept.
pub proof fn issuing_drops_expired_tokens(
    tokens: Map<Seq<char>, u128>,
    token: Seq<char>,
    other: Seq<char>,
    ttl: u64,
    now: u64,
)
    requires
        other != token,
        issued(tokens, token, ttl, now).contains_key(other),
    ensures
        valid_at(tokens, other, now as int),
{
}

/// A request that presents a token is no longer let through with it once it
/// has logged out, and no other token is affected.
pub proof fn logout_ends_the_session(
    tokens: Map<Seq<char>, u128>,
    authorization: Option<Seq<u8>>,
    other: Seq<char>,
    at: int,
)
    requires
        presented(authorization) is Some,
    ensures
        !valid_at(logged_out(tokens, authorization), presented(authorization)->0, at),
        other != presented(authorization)->0 ==> (valid_at(
            logged_out(tokens, authorization),
            other,
            at,
        ) <==> valid_at(tokens, other, at)),
{
}

/// Without users every request passes.
pub proof fn no_users_admit_everyone(auth: AuthState, authorization: Option<Seq<u8>>, at: int)
    requires
        auth.accounts().len() == 0,
    ensures
        auth.admits(authorization, at),
{
}

/// With users, a request passes only with a token that was issued: while none
/// was, no request passes.
pub proof fn no_tokens_admit_no_one(auth: AuthState, authorization: Option<Seq<u8>>, at: int)
    requires
        auth.accounts().len() > 0,
        auth.tokens() == Map::<Seq<char>, u128>::empty(),
    ensures
        !auth.admits(authorization, at),
{
}

/// No password logs in under a name that no user has.
pub proof fn unknown_users_cannot_log_in(
    users: Seq<UserConfig>,
    name: Seq<char>,
    password: Seq<char>,
)
    requires
        forall|i: int| 0 <= i < users.len() ==> (#[trigger] users[i]).username@ != name,
    ensures
        !credentials_match(users, name, password),
        hash_for(users, name) == dummy_hash(),
    decreases users.len(),
{
    if users.len() > 0 {
        let rest = users.drop_first();
        assert forall|i: int| 0 <= i < rest.len() implies (#[trigger] rest[i]).username@
            != name by {
            assert(rest[i] == users[i + 1]);
        }
        unknown_users_cannot_log_in(rest, name, password);
    }
}

/// The value of a digit in the base-64 notation of bcrypt.
pub open spec fn bcrypt_digit(c: char) -> Option<nat> {
    if c == '.' {
        Some(0)
    } else if c == '/' {
        Some(1)
    } else if 'A' <= c && c <= 'Z' {
        Some((c as u32 - 63) as nat)
    } else if 'a' <= c && c <= 'z' {
        Some((c as u32 - 69) as nat)
    } else if '0' <= c && c <= '9' {
        Some((c as u32 + 6) as nat)
    } else {
        None
    }
}

/// A hash of the default form that can be decoded: after the prefix stand
/// digits only, and the bits that the last digits of salt and hash have to
/// spare are zero. Such a hash is compared with; another is an error.
pub open spec fn is_decodable_hash(hash: Seq<char>) -> bool {
    &&& outside::is_default_hash(hash)
    &&& forall|i: int| 7 <= i < 60 ==> bcrypt_digit(#[trigger] hash[i]) is Some
    &&& bcrypt_digit(hash[28])->0 % 16 == 0
    &&& bcrypt_digit(hash[59])->0 % 4 == 0
}

/// A login under an unknown name is checked against a hash that can be decoded
/// and has the cost of the hashes that are made for users.
pub proof fn unknown_users_take_as_long(users: Seq<UserConfig>, name: Seq<char>)
    requires
        user_named(users, name) is None,
    ensures
        is_decodable_hash(hash_for(users, name)),
{
    reveal_strlit("$2b$12$invalidhashpaddingtomekethisconstanttimeXXXXXXXXXXXXW");
    reveal_strlit("$2b$12$");
    assert(dummy_hash().take(7) == "$2b$12$"@);
}

/// A user whose hash was made from a password logs in with that password, as
/// long as no earlier user has the same name.
pub proof fn hashed_password_logs_in(
    users: Seq<UserConfig>,
    index: int,
    password: Seq<char>,
)
    requires
        0 <= index < users.len(),
        forall|i: int|
            0 <= i < index ==> (#[trigger] users[i]).username@ != users[index].username@,
        outside::bcrypt_verdict(password, users[index].password_hash@) == Some(true),
    ensures
        credentials_match(users, users[index].username@, password),
    decreases index,
{
    let name = users[index].username@;
    if index > 0 {
        let rest = users.drop_first();
        assert(rest[index - 1] == users[index]);
        assert(users[0].username@ != name);
        assert forall|i: int| 0 <= i < index - 1 implies (#[trigger] rest[i]).username@
            != rest[index - 1].username@ by {
            assert(rest[i] == users[i + 1]);
        }
        hashed_password_logs_in(rest, index - 1, password);
    }
}

/// Characters as the bytes of a header value.
pub open spec fn header_bytes(s: Seq<char>) -> Seq<u8> {
    s.map_values(|c: char| c as u8)
}

/// A header that gives a token after the scheme "Bearer " presents that token,
/// whatever the case of the scheme and whatever spaces and tabs stand around
/// the whole and before the token.
pub proof fn bearer_header_presents_token(
    front: Seq<char>,
    scheme: Seq<char>,
    gap: Seq<char>,
    token: Seq<char>,
    back: Seq<char>,
)
    requires
        forall|i: int| 0 <= i < front.len() ==> #[trigger] front[i] == ' ' || front[i] == '\t',
        forall|i: int| 0 <= i < gap.len() ==> #[trigger] gap[i] == ' ' || gap[i] == '\t',
        forall|i: int| 0 <= i < back.len() ==> #[trigger] back[i] == ' ' || back[i] == '\t',
        text::lower(scheme) == text::lower("Bearer "@),
        is_token(token),
    ensures
        presented(Some(header_bytes(front + scheme + gap + token + back))) == Some(token),
{
    let class = CharClass::Whitespace;
    let inner = scheme + gap + token;
    let whole = front + scheme + gap + token + back;
    let bytes = header_bytes(whole);
    reveal_strlit("Bearer ");
    let model = text::lower("Bearer "@);
    assert(scheme.len() == 7) by {
        assert(text::lower(scheme).len() == 7);
    }
    assert forall|i: int| 0 <= i < 7 implies is_visible((#[trigger] scheme[i]) as u8) && scheme[i]
        as u8 as char == scheme[i] by {
        assert(text::lower(scheme)[i] == model[i]);
        assert(text::lower_char(scheme[i]) == model[i]);
    }
    assert(text::lower_char(scheme[0]) == model[0]);
    assert(!class.has(scheme[0]));
    assert forall|i: int| 0 <= i < whole.len() implies is_visible(#[trigger] bytes[i])
        && bytes[i] as char == whole[i] by {
        let a = front.len() as int;
        let b = a + 7;
        let c = b + gap.len();
        let d = c + 64;
        if i < a {
            assert(whole[i] == front[i]);
        } else if i < b {
            let k = i - a;
            assert(whole[i] == scheme[k]);
            assert(is_visible(scheme[k] as u8) && scheme[k] as u8 as char == scheme[k]);
        } else if i < c {
            assert(whole[i] == gap[i - b]);
        } else if i < d {
            assert(whole[i] == token[i - c]);
            assert(outside::is_alphanumeric(token[i - c]));
        } else {
            assert(whole[i] == back[i - d]);
        }
    }
    assert(bytes.map_values(|b: u8| b as char) == whole);
    assert(header_text(bytes) == Some(whole));
    assert(outside::is_alphanumeric(token[63]));
    assert(outside::is_alphanumeric(token[0]));
    assert(inner.first() == scheme[0]);
    assert(inner.last() == token[63]);
    assert forall|i: int| 0 <= i < front.len() implies class.has(#[trigger] front[i]) by {}
    assert forall|i: int| 0 <= i < back.len() implies class.has(#[trigger] back[i]) by {}
    assert forall|i: int| 0 <= i < gap.len() implies class.has(#[trigger] gap[i]) by {}
    assert(whole == front + inner + back);
    text::lemma_trim_padded(front, inner, back, class);
    assert(inner.take(7) == scheme);
    assert(inner.skip(7) == gap + token + Seq::<char>::empty());
    text::lemma_trim_padded(gap, token, Seq::<char>::empty(), class);
}

/// A request with the token of a login passes until the lifetime of the token
/// is over, and not after that.
pub proof fn login_admits_until_expiry(
    before: AuthState,
    after: AuthState,
    token: Seq<char>,
    now: u64,
    at: int,
)
    requires
        is_token(token),
        before.accounts().len() > 0,
        after.accounts() == before.accounts(),
        after.tokens() == issued(before.tokens(), token, before.ttl(), now),
    ensures
        after.admits(Some(header_bytes("Bearer "@ + token)), at) <==> at < now + before.ttl()
            * NANOS_PER_SECOND,
{
    let none = Seq::<char>::empty();
    bearer_header_presents_token(none, "Bearer "@, none, token, none);
    assert(none + "Bearer "@ + none + token + none == "Bearer "@ + token);
    issued_token_lives_for_its_lifetime(before.tokens(), token, before.ttl(), now, at);
}

/// What happens to tokens: one is issued, or one is revoked.
pub enum TokenEvent {
    Issued { token: Seq<char>, at: u64 },
    Revoked { token: Seq<char> },
}

/// The tokens after some events.
pub open spec fn tokens_after(events: Seq<TokenEvent>, ttl: u64) -> Map<Seq<char>, u128>
    decreases events.len(),
{
    if events.len() == 0 {
        Map::empty()
    } else {
        let before = tokens_after(events.drop_last(), ttl);
        match events.last() {
            TokenEvent::Issued { token, at } => issued(before, token, ttl, at),
            TokenEvent::Revoked { token } => before.remove(token),
        }
    }
}

/// The last event that concerns a token is that it was issued, less than its
/// lifetime ago.
pub open spec fn in_session(events: Seq<TokenEvent>, ttl: u64, token: Seq<char>, now: int) -> bool
    decreases events.len(),
{
    if events.len() == 0 {
        false
    } else {
        match events.last() {
            TokenEvent::Issued { token: t, at } if t == token => now < at + ttl
                * NANOS_PER_SECOND,
            TokenEvent::Revoked { token: t } if t == token => false,
            _ => in_session(events.drop_last(), ttl, token, now),
        }
    }
}

/// Over any history of logins and logouts, a token is valid exactly when it
/// was issued less than its lifetime ago and not revoked since, although
/// expired tokens are dropped on the way.
pub proof fn history_decides_validity(
    events: Seq<TokenEvent>,
    ttl: u64,
    token: Seq<char>,
    now: int,
)
    requires
        forall|i: int|
            0 <= i < events.len() ==> ((#[trigger] events[i]) matches TokenEvent::Issued { at, .. }
                ==> at <= now),
    ensures
        valid_at(tokens_after(events, ttl), token, now) <==> in_session(events, ttl, token, now),
    decreases events.len(),
{
    if events.len() > 0 {
        let earlier = events.drop_last();
        assert forall|i: int| 0 <= i < earlier.len() implies ((#[trigger] earlier[i]) matches
            TokenEvent::Issued { at, .. } ==> at <= now) by {
            assert(earlier[i] == events[i]);
        }
        history_decides_validity(earlier, ttl, token, now);
        let before = tokens_after(earlier, ttl);
        let last = events[events.len() - 1];
        if let TokenEvent::Issued { token: t, at } = last {
            if t == token {
                issued_token_lives_for_its_lifetime(before, token, ttl, at, now);
            } else {
                issuing_keeps_other_tokens(before, t, token, ttl, at, now);
            }
        }
    }
}

/// A token that is stored is valid until its lifetime is over, and every other
/// token is as valid from then on as it was before.
pub proof fn stored_token_is_valid_for_its_lifetime(
    auth: &mut AuthState,
    token: String,
    now: u64,
    asked: &str,
    at: u64,
    valid_before: bool,
    valid_after: bool,
)
    requires
        call_ensures(AuthState::is_valid_token, (&*old(auth), asked, at), valid_before),
        call_ensures(AuthState::store_token, (auth, token, now), ()),
        call_ensures(AuthState::is_valid_token, (&*final(auth), asked, at), valid_after),
    ensures
        asked@ == token@ ==> (valid_after <==> at < now + old(auth).ttl() * 1_000_000_000),
        asked@ != token@ && at >= now ==> valid_after == valid_before,
        final(auth).ttl() == old(auth).ttl(),
        final(auth).users@ == old(auth).users@,
{
    issued_token_lives_for_its_lifetime(
        old(auth).tokens(),
        token@,
        old(auth).ttl(),
        now,
        at as int,
    );
}

/// At first no token is valid, the users are those that were given, and the
/// lifetime of a token is the number of seconds that was given.
pub proof fn first_no_token_is_valid(
    users: Vec<UserConfig>,
    seconds: u64,
    auth: AuthState,
    asked: &str,
    at: u64,
    valid: bool,
    disabled: bool,
)
    requires
        call_ensures(AuthState::new, (users, seconds), auth),
        call_ensures(AuthState::is_valid_token, (&auth, asked, at), valid),
        call_ensures(AuthState::is_disabled, (&auth,), disabled),
    ensures
        !valid,
        auth.users@ == users@,
        auth.ttl() == seconds,
        disabled <==> users@.len() == 0,
{
}

/// A token that is revoked is not valid any more, and every other token is as
/// valid as it was.
pub proof fn revoked_token_is_not_valid(
    auth: &mut AuthState,
    token: &str,
    asked: &str,
    at: u64,
    valid_before: bool,
    valid_after: bool,
)
    requires
        call_ensures(AuthState::is_valid_token, (&*old(auth), asked, at), valid_before),
        call_ensures(AuthState::revoke_token, (auth, token), ()),
        call_ensures(AuthState::is_valid_token, (&*final(auth), asked, at), valid_after),
    ensures
        asked@ == token@ ==> !valid_after,
        asked@ != token@ ==> valid_after == valid_before,
        final(auth).ttl() == old(auth).ttl(),
        final(auth).users@ == old(auth).users@,
{
}

/// A token is 64 letters and digits, as they were drawn.
pub proof fn tokens_are_64_letters_and_digits(token: String, drawn: Vec<char>, made: String)
    requires
        call_ensures(generate_token, (), token),
        call_ensures(token_of, (&drawn,), made),
    ensures
        token@.len() == 64,
        forall|i: int|
            0 <= i < 64 ==> ('A' <= #[trigger] token@[i] <= 'Z' || 'a' <= token@[i] <= 'z' || '0'
                <= token@[i] <= '9'),
        made@ == drawn@,
{
    assert forall|i: int| 0 <= i < 64 implies ('A' <= #[trigger] token@[i] <= 'Z' || 'a'
        <= token@[i] <= 'z' || '0' <= token@[i] <= '9') by {
        assert(outside::is_alphanumeric(token@[i]));
    }
}

/// A token that is issued is valid until its lifetime is over.
pub proof fn issued_token_is_valid_for_its_lifetime(
    auth: &mut AuthState,
    now: u64,
    token: String,
    asked: &str,
    at: u64,
    valid: bool,
)
    requires
        call_ensures(AuthState::issue_token, (auth, now), token),
        call_ensures(AuthState::is_valid_token, (&*final(auth), asked, at), valid),
        asked@ == token@,
    ensures
        valid <==> at < now + old(auth).ttl() * 1_000_000_000,
        token@.len() == 64,
        final(auth).users@ == old(auth).users@,
{
    issued_token_lives_for_its_lifetime(
        old(auth).tokens(),
        token@,
        old(auth).ttl(),
        now,
        at as int,
    );
}

/// Text that stands in a header value between spaces: visible characters, and
/// no space or tab at its ends.
pub open spec fn is_header_word(s: Seq<char>) -> bool {
    &&& s.len() > 0
    &&& forall|i: int| 0 <= i < s.len() ==> (' ' <= #[trigger] s[i] <= '~' || s[i] == '\t')
    &&& '!' <= s.first()
    &&& '!' <= s.last()
}

/// Spaces and tabs.
pub open spec fn is_padding(s: Seq<char>) -> bool {
    forall|i: int| 0 <= i < s.len() ==> (#[trigger] s[i] == ' ' || s[i] == '\t')
}

/// "Bearer" and a space, in any case.
pub open spec fn is_scheme(s: Seq<char>) -> bool {
    &&& s.len() == 7
    &&& s[0] == 'B' || s[0] == 'b'
    &&& s[1] == 'E' || s[1] == 'e'
    &&& s[2] == 'A' || s[2] == 'a'
    &&& s[3] == 'R' || s[3] == 'r'
    &&& s[4] == 'E' || s[4] == 'e'
    &&& s[5] == 'R' || s[5] == 'r'
    &&& s[6] == ' '
}

/// The scheme is the same text as "Bearer " without regard to case.
proof fn lemma_scheme(s: Seq<char>)
    ensures
        is_scheme(s) <==> text::lower(s) == text::lower("Bearer "@),
{
    reveal_strlit("Bearer ");
    text::lowering_forgets_only_case(s, "Bearer "@);
    let b = "Bearer "@;
    if s.len() == 7 && forall|i: int| 0 <= i < s.len() ==> text::same_letter(#[trigger] s[i], b[i]) {
        assert(text::same_letter(s[0], b[0]));
        assert(text::same_letter(s[1], b[1]));
        assert(text::same_letter(s[2], b[2]));
        assert(text::same_letter(s[3], b[3]));
        assert(text::same_letter(s[4], b[4]));
        assert(text::same_letter(s[5], b[5]));
        assert(text::same_letter(s[6], b[6]));
    }
    if is_scheme(s) {
        assert forall|i: int| 0 <= i < s.len() implies text::same_letter(
            #[trigger] s[i],
            b[i],
        ) by {}
    }
}

/// Whatever follows the scheme in a header, without spaces and tabs around it,
/// is the token that the header presents.
pub proof fn header_presents_what_follows_the_scheme(
    front: Seq<char>,
    scheme: Seq<char>,
    gap: Seq<char>,
    token: Seq<char>,
    back: Seq<char>,
    value: &'static [u8],
    r: Option<String>,
)
    requires
        is_padding(front),
        is_scheme(scheme),
        is_padding(gap),
        is_header_word(token),
        is_padding(back),
        value@ == header_bytes(front + scheme + gap + token + back),
        call_ensures(bearer_token, (Some(value),), r),
    ensures
        r matches Some(t) && t@ == token,
{
    lemma_header_presents(front, scheme, gap, token, back);
}

/// The token that a header presents, for any text after the scheme.
proof fn lemma_header_presents(
    front: Seq<char>,
    scheme: Seq<char>,
    gap: Seq<char>,
    token: Seq<char>,
    back: Seq<char>,
)
    requires
        is_padding(front),
        is_scheme(scheme),
        is_padding(gap),
        is_header_word(token),
        is_padding(back),
    ensures
        presented(Some(header_bytes(front + scheme + gap + token + back))) == Some(token),
{
    let class = CharClass::Whitespace;
    let inner = scheme + gap + token;
    let whole = front + scheme + gap + token + back;
    let bytes = header_bytes(whole);
    lemma_scheme(scheme);
    assert forall|i: int| 0 <= i < whole.len() implies is_visible(#[trigger] bytes[i])
        && bytes[i] as char == whole[i] by {
        let a = front.len() as int;
        let b = a + 7;
        let c = b + gap.len();
        let d = c + token.len();
        if i < a {
            assert(whole[i] == front[i]);
        } else if i < b {
            assert(whole[i] == scheme[i - a]);
        } else if i < c {
            assert(whole[i] == gap[i - b]);
        } else if i < d {
            assert(whole[i] == token[i - c]);
        } else {
            assert(whole[i] == back[i - d]);
        }
    }
    assert(bytes.map_values(|b: u8| b as char) == whole);
    assert(header_text(bytes) == Some(whole));
    assert(' ' <= token[0] <= '~' || token[0] == '\t');
    assert(' ' <= token[token.len() - 1] <= '~' || token[token.len() - 1] == '\t');
    assert(inner.first() == scheme[0]);
    assert(inner.last() == token.last());
    assert forall|i: int| 0 <= i < front.len() implies class.has(#[trigger] front[i]) by {}
    assert forall|i: int| 0 <= i < back.len() implies class.has(#[trigger] back[i]) by {}
    assert forall|i: int| 0 <= i < gap.len() implies class.has(#[trigger] gap[i]) by {}
    assert(whole == front + inner + back);
    text::lemma_trim_padded(front, inner, back, class);
    assert(inner.take(7) == scheme);
    assert(inner.skip(7) == gap + token + Seq::<char>::empty());
    text::lemma_trim_padded(gap, token, Seq::<char>::empty(), class);
}

/// Characters that can stand in a header value.
spec fn is_header_text(s: Seq<char>) -> bool {
    forall|i: int| 0 <= i < s.len() ==> (' ' <= #[trigger] s[i] <= '~' || s[i] == '\t')
}

/// White space that can stand in a header value is padding.
proof fn lemma_padding(s: Seq<char>, from: int, to: int)
    requires
        is_header_text(s),
        0 <= from <= to <= s.len(),
        forall|i: int| from <= i < to ==> CharClass::Whitespace.has(#[trigger] s[i]),
    ensures
        is_padding(s.subrange(from, to)),
{
    let part = s.subrange(from, to);
    assert forall|i: int| 0 <= i < part.len() implies (#[trigger] part[i] == ' ' || part[i]
        == '\t') by {
        assert(part[i] == s[from + i]);
        assert(CharClass::Whitespace.has(s[from + i]));
    }
}

/// Where scheme and token stand in a header value that presents a token.
proof fn lemma_bearer_places(whole: Seq<char>) -> (at: (int, int, int))
    requires
        bearer(whole) is Some,
    ensures
        ({
            let (a, p, z) = at;
            &&& 0 <= a
            &&& a + 7 <= p < z <= whole.len()
            &&& text::lower(whole.subrange(a, a + 7)) == text::lower("Bearer "@)
            &&& bearer(whole)->0 == whole.subrange(p, z)
            &&& forall|i: int|
                0 <= i < a || a + 7 <= i < p || z <= i < whole.len()
                    ==> CharClass::Whitespace.has(#[trigger] whole[i])
            &&& !CharClass::Whitespace.has(whole[p])
            &&& !CharClass::Whitespace.has(whole[z - 1])
        }),
{
    let class = CharClass::Whitespace;
    let v = text::trim(whole, class);
    let (a, z) = text::trimming_takes_the_ends(whole, class);
    let rest = v.skip(7);
    let (p, q) = text::trimming_takes_the_ends(rest, class);
    let last = rest.len() - 1;
    assert(rest[last] == whole[z - 1]);
    assert(q == rest.len()) by {
        if q < rest.len() {
            assert(class.has(rest[last]));
        }
    }
    assert(p < q) by {
        if p == q {
            assert(class.has(rest[last]));
        }
    }
    assert(v.take(7) == whole.subrange(a, a + 7));
    assert(rest.subrange(p, q) == whole.subrange(a + 7 + p, z));
    assert forall|i: int|
        0 <= i < a || a + 7 <= i < a + 7 + p || z <= i < whole.len() implies class.has(
        #[trigger] whole[i],
    ) by {
        if a + 7 <= i < a + 7 + p {
            assert(rest[i - a - 7] == whole[i]);
        }
    }
    assert(rest[p] == whole[a + 7 + p]);
    (a, a + 7 + p, z)
}

/// A header presents a token only where it is made of the scheme and the token,
/// with nothing else but spaces and tabs around them. Without a header there is
/// none.
pub proof fn only_bearer_headers_present_a_token(
    value: Option<&'static [u8]>,
    r: Option<String>,
) -> (parts: (Seq<char>, Seq<char>, Seq<char>, Seq<char>))
    requires
        call_ensures(bearer_token, (value,), r),
        r is Some,
    ensures
        value is Some,
        is_padding(parts.0),
        is_scheme(parts.1),
        is_padding(parts.2),
        is_header_word(r->0@),
        is_padding(parts.3),
        value->0@ == header_bytes(parts.0 + parts.1 + parts.2 + r->0@ + parts.3),
{
    let bytes = value->0@;
    let whole = bytes.map_values(|b: u8| b as char);
    let token = r->0@;
    assert forall|i: int| 0 <= i < whole.len() implies (' ' <= #[trigger] whole[i] <= '~'
        || whole[i] == '\t') && whole[i] as u8 == bytes[i] by {
        assert(is_visible(bytes[i]));
    }
    let (a, p, z) = lemma_bearer_places(whole);
    let front = whole.subrange(0, a);
    let scheme = whole.subrange(a, a + 7);
    let gap = whole.subrange(a + 7, p);
    let back = whole.subrange(z, whole.len() as int);
    lemma_padding(whole, 0, a);
    lemma_padding(whole, a + 7, p);
    lemma_padding(whole, z, whole.len() as int);
    lemma_scheme(scheme);
    assert forall|i: int| 0 <= i < token.len() implies (' ' <= #[trigger] token[i] <= '~'
        || token[i] == '\t') by {
        assert(token[i] == whole[p + i]);
    }
    assert(token.first() == whole[p] && token.last() == whole[z - 1]);
    assert(front + scheme + gap + token + back == whole);
    assert(header_bytes(whole) == bytes);
    (front, scheme, gap, back)
}

/// A request passes exactly where there are no users, or its header presents a
/// token that is valid.
pub proof fn request_passes_with_a_valid_token(
    auth: AuthState,
    value: Option<&'static [u8]>,
    now: u64,
    passes: bool,
    token: Option<String>,
    asked: &str,
    valid: bool,
)
    requires
        call_ensures(AuthState::check_request, (&auth, value, now), passes),
        call_ensures(bearer_token, (value,), token),
        call_ensures(AuthState::is_valid_token, (&auth, asked, now), valid),
        token is Some ==> asked@ == token->0@,
    ensures
        passes <==> auth.users@.len() == 0 || (token is Some && valid),
{
}

/// A logout is answered with 200. The token that the request presents is not
/// valid any more; every other token is as valid as it was.
pub proof fn logout_revokes_the_token(
    auth: &mut AuthState,
    value: Option<&'static [u8]>,
    r: Reply,
    token: Option<String>,
    asked: &str,
    at: u64,
    valid_before: bool,
    valid_after: bool,
)
    requires
        call_ensures(bearer_token, (value,), token),
        call_ensures(AuthState::is_valid_token, (&*old(auth), asked, at), valid_before),
        call_ensures(logout_handler, (value, auth), r),
        call_ensures(AuthState::is_valid_token, (&*final(auth), asked, at), valid_after),
    ensures
        r.status == 200,
        r.challenge is None,
        r.body matches Body::Plain(t) && t@ == "Logged out"@,
        token is Some && token->0@ == asked@ ==> !valid_after,
        token is None || token->0@ != asked@ ==> valid_after == valid_before,
        final(auth).users@ == old(auth).users@,
        final(auth).ttl() == old(auth).ttl(),
{
}

/// A login is checked against the hash of the first user with the name; under a
/// name that no user has, against one that is no user's.
pub proof fn first_user_with_the_name_is_found(
    users: Vec<UserConfig>,
    name: &str,
    found: (bool, String),
    index: int,
)
    requires
        call_ensures(find_hash, (&users, name), found),
        0 <= index <= users@.len(),
        forall|i: int| 0 <= i < index ==> (#[trigger] users@[i]).username@ != name@,
        index < users@.len() ==> users@[index].username@ == name@,
    ensures
        found.0 <==> index < users@.len(),
        index < users@.len() ==> found.1@ == users@[index].password_hash@,
        index == users@.len() ==> found.1@
            == "$2b$12$invalidhashpaddingtomekethisconstanttimeXXXXXXXXXXXXW"@,
{
    lemma_first_named(users@, name@, index);
}

/// The first user with a name stands where no earlier one has it.
proof fn lemma_first_named(users: Seq<UserConfig>, name: Seq<char>, index: int)
    requires
        0 <= index <= users.len(),
        forall|i: int| 0 <= i < index ==> (#[trigger] users[i]).username@ != name,
        index < users.len() ==> users[index].username@ == name,
    ensures
        index < users.len() ==> user_named(users, name) == Some(users[index]),
        index == users.len() ==> user_named(users, name) is None,
    decreases users.len(),
{
    if index > 0 {
        let rest = users.drop_first();
        assert(users[0].username@ != name);
        assert forall|i: int| 0 <= i < index - 1 implies (#[trigger] rest[i]).username@
            != name by {
            assert(rest[i] == users[i + 1]);
        }
        if index < users.len() {
            assert(rest[index - 1] == users[index]);
        }
        lemma_first_named(rest, name, index - 1);
    }
}

/// Credentials are good exactly where a user has the name, and the password
/// verifies against the hash of the first user who has it. An error in checking
/// the password is a refusal.
pub proof fn password_of_the_user_decides(
    users: Vec<UserConfig>,
    body: LoginRequest,
    good: bool,
    index: int,
    known: bool,
    verdict: Option<bool>,
    accepted: bool,
)
    requires
        call_ensures(check_credentials, (&users, &body), good),
        call_ensures(accepts, (known, verdict), accepted),
        0 <= index <= users@.len(),
        forall|i: int| 0 <= i < index ==> (#[trigger] users@[i]).username@ != body.username@,
        index < users@.len() ==> users@[index].username@ == body.username@,
    ensures
        good <==> index < users@.len() && outside::bcrypt_verdict(
            body.password@,
            users@[index].password_hash@,
        ) == Some(true),
        accepted <==> known && verdict == Some(true),
{
    lemma_first_named(users@, body.username@, index);
}

/// A password that was hashed for a user logs that user in.
pub proof fn user_logs_in_with_the_hashed_password(
    password: &str,
    hashed: Result<String, HashingFailed>,
    users: Vec<UserConfig>,
    index: int,
    body: LoginRequest,
    good: bool,
)
    requires
        call_ensures(hash_password, (password,), hashed),
        hashed is Ok,
        0 <= index < users@.len(),
        forall|i: int| 0 <= i < index ==> (#[trigger] users@[i]).username@ != body.username@,
        users@[index].username@ == body.username@,
        users@[index].password_hash@ == hashed->Ok_0@,
        body.password@ == password@,
        call_ensures(check_credentials, (&users, &body), good),
    ensures
        good,
        hashed->Ok_0@.len() == 60,
        hashed->Ok_0@.take(7) == "$2b$12$"@,
{
    lemma_first_named(users@, body.username@, index);
}

/// A hash is handed on as it is, and a failure as a failure.
pub proof fn hash_is_handed_on(
    outcome: Result<String, bcrypt::BcryptError>,
    r: Result<String, HashingFailed>,
)
    requires
        call_ensures(hashing_result, (outcome,), r),
    ensures
        r is Ok <==> outcome is Ok,
        r is Ok ==> r->Ok_0 == outcome->Ok_0,
{
}

/// A login with good credentials is answered with 200, a token of 64 characters
/// and the lifetime in seconds, and the token is valid until that is over; other
/// tokens are as valid as before. Another login is answered with 401 and changes
/// nothing.
pub proof fn login_is_answered_by_its_credentials(
    auth: &mut AuthState,
    body: LoginRequest,
    now: u64,
    good: bool,
    r: Reply,
    asked: &str,
    at: u64,
    valid_before: bool,
    valid: bool,
)
    requires
        call_ensures(AuthState::is_valid_token, (&*old(auth), asked, at), valid_before),
        call_ensures(check_credentials, (&old(auth).users, &body), good),
        call_ensures(login_handler, (&body, auth, now), r),
        call_ensures(AuthState::is_valid_token, (&*final(auth), asked, at), valid),
    ensures
        r.challenge is None,
        good ==> {
            &&& r.status == 200
            &&& r.body matches Body::Login(l)
            &&& l.token@.len() == 64
            &&& l.expires_in == old(auth).ttl()
            &&& asked@ == l.token@ ==> (valid <==> at < now + old(auth).ttl() * 1_000_000_000)
            &&& asked@ != l.token@ && at >= now ==> valid == valid_before
            &&& final(auth).users@ == old(auth).users@
            &&& final(auth).ttl() == old(auth).ttl()
        },
        !good ==> {
            &&& r.status == 401
            &&& r.body matches Body::Plain(t)
            &&& t@ == "Invalid username or password"@
            &&& *final(auth) == *old(auth)
        },
{
    if good {
        let token = choose|token: Seq<char>|
            {
                &&& is_token(token)
                &&& #[trigger] is_granted(r, token, old(auth).ttl())
                &&& final(auth).tokens() == issued(old(auth).tokens(), token, old(auth).ttl(), now)
            };
        assert(is_granted(r, token, old(auth).ttl()));
        issued_token_lives_for_its_lifetime(
            old(auth).tokens(),
            token,
            old(auth).ttl(),
            now,
            at as int,
        );
    }
}

/// A login that is granted with a token is answered with that token and its
/// lifetime. Every other token is as valid from then on as it was before.
pub proof fn granted_token_is_told(
    auth: &mut AuthState,
    token: String,
    now: u64,
    r: Reply,
    asked: &str,
    at: u64,
    valid_before: bool,
    valid_after: bool,
)
    requires
        call_ensures(AuthState::is_valid_token, (&*old(auth), asked, at), valid_before),
        call_ensures(grant_login, (auth, token, now), r),
        call_ensures(AuthState::is_valid_token, (&*final(auth), asked, at), valid_after),
    ensures
        r.status == 200,
        r.challenge is None,
        ({
            &&& r.body matches Body::Login(l)
            &&& l.token@ == token@
            &&& l.expires_in == old(auth).ttl()
        }),
        asked@ == token@ ==> (valid_after <==> at < now + old(auth).ttl() * 1_000_000_000),
        asked@ != token@ && at >= now ==> valid_after == valid_before,
        final(auth).users@ == old(auth).users@,
        final(auth).ttl() == old(auth).ttl(),
{
    issued_token_lives_for_its_lifetime(
        old(auth).tokens(),
        token@,
        old(auth).ttl(),
        now,
        at as int,
    );
}

/// The answer to a login follows from whether its credentials were accepted.
pub proof fn acceptance_decides_the_answer(
    auth: &mut AuthState,
    accepted: bool,
    now: u64,
    r: Reply,
    asked: &str,
    at: u64,
    valid: bool,
)
    requires
        call_ensures(answer_login, (auth, accepted, now), r),
        call_ensures(AuthState::is_valid_token, (&*final(auth), asked, at), valid),
    ensures
        r.challenge is None,
        accepted ==> {
            &&& r.status == 200
            &&& r.body matches Body::Login(l)
            &&& l.token@.len() == 64
            &&& l.expires_in == old(auth).ttl()
            &&& asked@ == l.token@ ==> (valid <==> at < now + old(auth).ttl() * 1_000_000_000)
        },
        !accepted ==> {
            &&& r.status == 401
            &&& r.body matches Body::Plain(t)
            &&& t@ == "Invalid username or password"@
            &&& *final(auth) == *old(auth)
        },
{
    if accepted {
        let token = choose|token: Seq<char>|
            {
                &&& is_token(token)
                &&& #[trigger] is_granted(r, token, old(auth).ttl())
                &&& final(auth).tokens() == issued(old(auth).tokens(), token, old(auth).ttl(), now)
            };
        assert(is_granted(r, token, old(auth).ttl()));
        issued_token_lives_for_its_lifetime(
            old(auth).tokens(),
            token,
            old(auth).ttl(),
            now,
            at as int,
        );
    }
}

} // verus!
