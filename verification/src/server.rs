//! The server: what needs a token, and the answers that belong to no other
//! part.

use vstd::prelude::*;

use crate::app_config::ServerSettings;
use crate::auth;
use crate::auth::AuthState;
use crate::network_scanner::{LatestDevice, NetworkScanner};
use crate::reply::{Body, Reply};
use crate::text;
use crate::text::{join3, same_text, write_decimal};

verus! {

/// A path that needs no token.
pub open spec fn is_public(path: Seq<char>) -> bool {
    path == "/login"@ || path == "/health"@
}

/// A request may pass: its path needs no token, or it presents one.
pub open spec fn may_pass(
    state: AuthState,
    path: Seq<char>,
    authorization: Option<Seq<u8>>,
    now: int,
) -> bool {
    is_public(path) || state.admits(authorization, now)
}

/// Tells whether a request may pass.
pub fn authorize(state: &AuthState, path: &str, authorization: Option<&[u8]>, now: u64) -> (r: bool)
    ensures
        r == may_pass(*state, path@, auth::bytes_of(authorization), now as int),
{
    same_text(path, "/login") || same_text(path, "/health") || state.check_request(
        authorization,
        now,
    )
}

/// The answer to a request that may not pass.
pub fn unauthorized() -> (r: Reply)
    ensures
        r.status == 401,
        r.challenge matches Some(c) && c@ == "Bearer realm=\"rust-server2\""@,
        r.body matches Body::Plain(t) && t@ == "Unauthorized: POST /login to obtain a token"@,
{
    Reply {
        status: 401,
        challenge: Some("Bearer realm=\"rust-server2\"".to_owned()),
        body: Body::Plain("Unauthorized: POST /login to obtain a token".to_owned()),
    }
}

/// The page that says that the server is up.
pub open spec fn health_page() -> Seq<char> {
    "<!DOCTYPE html>\n<html lang=\"en\">\n<head><meta charset=\"utf-8\"><title>Health</title></head>\n<body><h1>&#x2705; OK</h1><p>Server is up and running.</p></body>\n</html>"@
}

/// Answers `GET /health`.
pub fn health() -> (r: Reply)
    ensures
        r.status == 200,
        r.challenge is None,
        r.body matches Body::Html(page) && page@ == health_page(),
{
    Reply {
        status: 200,
        challenge: None,
        body: Body::Html(
            "<!DOCTYPE html>\n<html lang=\"en\">\n<head><meta charset=\"utf-8\"><title>Health</title></head>\n<body><h1>&#x2705; OK</h1><p>Server is up and running.</p></body>\n</html>".to_owned(),
        ),
    }
}

/// The answer to `GET /devices/latest`: status and device.
pub fn get_latest(scanner: &NetworkScanner) -> (r: (u16, &Option<LatestDevice>))
    ensures
        *r.1 == scanner.latest(),
        r.0 == (if scanner.latest() is Some {
            200
        } else {
            204u16
        }),
{
    let latest = scanner.get_latest();
    let status: u16 = if latest.is_some() {
        200
    } else {
        204
    };
    (status, latest)
}

/// The address that the server listens on.
pub open spec fn bind_address(settings: ServerSettings) -> Seq<char> {
    settings.host@ + ":"@ + text::decimal(settings.port as nat)
}

/// Writes the address that the server listens on.
pub fn write_bind_address(settings: &ServerSettings) -> (r: String)
    ensures
        r@ == bind_address(*settings),
{
    join3(settings.host.as_str(), ":", write_decimal(settings.port as u64).as_str())
}

// ---------------------------------------------------------------------------
// Laws
// ---------------------------------------------------------------------------
/// Where there are users, every request to another path than the public ones
/// needs a token that has not expired.
pub proof fn private_paths_need_a_token(
    state: AuthState,
    path: Seq<char>,
    authorization: Option<Seq<u8>>,
    now: int,
)
    requires
        state.accounts().len() > 0,
        !is_public(path),
        may_pass(state, path, authorization, now),
    ensures
        auth::presented(authorization) matches Some(t) && auth::valid_at(state.tokens(), t, now),
{
}

/// The public paths never need a token.
pub proof fn public_paths_are_open(
    state: AuthState,
    path: Seq<char>,
    authorization: Option<Seq<u8>>,
    now: int,
)
    requires
        is_public(path),
    ensures
        may_pass(state, path, authorization, now),
{
}

/// A request to `/login` or `/health` passes whatever it presents. A request to
/// any other path passes exactly where its token is checked and found good.
pub proof fn only_login_and_health_need_no_token(
    state: AuthState,
    path: &str,
    authorization: Option<&'static [u8]>,
    now: u64,
    passes: bool,
    checked: bool,
)
    requires
        call_ensures(authorize, (&state, path, authorization, now), passes),
        call_ensures(AuthState::check_request, (&state, authorization, now), checked),
    ensures
        passes <==> path@ == "/login"@ || path@ == "/health"@ || checked,
{
}

/// A request that may not pass is answered with 401 and told to log in.
pub proof fn refusal_asks_for_a_token(r: Reply)
    requires
        call_ensures(unauthorized, (), r),
    ensures
        r.status == 401,
        r.challenge matches Some(c) && c@ == "Bearer realm=\"rust-server2\""@,
        r.body matches Body::Plain(t) && t@ == "Unauthorized: POST /login to obtain a token"@,
{
}

/// The server says that it is up with 200 and a page.
pub proof fn health_is_a_page(r: Reply)
    requires
        call_ensures(health, (), r),
    ensures
        r.status == 200,
        r.challenge is None,
        r.body matches Body::Html(page) && page@
            == "<!DOCTYPE html>\n<html lang=\"en\">\n<head><meta charset=\"utf-8\"><title>Health</title></head>\n<body><h1>&#x2705; OK</h1><p>Server is up and running.</p></body>\n</html>"@,
{
}

/// The device found last is told with 200, and 204 tells that there is none.
pub proof fn latest_device_is_told(
    scanner: NetworkScanner,
    r: (u16, &'static Option<LatestDevice>),
)
    requires
        call_ensures(get_latest, (&scanner,), r),
    ensures
        *r.1 == scanner.latest(),
        r.1 is Some ==> r.0 == 200,
        r.1 is None ==> r.0 == 204,
{
}

/// The server listens on its host and port.
pub proof fn server_listens_on_its_host_and_port(settings: ServerSettings, r: String)
    requires
        call_ensures(write_bind_address, (&settings,), r),
    ensures
        r@ == settings.host@ + ":"@ + text::decimal(settings.port as nat),
{
}

} // verus!
