use labbridger::app_config::UserConfig;
use labbridger::auth::{
    accepts, answer_login, bearer_token, check_credentials, find_hash, generate_token, grant_login,
    hash_password, hashing_result, login_handler, logout_handler, token_of, AuthState,
    LoginRequest,
};
use labbridger::reply::{Body, Reply};

const SECOND: u64 = 1_000_000_000;

fn user(name: &str, hash: &str) -> UserConfig {
    UserConfig { username: name.to_owned(), password_hash: hash.to_owned() }
}

fn alice() -> Vec<UserConfig> {
    vec![user("alice", &bcrypt::hash("mysecretpassword", 4).unwrap())]
}

fn login(name: &str, password: &str) -> LoginRequest {
    LoginRequest { username: name.to_owned(), password: password.to_owned() }
}

fn granted(reply: &Reply) -> String {
    match &reply.body {
        Body::Login(l) => l.token.clone(),
        other => panic!("no token: {:?}", other),
    }
}

fn plain_of(reply: &Reply) -> &str {
    match &reply.body {
        Body::Plain(t) => t.as_str(),
        other => panic!("no plain text: {:?}", other),
    }
}

fn header(token: &str) -> Vec<u8> {
    format!("Bearer {}", token).into_bytes()
}

#[test]
fn token_is_64_alphanumeric_characters() {
    let a = generate_token();
    let b = generate_token();
    assert_eq!(a.len(), 64);
    assert!(a.chars().all(|c| c.is_ascii_alphanumeric()));
    assert_ne!(a, b);
}

#[test]
fn token_is_what_was_drawn() {
    assert_eq!(token_of(&vec!['a', 'Z', '0', 'a']), "aZ0a");
}

#[test]
fn good_credentials_get_a_token() {
    let mut auth = AuthState::new(alice(), 3600);
    let reply = login_handler(&login("alice", "mysecretpassword"), &mut auth, 5);
    assert_eq!(reply.status, 200);
    let token = granted(&reply);
    assert_eq!(token.len(), 64);
    match &reply.body {
        Body::Login(l) => assert_eq!(l.expires_in, 3600),
        _ => panic!(),
    }
    assert!(auth.check_request(Some(&header(&token)), 5));
}

#[test]
fn wrong_password_is_refused() {
    let mut auth = AuthState::new(alice(), 3600);
    let reply = login_handler(&login("alice", "other"), &mut auth, 0);
    assert_eq!(reply.status, 401);
    assert_eq!(plain_of(&reply), "Invalid username or password");
}

#[test]
fn unknown_user_is_refused_whatever_the_password() {
    let mut auth = AuthState::new(alice(), 3600);
    let reply = login_handler(&login("bob", "mysecretpassword"), &mut auth, 0);
    assert_eq!(reply.status, 401);
    let (known, hash) = find_hash(&auth.users, "bob");
    assert!(!known);
    assert_eq!(hash, "$2b$12$invalidhashpaddingtomekethisconstanttimeXXXXXXXXXXXXW");
}

#[test]
fn hash_for_unknown_users_is_well_formed() {
    // A malformed hash would be an error, reported before any hashing.
    let (_, hash) = find_hash(&Vec::new(), "bob");
    assert!(!bcrypt::verify("mysecretpassword", &hash).unwrap());
}

#[test]
fn malformed_hash_is_refused() {
    let users = vec![user("alice", "not a hash")];
    assert!(!check_credentials(&users, &login("alice", "not a hash")));
}

#[test]
fn first_of_two_users_with_one_name_counts() {
    let users = vec![user("a", "one"), user("b", "two"), user("b", "three")];
    assert_eq!(find_hash(&users, "b"), (true, "two".to_owned()));
}

#[test]
fn acceptance_needs_a_known_user_and_a_match() {
    assert!(accepts(true, Some(true)));
    assert!(!accepts(true, Some(false)));
    assert!(!accepts(false, Some(true)));
    assert!(!accepts(true, None));
}

#[test]
fn hashed_password_verifies() {
    let hash = hash_password("pass word").unwrap();
    assert_ne!(hash, "pass word");
    assert!(hash.starts_with("$2b$12$"));
    assert_eq!(hash.len(), 60);
    let users = vec![user("u", &hash)];
    assert!(check_credentials(&users, &login("u", "pass word")));
}

#[test]
fn result_of_hashing_is_handed_on() {
    assert_eq!(hashing_result(Ok("h".to_owned())).unwrap(), "h");
    assert!(hashing_result(Err(bcrypt::BcryptError::CostNotAllowed(1))).is_err());
}

#[test]
fn token_lives_exactly_its_lifetime() {
    let mut auth = AuthState::new(alice(), 10);
    auth.store_token("t".to_owned(), 2 * SECOND);
    assert!(auth.is_valid_token("t", 2 * SECOND));
    assert!(auth.is_valid_token("t", 12 * SECOND - 1));
    assert!(!auth.is_valid_token("t", 12 * SECOND));
    assert!(!auth.is_valid_token("u", 2 * SECOND));
}

#[test]
fn zero_lifetime_is_never_valid() {
    let mut auth = AuthState::new(alice(), 0);
    auth.store_token("t".to_owned(), 7);
    assert!(!auth.is_valid_token("t", 7));
}

#[test]
fn longest_lifetime_does_not_overflow() {
    let mut auth = AuthState::new(alice(), u64::MAX);
    auth.store_token("t".to_owned(), u64::MAX);
    assert!(auth.is_valid_token("t", u64::MAX));
}

#[test]
fn issuing_keeps_live_tokens_and_drops_expired_ones() {
    let mut auth = AuthState::new(alice(), 10);
    auth.store_token("old".to_owned(), 0);
    auth.store_token("live".to_owned(), 5 * SECOND);
    let fresh = auth.issue_token(10 * SECOND);
    assert!(auth.is_valid_token("live", 14 * SECOND));
    assert!(auth.is_valid_token(&fresh, 19 * SECOND));
    // A dropped token stays invalid even by a clock reading of its lifetime.
    assert!(!auth.is_valid_token("old", 5 * SECOND));
}

#[test]
fn granted_login_answers_with_the_given_token() {
    let mut auth = AuthState::new(alice(), 60);
    let reply = grant_login(&mut auth, "abc".to_owned(), 0);
    assert_eq!(reply.status, 200);
    assert_eq!(granted(&reply), "abc");
    assert!(auth.is_valid_token("abc", 0));
}

#[test]
fn refused_login_changes_nothing() {
    let mut auth = AuthState::new(alice(), 60);
    auth.store_token("abc".to_owned(), 0);
    let reply = answer_login(&mut auth, false, 100 * SECOND);
    assert_eq!(reply.status, 401);
    assert!(auth.is_valid_token("abc", 1));
}

#[test]
fn logout_ends_the_session_of_one_token() {
    let mut auth = AuthState::new(alice(), 60);
    auth.store_token("one".to_owned(), 0);
    auth.store_token("two".to_owned(), 0);
    let reply = logout_handler(Some(b"Bearer one"), &mut auth);
    assert_eq!(reply.status, 200);
    assert_eq!(plain_of(&reply), "Logged out");
    assert!(!auth.check_request(Some(b"Bearer one"), 1));
    assert!(auth.check_request(Some(b"Bearer two"), 1));
}

#[test]
fn logout_without_a_token_is_answered_too() {
    let mut auth = AuthState::new(alice(), 60);
    auth.store_token("one".to_owned(), 0);
    let reply = logout_handler(None, &mut auth);
    assert_eq!(reply.status, 200);
    assert!(auth.is_valid_token("one", 1));
}

#[test]
fn history_decides_validity() {
    let mut auth = AuthState::new(alice(), 10);
    auth.store_token("a".to_owned(), 0);
    auth.revoke_token("a");
    auth.store_token("b".to_owned(), 3 * SECOND);
    auth.store_token("a".to_owned(), 4 * SECOND);
    auth.store_token("c".to_owned(), 13 * SECOND);
    assert!(auth.is_valid_token("a", 13 * SECOND));
    assert!(!auth.is_valid_token("b", 13 * SECOND));
    assert!(auth.is_valid_token("c", 13 * SECOND));
    auth.revoke_token("c");
    assert!(!auth.is_valid_token("c", 13 * SECOND));
}

#[test]
fn no_users_disable_authentication() {
    let auth = AuthState::new(Vec::new(), 60);
    assert!(auth.is_disabled());
    assert!(auth.check_request(None, 0));
}

#[test]
fn users_require_a_token() {
    let auth = AuthState::new(alice(), 60);
    assert!(!auth.is_disabled());
    assert!(!auth.check_request(None, 0));
    assert!(!auth.check_request(Some(b"Bearer x"), 0));
}

#[test]
fn scheme_is_read_in_any_case_and_space_is_trimmed() {
    assert_eq!(bearer_token(Some(b"Bearer abc")), Some("abc".to_owned()));
    assert_eq!(bearer_token(Some(b"  bEARER \t abc  ")), Some("abc".to_owned()));
    assert_eq!(bearer_token(Some(b"Bearer a b")), Some("a b".to_owned()));
}

#[test]
fn other_headers_present_no_token() {
    assert_eq!(bearer_token(None), None);
    assert_eq!(bearer_token(Some(b"")), None);
    assert_eq!(bearer_token(Some(b"Bearer")), None);
    assert_eq!(bearer_token(Some(b"Bearer ")), None);
    assert_eq!(bearer_token(Some(b"Basic abcdef")), None);
    assert_eq!(bearer_token(Some(b"Bearerxabc")), None);
    assert_eq!(bearer_token(Some(b"Bearer ab\xffc")), None);
}
