//! Signing in to an instance: the OAuth authorization-code flow with PKCE
//! over a loopback redirect, and the requests around it.
use base64::Engine;
use rand::Rng;
use sha2::Digest;

use std::sync::Mutex;

use vstd::prelude::*;

use crate::json::{get_member, member, JsonValue};
use crate::text::{
    chars_of, decimal, is_space, is_space_char, push_decimal, push_str, string_of_range, to_string,
    trim_start, trim_trailing_slashes, trim_slashes,
};
use crate::web::{pairs_view, parse_url, url_parse};

verus! {

/// The name the app registers itself under.
pub const APP_NAME: &'static str = "Yesterdays Desktop";

/// The redirect URI registered with the instance.
pub const APP_REDIRECT_URI: &'static str = "http://127.0.0.1/callback";

/// The scopes the app asks for.
pub const SCOPES: &'static str = "read import";

/// The path that wakes the loopback listener to cancel a sign-in.
pub const CANCEL_PATH: &'static str = "/cancel";

/// The instance URL without trailing slashes, as every request uses it.
pub fn instance_base(url: &str) -> (res: String)
    ensures
        res@ == trim_trailing_slashes(url@),
{
    trim_slashes(url)
}

/// Trailing slashes in an instance address do not change its base, and so
/// not the requests built on it: the address with any number of slashes
/// added has the same base.
pub proof fn lemma_base_ignores_trailing_slashes(url: Seq<char>, k: nat)
    ensures
        trim_trailing_slashes(url + Seq::new(k, |i: int| '/')) == trim_trailing_slashes(url),
    decreases k,
{
    let s = url + Seq::new(k, |i: int| '/');
    if k == 0 {
        assert(s =~= url);
    } else {
        assert(s.last() == '/');
        assert(s.drop_last() =~= url + Seq::new((k - 1) as nat, |i: int| '/'));
        lemma_base_ignores_trailing_slashes(url, (k - 1) as nat);
    }
}

/// `base` followed by `suffix`.
fn with_suffix(base: &str, suffix: &str) -> (res: String)
    ensures
        res@ == base@ + suffix@,
{
    let mut s = to_string(base);
    push_str(&mut s, suffix);
    s
}

/// The endpoint that reports an instance's statistics and name.
pub fn stats_url(base: &str) -> (res: String)
    ensures
        res@ == base@ + "/api/v2/stats/"@,
{
    with_suffix(base, "/api/v2/stats/")
}

/// The endpoint that registers an OAuth client.
pub fn register_url(base: &str) -> (res: String)
    ensures
        res@ == base@ + "/api/v2/apps/"@,
{
    with_suffix(base, "/api/v2/apps/")
}

/// The endpoint that issues tokens.
pub fn token_url(base: &str) -> (res: String)
    ensures
        res@ == base@ + "/oauth/token/"@,
{
    with_suffix(base, "/oauth/token/")
}

/// The endpoint that describes the signed-in user.
pub fn me_url(base: &str) -> (res: String)
    ensures
        res@ == base@ + "/api/v2/auth/me/"@,
{
    with_suffix(base, "/api/v2/auth/me/")
}

/// The loopback redirect for a listener on `port`.
pub fn redirect_uri(port: u16) -> (res: String)
    ensures
        res@ == "http://127.0.0.1:"@ + decimal(port as nat) + "/callback"@,
{
    let mut s = to_string("http://127.0.0.1:");
    push_decimal(&mut s, port as u64);
    push_str(&mut s, "/callback");
    s
}

/// The loopback URL that cancels a sign-in waiting on `port`.
pub fn cancel_url(port: u16) -> (res: String)
    ensures
        res@ == "http://127.0.0.1:"@ + decimal(port as nat) + CANCEL_PATH@,
{
    let mut s = to_string("http://127.0.0.1:");
    push_decimal(&mut s, port as u64);
    push_str(&mut s, CANCEL_PATH);
    s
}

/// The header value that carries an access token.
pub fn bearer(token: &str) -> (res: String)
    ensures
        res@ == "Bearer "@ + token@,
{
    with_suffix("Bearer ", token)
}

/// The name an instance reports, or a stand-in when it reports none.
pub open spec fn instance_name_of(body: JsonValue) -> Seq<char> {
    match body {
        JsonValue::Object(m) => match member(m@, "name"@) {
            Some(JsonValue::Str(s)) => s@,
            _ => "Yesterdays Instance"@,
        },
        _ => "Yesterdays Instance"@,
    }
}

/// The display name in an instance's statistics reply.
pub fn instance_name(body: &JsonValue) -> (res: String)
    ensures
        res@ == instance_name_of(*body),
{
    match body {
        JsonValue::Object(m) => match get_member(m, "name") {
            Some(JsonValue::Str(s)) => to_string(s.as_str()),
            _ => to_string("Yesterdays Instance"),
        },
        _ => to_string("Yesterdays Instance"),
    }
}

fn json_member(key: &str, value: &str) -> (res: (String, JsonValue))
    ensures
        res.0@ == key@,
        res.1 matches JsonValue::Str(s) && s@ == value@,
{
    (to_string(key), JsonValue::Str(to_string(value)))
}

/// The members of the registration body: a public client under the app's
/// name and redirect URI, keys in sorted order.
pub open spec fn is_registration(m: Seq<(String, JsonValue)>) -> bool {
    &&& m.len() == 3
    &&& m[0].0@ == "client_type"@ && (m[0].1 matches JsonValue::Str(a) && a@ == "public"@)
    &&& m[1].0@ == "name"@ && (m[1].1 matches JsonValue::Str(b) && b@ == APP_NAME@)
    &&& m[2].0@ == "redirect_uris"@ && (m[2].1 matches JsonValue::Str(c) && c@ == APP_REDIRECT_URI@)
}

/// The body that registers the app as a public client.
pub fn registration_body() -> (res: JsonValue)
    ensures
        res matches JsonValue::Object(m) && is_registration(m@),
{
    let mut m: Vec<(String, JsonValue)> = Vec::new();
    m.push(json_member("client_type", "public"));
    m.push(json_member("name", APP_NAME));
    m.push(json_member("redirect_uris", APP_REDIRECT_URI));
    JsonValue::Object(m)
}

fn pair(k: &str, v: &str) -> (res: (String, String))
    ensures
        res.0@ == k@,
        res.1@ == v@,
{
    (to_string(k), to_string(v))
}

/// The form that trades an authorization code for tokens.
pub fn code_exchange_form(code: &str, redirect: &str, client_id: &str, verifier: &str) -> (res: Vec<
    (String, String),
>)
    ensures
        pairs_view(res@) == seq![
            ("grant_type"@, "authorization_code"@),
            ("code"@, code@),
            ("redirect_uri"@, redirect@),
            ("client_id"@, client_id@),
            ("code_verifier"@, verifier@),
        ],
{
    let mut v: Vec<(String, String)> = Vec::new();
    v.push(pair("grant_type", "authorization_code"));
    v.push(pair("code", code));
    v.push(pair("redirect_uri", redirect));
    v.push(pair("client_id", client_id));
    v.push(pair("code_verifier", verifier));
    assert(pairs_view(v@) =~= seq![
        ("grant_type"@, "authorization_code"@),
        ("code"@, code@),
        ("redirect_uri"@, redirect@),
        ("client_id"@, client_id@),
        ("code_verifier"@, verifier@),
    ]);
    v
}

/// The form that trades a refresh token for new tokens.
pub fn refresh_form(refresh_token: &str, client_id: &str) -> (res: Vec<(String, String)>)
    ensures
        pairs_view(res@) == seq![
            ("grant_type"@, "refresh_token"@),
            ("refresh_token"@, refresh_token@),
            ("client_id"@, client_id@),
        ],
{
    let mut v: Vec<(String, String)> = Vec::new();
    v.push(pair("grant_type", "refresh_token"));
    v.push(pair("refresh_token", refresh_token));
    v.push(pair("client_id", client_id));
    assert(pairs_view(v@) =~= seq![
        ("grant_type"@, "refresh_token"@),
        ("refresh_token"@, refresh_token@),
        ("client_id"@, client_id@),
    ]);
    v
}

/// The access and refresh tokens a batch works with.
#[derive(Debug)]
pub struct TokenState {
    pub access_token: String,
    pub refresh_token: String,
}

/// What to do with a reply: use it as it is (`Ok(false)`), refresh the
/// tokens and send again (`Ok(true)`), or give up when the access token was
/// refused and there is nothing to refresh it with.
pub fn refresh_decision(unauthorized: bool, refresh_token: &str) -> (res: Result<bool, String>)
    ensures
        !unauthorized ==> res == Ok::<bool, String>(false),
        unauthorized && refresh_token@.len() > 0 ==> res == Ok::<bool, String>(true),
        unauthorized && refresh_token@.len() == 0 ==> res is Err && res->Err_0@
            == "access token expired and no refresh token available"@,
{
    if !unauthorized {
        return Ok(false);
    }
    if chars_of(refresh_token).len() == 0 {
        return Err(to_string("access token expired and no refresh token available"));
    }
    Ok(true)
}

impl TokenState {
    /// Takes the tokens of a refresh: the new access token always, the new
    /// refresh token when one was issued.
    pub fn apply_refresh(&mut self, access_token: String, refresh_token: Option<String>)
        ensures
            final(self).access_token@ == access_token@,
            final(self).refresh_token@ == match refresh_token {
                Some(r) => r@,
                None => old(self).refresh_token@,
            },
    {
        self.access_token = access_token;
        if let Some(r) = refresh_token {
            self.refresh_token = r;
        }
    }
}

/// Appends `b` to `s`.
fn append(s: &mut String, b: &str)
    ensures
        final(s)@ == old(s)@ + b@,
{
    push_str(s, b);
}

/// The reply the browser gets once the code has arrived.
pub open spec fn callback_page() -> Seq<char> {
    "<!DOCTYPE html>\n<html><head><title>Yesterdays</title></head>\n<body style=\"font-family: system-ui; text-align: center; padding-top: 80px;\">\n<h2>Authentication successful!</h2>\n<p>You can close this tab and return to the app.</p>\n</body></html>"@
}

/// The HTTP response that shows the page, declaring its length (the page
/// is ASCII: one byte per character).
pub fn callback_response() -> (res: String)
    ensures
        res@ == "HTTP/1.1 200 OK\r\nContent-Type: text/html\r\nContent-Length: "@ + decimal(
            callback_page().len(),
        ) + "\r\nConnection: close\r\n\r\n"@ + callback_page(),
{
    let page = "<!DOCTYPE html>\n<html><head><title>Yesterdays</title></head>\n<body style=\"font-family: system-ui; text-align: center; padding-top: 80px;\">\n<h2>Authentication successful!</h2>\n<p>You can close this tab and return to the app.</p>\n</body></html>";
    let n = chars_of(page).len();
    let mut s = to_string("HTTP/1.1 200 OK\r\nContent-Type: text/html\r\nContent-Length: ");
    push_decimal(&mut s, n as u64);
    append(&mut s, "\r\nConnection: close\r\n\r\n");
    append(&mut s, page);
    s
}

} // verus!

verus! {

/// The number of leading characters of `s` that are not whitespace.
pub open spec fn word_len(s: Seq<char>) -> nat
    decreases s.len(),
{
    if s.len() > 0 && !is_space(s[0]) {
        1 + word_len(s.drop_first())
    } else {
        0
    }
}

/// The second whitespace-separated word of `s`
/// (`split_whitespace().nth(1)`).
pub open spec fn second_word(s: Seq<char>) -> Option<Seq<char>> {
    let t = trim_start(s);
    if t.len() == 0 {
        None
    } else {
        let r = trim_start(t.skip(word_len(t) as int));
        if r.len() == 0 {
            None
        } else {
            Some(r.take(word_len(r) as int))
        }
    }
}

proof fn lemma_trim_start_skip(s: Seq<char>, a: int, b: int)
    requires
        0 <= a <= b <= s.len(),
        forall|j: int| a <= j < b ==> is_space(#[trigger] s[j]),
        b == s.len() || !is_space(s[b]),
    ensures
        trim_start(s.skip(a)) == s.skip(b),
    decreases b - a,
{
    if a < b {
        assert(s.skip(a).drop_first() == s.skip(a + 1));
        lemma_trim_start_skip(s, a + 1, b);
    } else if b < s.len() {
        assert(s.skip(a)[0] == s[b]);
    }
}

proof fn lemma_word_len_skip(s: Seq<char>, b: int, c: int)
    requires
        0 <= b <= c <= s.len(),
        forall|j: int| b <= j < c ==> !is_space(#[trigger] s[j]),
        c == s.len() || is_space(s[c]),
    ensures
        word_len(s.skip(b)) == c - b,
    decreases c - b,
{
    if b < c {
        assert(s.skip(b).drop_first() == s.skip(b + 1));
        lemma_word_len_skip(s, b + 1, c);
    } else if c < s.len() {
        assert(s.skip(b)[0] == s[c]);
    }
}

fn skip_spaces(cs: &Vec<char>, from: usize) -> (to: usize)
    requires
        from <= cs@.len(),
    ensures
        from <= to <= cs@.len(),
        trim_start(cs@.skip(from as int)) == cs@.skip(to as int),
{
    let mut i = from;
    while i < cs.len() && is_space_char(cs[i])
        invariant
            from <= i <= cs@.len(),
            forall|j: int| from <= j < i ==> is_space(#[trigger] cs@[j]),
        decreases cs@.len() - i,
    {
        i = i + 1;
    }
    proof {
        lemma_trim_start_skip(cs@, from as int, i as int);
    }
    i
}

fn skip_word(cs: &Vec<char>, from: usize) -> (to: usize)
    requires
        from <= cs@.len(),
    ensures
        from <= to <= cs@.len(),
        word_len(cs@.skip(from as int)) == to - from,
{
    let mut i = from;
    while i < cs.len() && !is_space_char(cs[i])
        invariant
            from <= i <= cs@.len(),
            forall|j: int| from <= j < i ==> !is_space(#[trigger] cs@[j]),
        decreases cs@.len() - i,
    {
        i = i + 1;
    }
    proof {
        lemma_word_len_skip(cs@, from as int, i as int);
    }
    i
}

/// The request target of an HTTP request line: its second word.
pub fn request_target(line: &str) -> (res: Option<String>)
    ensures
        crate::paths::opt_seq(res) == second_word(line@),
{
    let cs = chars_of(line);
    assert(cs@.skip(0) == cs@);
    let a = skip_spaces(&cs, 0);
    if a == cs.len() {
        return None;
    }
    let b = skip_word(&cs, a);
    let c = skip_spaces(&cs, b);
    proof {
        assert(cs@.skip(a as int).skip((b - a) as int) == cs@.skip(b as int));
    }
    if c == cs.len() {
        return None;
    }
    let d = skip_word(&cs, c);
    assert(cs@.skip(c as int).take((d - c) as int) == cs@.subrange(c as int, d as int));
    Some(string_of_range(&cs, c, d))
}

/// The first value under `key` among query pairs.
pub open spec fn query_value(q: Seq<(Seq<char>, Seq<char>)>, key: Seq<char>) -> Option<Seq<char>>
    decreases q.len(),
{
    if q.len() == 0 {
        None
    } else if q[0].0 == key {
        Some(q[0].1)
    } else {
        query_value(q.drop_first(), key)
    }
}

fn find_query(q: &Vec<(String, String)>, key: &str) -> (res: Option<String>)
    ensures
        crate::paths::opt_seq(res) == query_value(pairs_view(q@), key@),
{
    let ghost pv = pairs_view(q@);
    let mut i: usize = 0;
    assert(pv.skip(0) == pv);
    while i < q.len()
        invariant
            pv == pairs_view(q@),
            i <= q@.len(),
            query_value(pv, key@) == query_value(pv.skip(i as int), key@),
        decreases q@.len() - i,
    {
        assert(pv.skip(i as int).drop_first() == pv.skip(i + 1));
        assert(pv.skip(i as int)[0] == (q@[i as int].0@, q@[i as int].1@));
        if crate::text::str_eq(q[i].0.as_str(), key) {
            return Some(to_string(q[i].1.as_str()));
        }
        i = i + 1;
    }
    None
}

/// What a sign-in makes of the authorization server's reply to the
/// redirect: the code its query carries, or why there is none.
pub open spec fn code_from_query(q: Seq<(Seq<char>, Seq<char>)>) -> Result<Seq<char>, Seq<char>> {
    match query_value(q, "code"@) {
        Some(c) => Ok(c),
        None => Err(
            "Authorization failed: "@ + match query_value(q, "error"@) {
                Some(e) => e,
                None => "unknown error"@,
            },
        ),
    }
}

/// The code among the redirect's query pairs, or the error it reports.
pub fn code_from_pairs(q: &Vec<(String, String)>) -> (res: Result<String, String>)
    ensures
        match (res, code_from_query(pairs_view(q@))) {
            (Ok(a), Ok(b)) => a@ == b,
            (Err(a), Err(b)) => a@ == b,
            _ => false,
        },
{
    match find_query(q, "code") {
        Some(c) => Ok(c),
        None => {
            let mut m = to_string("Authorization failed: ");
            match find_query(q, "error") {
                Some(e) => push_str(&mut m, e.as_str()),
                None => push_str(&mut m, "unknown error"),
            }
            Err(m)
        },
    }
}

/// What the loopback listener makes of the browser's request line.
pub open spec fn code_from_request(line: Seq<char>) -> Result<Seq<char>, Seq<char>> {
    match second_word(line) {
        None => Err("Invalid HTTP request"@),
        Some(path) => if path.len() >= CANCEL_PATH@.len() && path.take(CANCEL_PATH@.len() as int)
            == CANCEL_PATH@ {
            Err("Cancelled"@)
        } else {
            match url_parse("http://127.0.0.1"@ + path) {
                Err(e) => Err("Failed to parse callback URL: "@ + e),
                Ok((_, q)) => code_from_query(q),
            }
        },
    }
}

fn starts_with(s: &str, prefix: &str) -> (res: bool)
    ensures
        res == (s@.len() >= prefix@.len() && s@.take(prefix@.len() as int) == prefix@),
{
    let cs = chars_of(s);
    let cp = chars_of(prefix);
    if cs.len() < cp.len() {
        return false;
    }
    let mut i: usize = 0;
    while i < cp.len()
        invariant
            cs@ == s@,
            cp@ == prefix@,
            cp@.len() <= cs@.len(),
            i <= cp@.len(),
            forall|j: int| 0 <= j < i ==> cs@[j] == cp@[j],
        decreases cp@.len() - i,
    {
        if cs[i] != cp[i] {
            assert(s@.take(prefix@.len() as int)[i as int] != prefix@[i as int]);
            return false;
        }
        i = i + 1;
    }
    assert(s@.take(prefix@.len() as int) =~= prefix@);
    true
}

/// The authorization code in the request line the browser sent to the
/// loopback listener (`GET /callback?code=... HTTP/1.1`), or why there is
/// none: a malformed line, a cancellation, or an error from the server.
pub fn extract_code_from_request(request_line: &str) -> (res: Result<String, String>)
    ensures
        match (res, code_from_request(request_line@)) {
            (Ok(a), Ok(b)) => a@ == b,
            (Err(a), Err(b)) => a@ == b,
            _ => false,
        },
{
    let path = match request_target(request_line) {
        Some(p) => p,
        None => return Err(to_string("Invalid HTTP request")),
    };
    if starts_with(path.as_str(), CANCEL_PATH) {
        return Err(to_string("Cancelled"));
    }
    let mut full = to_string("http://127.0.0.1");
    push_str(&mut full, path.as_str());
    match parse_url(full.as_str()) {
        Err(e) => {
            let mut m = to_string("Failed to parse callback URL: ");
            push_str(&mut m, e.as_str());
            Err(m)
        },
        Ok(u) => code_from_pairs(&u.query),
    }
}

/// The percent-encoding of `text`'s UTF-8 bytes, every byte but ASCII
/// letters, digits and `-._~` escaped.
pub uninterp spec fn url_encoded(text: Seq<char>) -> Seq<char>;

/// Calls `urlencoding::encode`. Trusted: the result is `url_encoded(text)`.
#[verifier::external_body]
fn url_encode(text: &str) -> (res: String)
    ensures
        res@ == url_encoded(text@),
{
    urlencoding::encode(text).into_owned()
}

/// The page the browser is sent to for consent.
pub open spec fn authorize_url_of(base: Seq<char>, client_id: Seq<char>, redirect: Seq<char>, challenge: Seq<char>) -> Seq<char> {
    base + "/oauth/authorize/?response_type=code&client_id="@ + url_encoded(client_id)
        + "&redirect_uri="@ + url_encoded(redirect) + "&code_challenge="@ + challenge
        + "&code_challenge_method=S256&scope="@ + url_encoded(SCOPES@)
}

/// The authorization URL for a sign-in.
pub fn authorize_url(base: &str, client_id: &str, redirect: &str, challenge: &str) -> (res: String)
    ensures
        res@ == authorize_url_of(base@, client_id@, redirect@, challenge@),
{
    let mut s = to_string(base);
    push_str(&mut s, "/oauth/authorize/?response_type=code&client_id=");
    push_str(&mut s, url_encode(client_id).as_str());
    push_str(&mut s, "&redirect_uri=");
    push_str(&mut s, url_encode(redirect).as_str());
    push_str(&mut s, "&code_challenge=");
    push_str(&mut s, challenge);
    push_str(&mut s, "&code_challenge_method=S256&scope=");
    push_str(&mut s, url_encode(SCOPES).as_str());
    s
}

} // verus!

verus! {

/// The port of the listener a sign-in is waiting on, so that a cancel can
/// wake it.
#[derive(Debug)]
pub struct AuthState {
    pub cancel_port: Mutex<Option<u16>>,
}

impl AuthState {
    /// No sign-in waiting.
    /// The mutex is opaque to Verus and its contents change through shared
    /// references, so that it starts out empty is not stated.
    pub fn new() -> AuthState {
        AuthState { cancel_port: crate::active::new_mutex(None) }
    }
}

/// An instance the user may sign in to.
#[derive(Debug)]
pub struct InstanceInfo {
    pub url: String,
    pub name: String,
}

/// The instance at `base`, named as its statistics reply says.
pub fn instance_info(base: String, stats: &JsonValue) -> (res: InstanceInfo)
    ensures
        res.url@ == base@,
        res.name@ == instance_name_of(*stats),
{
    InstanceInfo { url: base, name: instance_name(stats) }
}

/// Tokens as the token endpoint issues them.
#[derive(Debug)]
pub struct TokenResponse {
    pub access_token: String,
    pub refresh_token: Option<String>,
    pub expires_in: u64,
    pub token_type: String,
    pub scope: String,
}

/// The signed-in user as the instance describes them.
#[derive(Debug)]
pub struct UserInfo {
    pub osm_id: u64,
    pub username: String,
    pub is_staff: bool,
    pub can_import: bool,
    pub scopes: Vec<String>,
}

/// What a completed sign-in hands the app.
#[derive(Debug)]
pub struct AuthResult {
    pub user: UserInfo,
    pub tokens: TokenResponse,
}

} // verus!
