//! Client-credentials OAuth2: the credentials and the request they make,
//! the refresh deadline of a fetched token, and the decisions of the
//! token cache (reuse, store, invalidate).

use vstd::prelude::*;
use std::time::{Duration, Instant};

verus! {

#[verifier::external_type_specification]
#[verifier::external_body]
pub struct ExInstant(Instant);

/// A token is treated as stale this many seconds before its own
/// `expires_in` runs out.
pub const REFRESH_MARGIN_SECS: u64 = 30;

/// Upper bound on how far ahead a refresh deadline is set when the token's
/// own lifetime cannot be added to the clock (one day).
pub const MAX_SANE_REFRESH_WINDOW_SECS: u64 = 86400;

/// What `format!("{:?}", s)` gives for a text: the quoted, escaped form
/// that `Debug` prints for a string.
pub uninterp spec fn debug_quoted(s: Seq<char>) -> Seq<char>;

/// Calls `<str as Debug>::fmt` through `format!("{:?}", ..)`; the result is
/// named `debug_quoted` and not spelled out.
#[verifier::external_body]
fn debug_quote(s: &str) -> (r: String)
    ensures
        r@ == debug_quoted(s@),
{
    format!("{:?}", s)
}

/// `Debug`'s one-line struct form of five fields: `Name { f1: v1, .., f5: v5 }`,
/// where each value is already rendered.
pub open spec fn struct_debug(
    name: Seq<char>,
    f: Seq<Seq<char>>,
    v: Seq<Seq<char>>,
) -> Seq<char> {
    name + " { "@ + f[0] + ": "@ + v[0] + ", "@ + f[1] + ": "@ + v[1] + ", "@ + f[2] + ": "@ + v[2]
        + ", "@ + f[3] + ": "@ + v[3] + ", "@ + f[4] + ": "@ + v[4] + " }"@
}

/// `Debug`'s alternate (`{:#?}`) struct form of five fields: the name and
/// ` {`, then one line per field indented by four spaces and ending in a
/// comma, then a closing brace on its own line.
pub open spec fn struct_debug_pretty(
    name: Seq<char>,
    f: Seq<Seq<char>>,
    v: Seq<Seq<char>>,
) -> Seq<char> {
    name + " {\n"@ + "    "@ + f[0] + ": "@ + v[0] + ",\n"@ + "    "@ + f[1] + ": "@ + v[1] + ",\n"@
        + "    "@ + f[2] + ": "@ + v[2] + ",\n"@ + "    "@ + f[3] + ": "@ + v[3] + ",\n"@
        + "    "@ + f[4] + ": "@ + v[4] + ",\n"@ + "}"@
}

/// Renders five fields in `Debug`'s struct form, one-line or (`pretty`)
/// alternate, the last value replaced by `"[REDACTED]"`.
fn render_redacted(
    pretty: bool,
    name: &str,
    f0: &str,
    v0: &str,
    f1: &str,
    v1: &str,
    f2: &str,
    v2: &str,
    f3: &str,
    v3: &str,
    f4: &str,
) -> (r: String)
    ensures
        r@ == (if pretty {
            struct_debug_pretty(
                name@,
                seq![f0@, f1@, f2@, f3@, f4@],
                seq![debug_quoted(v0@), debug_quoted(v1@), debug_quoted(v2@), debug_quoted(v3@), debug_quoted("[REDACTED]"@)],
            )
        } else {
            struct_debug(
                name@,
                seq![f0@, f1@, f2@, f3@, f4@],
                seq![debug_quoted(v0@), debug_quoted(v1@), debug_quoted(v2@), debug_quoted(v3@), debug_quoted("[REDACTED]"@)],
            )
        }),
{
    let (open, indent, sep, close) = if pretty {
        (" {\n", "    ", ",\n", ",\n}")
    } else {
        (" { ", "", ", ", " }")
    };
    proof {
        reveal_strlit("");
        reveal_strlit(",\n}");
        reveal_strlit(",\n");
        reveal_strlit("}");
    }
    let mut out = String::from_str(name);
    out.append(open);
    out.append(indent);
    out.append(f0);
    out.append(": ");
    out.append(debug_quote(v0).as_str());
    out.append(sep);
    out.append(indent);
    out.append(f1);
    out.append(": ");
    out.append(debug_quote(v1).as_str());
    out.append(sep);
    out.append(indent);
    out.append(f2);
    out.append(": ");
    out.append(debug_quote(v2).as_str());
    out.append(sep);
    out.append(indent);
    out.append(f3);
    out.append(": ");
    out.append(debug_quote(v3).as_str());
    out.append(sep);
    out.append(indent);
    out.append(f4);
    out.append(": ");
    out.append(debug_quote("[REDACTED]").as_str());
    out.append(close);
    out
}

/// One service's client-credentials configuration; `password` is the
/// secret.
#[derive(Clone)]
pub struct OAuthCredentials {
    pub token_url: String,
    pub client_id: String,
    pub scope: String,
    pub username: String,
    pub password: String,
}

/// The `Debug` text of credentials, one-line or (`pretty`) alternate:
/// every field but the password, which reads `"[REDACTED]"`.
pub open spec fn credentials_debug(
    pretty: bool,
    token_url: Seq<char>,
    client_id: Seq<char>,
    scope: Seq<char>,
    username: Seq<char>,
) -> Seq<char> {
    let f = seq!["token_url"@, "client_id"@, "scope"@, "username"@, "password"@];
    let v = seq![debug_quoted(token_url), debug_quoted(client_id), debug_quoted(scope), debug_quoted(username), debug_quoted("[REDACTED]"@)];
    if pretty {
        struct_debug_pretty("OAuthCredentials"@, f, v)
    } else {
        struct_debug("OAuthCredentials"@, f, v)
    }
}

/// The form fields of a client-credentials token request.
pub open spec fn token_form(c: OAuthCredentials) -> Seq<(Seq<char>, Seq<char>)> {
    seq![
        ("grant_type"@, "client_credentials"@),
        ("client_id"@, c.client_id@),
        ("username"@, c.username@),
        ("password"@, c.password@),
        ("scope"@, c.scope@),
    ]
}

/// The texts of a list of string pairs.
pub open spec fn pair_views(v: Seq<(String, String)>) -> Seq<(Seq<char>, Seq<char>)> {
    v.map_values(|p: (String, String)| (p.0@, p.1@))
}

impl OAuthCredentials {
    /// The `Debug` text of these credentials, with the password redacted.
    pub fn debug_text(&self) -> (r: String)
        ensures
            r@ == credentials_debug(false, self.token_url@, self.client_id@, self.scope@, self.username@),
    {
        self.render_debug(false)
    }

    /// The alternate (`{:#?}`) `Debug` text of these credentials, one field
    /// per line, with the password redacted.
    pub fn debug_text_pretty(&self) -> (r: String)
        ensures
            r@ == credentials_debug(true, self.token_url@, self.client_id@, self.scope@, self.username@),
    {
        self.render_debug(true)
    }

    fn render_debug(&self, pretty: bool) -> (r: String)
        ensures
            r@ == credentials_debug(pretty, self.token_url@, self.client_id@, self.scope@, self.username@),
    {
        render_redacted(
            pretty,
            "OAuthCredentials",
            "token_url",
            self.token_url.as_str(),
            "client_id",
            self.client_id.as_str(),
            "scope",
            self.scope.as_str(),
            "username",
            self.username.as_str(),
            "password",
        )
    }

    /// The form-encoded fields of the token request these credentials make.
    pub fn token_request_form(&self) -> (r: Vec<(String, String)>)
        ensures
            pair_views(r@) == token_form(*self),
    {
        let mut v: Vec<(String, String)> = Vec::new();
        v.push((String::from_str("grant_type"), String::from_str("client_credentials")));
        v.push((String::from_str("client_id"), self.client_id.clone()));
        v.push((String::from_str("username"), self.username.clone()));
        v.push((String::from_str("password"), self.password.clone()));
        v.push((String::from_str("scope"), self.scope.clone()));
        assert(pair_views(v@) =~= token_form(*self));
        v
    }
}

/// The error of a token fetch that the endpoint refused: the prefix
/// `oauth2 token fetch failed: `, the status as the response prints it, a
/// space, and the response body.
pub fn token_fetch_error(status: &str, body: &str) -> (r: String)
    ensures
        r@ == "oauth2 token fetch failed: "@ + status@ + " "@ + body@,
{
    let mut out = String::from_str("oauth2 token fetch failed: ");
    out.append(status);
    out.append(" ");
    out.append(body);
    out
}

/// The refresh window of a token that lives `expires_in` seconds: its
/// lifetime less the refresh margin, never below zero.
pub open spec fn refresh_window(expires_in: u64) -> u64 {
    if expires_in >= REFRESH_MARGIN_SECS {
        (expires_in - REFRESH_MARGIN_SECS) as u64
    } else {
        0
    }
}

/// How many seconds after it was fetched a token is treated as stale.
pub fn refresh_window_secs(expires_in: u64) -> (r: u64)
    ensures
        r == refresh_window(expires_in),
{
    expires_in.saturating_sub(REFRESH_MARGIN_SECS)
}

/// The refresh deadline from the clock's answers: `now` advanced by the
/// refresh window if the clock could represent that, else `now` advanced
/// by one day if it could represent that, else `now` itself.
pub fn pick_refresh_at(now: Instant, advanced: Option<Instant>, fallback: Option<Instant>) -> (r: Instant)
    ensures
        r == match advanced {
            Some(t) => t,
            None => match fallback {
                Some(t) => t,
                None => now,
            },
        },
{
    match advanced {
        Some(t) => t,
        None => match fallback {
            Some(t) => t,
            None => now,
        },
    }
}

/// What `Instant::checked_add` gives for `now` advanced by `secs` whole
/// seconds: `Some(now + secs)` when the platform's clock representation can
/// hold the sum, else `None`.
pub uninterp spec fn instant_plus_secs(now: Instant, secs: u64) -> Option<Instant>;

/// What `now < then` answers for two instants: `now` is strictly earlier.
pub uninterp spec fn instant_lt(now: Instant, then: Instant) -> bool;

/// Calls `Instant::checked_add` with a whole number of seconds; the result
/// is named `instant_plus_secs`. As its documentation gives: a zero duration
/// leaves `now` itself, which is representable; a sum that comes back is
/// never earlier than `now`, since a duration is never negative; and `None`
/// means the sum lies outside the bounds of the clock's representation, so
/// every larger sum lies outside them too.
#[verifier::external_body]
fn instant_checked_add_secs(now: Instant, secs: u64) -> (r: Option<Instant>)
    ensures
        r == instant_plus_secs(now, secs),
        secs == 0 ==> r == Some(now),
        r matches Some(t) ==> !instant_lt(t, now),
        r is None ==> forall|more: u64| secs <= more ==> #[trigger] instant_plus_secs(now, more) is None,
{
    now.checked_add(Duration::from_secs(secs))
}

/// The refresh deadline of a token fetched at `now` that lives
/// `expires_in` seconds: `now` plus the refresh window if the clock can
/// represent it, else `now` plus one day if it can represent that, else
/// `now`.
pub open spec fn refresh_deadline(now: Instant, expires_in: u64) -> Instant {
    match instant_plus_secs(now, refresh_window(expires_in)) {
        Some(t) => t,
        None => match instant_plus_secs(now, MAX_SANE_REFRESH_WINDOW_SECS) {
            Some(t) => t,
            None => now,
        },
    }
}

/// The instant at which a token fetched at `now`, living `expires_in`
/// seconds, should be treated as stale: `now` plus the refresh window,
/// falling back to `now` plus one day, then to `now`, when the clock
/// cannot represent the sum. Never panics. The deadline is never before
/// `now` and never later than `now` plus the refresh window: it is `now`
/// itself or `now` advanced by at most the window. A token that lives no
/// longer than the refresh margin is stale at once: its deadline is `now`.
pub fn compute_refresh_at(now: Instant, expires_in: u64) -> (r: Instant)
    ensures
        r == refresh_deadline(now, expires_in),
        r == now || !instant_lt(r, now),
        r == now || exists|secs: u64|
            secs <= refresh_window(expires_in) && #[trigger] instant_plus_secs(now, secs) == Some(r),
        expires_in <= REFRESH_MARGIN_SECS ==> r == now,
{
    let window = refresh_window_secs(expires_in);
    let advanced = instant_checked_add_secs(now, window);
    let fallback = instant_checked_add_secs(now, MAX_SANE_REFRESH_WINDOW_SECS);
    pick_refresh_at(now, advanced, fallback)
}

/// A fetched access token and the instant it turns stale.
pub struct CachedToken {
    pub access_token: String,
    pub refresh_at: Instant,
}

/// The token cache's state: the last fetched token, if any.
pub struct TokenSlot {
    cached: Option<CachedToken>,
}

/// Calls `Instant < Instant`; the answer is named `instant_lt`. As
/// `Instant`'s total order gives, no instant is before itself.
#[verifier::external_body]
fn instant_before(a: &Instant, b: &Instant) -> (r: bool)
    ensures
        r == instant_lt(*a, *b),
        *a == *b ==> !r,
{
    *a < *b
}

/// The token a cache holding `cached` hands out when the clock reads
/// `now`: the cached token while `now` is strictly before its deadline,
/// else none.
pub open spec fn fresh_token(cached: Option<(Seq<char>, Instant)>, now: Instant) -> Option<Seq<char>> {
    match cached {
        Some(c) => if instant_lt(now, c.1) {
            Some(c.0)
        } else {
            None
        },
        None => None,
    }
}

impl TokenSlot {
    /// The cached token and its deadline, if any.
    pub closed spec fn cached(&self) -> Option<(Seq<char>, Instant)> {
        match self.cached {
            Some(c) => Some((c.access_token@, c.refresh_at)),
            None => None,
        }
    }

    /// An empty cache.
    pub fn new() -> (r: TokenSlot)
        ensures
            r.cached() == None::<(Seq<char>, Instant)>,
    {
        TokenSlot { cached: None }
    }

    /// The cached token when there is one and the clock reads before its
    /// refresh deadline (`before_deadline`), else nothing.
    pub fn token_if_before_deadline(&self, before_deadline: bool) -> (r: Option<String>)
        ensures
            match self.cached() {
                Some(c) => if before_deadline {
                    r matches Some(t) && t@ == c.0
                } else {
                    r is None
                },
                None => r is None,
            },
    {
        match &self.cached {
            Some(c) => if before_deadline {
                Some(c.access_token.clone())
            } else {
                None
            },
            None => None,
        }
    }

    /// The cached token if there is one and `now` is strictly before its
    /// refresh deadline, else nothing; at the deadline itself the token is
    /// already stale.
    pub fn fresh_cached_token(&self, now: &Instant) -> (r: Option<String>)
        ensures
            match fresh_token(self.cached(), *now) {
                Some(t) => r matches Some(s) && s@ == t,
                None => r is None,
            },
            self.cached() matches Some(c) && c.1 == *now ==> r is None,
    {
        match &self.cached {
            Some(c) => {
                let before_deadline = instant_before(now, &c.refresh_at);
                self.token_if_before_deadline(before_deadline)
            },
            None => None,
        }
    }

    /// Caches a freshly fetched token with its refresh deadline,
    /// replacing whatever was cached.
    pub fn store(&mut self, access_token: String, refresh_at: Instant)
        ensures
            final(self).cached() == Some((access_token@, refresh_at)),
    {
        self.cached = Some(CachedToken { access_token, refresh_at });
    }

    /// Caches a token fetched at `fetched_at` that lives `expires_in`
    /// seconds, with the refresh deadline [`compute_refresh_at`] gives;
    /// a token that lives no longer than the refresh margin is cached with
    /// the deadline `fetched_at`, so it is stale at once.
    pub fn store_fetched(&mut self, access_token: String, fetched_at: Instant, expires_in: u64)
        ensures
            final(self).cached() == Some((access_token@, refresh_deadline(fetched_at, expires_in))),
            expires_in <= REFRESH_MARGIN_SECS ==> final(self).cached() == Some((access_token@, fetched_at)),
    {
        let refresh_at = compute_refresh_at(fetched_at, expires_in);
        self.store(access_token, refresh_at);
    }

    /// Forgets the cached token, so the next request fetches a new one.
    pub fn invalidate(&mut self)
        ensures
            final(self).cached() == None::<(Seq<char>, Instant)>,
    {
        self.cached = None;
    }
}

/// The five `internal_oauth_*` settings every service carries.
#[derive(Clone)]
pub struct InternalOAuthArgs {
    pub internal_oauth_token_url: String,
    pub internal_oauth_client_id: String,
    pub internal_oauth_scope: String,
    pub internal_oauth_username: String,
    pub internal_oauth_password: String,
}

/// The `Debug` text of the settings, one-line or (`pretty`) alternate:
/// every field but the password, which reads `"[REDACTED]"`.
pub open spec fn args_debug(
    pretty: bool,
    token_url: Seq<char>,
    client_id: Seq<char>,
    scope: Seq<char>,
    username: Seq<char>,
) -> Seq<char> {
    let f = seq![
        "internal_oauth_token_url"@,
        "internal_oauth_client_id"@,
        "internal_oauth_scope"@,
        "internal_oauth_username"@,
        "internal_oauth_password"@,
    ];
    let v = seq![debug_quoted(token_url), debug_quoted(client_id), debug_quoted(scope), debug_quoted(username), debug_quoted("[REDACTED]"@)];
    if pretty {
        struct_debug_pretty("InternalOAuthArgs"@, f, v)
    } else {
        struct_debug("InternalOAuthArgs"@, f, v)
    }
}

impl InternalOAuthArgs {
    /// The credentials these settings stand for, field for field.
    pub fn credentials(&self) -> (r: OAuthCredentials)
        ensures
            r.token_url@ == self.internal_oauth_token_url@,
            r.client_id@ == self.internal_oauth_client_id@,
            r.scope@ == self.internal_oauth_scope@,
            r.username@ == self.internal_oauth_username@,
            r.password@ == self.internal_oauth_password@,
    {
        OAuthCredentials {
            token_url: self.internal_oauth_token_url.clone(),
            client_id: self.internal_oauth_client_id.clone(),
            scope: self.internal_oauth_scope.clone(),
            username: self.internal_oauth_username.clone(),
            password: self.internal_oauth_password.clone(),
        }
    }

    /// The `Debug` text of these settings, with the password redacted.
    pub fn debug_text(&self) -> (r: String)
        ensures
            r@ == args_debug(
                false,
                self.internal_oauth_token_url@,
                self.internal_oauth_client_id@,
                self.internal_oauth_scope@,
                self.internal_oauth_username@,
            ),
    {
        self.render_debug(false)
    }

    /// The alternate (`{:#?}`) `Debug` text of these settings, one field
    /// per line, with the password redacted.
    pub fn debug_text_pretty(&self) -> (r: String)
        ensures
            r@ == args_debug(
                true,
                self.internal_oauth_token_url@,
                self.internal_oauth_client_id@,
                self.internal_oauth_scope@,
                self.internal_oauth_username@,
            ),
    {
        self.render_debug(true)
    }

    fn render_debug(&self, pretty: bool) -> (r: String)
        ensures
            r@ == args_debug(
                pretty,
                self.internal_oauth_token_url@,
                self.internal_oauth_client_id@,
                self.internal_oauth_scope@,
                self.internal_oauth_username@,
            ),
    {
        render_redacted(
            pretty,
            "InternalOAuthArgs",
            "internal_oauth_token_url",
            self.internal_oauth_token_url.as_str(),
            "internal_oauth_client_id",
            self.internal_oauth_client_id.as_str(),
            "internal_oauth_scope",
            self.internal_oauth_scope.as_str(),
            "internal_oauth_username",
            self.internal_oauth_username.as_str(),
            "internal_oauth_password",
        )
    }
}

/// Law: the `Debug` text of credentials, in either form, does not depend
/// on the password: two credentials that differ only in their password
/// print alike.
pub proof fn law_debug_text_never_shows_password(pretty: bool, a: OAuthCredentials, b: OAuthCredentials)
    requires
        a.token_url@ == b.token_url@,
        a.client_id@ == b.client_id@,
        a.scope@ == b.scope@,
        a.username@ == b.username@,
    ensures
        credentials_debug(pretty, a.token_url@, a.client_id@, a.scope@, a.username@) == credentials_debug(
            pretty,
            b.token_url@,
            b.client_id@,
            b.scope@,
            b.username@,
        ),
{
}

/// Law: a cache that holds token `t` with deadline `d` hands `t` out at
/// every clock reading strictly before `d`, and nothing at `d` or later;
/// an empty cache hands out nothing.
pub proof fn law_cached_token_is_fresh_until_its_deadline(t: Seq<char>, d: Instant, now: Instant)
    ensures
        instant_lt(now, d) ==> fresh_token(Some((t, d)), now) == Some(t),
        !instant_lt(now, d) ==> fresh_token(Some((t, d)), now) is None,
        fresh_token(None, now) is None,
{
}

/// Law: a token cached with the deadline of the moment it was fetched
/// (what a lifetime no longer than the refresh margin gives) is handed out
/// at no clock reading from that moment on.
pub proof fn law_short_lived_token_is_never_reused(t: Seq<char>, fetched_at: Instant, later: Instant)
    ensures
        !instant_lt(later, fetched_at) ==> fresh_token(Some((t, fetched_at)), later) is None,
{
}

/// Law: the deadline is `now` advanced by the token's lifetime less the
/// 30-second margin (never below zero) whenever the clock can represent
/// that instant; only when it cannot is the one-day window tried, and only
/// when that fails too is the deadline `now`.
pub proof fn law_full_window_whenever_representable(now: Instant, expires_in: u64)
    ensures
        ({
            let window: u64 = if expires_in >= 30 { (expires_in - 30) as u64 } else { 0 };
            &&& instant_plus_secs(now, window) matches Some(t) ==> refresh_deadline(now, expires_in) == t
            &&& instant_plus_secs(now, window) is None ==> refresh_deadline(now, expires_in) == match instant_plus_secs(
                now,
                86400,
            ) {
                Some(t) => t,
                None => now,
            }
        }),
{
}

} // verus!
