//! The OAuth2 side of the music-service producer: the token record kept for
//! an application, the form bodies of the two token requests, what a poll
//! must do with the stored token, and the text it broadcasts.
//!
//! Times are whole seconds since the Unix epoch, in UTC.
use vstd::prelude::*;
use vstd::string::*;

verus! {

/// The one application whose authorization codes are accepted.
pub const SPOTIFY_APP: &'static str = "spotify";

/// What an authorization-code exchange needs.
pub struct ExchangeCodePayload {
    pub code: String,
    pub redirect_uri: String,
    pub client_id: String,
    pub client_secret: String,
    pub get_token_url: String,
}

/// The token endpoint's answer to an authorization-code exchange.
pub struct OAuth2Tokens {
    pub access_token: String,
    pub refresh_token: String,
    pub expires_in: u64,
}

/// What a refresh of the access token needs.
pub struct RefreshTokenPayload {
    pub client_id: String,
    pub client_secret: String,
    pub refresh_token: String,
    pub get_token_url: String,
}

/// The token endpoint's answer to a refresh.
pub struct RefreshedTokenResponse {
    pub access_token: String,
    pub expires_in: u64,
}

/// The stored OAuth2 state of one application.
pub struct OAuth2Token {
    pub app_name: String,
    pub client_secret: String,
    pub client_id: String,
    pub redirect_uri: String,
    pub access_token: String,
    pub refresh_token: String,
    pub expires_at: i64,
    pub code: String,
    pub get_token_url: String,
    pub created_at: i64,
}

/// An authorization code posted for an application.
pub struct OAuth2CodeSubmission {
    pub code: String,
    pub app_name: String,
    pub client_secret: String,
    pub client_id: String,
    pub redirect_uri: String,
    pub get_token_url: String,
}

/// An authorization code was posted for an application that is not served.
#[derive(Debug, Clone, Copy, PartialEq, Eq, Structural)]
pub enum SubmissionError {
    InvalidAppName,
}

/// Views of the string pairs of a form body.
pub open spec fn form_view(v: Seq<(String, String)>) -> Seq<(Seq<char>, Seq<char>)> {
    v.map_values(|p: (String, String)| (p.0@, p.1@))
}

fn pair(k: &str, v: &String) -> (r: (String, String))
    ensures
        r.0@ == k@,
        r.1@ == v@,
{
    (k.to_owned(), v.clone())
}

/// The form body of an authorization-code exchange.
pub fn exchange_form(p: &ExchangeCodePayload) -> (r: Vec<(String, String)>)
    ensures
        form_view(r@) == seq![
            ("grant_type"@, "authorization_code"@),
            ("code"@, p.code@),
            ("redirect_uri"@, p.redirect_uri@),
            ("client_id"@, p.client_id@),
            ("client_secret"@, p.client_secret@),
        ],
{
    let mut r: Vec<(String, String)> = Vec::new();
    r.push(("grant_type".to_owned(), "authorization_code".to_owned()));
    r.push(pair("code", &p.code));
    r.push(pair("redirect_uri", &p.redirect_uri));
    r.push(pair("client_id", &p.client_id));
    r.push(pair("client_secret", &p.client_secret));
    assert(form_view(r@) =~= seq![
        ("grant_type"@, "authorization_code"@),
        ("code"@, p.code@),
        ("redirect_uri"@, p.redirect_uri@),
        ("client_id"@, p.client_id@),
        ("client_secret"@, p.client_secret@),
    ]);
    r
}

/// The form body of an access-token refresh.
pub fn refresh_form(p: &RefreshTokenPayload) -> (r: Vec<(String, String)>)
    ensures
        form_view(r@) == seq![
            ("grant_type"@, "refresh_token"@),
            ("refresh_token"@, p.refresh_token@),
            ("client_id"@, p.client_id@),
            ("client_secret"@, p.client_secret@),
        ],
{
    let mut r: Vec<(String, String)> = Vec::new();
    r.push(("grant_type".to_owned(), "refresh_token".to_owned()));
    r.push(pair("refresh_token", &p.refresh_token));
    r.push(pair("client_id", &p.client_id));
    r.push(pair("client_secret", &p.client_secret));
    assert(form_view(r@) =~= seq![
        ("grant_type"@, "refresh_token"@),
        ("refresh_token"@, p.refresh_token@),
        ("client_id"@, p.client_id@),
        ("client_secret"@, p.client_secret@),
    ]);
    r
}

impl OAuth2Token {
    /// The exchange request for this record's authorization code.
    pub fn exchange_payload(&self) -> (r: ExchangeCodePayload)
        ensures
            r.code@ == self.code@,
            r.redirect_uri@ == self.redirect_uri@,
            r.client_id@ == self.client_id@,
            r.client_secret@ == self.client_secret@,
            r.get_token_url@ == self.get_token_url@,
    {
        ExchangeCodePayload {
            code: self.code.clone(),
            redirect_uri: self.redirect_uri.clone(),
            client_id: self.client_id.clone(),
            client_secret: self.client_secret.clone(),
            get_token_url: self.get_token_url.clone(),
        }
    }

    /// The refresh request for this record's refresh token.
    pub fn refresh_payload(&self) -> (r: RefreshTokenPayload)
        ensures
            r.client_id@ == self.client_id@,
            r.client_secret@ == self.client_secret@,
            r.refresh_token@ == self.refresh_token@,
            r.get_token_url@ == self.get_token_url@,
    {
        RefreshTokenPayload {
            client_id: self.client_id.clone(),
            client_secret: self.client_secret.clone(),
            refresh_token: self.refresh_token.clone(),
            get_token_url: self.get_token_url.clone(),
        }
    }
}

/// `now + seconds`, held at the largest representable time.
pub open spec fn expiry_spec(now: i64, seconds: u64) -> int {
    if now + seconds > i64::MAX {
        i64::MAX as int
    } else {
        now + seconds
    }
}

/// When a token that lives `expires_in` seconds from `now` expires.
pub fn expiry_after(now: i64, expires_in: u64) -> (r: i64)
    ensures
        r == expiry_spec(now, expires_in),
{
    if now < 0 {
        let back = (0 - (now as i128)) as u64;
        if expires_in <= back {
            (now as i128 + expires_in as i128) as i64
        } else {
            let ahead = expires_in - back;
            if ahead > i64::MAX as u64 {
                i64::MAX
            } else {
                ahead as i64
            }
        }
    } else {
        let room = (i64::MAX - now) as u64;
        if expires_in > room {
            i64::MAX
        } else {
            now + expires_in as i64
        }
    }
}

/// The record kept when an authorization code is posted at `now`: accepted
/// only for the served application, with no tokens yet, so that the next
/// poll exchanges the code.
pub fn accept_code_submission(s: OAuth2CodeSubmission, now: i64) -> (r: Result<
    OAuth2Token,
    SubmissionError,
>)
    ensures
        (s.app_name@ == SPOTIFY_APP@) == r is Ok,
        r matches Ok(t) ==> {
            &&& t.app_name@ == s.app_name@
            &&& t.client_secret@ == s.client_secret@
            &&& t.client_id@ == s.client_id@
            &&& t.redirect_uri@ == s.redirect_uri@
            &&& t.access_token@.len() == 0
            &&& t.refresh_token@.len() == 0
            &&& t.expires_at == now
            &&& t.code@ == s.code@
            &&& t.get_token_url@ == s.get_token_url@
            &&& t.created_at == now
        },
        r matches Err(e) ==> e == SubmissionError::InvalidAppName,
{
    let served = SPOTIFY_APP.to_owned();
    if s.app_name != served {
        return Err(SubmissionError::InvalidAppName);
    }
    Ok(
        OAuth2Token {
            app_name: s.app_name,
            client_secret: s.client_secret,
            client_id: s.client_id,
            redirect_uri: s.redirect_uri,
            access_token: String::new(),
            refresh_token: String::new(),
            expires_at: now,
            code: s.code,
            get_token_url: s.get_token_url,
            created_at: now,
        },
    )
}

/// What one poll does with the stored token before asking for the track.
#[derive(Debug, Clone, Copy, PartialEq, Eq, Structural)]
pub struct TokenPlan {
    /// Exchange the authorization code: a token is missing.
    pub exchange_code: bool,
    /// Refresh the access token: it has expired.
    pub refresh: bool,
}

/// The plan for a poll at `now`.
pub fn token_plan(t: &OAuth2Token, now: i64) -> (r: TokenPlan)
    ensures
        r.exchange_code == (t.access_token@.len() == 0 || t.refresh_token@.len() == 0),
        r.refresh == (now >= t.expires_at),
{
    TokenPlan {
        exchange_code: t.access_token.as_str().is_empty() || t.refresh_token.as_str().is_empty(),
        refresh: now >= t.expires_at,
    }
}

/// "artist - track", when both are known.
pub fn format_track(track_name: Option<String>, artist_name: Option<String>) -> (r: Option<String>)
    ensures
        (track_name is Some && artist_name is Some) == r is Some,
        r matches Some(s) ==> s@ == artist_name.unwrap()@ + " - "@ + track_name.unwrap()@,
{
    match (track_name, artist_name) {
        (Some(track), Some(artist)) => {
            let s = artist.concat(" - ").concat(track.as_str());
            Some(s)
        },
        _ => None,
    }
}

/// The text broadcast for the track now playing.
pub fn now_playing_text(track: &str) -> (r: String)
    ensures
        r@ == "Currently playing: "@ + track@,
{
    "Currently playing: ".to_owned().concat(track)
}

} // verus!
