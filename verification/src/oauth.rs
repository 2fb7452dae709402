//! An access token that is renewed when it runs out.

use crate::urlencoding::{encode, encoded};
use vstd::prelude::*;
use vstd::string::*;
use vstd::utf8::encode_utf8;

verus! {

pub const NANOS_PER_SEC: u128 = 1_000_000_000;

/// A token that counts as used up this many seconds before it expires.
pub const MARGIN_SECS: u128 = 60;

/// An access token and when it expires, in nanoseconds on the manager's clock.
pub struct CachedToken {
    pub token: String,
    pub expires_at: u128,
}

/// Holds a cached access token and renews it when it expires.
pub struct OAuthTokenManager {
    pub client_id: String,
    pub client_secret: String,
    pub refresh_token: String,
    pub cached: Option<CachedToken>,
}

/// What to do to get an access token.
pub enum TokenStep {
    /// Use the cached token.
    Use(String),
    /// Post this form body to the token endpoint.
    Request(String),
}

/// How the token endpoint answered.
pub enum TokenReply {
    /// The request failed.
    Unreachable,
    /// The status was not one of success; the answer's text.
    Refused(String),
    /// The answer could not be parsed.
    Unreadable,
    /// A new token and the seconds that it is valid for.
    Granted { token: String, expires_in: u64 },
}

pub enum TokenError {
    Request,
    Refused(String),
    Parse,
}

/// The form body that asks for a new access token.
pub open spec fn refresh_form(
    client_id: Seq<char>,
    client_secret: Seq<char>,
    refresh_token: Seq<char>,
) -> Seq<char> {
    "client_id="@ + encoded(encode_utf8(client_id)) + "&client_secret="@ + encoded(
        encode_utf8(client_secret),
    ) + "&refresh_token="@ + encoded(encode_utf8(refresh_token)) + "&grant_type=refresh_token"@
}

/// More than the margin is left, in whole seconds, before `expires_at`.
pub open spec fn fresh(expires_at: int, now: int) -> bool {
    expires_at >= now && (expires_at - now) / NANOS_PER_SEC as int > MARGIN_SECS
}

impl OAuthTokenManager {
    /// The cached token may be used at `now`.
    pub open spec fn has_fresh_token(&self, now: int) -> bool {
        self.cached matches Some(c) && fresh(c.expires_at as int, now)
    }

    /// The same credentials.
    pub open spec fn same_credentials(&self, other: &OAuthTokenManager) -> bool {
        &&& self.client_id == other.client_id
        &&& self.client_secret == other.client_secret
        &&& self.refresh_token == other.refresh_token
    }

    pub fn new(client_id: String, client_secret: String, refresh_token: String) -> (r: Self)
        ensures
            r.client_id == client_id,
            r.client_secret == client_secret,
            r.refresh_token == refresh_token,
            r.cached is None,
    {
        OAuthTokenManager { client_id, client_secret, refresh_token, cached: None }
    }

    /// The cached token where it has more than the margin left, else the request for a
    /// new one.
    pub fn access_token(&self, now: u128) -> (r: TokenStep)
        ensures
            self.has_fresh_token(now as int) ==> r == TokenStep::Use(self.cached->0.token),
            !self.has_fresh_token(now as int) ==> (r matches TokenStep::Request(body) && body@
                == refresh_form(self.client_id@, self.client_secret@, self.refresh_token@)),
    {
        if let Some(c) = &self.cached {
            if c.expires_at >= now && (c.expires_at - now) / NANOS_PER_SEC > MARGIN_SECS {
                return TokenStep::Use(c.token.clone());
            }
        }
        let mut body: String = "client_id=".to_owned();
        body.append(encode(self.client_id.as_str()).as_str());
        body.append("&client_secret=");
        body.append(encode(self.client_secret.as_str()).as_str());
        body.append("&refresh_token=");
        body.append(encode(self.refresh_token.as_str()).as_str());
        body.append("&grant_type=refresh_token");
        TokenStep::Request(body)
    }

    /// Takes the answer of the token endpoint, which came at `now`: a granted token is
    /// cached and returned; after any other answer the cache is what it was.
    pub fn take_reply(&mut self, reply: TokenReply, now: u128) -> (r: Result<String, TokenError>)
        requires
            reply matches TokenReply::Granted { expires_in, .. } ==> now + expires_in
                * NANOS_PER_SEC <= u128::MAX,
        ensures
            final(self).same_credentials(old(self)),
            match reply {
                TokenReply::Unreachable => r == Err::<String, TokenError>(TokenError::Request)
                    && final(self).cached == old(self).cached,
                TokenReply::Refused(text) => r == Err::<String, TokenError>(
                    TokenError::Refused(text),
                ) && final(self).cached == old(self).cached,
                TokenReply::Unreadable => r == Err::<String, TokenError>(TokenError::Parse)
                    && final(self).cached == old(self).cached,
                TokenReply::Granted { token, expires_in } => {
                    &&& r == Ok::<String, TokenError>(token)
                    &&& final(self).cached matches Some(c) && c.token == token && c.expires_at
                        == now + expires_in * NANOS_PER_SEC
                },
            },
    {
        match reply {
            TokenReply::Unreachable => Err(TokenError::Request),
            TokenReply::Refused(text) => Err(TokenError::Refused(text)),
            TokenReply::Unreadable => Err(TokenError::Parse),
            TokenReply::Granted { token, expires_in } => {
                let expires_at: u128 = now + expires_in as u128 * NANOS_PER_SEC;
                self.cached = Some(CachedToken { token: token.clone(), expires_at });
                Ok(token)
            },
        }
    }
}

impl TokenError {
    /// The error in words.
    pub fn message(&self) -> (r: String)
        ensures
            r@ == (match self {
                TokenError::Request => "OAuth2 token request failed"@,
                TokenError::Refused(text) => "OAuth2 token refresh failed: "@ + text@,
                TokenError::Parse => "Parsing OAuth2 token response"@,
            }),
    {
        match self {
            TokenError::Request => "OAuth2 token request failed".to_owned(),
            TokenError::Refused(text) => {
                let mut m: String = "OAuth2 token refresh failed: ".to_owned();
                m.append(text.as_str());
                m
            },
            TokenError::Parse => "Parsing OAuth2 token response".to_owned(),
        }
    }
}

/// A token granted at `granted` for `expires_in` seconds is used for as long as more than
/// the margin of whole seconds is left of them, and then no longer.
pub proof fn law_granted_token_lifetime(granted: int, expires_in: int, now: int)
    requires
        0 <= granted <= now,
        0 <= expires_in,
    ensures
        fresh(granted + expires_in * NANOS_PER_SEC, now) <==> now - granted <= (expires_in
            - MARGIN_SECS - 1) * NANOS_PER_SEC,
{
}

/// A token is used if and only if at least 61 seconds are left of it, to the nanosecond.
pub proof fn law_a_minute_is_left(manager: OAuthTokenManager, now: int)
    requires
        0 <= now,
    ensures
        manager.has_fresh_token(now) <==> manager.cached is Some && manager.cached->0.expires_at
            - now >= 61_000_000_000,
        NANOS_PER_SEC == 1_000_000_000,
{
}

/// The form has four fields in a fixed order. Each credential stands whole in its own, encoded
/// by itself, so no credential reaches into another field.
pub proof fn law_form_fields(id: Seq<char>, secret: Seq<char>, token: Seq<char>)
    ensures
        ({
            let form = refresh_form(id, secret, token);
            let a = encoded(encode_utf8(id));
            let b = encoded(encode_utf8(secret));
            let c = encoded(encode_utf8(token));
            form == "client_id="@ + a + "&client_secret="@ + b + "&refresh_token="@ + c
                + "&grant_type=refresh_token"@ && !a.contains('&') && !b.contains('&')
                && !c.contains('&')
        }),
{
    assert forall|s: Seq<u8>, i: int| 0 <= i < encoded(s).len() implies #[trigger] encoded(s)[i]
        != '&' by {
        crate::urlencoding::law_only_safe_characters(s, i);
    }
}

/// Managers have the same credentials if and only if all three of them agree.
pub proof fn law_same_credentials(a: OAuthTokenManager, b: OAuthTokenManager)
    ensures
        a.same_credentials(&b) <==> a.client_id == b.client_id && a.client_secret
            == b.client_secret && a.refresh_token == b.refresh_token,
{
}

} // verus!
