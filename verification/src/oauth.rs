//! Login-related data types and the authorization URL.
//!
//! The login flow itself — exchanging codes, fetching the user, sessions —
//! is HTTP plumbing and lives outside; these are the values it passes
//! around, and the one piece of real computation: assembling the
//! authorization URL with percent-encoded parameters.

use vstd::prelude::*;

verus! {

/// OAuth client settings, extracted from the service configuration.
#[derive(Debug, Clone)]
pub struct OAuthBundle {
    pub client_id: String,
    pub client_secret: String,
    pub redirect_uri: String,
}

/// The token endpoint's response.
#[derive(Debug, Clone)]
pub struct TokenResponse {
    pub access_token: String,
    pub token_type: String,
    pub expires_in: u64,
    pub refresh_token: String,
    pub scope: String,
}

/// The identity provider's view of a user.
#[derive(Debug, Clone)]
pub struct DiscordUser {
    pub id: String,
    pub username: String,
    pub avatar: Option<String>,
    pub banner: Option<String>,
    pub accent_color: Option<u32>,
    pub global_name: Option<String>,
}

/// An authenticated caller of the service's own interface.
#[derive(Debug, Clone)]
pub struct APIUser {
    pub user_id: String,
    pub username: String,
}

/// What percent-encoding makes of a string: every byte except
/// alphanumerics and `-`, `_`, `.`, `~` becomes a percent escape.
pub uninterp spec fn url_encoded(s: Seq<char>) -> Seq<char>;

/// Relies on `urlencoding::encode`: percent-encodes every byte except
/// alphanumerics and `-`, `_`, `.`, `~`; a function of its input alone.
#[verifier::external_body]
fn url_encode(s: &str) -> (r: String)
    ensures
        r@ == url_encoded(s@),
        s@.len() == 0 ==> r@.len() == 0,
{
    urlencoding::encode(s).into_owned()
}

/// The URL a login sends the user to: the identity provider's
/// authorization endpoint, carrying the client id, the percent-encoded
/// redirect target and state, and the fixed response type and scopes.
pub fn authorization_url(state: &str, cfg: &OAuthBundle) -> (r: String)
    ensures
        r@ == "https://discord.com/api/oauth2/authorize?client_id="@ + cfg.client_id@
            + "&redirect_uri="@ + url_encoded(cfg.redirect_uri@)
            + "&response_type=code&scope=identify+openid&state="@ + url_encoded(state@),
{
    let mut url: String = String::from_str("https://discord.com/api/oauth2/authorize?client_id=");
    url.append(cfg.client_id.as_str());
    url.append("&redirect_uri=");
    let encoded_redirect = url_encode(cfg.redirect_uri.as_str());
    url.append(encoded_redirect.as_str());
    url.append("&response_type=code&scope=identify+openid&state=");
    let encoded_state = url_encode(state);
    url.append(encoded_state.as_str());
    url
}

} // verus!
