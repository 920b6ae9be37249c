//! Addresses of the game-catalog service and its token endpoint.

use vstd::prelude::*;

verus! {

/// Root of the catalog service's API.
pub const BASE_URL: &'static str = "https://api.igdb.com/v4";

/// The catalog endpoints that are queried.
#[derive(Clone, Copy, Debug, PartialEq, Eq, Structural)]
pub enum RequestType {
    Games,
    Covers,
}

/// The path segment of an endpoint.
pub open spec fn request_path(t: RequestType) -> Seq<char> {
    match t {
        RequestType::Games => "games"@,
        RequestType::Covers => "covers"@,
    }
}

impl RequestType {
    pub fn as_str(&self) -> (r: &'static str)
        ensures
            r@ == request_path(*self),
    {
        match self {
            RequestType::Games => "games",
            RequestType::Covers => "covers",
        }
    }
}

/// The token request address for the given client credentials.
pub fn format_access_url(client_id: &str, secret_key: &str) -> (r: String)
    ensures
        r@ == "https://id.twitch.tv/oauth2/token?client_id="@ + client_id@ + "&client_secret="@
            + secret_key@ + "&grant_type=client_credentials"@,
{
    let mut url = "https://id.twitch.tv/oauth2/token?client_id=".to_owned();
    url.append(client_id);
    url.append("&client_secret=");
    url.append(secret_key);
    url.append("&grant_type=client_credentials");
    url
}

/// The address of an endpoint: the API root, `/`, and its path segment.
pub fn get_post_url(t: RequestType) -> (r: String)
    ensures
        r@ == BASE_URL@ + "/"@ + request_path(t),
{
    let mut url = BASE_URL.to_owned();
    url.append("/");
    url.append(t.as_str());
    url
}

/// Answer to a games query.
pub struct GetGamesResponse {}

/// Answer to a covers query.
pub struct GetCoverResponse {}

} // verus!
