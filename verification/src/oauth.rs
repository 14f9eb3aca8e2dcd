//! The device-flow data model and the decisions over its responses. The
//! HTTP requests that obtain the responses live outside the crate.

use vstd::prelude::*;
use crate::store::opt_view;

verus! {

/// The directory service's answer to a device-code request.
#[derive(Debug, Clone)]
pub struct DeviceCodeResponse {
    pub device_code: String,
    pub user_code: String,
    pub verification_uri: String,
    pub expires_in: i64,
    pub interval: i64,
}

/// The directory service's answer to a token poll.
#[derive(Debug, Clone)]
pub struct TokenResponse {
    pub access_token: Option<String>,
    pub error: Option<String>,
    pub error_description: Option<String>,
}

/// What the login surface shows while the user confirms the code.
#[derive(Debug, Clone)]
pub struct AuthState {
    pub device_code: String,
    pub user_code: String,
    pub verification_uri: String,
    pub interval: i64,
}

/// The login state a device-code response starts.
pub fn auth_state_of(r: DeviceCodeResponse) -> (a: AuthState)
    ensures
        a.device_code@ == r.device_code@,
        a.user_code@ == r.user_code@,
        a.verification_uri@ == r.verification_uri@,
        a.interval == r.interval,
{
    AuthState {
        device_code: r.device_code,
        user_code: r.user_code,
        verification_uri: r.verification_uri,
        interval: r.interval,
    }
}

/// The token a poll response carries: an error field means no token,
/// whatever else the response holds; otherwise the token, when present.
pub fn token_from_response(r: TokenResponse) -> (t: Option<String>)
    ensures
        opt_view(t) == (if r.error is Some {
            None::<Seq<char>>
        } else {
            opt_view(r.access_token)
        }),
{
    if r.error.is_some() {
        return None;
    }
    r.access_token
}

} // verus!
