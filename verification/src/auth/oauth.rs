use vstd::prelude::*;

use crate::text::{
    ascii_lowercase, chars_equal, chars_of, nat_decimal, push_str, push_u128_decimal,
    lemma_split_at_char_nonempty, split_at_char, split_char, string_of, to_ascii_lowercase,
};

verus! {

/// Identity providers that can sign users in.
#[derive(Debug, Clone, Copy, PartialEq, Eq, Structural)]
pub enum OAuthProvider {
    Google,
    GitHub,
    Apple,
    Discord,
    Custom,
}

/// The lowercase name of a provider.
pub open spec fn provider_name(p: OAuthProvider) -> Seq<char> {
    match p {
        OAuthProvider::Google => "google"@,
        OAuthProvider::GitHub => "github"@,
        OAuthProvider::Apple => "apple"@,
        OAuthProvider::Discord => "discord"@,
        OAuthProvider::Custom => "custom"@,
    }
}

/// The provider whose name equals `s` ignoring ASCII case.
pub open spec fn spec_parse_provider(s: Seq<char>) -> Option<OAuthProvider> {
    let l = ascii_lowercase(s);
    if l == "google"@ {
        Some(OAuthProvider::Google)
    } else if l == "github"@ {
        Some(OAuthProvider::GitHub)
    } else if l == "apple"@ {
        Some(OAuthProvider::Apple)
    } else if l == "discord"@ {
        Some(OAuthProvider::Discord)
    } else if l == "custom"@ {
        Some(OAuthProvider::Custom)
    } else {
        None
    }
}

fn lit_chars(s: &str) -> (v: Vec<char>)
    ensures
        v@ == s@,
{
    chars_of(s)
}

/// The provider named by `s`, ignoring ASCII case.
pub fn parse_provider(s: &str) -> (r: Option<OAuthProvider>)
    ensures
        r == spec_parse_provider(s@),
{
    let l = to_ascii_lowercase(s);
    if chars_equal(l.as_slice(), lit_chars("google").as_slice()) {
        Some(OAuthProvider::Google)
    } else if chars_equal(l.as_slice(), lit_chars("github").as_slice()) {
        Some(OAuthProvider::GitHub)
    } else if chars_equal(l.as_slice(), lit_chars("apple").as_slice()) {
        Some(OAuthProvider::Apple)
    } else if chars_equal(l.as_slice(), lit_chars("discord").as_slice()) {
        Some(OAuthProvider::Discord)
    } else if chars_equal(l.as_slice(), lit_chars("custom").as_slice()) {
        Some(OAuthProvider::Custom)
    } else {
        None
    }
}

impl std::str::FromStr for OAuthProvider {
    type Err = &'static str;

    fn from_str(s: &str) -> (r: Result<Self, Self::Err>)
        ensures
            match spec_parse_provider(s@) {
                Some(p) => r == Ok::<OAuthProvider, &'static str>(p),
                None => r matches Err(m) && m@ == "unsupported oauth provider"@,
            },
    {
        match parse_provider(s) {
            Some(p) => Ok(p),
            None => Err("unsupported oauth provider"),
        }
    }
}

impl OAuthProvider {
    /// The provider's lowercase name.
    pub fn name(&self) -> (s: &'static str)
        ensures
            s@ == provider_name(*self),
    {
        match self {
            OAuthProvider::Google => "google",
            OAuthProvider::GitHub => "github",
            OAuthProvider::Apple => "apple",
            OAuthProvider::Discord => "discord",
            OAuthProvider::Custom => "custom",
        }
    }
}

/// Where to send the user to sign in with a provider.
#[derive(Debug, Clone)]
pub struct OAuthAuthorizeResponse {
    pub provider: String,
    pub url: String,
    pub state: String,
}

/// What a provider sends back after the user signed in.
#[derive(Debug, Clone)]
pub struct OAuthCallbackRequest {
    pub provider: String,
    pub code: String,
    pub state: Option<String>,
    pub email: Option<String>,
    pub username: Option<String>,
}

/// Tokens issued for an authorization code.
#[derive(Debug, Clone)]
pub struct OAuthTokenResponse {
    pub access_token: String,
    pub token_type: String,
    pub expires_in: Option<u64>,
    pub refresh_token: Option<String>,
    pub scope: Option<String>,
}

/// The profile of a user signed in through a provider.
#[derive(Debug, Clone)]
pub struct OAuthUserProfile {
    pub provider_user_id: String,
    pub email: String,
    pub username: String,
    pub avatar_url: Option<String>,
}

/// The error for a provider name that is not supported.
pub open spec fn unsupported_provider() -> Seq<char> {
    "unsupported oauth provider"@
}

/// The authorization endpoint of a provider.
pub open spec fn auth_endpoint(p: OAuthProvider) -> Seq<char> {
    match p {
        OAuthProvider::Google => "https://accounts.google.com/o/oauth2/v2/auth"@,
        OAuthProvider::GitHub => "https://github.com/login/oauth/authorize"@,
        OAuthProvider::Apple => "https://appleid.apple.com/auth/authorize"@,
        OAuthProvider::Discord => "https://discord.com/api/oauth2/authorize"@,
        OAuthProvider::Custom => "https://auth.example.com/oauth/authorize"@,
    }
}

fn endpoint_of(p: OAuthProvider) -> (s: &'static str)
    ensures
        s@ == auth_endpoint(p),
{
    match p {
        OAuthProvider::Google => "https://accounts.google.com/o/oauth2/v2/auth",
        OAuthProvider::GitHub => "https://github.com/login/oauth/authorize",
        OAuthProvider::Apple => "https://appleid.apple.com/auth/authorize",
        OAuthProvider::Discord => "https://discord.com/api/oauth2/authorize",
        OAuthProvider::Custom => "https://auth.example.com/oauth/authorize",
    }
}

/// The state token for a request made at `millis`.
pub open spec fn state_token(millis: u128) -> Seq<char> {
    "st_"@ + nat_decimal(millis as nat)
}

/// The sign-in address for a provider.
pub open spec fn authorize_url(p: OAuthProvider, redirect_uri: Seq<char>, state: Seq<char>) -> Seq<char> {
    auth_endpoint(p) + "?client_id=chocobase_client&redirect_uri="@ + redirect_uri
        + "&response_type=code&state="@ + state + "&scope=email+profile"@
}

/// The sign-in redirect for `provider_str`, with a state token made from `millis`.
pub fn generate_authorize_url_at(provider_str: &str, redirect_uri: &str, millis: u128) -> (r: Result<
    OAuthAuthorizeResponse,
    &'static str,
>)
    ensures
        spec_parse_provider(provider_str@) is None ==> (r matches Err(e) && e@
            == unsupported_provider()),
        match spec_parse_provider(provider_str@) {
            Some(p) => r matches Ok(resp) && resp.provider@ == provider_name(p) && resp.state@
                == state_token(millis) && resp.url@ == authorize_url(
                p,
                redirect_uri@,
                state_token(millis),
            ),
            None => true,
        },
{
    let provider = match parse_provider(provider_str) {
        Some(p) => p,
        None => {
            return Err("unsupported oauth provider");
        },
    };
    let mut st: Vec<char> = Vec::new();
    push_str(&mut st, "st_");
    push_u128_decimal(&mut st, millis);
    let state = string_of(st.as_slice());
    let mut url: Vec<char> = Vec::new();
    push_str(&mut url, endpoint_of(provider));
    push_str(&mut url, "?client_id=chocobase_client&redirect_uri=");
    push_str(&mut url, redirect_uri);
    push_str(&mut url, "&response_type=code&state=");
    push_str(&mut url, state.as_str());
    push_str(&mut url, "&scope=email+profile");
    Ok(
        OAuthAuthorizeResponse {
            provider: provider.name().to_string(),
            url: string_of(url.as_slice()),
            state,
        },
    )
}

/// The sign-in redirect for `provider_str`, with a state token made from the clock.
pub fn generate_authorize_url(provider_str: &str, redirect_uri: &str) -> (r: Result<
    OAuthAuthorizeResponse,
    &'static str,
>)
    ensures
        spec_parse_provider(provider_str@) is None ==> (r matches Err(e) && e@
            == unsupported_provider()),
        match spec_parse_provider(provider_str@) {
            Some(p) => r matches Ok(resp) && resp.provider@ == provider_name(p) && exists|
                millis: u128,
            |
                resp.state@ == state_token(millis) && resp.url@ == authorize_url(
                    p,
                    redirect_uri@,
                    state_token(millis),
                ),
            None => true,
        },
{
    let millis = crate::time::now_millis_wide();
    generate_authorize_url_at(provider_str, redirect_uri, millis)
}

/// Exchanges an authorization code for tokens: the provider must be supported and the
/// code not empty.
pub fn exchange_code_for_token(
    provider_str: &str,
    code: &str,
    _redirect_uri: &str,
    _client_secret: Option<&str>,
) -> (r: Result<OAuthTokenResponse, &'static str>)
    ensures
        spec_parse_provider(provider_str@) is None ==> (r matches Err(e) && e@
            == unsupported_provider()),
        spec_parse_provider(provider_str@) is Some && code@.len() == 0 ==> (r matches Err(e) && e@
            == "authorization code cannot be empty"@),
        spec_parse_provider(provider_str@) is Some && code@.len() > 0 ==> (r matches Ok(t)
            && t.access_token@ == "cb_oauth_tok_"@ + provider_str@ + "_"@ + code@ && t.token_type@
            == "bearer"@ && t.expires_in == Some(3600u64) && (t.refresh_token matches Some(rt) && rt@
            == "cb_oauth_refr_"@ + code@) && (t.scope matches Some(sc) && sc@
            == "read:user user:email"@)),
{
    if parse_provider(provider_str).is_none() {
        return Err("unsupported oauth provider");
    }
    if code.is_empty() {
        return Err("authorization code cannot be empty");
    }
    let mut tok: Vec<char> = Vec::new();
    push_str(&mut tok, "cb_oauth_tok_");
    push_str(&mut tok, provider_str);
    push_str(&mut tok, "_");
    push_str(&mut tok, code);
    let mut refr: Vec<char> = Vec::new();
    push_str(&mut refr, "cb_oauth_refr_");
    push_str(&mut refr, code);
    Ok(
        OAuthTokenResponse {
            access_token: string_of(tok.as_slice()),
            token_type: String::from_str("bearer"),
            expires_in: Some(3600),
            refresh_token: Some(string_of(refr.as_slice())),
            scope: Some(String::from_str("read:user user:email")),
        },
    )
}

/// The username for a profile: the given one, else the part of the email before its
/// first `@`, else the provider's name followed by `_user`.
pub open spec fn profile_username(p: OAuthProvider, email: Option<Seq<char>>, username: Option<Seq<char>>) -> Seq<char> {
    match username {
        Some(u) => u,
        None => match email {
            Some(e) => split_at_char(e, '@')[0],
            None => provider_name(p) + "_user"@,
        },
    }
}

/// The email for a profile: the given one, else the username at the provider's example
/// domain.
pub open spec fn profile_email(p: OAuthProvider, email: Option<Seq<char>>, username: Seq<char>) -> Seq<char> {
    match email {
        Some(e) => e,
        None => username + "@"@ + provider_name(p) + ".example.com"@,
    }
}

/// The characters of an optional text.
pub open spec fn opt_chars(o: Option<&str>) -> Option<Seq<char>> {
    match o {
        Some(s) => Some(s@),
        None => None,
    }
}

/// The profile resolved for a provider from the optional email and username.
pub open spec fn profile_result(
    r: Result<OAuthUserProfile, &'static str>,
    p: OAuthProvider,
    email: Option<Seq<char>>,
    uname: Option<Seq<char>>,
) -> bool {
    let u = profile_username(p, email, uname);
    r matches Ok(prof) && prof.username@ == u && prof.email@ == profile_email(p, email, u)
        && prof.provider_user_id@ == provider_name(p) + "_"@ + u && (prof.avatar_url matches Some(a)
        && a@ == "https://avatars.example.com/"@ + u + ".png"@)
}

/// The profile of the user an access token belongs to, from the details given.
pub fn resolve_user_profile(
    provider_str: &str,
    access_token: &str,
    fallback_email: Option<&str>,
    fallback_username: Option<&str>,
) -> (r: Result<OAuthUserProfile, &'static str>)
    ensures
        spec_parse_provider(provider_str@) is None ==> (r matches Err(e) && e@
            == unsupported_provider()),
        spec_parse_provider(provider_str@) is Some && access_token@.len() == 0 ==> (r matches Err(e)
            && e@ == "access token cannot be empty"@),
        access_token@.len() > 0 ==> match spec_parse_provider(provider_str@) {
            Some(p) => profile_result(r, p, opt_chars(fallback_email), opt_chars(fallback_username)),
            None => true,
        },
{
    let provider = match parse_provider(provider_str) {
        Some(p) => p,
        None => {
            return Err("unsupported oauth provider");
        },
    };
    if access_token.is_empty() {
        return Err("access token cannot be empty");
    }
    let name = provider.name();
    let username: String = match fallback_username {
        Some(u) => u.to_string(),
        None => match fallback_email {
            Some(e) => {
                let cs = chars_of(e);
                let parts = split_char(cs.as_slice(), '@');
                proof {
                    lemma_split_at_char_nonempty(cs@, '@');
                }
                string_of(parts[0].as_slice())
            },
            None => {
                let mut v: Vec<char> = Vec::new();
                push_str(&mut v, name);
                push_str(&mut v, "_user");
                string_of(v.as_slice())
            },
        },
    };
    assert(username@ == profile_username(provider, opt_chars(fallback_email), opt_chars(fallback_username)));
    let email: String = match fallback_email {
        Some(e) => e.to_string(),
        None => {
            let mut v: Vec<char> = Vec::new();
            push_str(&mut v, username.as_str());
            push_str(&mut v, "@");
            push_str(&mut v, name);
            push_str(&mut v, ".example.com");
            string_of(v.as_slice())
        },
    };
    let mut avatar: Vec<char> = Vec::new();
    push_str(&mut avatar, "https://avatars.example.com/");
    push_str(&mut avatar, username.as_str());
    push_str(&mut avatar, ".png");
    let mut pid: Vec<char> = Vec::new();
    push_str(&mut pid, name);
    push_str(&mut pid, "_");
    push_str(&mut pid, username.as_str());
    Ok(
        OAuthUserProfile {
            provider_user_id: string_of(pid.as_slice()),
            email,
            username,
            avatar_url: Some(string_of(avatar.as_slice())),
        },
    )
}

} // verus!
