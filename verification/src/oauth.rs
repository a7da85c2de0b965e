//! OAuth authorization code flow with PKCE: the provider settings, the PKCE
//! pair, the authorization URL, the decisions on the browser's callback
//! request and the replies to it, and the token request's form and errors.
//! Listening, the browser and the HTTP exchange are the caller's.
use vstd::prelude::*;
use base64::Engine;
use sha2::Digest;
use crate::numbers::{decimal, u64_to_string};
use crate::text::{
    chars_of, first_word, lemma_split_nonempty, one_of, pair_views, push_pair, skip_ws,
    skip_ws_from, split_any, string_of_range, take_word, utf8_len, word_end, find_char_vec,
    lemma_find_char, find_char, same_text, slice_chars, push_char, concat,
};

verus! {

pub const OPENAI_CLIENT_ID: &'static str = "app_EMoamEEZ73f0CkXaXp7hrann";

pub const OPENAI_AUTHORIZE_URL: &'static str = "https://auth.openai.com/oauth/authorize";

pub const OPENAI_TOKEN_URL: &'static str = "https://auth.openai.com/oauth/token";

pub const OPENAI_SCOPE: &'static str = "openid profile email offline_access";

pub const REDIRECT_PATH: &'static str = "/auth/callback";

pub const PRIMARY_REDIRECT_PORT: u16 = 1455;

pub const FALLBACK_REDIRECT_PORT: u16 = 1457;

/// Seconds to wait for the browser when the caller names no timeout.
pub const DEFAULT_TIMEOUT_SECS: u64 = 120;

/// The most header bytes read from the callback request.
pub const MAX_HTTP_HEADER_BYTES: usize = 16384;

/// An OAuth provider's endpoints and client settings.
#[derive(Clone, Copy, Debug)]
pub struct ProviderConfig {
    pub client_id: &'static str,
    pub authorize_url: &'static str,
    pub token_url: &'static str,
    pub scope: &'static str,
    pub redirect_path: &'static str,
    pub primary_redirect_port: u16,
    pub fallback_redirect_port: u16,
}

/// The settings of the OpenAI provider.
pub open spec fn is_openai(p: ProviderConfig) -> bool {
    &&& p.client_id@ == OPENAI_CLIENT_ID@
    &&& p.authorize_url@ == OPENAI_AUTHORIZE_URL@
    &&& p.token_url@ == OPENAI_TOKEN_URL@
    &&& p.scope@ == OPENAI_SCOPE@
    &&& p.redirect_path@ == REDIRECT_PATH@
    &&& p.primary_redirect_port == PRIMARY_REDIRECT_PORT
    &&& p.fallback_redirect_port == FALLBACK_REDIRECT_PORT
}

impl ProviderConfig {
    /// The OpenAI provider.
    pub fn openai() -> (r: Self)
        ensures
            is_openai(r),
    {
        ProviderConfig {
            client_id: OPENAI_CLIENT_ID,
            authorize_url: OPENAI_AUTHORIZE_URL,
            token_url: OPENAI_TOKEN_URL,
            scope: OPENAI_SCOPE,
            redirect_path: REDIRECT_PATH,
            primary_redirect_port: PRIMARY_REDIRECT_PORT,
            fallback_redirect_port: FALLBACK_REDIRECT_PORT,
        }
    }
}

/// Why an authorization request is refused before it starts.
#[derive(Debug)]
pub enum OAuthError {
    MissingProvider,
    UnsupportedProvider(String),
    ZeroTimeout,
    InvalidAuthorizeUrl(String),
}

impl OAuthError {
    /// The error's message.
    pub fn message(&self) -> (r: String)
        ensures
            match self {
                OAuthError::MissingProvider => r@ == "Missing 'provider' argument"@,
                OAuthError::UnsupportedProvider(p) => r@ == "Unsupported OAuth provider: "@ + p@,
                OAuthError::ZeroTimeout => r@ == "'timeout_secs' must be greater than 0"@,
                OAuthError::InvalidAuthorizeUrl(u) => r@ == "Invalid authorize URL: "@ + u@,
            },
    {
        match self {
            OAuthError::MissingProvider => String::from_str("Missing 'provider' argument"),
            OAuthError::UnsupportedProvider(p) => {
                let mut m = String::from_str("Unsupported OAuth provider: ");
                m.append(p.as_str());
                m
            },
            OAuthError::ZeroTimeout => String::from_str("'timeout_secs' must be greater than 0"),
            OAuthError::InvalidAuthorizeUrl(u) => {
                let mut m = String::from_str("Invalid authorize URL: ");
                m.append(u.as_str());
                m
            },
        }
    }
}

/// The provider and timeout of an authorization request: the provider must
/// be named and be `openai`; the timeout defaults to 120 seconds and must
/// not be zero.
pub fn authorization_settings(provider: Option<&str>, timeout_secs: Option<u64>) -> (r: Result<
    (ProviderConfig, u64),
    OAuthError,
>)
    ensures
        match provider {
            None => r matches Err(OAuthError::MissingProvider),
            Some(p) => if p@ != "openai"@ {
                r matches Err(OAuthError::UnsupportedProvider(q)) && q@ == p@
            } else {
                match r {
                    Ok((cfg, t)) => is_openai(cfg) && t == (match timeout_secs {
                        Some(t) => t,
                        None => DEFAULT_TIMEOUT_SECS,
                    }) && t > 0,
                    Err(e) => e is ZeroTimeout && timeout_secs == Some(0u64),
                }
            },
        },
{
    let name = match provider {
        Some(p) => p,
        None => {
            return Err(OAuthError::MissingProvider);
        },
    };
    if !same_text(name, "openai") {
        return Err(OAuthError::UnsupportedProvider(name.to_owned()));
    }
    let cfg = ProviderConfig::openai();
    let t = match timeout_secs {
        Some(t) => t,
        None => DEFAULT_TIMEOUT_SECS,
    };
    if t == 0 {
        return Err(OAuthError::ZeroTimeout);
    }
    Ok((cfg, t))
}

// ---------------------------------------------------------------------------
// PKCE

/// The text of `b` in base64 with the URL-safe alphabet and no padding, as
/// the `base64` crate writes it.
pub uninterp spec fn base64_url_no_pad(b: Seq<u8>) -> Seq<char>;

/// A character of the URL-safe base64 alphabet.
pub open spec fn is_url_safe_b64(c: char) -> bool {
    ('A' <= c && c <= 'Z') || ('a' <= c && c <= 'z') || ('0' <= c && c <= '9') || c == '-' || c
        == '_'
}

/// Every character of `s` is in the URL-safe base64 alphabet (so none is `=`).
pub open spec fn url_safe_text(s: Seq<char>) -> bool {
    forall|i: int| 0 <= i < s.len() ==> is_url_safe_b64(#[trigger] s[i])
}

/// `URL_SAFE_NO_PAD.encode` of the `base64` crate: every three bytes become
/// four characters of the URL-safe alphabet, a last one or two bytes become
/// two or three, and no `=` is written. The text is named by
/// [`base64_url_no_pad`]; its length and alphabet are stated.
#[verifier::external_body]
fn base64_url_encode(b: &[u8]) -> (r: String)
    ensures
        r@ == base64_url_no_pad(b@),
        r@.len() == (4 * b@.len() + 2) / 3,
        url_safe_text(r@),
{
    base64::engine::general_purpose::URL_SAFE_NO_PAD.encode(b)
}

/// The SHA-256 digest of `b`.
pub uninterp spec fn sha256(b: Seq<u8>) -> Seq<u8>;

/// `sha2::Sha256::digest`: the 32-byte SHA-256 digest of `b`, named by
/// [`sha256`].
#[verifier::external_body]
fn sha256_digest(b: &[u8]) -> (r: Vec<u8>)
    ensures
        r@ == sha256(b@),
        r@.len() == 32,
{
    sha2::Sha256::digest(b).to_vec()
}

/// `rand::random`: 32 random bytes. Nothing is stated of their values.
#[verifier::external_body]
fn random_bytes_32() -> (r: [u8; 32]) {
    rand::random()
}

/// A random URL-safe string: 32 random bytes in unpadded URL-safe base64,
/// so 43 characters of that alphabet.
pub fn random_urlsafe_string() -> (r: String)
    ensures
        r@.len() == 43,
        url_safe_text(r@),
{
    let bytes = random_bytes_32();
    base64_url_encode(&bytes)
}

/// The PKCE S256 challenge of `verifier`: the SHA-256 digest of its UTF-8
/// bytes in unpadded URL-safe base64.
pub open spec fn challenge_of(verifier: Seq<char>) -> Seq<char> {
    base64_url_no_pad(sha256(vstd::utf8::encode_utf8(verifier)))
}

/// The PKCE S256 challenge of `verifier` (see [`challenge_of`]); 43
/// characters of the URL-safe alphabet.
pub fn pkce_challenge(verifier: &str) -> (r: String)
    ensures
        r@ == challenge_of(verifier@),
        r@.len() == 43,
        url_safe_text(r@),
{
    let digest = sha256_digest(verifier.as_bytes());
    base64_url_encode(digest.as_slice())
}

/// A PKCE verifier and its challenge.
#[derive(Debug)]
pub struct PkcePair {
    pub verifier: String,
    pub challenge: String,
}

/// A fresh PKCE pair: a random 43-character verifier and its challenge.
pub fn generate_pkce_pair() -> (p: PkcePair)
    ensures
        p.verifier@.len() == 43,
        url_safe_text(p.verifier@),
        p.challenge@ == challenge_of(p.verifier@),
        url_safe_text(p.challenge@),
{
    let verifier = random_urlsafe_string();
    let challenge = pkce_challenge(verifier.as_str());
    PkcePair { verifier, challenge }
}

// ---------------------------------------------------------------------------
// Authorization URL and token request

/// `http://localhost:<port><path>`.
pub open spec fn redirect_uri_of(port: u16, path: Seq<char>) -> Seq<char> {
    "http://localhost:"@ + decimal(port as nat) + path
}

/// The redirect URI the provider sends the browser back to.
pub fn callback_redirect_uri(port: u16, path: &str) -> (r: String)
    ensures
        r@ == redirect_uri_of(port, path@),
{
    let mut r = String::from_str("http://localhost:");
    let p = u64_to_string(port as u64);
    r.append(p.as_str());
    r.append(path);
    r
}

/// The URL `base` with `pairs` appended as its form-encoded query, as
/// `url::Url::parse_with_params` serializes it; `None` when `base` is not
/// a URL.
pub uninterp spec fn url_with_params(base: Seq<char>, pairs: Seq<(Seq<char>, Seq<char>)>) -> Option<
    Seq<char>,
>;

#[verifier::external_type_specification]
#[verifier::external_body]
pub struct ExUrlParseError(url::ParseError);

/// `url::Url::parse_with_params`: parses `base` and appends `pairs` to its
/// query in `application/x-www-form-urlencoded` form; the serialized URL is
/// named by [`url_with_params`], an error when `base` does not parse.
#[verifier::external_body]
pub(crate) fn parse_with_params(base: &str, pairs: &Vec<(String, String)>) -> (r: Result<
    String,
    url::ParseError,
>)
    ensures
        match r {
            Ok(u) => url_with_params(base@, pair_views(pairs@)) == Some(u@),
            Err(_) => url_with_params(base@, pair_views(pairs@)) is None,
        },
{
    match url::Url::parse_with_params(base, pairs.iter()) {
        Ok(u) => Ok(u.into()),
        Err(e) => Err(e),
    }
}

/// The query of the authorization URL, in order.
pub open spec fn authorize_pairs(
    p: ProviderConfig,
    redirect_uri: Seq<char>,
    challenge: Seq<char>,
    state: Seq<char>,
) -> Seq<(Seq<char>, Seq<char>)> {
    seq![
        ("client_id"@, p.client_id@),
        ("response_type"@, "code"@),
        ("redirect_uri"@, redirect_uri),
        ("scope"@, p.scope@),
        ("code_challenge"@, challenge),
        ("code_challenge_method"@, "S256"@),
        ("state"@, state),
    ]
}

/// The URL the browser opens: the provider's authorization URL with the
/// client, redirect URI, scope, S256 challenge and state in its query.
pub fn build_authorize_url(
    provider: ProviderConfig,
    redirect_uri: &str,
    code_challenge: &str,
    state: &str,
) -> (r: Result<String, OAuthError>)
    ensures
        match url_with_params(
            provider.authorize_url@,
            authorize_pairs(provider, redirect_uri@, code_challenge@, state@),
        ) {
            Some(u) => r matches Ok(s) && s@ == u,
            None => r matches Err(OAuthError::InvalidAuthorizeUrl(b)) && b@
                == provider.authorize_url@,
        },
{
    let mut pairs: Vec<(String, String)> = Vec::new();
    push_pair(&mut pairs, "client_id", provider.client_id.to_owned());
    push_pair(&mut pairs, "response_type", String::from_str("code"));
    push_pair(&mut pairs, "redirect_uri", redirect_uri.to_owned());
    push_pair(&mut pairs, "scope", provider.scope.to_owned());
    push_pair(&mut pairs, "code_challenge", code_challenge.to_owned());
    push_pair(&mut pairs, "code_challenge_method", String::from_str("S256"));
    push_pair(&mut pairs, "state", state.to_owned());
    assert(pair_views(pairs@) =~= authorize_pairs(
        provider,
        redirect_uri@,
        code_challenge@,
        state@,
    ));
    match parse_with_params(provider.authorize_url, &pairs) {
        Ok(u) => Ok(u),
        Err(_) => Err(OAuthError::InvalidAuthorizeUrl(provider.authorize_url.to_owned())),
    }
}

/// The form of the token request, in order.
pub open spec fn token_pairs(
    p: ProviderConfig,
    redirect_uri: Seq<char>,
    code: Seq<char>,
    verifier: Seq<char>,
) -> Seq<(Seq<char>, Seq<char>)> {
    seq![
        ("grant_type"@, "authorization_code"@),
        ("client_id"@, p.client_id@),
        ("code"@, code),
        ("redirect_uri"@, redirect_uri),
        ("code_verifier"@, verifier),
    ]
}

/// The form fields that exchange the authorization code for tokens.
pub fn token_request_params(
    provider: ProviderConfig,
    redirect_uri: &str,
    code: &str,
    code_verifier: &str,
) -> (r: Vec<(String, String)>)
    ensures
        pair_views(r@) == token_pairs(provider, redirect_uri@, code@, code_verifier@),
{
    let mut pairs: Vec<(String, String)> = Vec::new();
    push_pair(&mut pairs, "grant_type", String::from_str("authorization_code"));
    push_pair(&mut pairs, "client_id", provider.client_id.to_owned());
    push_pair(&mut pairs, "code", code.to_owned());
    push_pair(&mut pairs, "redirect_uri", redirect_uri.to_owned());
    push_pair(&mut pairs, "code_verifier", code_verifier.to_owned());
    assert(pair_views(pairs@) =~= token_pairs(provider, redirect_uri@, code@, code_verifier@));
    pairs
}

/// The tokens the provider returns.
#[derive(Debug)]
pub struct TokenResponse {
    pub access_token: String,
    pub refresh_token: Option<String>,
    pub expires_in: Option<u64>,
    pub token_type: String,
    pub id_token: Option<String>,
}

/// The token type when the provider names none: `Bearer`.
pub fn default_token_type() -> (r: String)
    ensures
        r@ == "Bearer"@,
{
    String::from_str("Bearer")
}


// ---------------------------------------------------------------------------
// The callback request

/// The first line of `s`, as `str::lines` gives it: up to the first `\n`,
/// without a `\r` just before it.
pub open spec fn first_line(s: Seq<char>) -> Seq<char> {
    let n = find_char(s, '\n');
    if n < 0 {
        s
    } else {
        let l = s.take(n);
        if l.len() > 0 && l.last() == '\r' {
            l.drop_last()
        } else {
            l
        }
    }
}

/// What follows the first word of `s`.
pub open spec fn after_first_word(s: Seq<char>) -> Seq<char> {
    skip_ws(s).skip(first_word(s).len() as int)
}

/// The target of an HTTP request: the second word of its first line, when
/// the first word is `GET`.
pub open spec fn request_target_spec(request: Seq<char>) -> Option<Seq<char>> {
    let line = first_line(request);
    let method = first_word(line);
    let target = first_word(after_first_word(line));
    if method.len() == 0 || target.len() == 0 || method != "GET"@ {
        None
    } else {
        Some(target)
    }
}

/// The target of a `GET` request (see [`request_target_spec`]).
pub fn request_target(request: &str) -> (r: Option<String>)
    ensures
        match r {
            Some(t) => request_target_spec(request@) == Some(t@),
            None => request_target_spec(request@) is None,
        },
{
    let cs = chars_of(request);
    let nl = find_char_vec(&cs, '\n');
    proof {
        lemma_find_char(cs@, '\n');
    }
    let mut line_end = match nl {
        Some(n) => n,
        None => cs.len(),
    };
    if nl.is_some() && line_end > 0 && cs[line_end - 1] == '\r' {
        line_end = line_end - 1;
    }
    let line = slice_chars(&cs, 0, line_end);
    proof {
        let n = find_char(cs@, '\n');
        if n < 0 {
            assert(line@ =~= cs@);
        } else if cs@.take(n).len() > 0 && cs@.take(n).last() == '\r' {
            assert(line@ =~= cs@.take(n).drop_last());
        } else {
            assert(line@ =~= cs@.take(n));
        }
        assert(line@ == first_line(request@));
        assert(line@.skip(0) =~= line@);
    }
    let i = skip_ws_from(&line, 0);
    let j = word_end(&line, i);
    let k = skip_ws_from(&line, j);
    let l = word_end(&line, k);
    proof {
        assert(first_word(line@) == line@.subrange(i as int, j as int));
        assert(after_first_word(line@) =~= line@.skip(j as int));
        assert(first_word(after_first_word(line@)) == line@.subrange(k as int, l as int));
    }
    if j == i || l == k {
        return None;
    }
    let method = string_of_range(&line, i, j);
    if !same_text(method.as_str(), "GET") {
        return None;
    }
    Some(string_of_range(&line, k, l))
}

/// How one character is written in HTML text.
pub open spec fn html_escape_char(c: char) -> Seq<char> {
    if c == '&' {
        "&amp;"@
    } else if c == '<' {
        "&lt;"@
    } else if c == '>' {
        "&gt;"@
    } else if c == '"' {
        "&quot;"@
    } else if c == '\'' {
        "&#39;"@
    } else {
        seq![c]
    }
}

/// `s` with `&`, `<`, `>`, `"` and `'` written as HTML entities.
pub open spec fn html_escaped(s: Seq<char>) -> Seq<char>
    decreases s.len(),
{
    if s.len() == 0 {
        Seq::empty()
    } else {
        html_escaped(s.drop_last()) + html_escape_char(s.last())
    }
}

/// `value` made safe to place in HTML text (see [`html_escaped`]).
pub fn html_escape(value: &str) -> (r: String)
    ensures
        r@ == html_escaped(value@),
{
    let cs = chars_of(value);
    let mut out = String::new();
    let mut i: usize = 0;
    while i < cs.len()
        invariant
            cs@ == value@,
            i <= cs@.len(),
            out@ == html_escaped(cs@.take(i as int)),
        decreases cs.len() - i,
    {
        let c = cs[i];
        proof {
            assert(cs@.take(i + 1).drop_last() =~= cs@.take(i as int));
            reveal_strlit("&amp;");
            reveal_strlit("&lt;");
            reveal_strlit("&gt;");
            reveal_strlit("&quot;");
            reveal_strlit("&#39;");
        }
        if c == '&' {
            out.append("&amp;");
        } else if c == '<' {
            out.append("&lt;");
        } else if c == '>' {
            out.append("&gt;");
        } else if c == '"' {
            out.append("&quot;");
        } else if c == '\'' {
            out.append("&#39;");
        } else {
            push_char(&mut out, c);
        }
        proof {
            assert(out@ =~= html_escaped(cs@.take(i as int)) + html_escape_char(c));
        }
        i = i + 1;
    }
    proof {
        assert(cs@.take(cs@.len() as int) =~= cs@);
    }
    out
}

/// The HTML page that carries the text `text`.
pub open spec fn html_page(text: Seq<char>) -> Seq<char> {
    "<!doctype html><html><body><p>"@ + html_escaped(text) + "</p></body></html>"@
}

/// The whole HTTP response to the browser: the status line, an HTML content
/// type, the page's length in bytes, `Connection: close`, then the page.
pub open spec fn http_response_spec(status: Seq<char>, text: Seq<char>) -> Seq<char> {
    "HTTP/1.1 "@ + status + "\r\nContent-Type: text/html; charset=utf-8\r\nContent-Length: "@
        + decimal(utf8_len(html_page(text))) + "\r\nConnection: close\r\n\r\n"@ + html_page(text)
}

/// The HTTP response that shows `body_text` with `status`.
pub fn http_response(status: &str, body_text: &str) -> (r: String)
    ensures
        r@ == http_response_spec(status@, body_text@),
{
    let mut body = String::from_str("<!doctype html><html><body><p>");
    let esc = html_escape(body_text);
    body.append(esc.as_str());
    body.append("</p></body></html>");
    let len = body.as_str().as_bytes().len();
    proof {
        assert(body@ =~= html_page(body_text@));
        assert(len == utf8_len(body@));
    }
    let mut r = String::from_str("HTTP/1.1 ");
    r.append(status);
    r.append("\r\nContent-Type: text/html; charset=utf-8\r\nContent-Length: ");
    let n = u64_to_string(len as u64);
    r.append(n.as_str());
    r.append("\r\nConnection: close\r\n\r\n");
    r.append(body.as_str());
    proof {
        assert(r@ =~= http_response_spec(status@, body_text@));
    }
    r
}

/// Whether the callback request's headers are complete (`\r\n\r\n` seen).
pub open spec fn has_blank_line(b: Seq<u8>) -> bool {
    exists|i: int| 0 <= i && i + 4 <= b.len() && #[trigger] b[i] == 13 && b[i + 1] == 10 && b[i + 2]
        == 13 && b[i + 3] == 10
}

/// What to do after reading a chunk of the callback request.
#[derive(Debug)]
pub enum HeaderRead {
    Complete,
    TooLarge,
    More,
}

/// After a chunk: stop when the headers are complete, fail when more than
/// 16 KiB were read without their end, read on otherwise.
pub fn header_read_step(buffer: &Vec<u8>) -> (r: HeaderRead)
    ensures
        has_blank_line(buffer@) ==> r is Complete,
        !has_blank_line(buffer@) && buffer@.len() > MAX_HTTP_HEADER_BYTES ==> r is TooLarge,
        !has_blank_line(buffer@) && buffer@.len() <= MAX_HTTP_HEADER_BYTES ==> r is More,
{
    let mut i: usize = 0;
    while i < buffer.len() && buffer.len() - i >= 4
        invariant
            i <= buffer@.len(),
            forall|k: int|
                0 <= k < i && k + 4 <= buffer@.len() ==> !(#[trigger] buffer@[k] == 13 && buffer@[k
                    + 1] == 10 && buffer@[k + 2] == 13 && buffer@[k + 3] == 10),
        decreases buffer.len() - i,
    {
        if buffer[i] == 13 && buffer[i + 1] == 10 && buffer[i + 2] == 13 && buffer[i + 3] == 10 {
            return HeaderRead::Complete;
        }
        i = i + 1;
    }
    if buffer.len() > MAX_HTTP_HEADER_BYTES {
        HeaderRead::TooLarge
    } else {
        HeaderRead::More
    }
}

/// The callback URL as the logic reads it: its path and its query pairs.
#[derive(Debug)]
pub struct CallbackUrl {
    pub path: String,
    pub query: Vec<(String, String)>,
}

/// The path and decoded query pairs of the URL `s`, as the `url` crate
/// reads them; `None` when `s` is not a URL.
pub uninterp spec fn url_path_query(s: Seq<char>) -> Option<(Seq<char>, Seq<(Seq<char>, Seq<char>)>)>;

/// `url::Url::parse`, read back as its path and its decoded query pairs
/// (named by [`url_path_query`]); an error when `s` is not a URL.
#[verifier::external_body]
pub(crate) fn parse_url_parts(s: &str) -> (r: Result<CallbackUrl, url::ParseError>)
    ensures
        match r {
            Ok(u) => url_path_query(s@) == Some((u.path@, pair_views(u.query@))),
            Err(_) => url_path_query(s@) is None,
        },
{
    match url::Url::parse(s) {
        Ok(u) => Ok(CallbackUrl { path: u.path().to_string(), query: u.query_pairs().into_owned().collect() }),
        Err(e) => Err(e),
    }
}

/// The value of the last pair named `key`.
pub open spec fn last_value(pairs: Seq<(Seq<char>, Seq<char>)>, key: Seq<char>) -> Option<Seq<char>>
    decreases pairs.len(),
{
    if pairs.len() == 0 {
        None
    } else if pairs.last().0 == key {
        Some(pairs.last().1)
    } else {
        last_value(pairs.drop_last(), key)
    }
}

/// What the browser's callback means for the flow.
#[derive(Debug)]
pub enum CallbackOutcome {
    Authorized { code: String },
    Continue,
    Failed(String),
}

/// What the browser is answered: an HTTP status and a text.
#[derive(Debug)]
pub struct CallbackReply {
    pub status: &'static str,
    pub text: &'static str,
}

/// The meaning of a callback, in plain values.
pub enum CallbackVerdict {
    Authorized(Seq<char>),
    Continue,
    Failed(Seq<char>),
}

/// The outcome's meaning.
pub open spec fn outcome_view(o: CallbackOutcome) -> CallbackVerdict {
    match o {
        CallbackOutcome::Authorized { code } => CallbackVerdict::Authorized(code@),
        CallbackOutcome::Continue => CallbackVerdict::Continue,
        CallbackOutcome::Failed(m) => CallbackVerdict::Failed(m@),
    }
}

pub const STATE_MISMATCH: &'static str = "State mismatch. Please retry from the original authorization window.";

pub const AUTHORIZATION_FAILED: &'static str = "Authorization failed.";

pub const MISSING_CODE: &'static str = "Missing authorization code.";

pub const AUTHORIZED: &'static str = "Authorization successful! You can close this window.";

/// The message of a failure the provider reports.
pub open spec fn failure_message(error: Seq<char>, description: Option<Seq<char>>) -> Seq<char> {
    match description {
        Some(d) => if d.len() > 0 {
            "OAuth authorization failed: "@ + error + " ("@ + d + ")"@
        } else {
            "OAuth authorization failed: "@ + error
        },
        None => "OAuth authorization failed: "@ + error,
    }
}

/// What a callback to `url` (`None`: no target, or not a URL) means, and
/// the status and text it is answered with: the redirect path is required,
/// then the expected state; an `error` from the provider ends the flow; a
/// non-empty `code` completes it; anything else waits for another request.
/// Where a key repeats, its last value counts.
pub open spec fn callback_spec(
    url: Option<(Seq<char>, Seq<(Seq<char>, Seq<char>)>)>,
    redirect_path: Seq<char>,
    expected_state: Seq<char>,
) -> (CallbackVerdict, Seq<char>, Seq<char>) {
    match url {
        None => (CallbackVerdict::Continue, "400 Bad Request"@, "Bad Request"@),
        Some((path, q)) => if path != redirect_path {
            (CallbackVerdict::Continue, "404 Not Found"@, "Not Found"@)
        } else if last_value(q, "state"@) != Some(expected_state) {
            (CallbackVerdict::Continue, "400 Bad Request"@, STATE_MISMATCH@)
        } else if last_value(q, "error"@) is Some {
            (
                CallbackVerdict::Failed(
                    failure_message(
                        last_value(q, "error"@)->0,
                        last_value(q, "error_description"@),
                    ),
                ),
                "400 Bad Request"@,
                AUTHORIZATION_FAILED@,
            )
        } else if last_value(q, "code"@) is None || last_value(q, "code"@)->0.len() == 0 {
            (CallbackVerdict::Continue, "400 Bad Request"@, MISSING_CODE@)
        } else {
            (CallbackVerdict::Authorized(last_value(q, "code"@)->0), "200 OK"@, AUTHORIZED@)
        },
    }
}

fn last_value_of(pairs: &Vec<(String, String)>, key: &str) -> (r: Option<String>)
    ensures
        match r {
            Some(v) => last_value(pair_views(pairs@), key@) == Some(v@),
            None => last_value(pair_views(pairs@), key@) is None,
        },
{
    let mut i = pairs.len();
    assert(pair_views(pairs@).take(i as int) =~= pair_views(pairs@));
    while i > 0
        invariant
            i <= pairs@.len(),
            last_value(pair_views(pairs@), key@) == last_value(pair_views(pairs@).take(i as int), key@),
        decreases i,
    {
        let (k, v) = &pairs[i - 1];
        proof {
            assert(pair_views(pairs@).take(i as int).drop_last() =~= pair_views(pairs@).take(i - 1));
            assert(pair_views(pairs@).take(i as int).last() == (k@, v@));
        }
        if same_text(k.as_str(), key) {
            return Some(v.clone());
        }
        i = i - 1;
    }
    None
}

/// What a callback to the parsed `url` means (see [`callback_spec`]).
pub fn callback_decision(
    url: Option<CallbackUrl>,
    redirect_path: &str,
    expected_state: &str,
) -> (r: (CallbackOutcome, CallbackReply))
    ensures
        ({
            let s = callback_spec(
                match url {
                    Some(u) => Some((u.path@, pair_views(u.query@))),
                    None => None,
                },
                redirect_path@,
                expected_state@,
            );
            outcome_view(r.0) == s.0 && r.1.status@ == s.1 && r.1.text@ == s.2
        }),
{
    let u = match url {
        Some(u) => u,
        None => {
            return (CallbackOutcome::Continue, CallbackReply { status: "400 Bad Request", text: "Bad Request" });
        },
    };
    if !same_text(u.path.as_str(), redirect_path) {
        return (CallbackOutcome::Continue, CallbackReply { status: "404 Not Found", text: "Not Found" });
    }
    let state = last_value_of(&u.query, "state");
    let state_ok = match &state {
        Some(s) => same_text(s.as_str(), expected_state),
        None => false,
    };
    if !state_ok {
        return (CallbackOutcome::Continue, CallbackReply { status: "400 Bad Request", text: STATE_MISMATCH });
    }
    match last_value_of(&u.query, "error") {
        Some(error) => {
            let description = last_value_of(&u.query, "error_description");
            let mut m = String::from_str("OAuth authorization failed: ");
            m.append(error.as_str());
            match description {
                Some(d) => {
                    if !d.as_str().is_empty() {
                        m.append(" (");
                        m.append(d.as_str());
                        m.append(")");
                    }
                },
                None => {},
            }
            proof {
                assert(m@ =~= failure_message(
                    error@,
                    match description {
                        Some(d) => Some(d@),
                        None => None,
                    },
                ));
            }
            return (CallbackOutcome::Failed(m), CallbackReply { status: "400 Bad Request", text: AUTHORIZATION_FAILED });
        },
        None => {},
    }
    match last_value_of(&u.query, "code") {
        Some(code) => {
            if code.as_str().is_empty() {
                (CallbackOutcome::Continue, CallbackReply { status: "400 Bad Request", text: MISSING_CODE })
            } else {
                (CallbackOutcome::Authorized { code }, CallbackReply { status: "200 OK", text: AUTHORIZED })
            }
        },
        None => (CallbackOutcome::Continue, CallbackReply { status: "400 Bad Request", text: MISSING_CODE }),
    }
}

/// What a callback request means: its `GET` target is read as a URL on
/// `http://localhost`, then judged (see [`callback_spec`]).
pub fn handle_callback_request(request: &str, redirect_path: &str, expected_state: &str) -> (r: (
    CallbackOutcome,
    CallbackReply,
))
    ensures
        ({
            let url = match request_target_spec(request@) {
                Some(t) => url_path_query("http://localhost"@ + t),
                None => None,
            };
            let s = callback_spec(url, redirect_path@, expected_state@);
            outcome_view(r.0) == s.0 && r.1.status@ == s.1 && r.1.text@ == s.2
        }),
{
    let parsed = match request_target(request) {
        Some(t) => {
            let full = concat("http://localhost", t.as_str());
            match parse_url_parts(full.as_str()) {
                Ok(u) => Some(u),
                Err(_) => None,
            }
        },
        None => None,
    };
    callback_decision(parsed, redirect_path, expected_state)
}

// ---------------------------------------------------------------------------
// Token errors

/// The fields of a JSON error body the logic reads.
#[derive(Debug)]
pub struct JsonErrorFields {
    pub error: Option<String>,
    pub error_description: Option<String>,
    pub message: Option<String>,
    pub compact: String,
}

/// The string members `error`, `error_description` and `message` of the
/// JSON value `body` (each `None` unless it is a string) and the value's
/// compact JSON text, as `serde_json` reads and writes them; `None` when
/// `body` is not JSON.
pub uninterp spec fn json_error_fields(body: Seq<char>) -> Option<
    (Option<Seq<char>>, Option<Seq<char>>, Option<Seq<char>>, Seq<char>),
>;

/// The plain values of the fields.
pub open spec fn fields_view(f: JsonErrorFields) -> (
    Option<Seq<char>>,
    Option<Seq<char>>,
    Option<Seq<char>>,
    Seq<char>,
) {
    (
        match f.error {
            Some(s) => Some(s@),
            None => None,
        },
        match f.error_description {
            Some(s) => Some(s@),
            None => None,
        },
        match f.message {
            Some(s) => Some(s@),
            None => None,
        },
        f.compact@,
    )
}

/// `serde_json::from_str::<Value>`, read back as the members the logic
/// uses and the value's compact text (named by [`json_error_fields`]).
#[verifier::external_body]
fn read_error_fields(body: &str) -> (r: Option<JsonErrorFields>)
    ensures
        match r {
            Some(f) => json_error_fields(body@) == Some(fields_view(f)),
            None => json_error_fields(body@) is None,
        },
{
    match serde_json::from_str::<serde_json::Value>(body) {
        Ok(value) => Some(JsonErrorFields {
            error: value.get("error").and_then(|v| v.as_str()).map(|s| s.to_string()),
            error_description: value.get("error_description").and_then(|v| v.as_str()).map(|s| s.to_string()),
            message: value.get("message").and_then(|v| v.as_str()).map(|s| s.to_string()),
            compact: value.to_string(),
        }),
        Err(_) => None,
    }
}

/// The text of a failed token exchange: `error: description` (the
/// description, else the message), or the error alone, or the whole value;
/// the body itself when it is not JSON.
pub open spec fn token_error_text(
    body: Seq<char>,
    fields: Option<(Option<Seq<char>>, Option<Seq<char>>, Option<Seq<char>>, Seq<char>)>,
) -> Seq<char> {
    match fields {
        None => body,
        Some((error, description, message, compact)) => {
            let d = if description is Some {
                description
            } else {
                message
            };
            match (error, d) {
                (Some(e), Some(d)) => e + ": "@ + d,
                (Some(e), None) => e,
                _ => compact,
            }
        },
    }
}

/// The text of a failed token exchange from the fields read off the body
/// (see [`token_error_text`]).
pub fn token_error_message(body: &str, fields: Option<JsonErrorFields>) -> (r: String)
    ensures
        r@ == token_error_text(
            body@,
            match fields {
                Some(f) => Some(fields_view(f)),
                None => None,
            },
        ),
{
    match fields {
        None => body.to_owned(),
        Some(f) => {
            let d = match f.error_description {
                Some(d) => Some(d),
                None => f.message,
            };
            match (f.error, d) {
                (Some(e), Some(d)) => {
                    let mut m = e;
                    m.append(": ");
                    m.append(d.as_str());
                    m
                },
                (Some(e), None) => e,
                _ => f.compact,
            }
        },
    }
}

/// The text of a failed token exchange for the response body `body`.
pub fn format_token_error(body: &str) -> (r: String)
    ensures
        r@ == token_error_text(body@, json_error_fields(body@)),
{
    let fields = read_error_fields(body);
    token_error_message(body, fields)
}


/// A character that would start or end markup or an attribute value.
pub open spec fn is_markup_char(c: char) -> bool {
    c == '<' || c == '>' || c == '"' || c == '\''
}

/// Escaped text holds no `<`, `>`, `"` or `'`: it cannot open a tag or
/// leave an attribute value.
pub proof fn lemma_html_escaped_has_no_markup(s: Seq<char>)
    ensures
        forall|i: int| 0 <= i < html_escaped(s).len() ==> !is_markup_char(#[trigger] html_escaped(s)[i]),
    decreases s.len(),
{
    if s.len() > 0 {
        lemma_html_escaped_has_no_markup(s.drop_last());
        let a = html_escaped(s.drop_last());
        let c = s.last();
        let b = html_escape_char(c);
        reveal_strlit("&amp;");
        reveal_strlit("&lt;");
        reveal_strlit("&gt;");
        reveal_strlit("&quot;");
        reveal_strlit("&#39;");
        assert forall|j: int| 0 <= j < b.len() implies !is_markup_char(b[j]) by {}
        assert forall|i: int| 0 <= i < html_escaped(s).len() implies !is_markup_char(
            #[trigger] html_escaped(s)[i],
        ) by {
            if i < a.len() {
                assert(html_escaped(s)[i] == a[i]);
            } else {
                assert(html_escaped(s)[i] == b[i - a.len()]);
            }
        }
    }
}
} // verus!
