//! Cloud storage decisions: provider selection, endpoint normalisation,
//! storage-error classification and the Gitee snippet configuration.

use vstd::prelude::*;
use vstd::utf8::encode_utf8;
use crate::codec::{
    base64_standard, base64_standard_decoded, base64_url_safe_no_pad, decode_base64,
    encode_base64, encode_base64_url, is_url_safe_char,
};
use crate::error::{AppError, AppResult, IoErrorKind, prefixed};
use crate::text::{
    ascii_lower_seq, chars_of, contains_chars, contains_seq, push_str, skip_trailing_char,
    str_eq, string_from_range, strip_trailing_char, to_ascii_lowercase, to_owned_string,
    trim_range, trim_seq, trim_string,
};

verus! {

/// The kind of a storage error (the part of opendal's `ErrorKind` the crate
/// tells apart).
#[derive(Debug, Clone, Copy, PartialEq, Eq, Structural)]
pub enum StorageErrorKind {
    NotFound,
    PermissionDenied,
    ConfigInvalid,
    Unsupported,
    RateLimited,
    Unexpected,
    Other,
}

/// A storage error as the crate sees it: its kind, the text it displays as,
/// and whether it is temporary.
#[derive(Debug)]
pub struct StorageError {
    pub kind: StorageErrorKind,
    pub text: String,
    pub temporary: bool,
}

/// The hint given for a WebDAV 401.
pub const WEBDAV_AUTH_HINT: &'static str = "WebDAV authentication failed (401 Unauthorized). Verify the endpoint, username, password or app password, and the authentication methods enabled by your WebDAV provider.";

/// The hint for a storage error text, when it is a WebDAV 401: the text
/// (ASCII case ignored) names the webdav service and a 401 status.
pub open spec fn webdav_auth_hint(raw: Seq<char>) -> Option<Seq<char>> {
    let lower = ascii_lower_seq(raw);
    let is_webdav = contains_seq(lower, "service: webdav"@);
    let is_unauthorized = contains_seq(lower, "status: 401"@) || contains_seq(
        lower,
        "401 unauthorized"@,
    );
    if is_webdav && is_unauthorized {
        Some(WEBDAV_AUTH_HINT@)
    } else {
        None
    }
}

/// A storage error text that reports a timeout (ASCII case ignored).
pub open spec fn is_timeout_text(raw: Seq<char>) -> bool {
    let lower = ascii_lower_seq(raw);
    contains_seq(lower, "operation timeout"@) || contains_seq(lower, "io timeout"@) || contains_seq(
        lower,
        "timed out"@,
    ) || contains_seq(lower, "deadline has elapsed"@)
}

/// Whether a storage error text reports a timeout.
pub fn is_storage_timeout_error(raw: &str) -> (res: bool)
    ensures
        res == is_timeout_text(raw@),
{
    let lower = to_ascii_lowercase(&chars_of(raw));
    contains_chars(&lower, &chars_of("operation timeout")) || contains_chars(
        &lower,
        &chars_of("io timeout"),
    ) || contains_chars(&lower, &chars_of("timed out")) || contains_chars(
        &lower,
        &chars_of("deadline has elapsed"),
    )
}

/// The WebDAV authentication hint for a storage error text, if it is a 401
/// from the webdav service.
pub fn map_webdav_auth_error(raw: &str) -> (res: Option<String>)
    ensures
        match webdav_auth_hint(raw@) {
            Some(m) => res matches Some(s) && s@ == m,
            None => res is None,
        },
{
    let lower = to_ascii_lowercase(&chars_of(raw));
    let is_webdav = contains_chars(&lower, &chars_of("service: webdav"));
    let is_unauthorized = contains_chars(&lower, &chars_of("status: 401")) || contains_chars(
        &lower,
        &chars_of("401 unauthorized"),
    );
    if is_webdav && is_unauthorized {
        Some(to_owned_string(WEBDAV_AUTH_HINT))
    } else {
        None
    }
}

/// How a storage error kind is named in messages.
pub open spec fn storage_kind_label(kind: StorageErrorKind) -> Seq<char> {
    match kind {
        StorageErrorKind::NotFound => "not found"@,
        StorageErrorKind::PermissionDenied => "permission denied"@,
        StorageErrorKind::ConfigInvalid => "invalid config"@,
        StorageErrorKind::Unsupported => "unsupported"@,
        StorageErrorKind::RateLimited => "rate limited"@,
        _ => "unexpected error"@,
    }
}

fn storage_kind_label_of(kind: StorageErrorKind) -> (res: &'static str)
    ensures
        res@ == storage_kind_label(kind),
{
    match kind {
        StorageErrorKind::NotFound => "not found",
        StorageErrorKind::PermissionDenied => "permission denied",
        StorageErrorKind::ConfigInvalid => "invalid config",
        StorageErrorKind::Unsupported => "unsupported",
        StorageErrorKind::RateLimited => "rate limited",
        _ => "unexpected error",
    }
}

/// What a storage error becomes: a WebDAV 401 is a configuration error with
/// the authentication hint; a timeout is a timed-out I/O error; another
/// temporary error is a retryable I/O error; anything else is a
/// configuration error naming the kind.
pub open spec fn storage_error_is(e: AppError, kind: StorageErrorKind, raw: Seq<char>, temporary: bool) -> bool {
    match webdav_auth_hint(raw) {
        Some(m) => e matches AppError::Config(s) && s@ == m,
        None => if is_timeout_text(raw) {
            e matches AppError::Io { kind: k, message } && k == IoErrorKind::TimedOut && message@
                == "cloud storage operation timed out: "@ + raw
        } else if temporary {
            e matches AppError::Io { kind: k, message } && k == IoErrorKind::Other && message@
                == "temporary cloud storage error: "@ + raw
        } else {
            e matches AppError::Config(s) && s@ == "cloud storage "@ + storage_kind_label(kind)
                + ": "@ + raw
        },
    }
}

/// Maps a storage error to the application error reported to the user.
pub fn map_storage_error(error: StorageError) -> (res: AppError)
    ensures
        storage_error_is(res, error.kind, error.text@, error.temporary),
{
    let raw = error.text;
    if let Some(message) = map_webdav_auth_error(raw.as_str()) {
        return AppError::Config(message);
    }
    if is_storage_timeout_error(raw.as_str()) {
        return AppError::Io {
            kind: IoErrorKind::TimedOut,
            message: prefixed("cloud storage operation timed out: ", &raw),
        };
    }
    if error.temporary {
        return AppError::Io {
            kind: IoErrorKind::Other,
            message: prefixed("temporary cloud storage error: ", &raw),
        };
    }
    let mut s = to_owned_string("cloud storage ");
    push_str(&mut s, storage_kind_label_of(error.kind));
    push_str(&mut s, ": ");
    push_str(&mut s, raw.as_str());
    AppError::Config(s)
}

/// A storage endpoint with surrounding white space and trailing slashes removed.
pub open spec fn normalized_endpoint(value: Seq<char>) -> Seq<char> {
    strip_trailing_char(trim_seq(value), '/')
}

/// Normalises a storage endpoint: trims white space and drops trailing slashes.
pub fn normalize_storage_endpoint(value: &str) -> (res: String)
    ensures
        res@ == normalized_endpoint(value@),
{
    let v = chars_of(value);
    let (a, b) = trim_range(&v, 0, v.len());
    assert(v@.subrange(0, v@.len() as int) =~= v@);
    let c = skip_trailing_char(&v, a, b, '/');
    string_from_range(&v, a, c)
}

/// The storage back-ends the crate can sync to.
#[derive(Debug, Clone, Copy, PartialEq, Eq, Structural)]
pub enum CloudProvider {
    Webdav,
    S3,
    GiteeSnippet,
}

/// Selects the storage back-end named by `provider`; any other name is a
/// configuration error `Unsupported cloud provider '<name>'`.
pub fn select_cloud_provider(provider: &str) -> (res: Result<CloudProvider, AppError>)
    ensures
        provider@ == "webdav"@ ==> res == Ok::<CloudProvider, AppError>(CloudProvider::Webdav),
        provider@ == "s3"@ ==> res == Ok::<CloudProvider, AppError>(CloudProvider::S3),
        provider@ == "gitee_snippet"@ ==> res == Ok::<CloudProvider, AppError>(
            CloudProvider::GiteeSnippet,
        ),
        (provider@ != "webdav"@ && provider@ != "s3"@ && provider@ != "gitee_snippet"@) ==> (res matches Err(
            AppError::Config(m),
        ) && m@ == "Unsupported cloud provider '"@ + provider@ + "'"@),
{
    proof {
        broadcast use vstd::string::group_string_axioms;
        reveal_strlit("webdav");
        reveal_strlit("s3");
        reveal_strlit("gitee_snippet");
        assert("webdav"@.len() == 6);
        assert("s3"@.len() == 2);
        assert("gitee_snippet"@.len() == 13);
    }
    if str_eq(provider, "webdav") {
        Ok(CloudProvider::Webdav)
    } else if str_eq(provider, "s3") {
        Ok(CloudProvider::S3)
    } else if str_eq(provider, "gitee_snippet") {
        Ok(CloudProvider::GiteeSnippet)
    } else {
        let mut m = to_owned_string("Unsupported cloud provider '");
        push_str(&mut m, provider);
        push_str(&mut m, "'");
        Err(AppError::Config(m))
    }
}

/// The Gitee snippet settings that the remote reads.
pub struct GiteeSnippetSettings {
    pub api_endpoint: String,
    pub gist_id: String,
    pub access_token: Option<String>,
}

/// A validated Gitee snippet remote: normalised endpoint, trimmed id and token.
pub struct GiteeSnippetConfig {
    pub api_endpoint: String,
    pub gist_id: String,
    pub access_token: String,
}

/// Validates the Gitee snippet settings: a non-blank access token, then a
/// non-empty endpoint, then a non-blank snippet id are required, in that order.
pub fn gitee_snippet_config(settings: &GiteeSnippetSettings) -> (res: Result<GiteeSnippetConfig, AppError>)
    ensures
        ({
            let token = match settings.access_token {
                Some(t) => trim_seq(t@),
                None => Seq::<char>::empty(),
            };
            let endpoint = normalized_endpoint(settings.api_endpoint@);
            let gist = trim_seq(settings.gist_id@);
            if token.len() == 0 {
                res matches Err(AppError::Config(m)) && m@ == "Gitee access token is required"@
            } else if endpoint.len() == 0 {
                res matches Err(AppError::Config(m)) && m@ == "Gitee API endpoint is required"@
            } else if gist.len() == 0 {
                res matches Err(AppError::Config(m)) && m@ == "Gitee snippet ID is required"@
            } else {
                res matches Ok(c) && c.api_endpoint@ == endpoint && c.gist_id@ == gist
                    && c.access_token@ == token
            }
        }),
{
    let api_endpoint = normalize_storage_endpoint(settings.api_endpoint.as_str());
    let gist_id = trim_string(settings.gist_id.as_str());
    let access_token = match &settings.access_token {
        Some(t) => trim_string(t.as_str()),
        None => String::new(),
    };
    if access_token.as_str().is_empty() {
        return Err(AppError::Config(to_owned_string("Gitee access token is required")));
    }
    if api_endpoint.as_str().is_empty() {
        return Err(AppError::Config(to_owned_string("Gitee API endpoint is required")));
    }
    if gist_id.as_str().is_empty() {
        return Err(AppError::Config(to_owned_string("Gitee snippet ID is required")));
    }
    Ok(GiteeSnippetConfig { api_endpoint, gist_id, access_token })
}

/// What a failed Gitee request becomes: a timeout is a timed-out I/O error,
/// anything else a configuration error.
pub fn map_gitee_client_error(text: &str, is_timeout: bool) -> (res: AppError)
    ensures
        is_timeout ==> (res matches AppError::Io { kind: k, message } && k == IoErrorKind::TimedOut
            && message@ == "Gitee snippet operation timed out: "@ + text@),
        !is_timeout ==> (res matches AppError::Config(m) && m@ == "Gitee snippet request failed: "@
            + text@),
{
    if is_timeout {
        let mut m = to_owned_string("Gitee snippet operation timed out: ");
        push_str(&mut m, text);
        AppError::Io { kind: IoErrorKind::TimedOut, message: m }
    } else {
        let mut m = to_owned_string("Gitee snippet request failed: ");
        push_str(&mut m, text);
        AppError::Config(m)
    }
}


// ---------------------------------------------------------------------------
// Gitee snippet storage
// ---------------------------------------------------------------------------

/// The prefix of every file the sync stores in a snippet.
pub const GITEE_REMOTE_FILE_PREFIX: &'static str = "nyaterm-";

/// The suffix of every file the sync stores in a snippet.
pub const GITEE_REMOTE_FILE_SUFFIX: &'static str = ".blob";

/// The snippet file that holds the remote path `path`: the path, URL-safe
/// base64 encoded, between the prefix and the suffix.
pub open spec fn gitee_filename_of(path: Seq<char>) -> Seq<char> {
    GITEE_REMOTE_FILE_PREFIX@ + base64_url_safe_no_pad(encode_utf8(path)) + GITEE_REMOTE_FILE_SUFFIX@
}

/// The snippet file name for a remote path; it holds no `/`, so a path of
/// any depth maps to one flat file.
pub fn gitee_remote_filename(path: &str) -> (res: String)
    ensures
        res@ == gitee_filename_of(path@),
        !res@.contains('/'),
{
    proof {
        reveal_strlit("nyaterm-");
        reveal_strlit(".blob");
    }
    let encoded = encode_base64_url(path.as_bytes());
    let mut s = to_owned_string(GITEE_REMOTE_FILE_PREFIX);
    push_str(&mut s, encoded.as_str());
    push_str(&mut s, GITEE_REMOTE_FILE_SUFFIX);
    proof {
        let e = encoded@;
        assert(s@ =~= "nyaterm-"@ + e + ".blob"@);
        if s@.contains('/') {
            let i = choose|i: int| 0 <= i < s@.len() && s@[i] == '/';
            if 8 <= i < 8 + e.len() {
                assert(s@[i] == e[i - 8]);
                assert(is_url_safe_char(e[i - 8]));
            }
        }
    }
    s
}

/// The bytes of a snippet file's content: standard base64, surrounding
/// white space ignored.
pub fn decode_gitee_file_content(content: &str) -> (res: AppResult<Vec<u8>>)
    ensures
        match base64_standard_decoded(trim_seq(content@)) {
            Ok(b) => res matches Ok(v) && v@ == b,
            Err(m) => res matches Err(AppError::Config(x)) && x@ == "Invalid Gitee snippet content: "@
                + m,
        },
        forall|b: Seq<u8>| trim_seq(content@) == #[trigger] base64_standard(b) ==> (res matches Ok(v)
            && v@ == b),
{
    let t = trim_string(content);
    match decode_base64(t.as_str()) {
        Ok(v) => Ok(v),
        Err(e) => {
            let mut m = to_owned_string("Invalid Gitee snippet content: ");
            push_str(&mut m, e.as_str());
            Err(AppError::Config(m))
        },
    }
}

/// The content written to a snippet file for `data`: standard base64.
pub fn encode_gitee_file_content(data: &[u8]) -> (res: String)
    ensures
        res@ == base64_standard(data@),
{
    encode_base64(data)
}

/// The body of a Gitee response: the text of a successful response, and for
/// another status an error naming the status and the trimmed text.
pub fn gitee_response_text(success: bool, status: &str, text: String) -> (res: AppResult<String>)
    ensures
        success ==> (res matches Ok(t) && t@ == text@),
        !success ==> (res matches Err(AppError::Config(m)) && m@ == "Gitee snippet request failed ("@
            + status@ + "): "@ + trim_seq(text@)),
{
    if success {
        return Ok(text);
    }
    let mut m = to_owned_string("Gitee snippet request failed (");
    push_str(&mut m, status);
    push_str(&mut m, "): ");
    let t = trim_string(text.as_str());
    push_str(&mut m, t.as_str());
    Err(AppError::Config(m))
}

/// The API URL of the snippet.
pub fn gitee_snippet_url(config: &GiteeSnippetConfig) -> (res: String)
    ensures
        res@ == config.api_endpoint@ + "/gists/"@ + config.gist_id@,
{
    let mut u = config.api_endpoint.clone();
    push_str(&mut u, "/gists/");
    push_str(&mut u, config.gist_id.as_str());
    u
}

/// The URL of a snippet file's raw content: the one the snippet lists when
/// it is not empty, the API's raw path otherwise.
pub fn gitee_raw_url(config: &GiteeSnippetConfig, filename: &str, listed: Option<&str>) -> (res: String)
    ensures
        match listed {
            Some(u) if u@.len() > 0 => res@ == u@,
            _ => res@ == config.api_endpoint@ + "/gists/"@ + config.gist_id@ + "/raw/"@ + filename@,
        },
{
    match listed {
        Some(u) => {
            if !u.is_empty() {
                return to_owned_string(u);
            }
        },
        None => {},
    }
    let mut url = gitee_snippet_url(config);
    push_str(&mut url, "/raw/");
    push_str(&mut url, filename);
    url
}

/// The content a snippet lists inline for a file, when it is not blank; a
/// blank or missing one is fetched from the raw URL instead.
pub fn gitee_inline_content(listed: Option<&str>) -> (res: Option<String>)
    ensures
        match listed {
            Some(c) if trim_seq(c@).len() > 0 => res matches Some(r) && r@ == c@,
            _ => res is None,
        },
{
    match listed {
        Some(c) => {
            let t = trim_string(c);
            if t.as_str().is_empty() {
                None
            } else {
                Some(to_owned_string(c))
            }
        },
        None => None,
    }
}

// ---------------------------------------------------------------------------
// WebDAV and S3 connection options
// ---------------------------------------------------------------------------

/// The WebDAV settings the remote reads.
pub struct WebdavSettings {
    pub endpoint: String,
    pub root: String,
    pub username: String,
    pub password: Option<String>,
}

/// What a WebDAV operator is built with.
#[derive(Debug)]
pub struct WebdavOptions {
    pub endpoint: String,
    pub root: Option<String>,
    pub username: Option<String>,
    pub password: Option<String>,
    /// The credentials the digest authentication retries with.
    pub digest_username: String,
    pub digest_password: String,
}

/// `value` is given to the operator when it is not blank.
pub open spec fn unless_blank(value: Seq<char>, opt: Option<String>) -> bool {
    if trim_seq(value).len() > 0 {
        opt matches Some(v) && v@ == value
    } else {
        opt is None
    }
}

/// `value` is given to the operator when it is set and not empty.
pub open spec fn unless_empty(value: Option<String>, opt: Option<String>) -> bool {
    match value {
        Some(v) if v@.len() > 0 => opt matches Some(o) && o@ == v@,
        _ => opt is None,
    }
}

fn non_blank(value: &String) -> (res: Option<String>)
    ensures
        unless_blank(value@, res),
{
    let t = trim_string(value.as_str());
    if t.as_str().is_empty() {
        None
    } else {
        Some(value.clone())
    }
}

fn non_empty(value: &Option<String>) -> (res: Option<String>)
    ensures
        unless_empty(*value, res),
{
    match value {
        Some(v) => {
            if v.as_str().is_empty() {
                None
            } else {
                Some(v.clone())
            }
        },
        None => None,
    }
}

/// The options of the WebDAV operator: the normalised endpoint, the root and
/// username when not blank, the password when not empty; the digest retry
/// uses the username and the password (empty when unset) as they are.
pub fn webdav_options(settings: &WebdavSettings) -> (res: WebdavOptions)
    ensures
        res.endpoint@ == normalized_endpoint(settings.endpoint@),
        unless_blank(settings.root@, res.root),
        unless_blank(settings.username@, res.username),
        unless_empty(settings.password, res.password),
        res.digest_username@ == settings.username@,
        match settings.password {
            Some(p) => res.digest_password@ == p@,
            None => res.digest_password@.len() == 0,
        },
{
    WebdavOptions {
        endpoint: normalize_storage_endpoint(settings.endpoint.as_str()),
        root: non_blank(&settings.root),
        username: non_blank(&settings.username),
        password: non_empty(&settings.password),
        digest_username: settings.username.clone(),
        digest_password: match &settings.password {
            Some(p) => p.clone(),
            None => String::new(),
        },
    }
}

/// The S3 settings the remote reads.
pub struct S3Settings {
    pub bucket: String,
    pub endpoint: String,
    pub region: String,
    pub root: String,
    pub access_key_id: Option<String>,
    pub secret_access_key: Option<String>,
    pub session_token: Option<String>,
    pub virtual_host_style: bool,
}

/// What an S3 operator is built with.
#[derive(Debug)]
pub struct S3Options {
    pub bucket: String,
    pub endpoint: Option<String>,
    pub region: Option<String>,
    pub root: Option<String>,
    pub access_key_id: Option<String>,
    pub secret_access_key: Option<String>,
    pub session_token: Option<String>,
    pub virtual_host_style: bool,
}

/// The options of the S3 operator: the bucket; the normalised endpoint when
/// not empty; region and root when not blank; the credentials when not
/// empty; virtual-host style addressing when asked for.
pub fn s3_options(settings: &S3Settings) -> (res: S3Options)
    ensures
        res.bucket@ == settings.bucket@,
        ({
            let e = normalized_endpoint(settings.endpoint@);
            if e.len() > 0 {
                res.endpoint matches Some(x) && x@ == e
            } else {
                res.endpoint is None
            }
        }),
        unless_blank(settings.region@, res.region),
        unless_blank(settings.root@, res.root),
        unless_empty(settings.access_key_id, res.access_key_id),
        unless_empty(settings.secret_access_key, res.secret_access_key),
        unless_empty(settings.session_token, res.session_token),
        res.virtual_host_style == settings.virtual_host_style,
{
    let endpoint = normalize_storage_endpoint(settings.endpoint.as_str());
    S3Options {
        bucket: settings.bucket.clone(),
        endpoint: if endpoint.as_str().is_empty() {
            None
        } else {
            Some(endpoint)
        },
        region: non_blank(&settings.region),
        root: non_blank(&settings.root),
        access_key_id: non_empty(&settings.access_key_id),
        secret_access_key: non_empty(&settings.secret_access_key),
        session_token: non_empty(&settings.session_token),
        virtual_host_style: settings.virtual_host_style,
    }
}

} // verus!
