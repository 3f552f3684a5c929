use dragonfly::cloud::{
    decode_gitee_file_content, encode_gitee_file_content, gitee_inline_content, gitee_raw_url,
    gitee_remote_filename, gitee_response_text, gitee_snippet_config, gitee_snippet_url,
    map_gitee_client_error, map_storage_error, map_webdav_auth_error, normalize_storage_endpoint,
    s3_options, select_cloud_provider, webdav_options, CloudProvider, GiteeSnippetSettings,
    S3Settings, StorageError, StorageErrorKind, WebdavSettings, GITEE_REMOTE_FILE_PREFIX,
    GITEE_REMOTE_FILE_SUFFIX,
};
use dragonfly::digest::{
    build_digest_authorization, digest_challenge, digest_retry_authorization, escape_digest_value,
    parse_digest_challenge,
    random_cnonce, webdav_retry_authorization,
};
use dragonfly::error::{AppError, IoErrorKind};

#[test]
fn webdav_401_error_reports_generic_auth_hint() {
    let message = map_webdav_auth_error(
        "Unexpected (persistent) at stat, context: { service: webdav, response: Parts { status: 401 } } => 401 Unauthorized",
    );

    assert!(message.is_some());
    let message = message.unwrap();
    assert!(message.contains("WebDAV authentication failed"));
    assert!(!message.contains("currently supports"));
}

#[test]
fn cloud_storage_endpoint_accepts_trailing_slashes() {
    assert_eq!(
        normalize_storage_endpoint("https://dav.example.com/remote.php/webdav"),
        "https://dav.example.com/remote.php/webdav"
    );
    assert_eq!(
        normalize_storage_endpoint("https://dav.example.com/remote.php/webdav/"),
        "https://dav.example.com/remote.php/webdav"
    );
    assert_eq!(
        normalize_storage_endpoint(" https://s3.example.com// "),
        "https://s3.example.com"
    );
}

#[test]
fn digest_challenge_parser_handles_quoted_commas() {
    let parsed = parse_digest_challenge(
        r#"realm="Nya,Term", nonce="abc", algorithm=MD5, qop="auth,auth-int", opaque="xyz""#,
    );

    assert_eq!(parsed.get("realm").map(String::as_str), Some("Nya,Term"));
    assert_eq!(parsed.get("nonce").map(String::as_str), Some("abc"));
    assert_eq!(parsed.get("qop").map(String::as_str), Some("auth,auth-int"));
}

#[test]
fn digest_authorization_supports_md5_qop_auth() {
    let header = build_digest_authorization(
        r#"realm="testrealm@host.com", qop="auth", nonce="dcd98b7102dd2f0e8b11d0f600bfb0c093", opaque="5ccc069c403ebaf9f0171e9517f40e41""#,
        "Mufasa",
        "Circle Of Life",
        "GET",
        "/dir/index.html",
        "0a4f113b",
        "00000001",
    )
    .expect("digest auth header");

    assert!(header.contains("Digest username=\"Mufasa\""));
    assert!(header.contains("qop=auth"));
    assert!(header.contains("response=\"6629fae49393a05397450978507c4ef1\""));
}

#[test]
fn digest_authorization_rejects_unsupported_qop() {
    let error = build_digest_authorization(
        r#"realm="test", qop="auth-int", nonce="abc""#,
        "user",
        "pass",
        "GET",
        "/",
        "cnonce",
        "00000001",
    )
    .expect_err("auth-int is unsupported");

    assert_eq!(error.kind, StorageErrorKind::Unsupported);
}

#[test]
fn non_webdav_error_does_not_report_digest_hint() {
    let message = map_webdav_auth_error(
        "Unexpected (persistent) at stat, context: { service: s3, response: Parts { status: 401 } } => 401 Unauthorized",
    );

    assert!(message.is_none());
}

#[test]
fn gitee_remote_filename_is_path_safe() {
    let filename = gitee_remote_filename("nyaterm/sync/latest.redb");

    assert!(filename.starts_with(GITEE_REMOTE_FILE_PREFIX));
    assert!(filename.ends_with(GITEE_REMOTE_FILE_SUFFIX));
    assert!(!filename.contains('/'));
}

#[test]
fn timeout_storage_error_maps_to_retryable_io() {
    let mapped = map_storage_error(StorageError {
        kind: StorageErrorKind::Unexpected,
        text: "Unexpected (temporary) => operation timeout reached".to_string(),
        temporary: true,
    });

    match mapped {
        AppError::Io { kind, .. } => assert_eq!(kind, IoErrorKind::TimedOut),
        other => panic!("expected timeout IO error, got {other:?}"),
    }
}

#[test]
fn temporary_storage_error_maps_to_retryable_io() {
    let mapped = map_storage_error(StorageError {
        kind: StorageErrorKind::Unexpected,
        text: "Unexpected (temporary) => service temporarily unavailable".to_string(),
        temporary: true,
    });

    assert!(matches!(mapped, AppError::Io { .. }));
}

#[test]
fn webdav_401_storage_error_stays_config_error() {
    let mapped = map_storage_error(StorageError {
        kind: StorageErrorKind::Unexpected,
        text: "Unexpected at stat, context: { service: webdav, response: Parts { status: 401 } } => 401 Unauthorized".to_string(),
        temporary: true,
    });

    match mapped {
        AppError::Config(message) => assert!(message.contains("WebDAV authentication failed")),
        other => panic!("expected config auth error, got {other:?}"),
    }
}

#[test]
fn storage_error_of_other_kind_is_labelled_config_error() {
    let mapped = map_storage_error(StorageError {
        kind: StorageErrorKind::NotFound,
        text: "NotFound at read => missing".to_string(),
        temporary: false,
    });
    match mapped {
        AppError::Config(message) => {
            assert_eq!(message, "cloud storage not found: NotFound at read => missing")
        }
        other => panic!("expected config error, got {other:?}"),
    }
    let mapped = map_storage_error(StorageError {
        kind: StorageErrorKind::Other,
        text: "boom".to_string(),
        temporary: false,
    });
    match mapped {
        AppError::Config(message) => assert_eq!(message, "cloud storage unexpected error: boom"),
        other => panic!("expected config error, got {other:?}"),
    }
}

#[test]
fn temporary_storage_error_message_is_prefixed() {
    match map_storage_error(StorageError {
        kind: StorageErrorKind::Unexpected,
        text: "service temporarily unavailable".to_string(),
        temporary: true,
    }) {
        AppError::Io { kind, message } => {
            assert_eq!(kind, IoErrorKind::Other);
            assert_eq!(message, "temporary cloud storage error: service temporarily unavailable");
        }
        other => panic!("expected IO error, got {other:?}"),
    }
}

#[test]
fn unknown_cloud_provider_is_rejected() {
    assert_eq!(select_cloud_provider("webdav").ok(), Some(CloudProvider::Webdav));
    assert_eq!(select_cloud_provider("s3").ok(), Some(CloudProvider::S3));
    assert_eq!(select_cloud_provider("gitee_snippet").ok(), Some(CloudProvider::GiteeSnippet));
    match select_cloud_provider("ftp") {
        Err(AppError::Config(m)) => assert_eq!(m, "Unsupported cloud provider 'ftp'"),
        other => panic!("unexpected {other:?}"),
    }
}

#[test]
fn gitee_config_requires_token_endpoint_and_id_in_order() {
    let mk = |endpoint: &str, gist: &str, token: Option<&str>| GiteeSnippetSettings {
        api_endpoint: endpoint.to_string(),
        gist_id: gist.to_string(),
        access_token: token.map(str::to_string),
    };
    match gitee_snippet_config(&mk("", "", Some("  "))) {
        Err(AppError::Config(m)) => assert_eq!(m, "Gitee access token is required"),
        _ => panic!("token error expected"),
    }
    match gitee_snippet_config(&mk(" / ", "x", Some("t"))) {
        Err(AppError::Config(m)) => assert_eq!(m, "Gitee API endpoint is required"),
        _ => panic!("endpoint error expected"),
    }
    match gitee_snippet_config(&mk("https://gitee.com/api/v5", " ", Some("t"))) {
        Err(AppError::Config(m)) => assert_eq!(m, "Gitee snippet ID is required"),
        _ => panic!("id error expected"),
    }
    let cfg = gitee_snippet_config(&mk(" https://gitee.com/api/v5/ ", " abc ", Some(" tok ")))
        .expect("valid config");
    assert_eq!(cfg.api_endpoint, "https://gitee.com/api/v5");
    assert_eq!(cfg.gist_id, "abc");
    assert_eq!(cfg.access_token, "tok");
    assert_eq!(gitee_snippet_url(&cfg), "https://gitee.com/api/v5/gists/abc");
    assert_eq!(
        gitee_raw_url(&cfg, "f.blob", None),
        "https://gitee.com/api/v5/gists/abc/raw/f.blob"
    );
    assert_eq!(
        gitee_raw_url(&cfg, "f.blob", Some("")),
        "https://gitee.com/api/v5/gists/abc/raw/f.blob"
    );
    assert_eq!(gitee_raw_url(&cfg, "f.blob", Some("https://raw/x")), "https://raw/x");
}

#[test]
fn gitee_client_errors_are_classified() {
    match map_gitee_client_error("deadline", true) {
        AppError::Io { kind, message } => {
            assert_eq!(kind, IoErrorKind::TimedOut);
            assert_eq!(message, "Gitee snippet operation timed out: deadline");
        }
        other => panic!("unexpected {other:?}"),
    }
    match map_gitee_client_error("dns", false) {
        AppError::Config(m) => assert_eq!(m, "Gitee snippet request failed: dns"),
        other => panic!("unexpected {other:?}"),
    }
}

#[test]
fn gitee_file_content_round_trips_through_base64() {
    let data = b"snapshot \x00\x01\xff bytes".to_vec();
    let encoded = encode_gitee_file_content(&data);
    assert_eq!(decode_gitee_file_content(&format!("  {encoded}\n")).unwrap(), data);
    assert_eq!(encode_gitee_file_content(b"hi"), "aGk=");
    match decode_gitee_file_content("not base64!") {
        Err(AppError::Config(m)) => assert!(m.starts_with("Invalid Gitee snippet content: ")),
        other => panic!("unexpected {other:?}"),
    }
}

#[test]
fn gitee_filename_encodes_path_url_safe() {
    assert_eq!(gitee_remote_filename("a/b"), "nyaterm-YS9i.blob");
    assert_ne!(gitee_remote_filename("a/b"), gitee_remote_filename("a/c"));
}

#[test]
fn gitee_response_text_reports_failed_status() {
    assert_eq!(gitee_response_text(true, "200 OK", "body".to_string()).unwrap(), "body");
    match gitee_response_text(false, "404 Not Found", "  nope \n".to_string()) {
        Err(AppError::Config(m)) => {
            assert_eq!(m, "Gitee snippet request failed (404 Not Found): nope")
        }
        other => panic!("unexpected {other:?}"),
    }
}

#[test]
fn gitee_inline_content_skips_blank() {
    assert_eq!(gitee_inline_content(Some("abc")), Some("abc".to_string()));
    assert_eq!(gitee_inline_content(Some("  \n")), None);
    assert_eq!(gitee_inline_content(None), None);
}

#[test]
fn webdav_and_s3_options_skip_blank_values() {
    let w = webdav_options(&WebdavSettings {
        endpoint: " https://dav.example.com/ ".to_string(),
        root: "  ".to_string(),
        username: "alice".to_string(),
        password: Some(String::new()),
    });
    assert_eq!(w.endpoint, "https://dav.example.com");
    assert_eq!(w.root, None);
    assert_eq!(w.username.as_deref(), Some("alice"));
    assert_eq!(w.password, None);
    assert_eq!(w.digest_username, "alice");
    assert_eq!(w.digest_password, "");

    let s = s3_options(&S3Settings {
        bucket: "b".to_string(),
        endpoint: "".to_string(),
        region: " us-east-1".to_string(),
        root: "/sync".to_string(),
        access_key_id: Some("AK".to_string()),
        secret_access_key: None,
        session_token: Some(String::new()),
        virtual_host_style: true,
    });
    assert_eq!(s.bucket, "b");
    assert_eq!(s.endpoint, None);
    assert_eq!(s.region.as_deref(), Some(" us-east-1"));
    assert_eq!(s.root.as_deref(), Some("/sync"));
    assert_eq!(s.access_key_id.as_deref(), Some("AK"));
    assert_eq!(s.secret_access_key, None);
    assert_eq!(s.session_token, None);
    assert!(s.virtual_host_style);
}

#[test]
fn digest_challenge_is_taken_from_www_authenticate() {
    let values = vec![
        "Basic realm=\"x\"".to_string(),
        "Digest realm=\"r\", nonce=\"n\", qop=\"auth\"".to_string(),
    ];
    assert_eq!(
        digest_challenge(&values).as_deref(),
        Some("realm=\"r\", nonce=\"n\", qop=\"auth\"")
    );
    assert_eq!(digest_challenge(&vec!["Basic realm=\"x\"".to_string()]), None);
}

#[test]
fn digest_retry_only_for_401_with_credentials() {
    let values = vec!["Digest realm=\"r\", nonce=\"n\", qop=\"auth\"".to_string()];
    assert_eq!(
        digest_retry_authorization(200, &values, "u", "p", "GET", "/", "c").unwrap(),
        None
    );
    assert_eq!(
        digest_retry_authorization(401, &values, "", "p", "GET", "/", "c").unwrap(),
        None
    );
    let h = digest_retry_authorization(401, &values, "u", "p", "GET", "/", "c")
        .unwrap()
        .expect("header");
    assert!(h.starts_with("Digest username=\"u\""));
    assert!(h.contains("nc=00000001"));
    let h2 = webdav_retry_authorization(401, &values, "u", "p", "GET", "/")
        .unwrap()
        .expect("header");
    assert!(h2.contains("cnonce=\""));
}

#[test]
fn cnonce_is_thirty_two_hex_digits() {
    let c = random_cnonce();
    assert_eq!(c.len(), 32);
    assert!(c.chars().all(|ch| ch.is_ascii_hexdigit() && !ch.is_ascii_uppercase()));
}

#[test]
fn escaped_value_parses_back() {
    let value = r#"a "quoted" \ value, with comma"#;
    let challenge = format!(r#"realm="{}", nonce="n1""#, escape_digest_value(value));
    let parsed = parse_digest_challenge(&challenge);
    assert_eq!(parsed.get("realm").map(String::as_str), Some(value));
    assert_eq!(parsed.get("nonce").map(String::as_str), Some("n1"));
}
