use dragonfly::config::{
    decrypt_key_pem, default_false, default_host, default_port, default_protocol,
    default_true, default_tunnel_type, delete_proxy, get_proxy_password, load_proxy_by_id,
    redact_passwords, save_proxy, select_key_by_id, KeysConfig, ProxyConfig, SshKey,
    TunnelConfig,
};
use dragonfly::crypto::{
    create_master_key, decrypt, decrypt_optional, encrypt, unwrap_master_key, wrap_master_key,
    wrapping_key_for,
};
use dragonfly::error::AppError;

fn generate_master_key() -> Vec<u8> {
    create_master_key(&wrapping_key_for("/home/test")).0
}

fn proxy(id: &str, name: &str, password: Option<&str>) -> ProxyConfig {
    ProxyConfig {
        id: id.to_string(),
        name: name.to_string(),
        protocol: "socks5".to_string(),
        host: "127.0.0.1".to_string(),
        port: 1080,
        username: None,
        password: password.map(str::to_string),
    }
}

fn key(id: &str, pem: Option<String>, passphrase: Option<String>) -> SshKey {
    SshKey {
        id: id.to_string(),
        name: format!("key {id}"),
        key: pem,
        passphrase,
        key_file_path: None,
        has_key_data: false,
    }
}

#[test]
fn encrypt_then_decrypt_gives_plaintext() {
    let k = generate_master_key();
    assert_eq!(k.len(), 32);
    let token = encrypt(&k, "s3cret pässword").unwrap();
    assert_eq!(decrypt(&k, &token).unwrap(), "s3cret pässword");
    let token2 = encrypt(&k, "s3cret pässword").unwrap();
    assert_ne!(token, token2);
    assert_eq!(decrypt(&k, "").unwrap_err().message(), "Crypto error: ciphertext too short");
}

#[test]
fn decrypt_errors() {
    let k = generate_master_key();
    match decrypt(&k, "***") {
        Err(AppError::Crypto(m)) => assert!(m.starts_with("invalid base64: ")),
        other => panic!("unexpected {other:?}"),
    }
    match decrypt(&k, "AAAA") {
        Err(AppError::Crypto(m)) => assert_eq!(m, "ciphertext too short"),
        other => panic!("unexpected {other:?}"),
    }
    let other_key = generate_master_key();
    let token = encrypt(&other_key, "x").unwrap();
    match decrypt(&k, &token) {
        Err(AppError::Crypto(m)) => assert_eq!(m, "decryption failed: aead::Error"),
        other => panic!("unexpected {other:?}"),
    }
}

#[test]
fn decrypt_optional_skips_missing_and_empty() {
    let k = generate_master_key();
    assert_eq!(decrypt_optional(&k, &None).unwrap(), None);
    assert_eq!(decrypt_optional(&k, &Some(String::new())).unwrap(), None);
    let t = encrypt(&k, "pem").unwrap();
    assert_eq!(decrypt_optional(&k, &Some(t)).unwrap().as_deref(), Some("pem"));
}

#[test]
fn wrapped_master_key_unwraps() {
    let wk = wrapping_key_for("/home/alice");
    assert_eq!(wk.len(), 32);
    assert_ne!(wk, wrapping_key_for("/home/bob"));
    let (master, text) = create_master_key(&wk);
    assert_eq!(master.len(), 32);
    assert_eq!(unwrap_master_key(&text, &wk).unwrap(), master);
    let text = wrap_master_key(&master, &wk);
    assert_eq!(unwrap_master_key(&format!("{text}\n"), &wk).unwrap(), master);
    match unwrap_master_key(&text, &wrapping_key_for("/home/bob")) {
        Err(AppError::Crypto(m)) => assert_eq!(m, "unwrap master.key: aead::Error"),
        other => panic!("unexpected {other:?}"),
    }
    match unwrap_master_key("AAAA", &wk) {
        Err(AppError::Crypto(m)) => assert_eq!(m, "master.key file is malformed"),
        other => panic!("unexpected {other:?}"),
    }
    match unwrap_master_key("%%", &wk) {
        Err(AppError::Crypto(m)) => assert!(m.starts_with("decode master.key: ")),
        other => panic!("unexpected {other:?}"),
    }
}

#[test]
fn wrapping_key_is_sha256_of_context_and_home() {
    let wk = wrapping_key_for("/home/alice");
    let hex: String = wk.iter().map(|b| format!("{b:02x}")).collect();
    assert_eq!(hex, "d7d83d79b27309db049875edf87901652f8fe2323b100cdfcbe5b93bb1f17bb5");
}

#[test]
fn keys_are_marked_and_selected() {
    let master = generate_master_key();
    let pass = encrypt(&master, "hunter2").unwrap();
    let pem = encrypt(&master, "-----BEGIN KEY-----").unwrap();
    let mut cfg = KeysConfig {
        keys: vec![key("k1", Some(pem), Some(pass)), key("k2", None, Some("garbage".to_string()))],
    };
    cfg.mark_key_data();
    assert!(cfg.keys[0].has_key_data);
    assert!(!cfg.keys[1].has_key_data);

    let k1 = select_key_by_id(cfg.keys.clone(), "k1", &master).unwrap();
    assert_eq!(k1.passphrase.as_deref(), Some("hunter2"));
    assert_eq!(decrypt_key_pem(&k1, &master).unwrap().as_deref(), Some("-----BEGIN KEY-----"));
    let k2 = select_key_by_id(cfg.keys.clone(), "k2", &master).unwrap();
    assert_eq!(k2.passphrase, None);
    assert_eq!(decrypt_key_pem(&k2, &master).unwrap(), None);
    match select_key_by_id(cfg.keys, "nope", &master) {
        Err(AppError::Config(m)) => assert_eq!(m, "SSH key 'nope' not found"),
        other => panic!("unexpected {other:?}"),
    }
}

#[test]
fn proxies_are_saved_with_encrypted_passwords() {
    let master = generate_master_key();
    let mut list = vec![proxy("p1", "one", None)];

    let id = save_proxy(&mut list, proxy("", "two", Some("pw")), &master).unwrap();
    assert_eq!(id.len(), 36);
    assert_eq!(list.len(), 2);
    assert_eq!(list[1].id, id);
    let stored = list[1].password.clone().expect("stored");
    assert_ne!(stored, "pw");
    assert_eq!(get_proxy_password(&list, &id, &master).as_deref(), Some("pw"));

    // No password given keeps the stored one; the entry is replaced in place.
    let same = save_proxy(&mut list, proxy(&id, "two renamed", None), &master).unwrap();
    assert_eq!(same, id);
    assert_eq!(list.len(), 2);
    assert_eq!(list[1].name, "two renamed");
    assert_eq!(list[1].password.as_deref(), Some(stored.as_str()));

    // An empty password clears it.
    save_proxy(&mut list, proxy(&id, "two", Some("")), &master).unwrap();
    assert_eq!(list[1].password, None);
    assert_eq!(get_proxy_password(&list, &id, &master), None);
    assert_eq!(get_proxy_password(&list, "missing", &master), None);

    let found = load_proxy_by_id(list.clone(), "p1").expect("p1");
    assert_eq!(found.name, "one");
    assert!(load_proxy_by_id(list.clone(), "zz").is_none());

    let mut shown = list.clone();
    save_proxy(&mut shown, proxy("p1", "one", Some("x")), &master).unwrap();
    redact_passwords(&mut shown);
    assert!(shown.iter().all(|p| p.password.is_none()));

    delete_proxy(&mut list, "p1");
    assert_eq!(list.len(), 1);
    assert_eq!(list[0].id, id);
    delete_proxy(&mut list, "p1");
    assert_eq!(list.len(), 1);
}

#[test]
fn config_defaults() {
    assert!(default_true());
    assert!(!default_false());
    assert_eq!(default_protocol(), "socks5");
    assert_eq!(default_host(), "127.0.0.1");
    assert_eq!(default_port(), 1080);
    assert_eq!(default_tunnel_type(), "local");
    let t = TunnelConfig::default();
    assert_eq!(t.id.len(), 36);
    assert_eq!(t.tunnel_type, "local");
    assert_eq!(t.target_host, "127.0.0.1");
    assert!(t.bind_localhost && !t.is_open && !t.auto_open);
    assert_ne!(TunnelConfig::default().id, TunnelConfig::default().id);
}
