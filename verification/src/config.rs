//! Persisted configuration: SSH keys, proxies and tunnels, and the helpers
//! their serialised forms default to.
//!
//! Reading and writing the JSON files is left to the caller; these types hold
//! what the files hold and the rules that apply to them.

use vstd::prelude::*;
use vstd::utf8::encode_utf8;
use crate::crypto::{decrypt, decrypt_optional, decrypt_spec, encrypt, is_sealed_text, AES_GCM_MAX_PLAINTEXT};
use crate::error::{AppError, AppResult};
use crate::text::{push_str, str_eq, to_owned_string};

verus! {

/// A hyphenated lowercase version-4 UUID: 36 characters, hyphens at indices
/// 8, 13, 18 and 23, the version digit `4` at index 14, lowercase
/// hexadecimal digits elsewhere.
pub open spec fn is_uuid_v4_text(s: Seq<char>) -> bool {
    &&& s.len() == 36
    &&& s[14] == '4'
    &&& forall|i: int|
        0 <= i < 36 ==> if i == 8 || i == 13 || i == 18 || i == 23 {
            #[trigger] s[i] == '-'
        } else {
            ('0' <= s[i] <= '9' || 'a' <= s[i] <= 'f')
        }
}

/// A fresh random identifier (`uuid::Uuid::new_v4`, displayed).
///
/// The value is random; the contract states only its textual shape, which
/// the crate's `Display` (hyphenated, lowercase) gives every UUID.
#[verifier::external_body]
pub(crate) fn uuid_v4() -> (res: String)
    ensures
        is_uuid_v4_text(res@),
{
    uuid::Uuid::new_v4().to_string()
}

/// The value a missing boolean field that defaults on reads as.
pub fn default_true() -> (res: bool)
    ensures
        res,
{
    true
}

/// The value a missing boolean field that defaults off reads as.
pub fn default_false() -> (res: bool)
    ensures
        !res,
{
    false
}


// ---------------------------------------------------------------------------
// SSH keys
// ---------------------------------------------------------------------------

/// A managed SSH private key.  The PEM content and the passphrase are stored
/// encrypted.
#[derive(Debug, Clone)]
pub struct SshKey {
    pub id: String,
    pub name: String,
    /// Encrypted PEM content.
    pub key: Option<String>,
    /// Encrypted passphrase.
    pub passphrase: Option<String>,
    /// Transient: file path from the UI file picker.
    pub key_file_path: Option<String>,
    /// Transient: true when encrypted key data exists.
    pub has_key_data: bool,
}

/// The keys file.
#[derive(Debug, Clone)]
pub struct KeysConfig {
    pub keys: Vec<SshKey>,
}

/// `b` is `a` with `has_key_data` telling whether it holds key data.
pub open spec fn is_marked(a: SshKey, b: SshKey) -> bool {
    &&& b.id == a.id
    &&& b.name == a.name
    &&& b.key == a.key
    &&& b.passphrase == a.passphrase
    &&& b.key_file_path == a.key_file_path
    &&& b.has_key_data == a.key is Some
}

impl KeysConfig {
    /// Sets `has_key_data` on every loaded key: whether encrypted key data is
    /// stored for it.
    pub fn mark_key_data(&mut self)
        ensures
            final(self).keys@.len() == old(self).keys@.len(),
            forall|i: int|
                0 <= i < old(self).keys@.len() ==> is_marked(
                    #[trigger] old(self).keys@[i],
                    final(self).keys@[i],
                ),
    {
        let ghost k0 = self.keys@;
        let mut i: usize = 0;
        while i < self.keys.len()
            invariant
                i <= self.keys.len(),
                self.keys@.len() == k0.len(),
                forall|j: int| 0 <= j < i ==> is_marked(#[trigger] k0[j], self.keys@[j]),
                forall|j: int| i <= j < k0.len() ==> #[trigger] self.keys@[j] == k0[j],
            decreases self.keys.len() - i,
        {
            let mut k = self.keys.remove(i);
            k.has_key_data = k.key.is_some();
            self.keys.insert(i, k);
            i = i + 1;
        }
    }
}

/// The index of the first entry of `ids` equal to `id`.
pub open spec fn first_index(ids: Seq<Seq<char>>, id: Seq<char>) -> Option<int>
    decreases ids.len(),
{
    if ids.len() == 0 {
        None
    } else if ids[0] == id {
        Some(0)
    } else {
        match first_index(ids.drop_first(), id) {
            Some(i) => Some(i + 1),
            None => None,
        }
    }
}

proof fn lemma_first_index(ids: Seq<Seq<char>>, id: Seq<char>, i: int)
    requires
        0 <= i <= ids.len(),
        forall|j: int| 0 <= j < i ==> ids[j] != id,
    ensures
        i < ids.len() && ids[i] == id ==> first_index(ids, id) == Some(i),
        i == ids.len() ==> first_index(ids, id) is None,
    decreases i,
{
    if i > 0 {
        lemma_first_index(ids.drop_first(), id, i - 1);
    }
}

/// The ids of a list of keys.
pub open spec fn key_ids(s: Seq<SshKey>) -> Seq<Seq<char>> {
    s.map_values(|k: SshKey| k.id@)
}

/// The key with id `id`, its passphrase decrypted with the master key (a
/// passphrase that does not decrypt is dropped); an error when no key has
/// that id.
pub fn select_key_by_id(keys: Vec<SshKey>, id: &str, master_key: &[u8]) -> (res: AppResult<SshKey>)
    requires
        master_key@.len() == 32,
    ensures
        match first_index(key_ids(keys@), id@) {
            None => res matches Err(AppError::Config(m)) && m@ == "SSH key '"@ + id@ + "' not found"@,
            Some(i) => res matches Ok(k) && ({
                let o = keys@[i];
                &&& k.id == o.id && k.name == o.name && k.key == o.key
                &&& k.key_file_path == o.key_file_path && k.has_key_data == o.has_key_data
                &&& match o.passphrase {
                    None => k.passphrase is None,
                    Some(ct) => match decrypt_spec(master_key@, ct@) {
                        Ok(p) => k.passphrase matches Some(s) && s@ == p,
                        Err(_) => k.passphrase is None,
                    },
                }
            }),
        },
{
    let ghost k0 = keys@;
    let mut list = keys;
    let mut i: usize = 0;
    while i < list.len()
        invariant
            i <= list.len(),
            list@ == k0,
            keys@ == k0,
            master_key@.len() == 32,
            forall|j: int| 0 <= j < i ==> #[trigger] key_ids(list@)[j] != id@,
        decreases list.len() - i,
    {
        if str_eq(list[i].id.as_str(), id) {
            proof {
                lemma_first_index(key_ids(list@), id@, i as int);
            }
            let mut key = list.remove(i);
            let pass = match &key.passphrase {
                Some(ct) => match decrypt(master_key, ct.as_str()) {
                    Ok(p) => Some(p),
                    Err(_) => None,
                },
                None => None,
            };
            key.passphrase = pass;
            return Ok(key);
        }
        i = i + 1;
    }
    proof {
        lemma_first_index(key_ids(list@), id@, list@.len() as int);
    }
    let mut m = to_owned_string("SSH key '");
    push_str(&mut m, id);
    push_str(&mut m, "' not found");
    Err(AppError::Config(m))
}

/// The PEM content of a key, decrypted.
pub fn decrypt_key_pem(key: &SshKey, master_key: &[u8]) -> (res: AppResult<Option<String>>)
    requires
        master_key@.len() == 32,
    ensures
        match key.key {
            Some(t) => if t@.len() == 0 {
                res matches Ok(None)
            } else {
                match decrypt_spec(master_key@, t@) {
                    Ok(p) => res matches Ok(Some(s)) && s@ == p,
                    Err(m) => res matches Err(AppError::Crypto(x)) && x@ == m,
                }
            },
            None => res matches Ok(None),
        },
{
    decrypt_optional(master_key, &key.key)
}

// ---------------------------------------------------------------------------
// Proxies
// ---------------------------------------------------------------------------

/// A saved proxy.  The password is stored encrypted.
#[derive(Debug, Clone)]
pub struct ProxyConfig {
    pub id: String,
    pub name: String,
    pub protocol: String,
    pub host: String,
    pub port: u16,
    pub username: Option<String>,
    pub password: Option<String>,
}

/// The protocol of a proxy saved without one.
pub fn default_protocol() -> (res: String)
    ensures
        res@ == "socks5"@,
{
    to_owned_string("socks5")
}

/// The host of a proxy saved without one.
pub fn default_host() -> (res: String)
    ensures
        res@ == "127.0.0.1"@,
{
    to_owned_string("127.0.0.1")
}

/// The port of a proxy saved without one.
pub fn default_port() -> (res: u16)
    ensures
        res == 1080,
{
    1080
}

/// The ids of a list of proxies.
pub open spec fn proxy_ids(s: Seq<ProxyConfig>) -> Seq<Seq<char>> {
    s.map_values(|p: ProxyConfig| p.id@)
}

/// `b` is `a` with its password taken out.
pub open spec fn is_redacted(a: ProxyConfig, b: ProxyConfig) -> bool {
    &&& b.id == a.id && b.name == a.name && b.protocol == a.protocol
    &&& b.host == a.host && b.port == a.port && b.username == a.username
    &&& b.password is None
}

/// Takes the passwords out of the proxies handed to the frontend.
pub fn redact_passwords(proxies: &mut Vec<ProxyConfig>)
    ensures
        final(proxies)@.len() == old(proxies)@.len(),
        forall|i: int|
            0 <= i < old(proxies)@.len() ==> is_redacted(#[trigger] old(proxies)@[i], final(proxies)@[i]),
{
    let ghost p0 = proxies@;
    let mut i: usize = 0;
    while i < proxies.len()
        invariant
            i <= proxies.len(),
            proxies@.len() == p0.len(),
            forall|j: int| 0 <= j < i ==> is_redacted(#[trigger] p0[j], proxies@[j]),
            forall|j: int| i <= j < p0.len() ==> #[trigger] proxies@[j] == p0[j],
        decreases proxies.len() - i,
    {
        let mut p = proxies.remove(i);
        p.password = None;
        proxies.insert(i, p);
        i = i + 1;
    }
}

/// The proxies of `s` whose id is not `id`, in order.
pub open spec fn without_proxy(s: Seq<ProxyConfig>, id: Seq<char>) -> Seq<ProxyConfig>
    decreases s.len(),
{
    if s.len() == 0 {
        s
    } else if s.last().id@ != id {
        without_proxy(s.drop_last(), id).push(s.last())
    } else {
        without_proxy(s.drop_last(), id)
    }
}

/// Removes every proxy with id `id`.
pub fn delete_proxy(proxies: &mut Vec<ProxyConfig>, id: &str)
    ensures
        final(proxies)@ == without_proxy(old(proxies)@, id@),
{
    let ghost p0 = proxies@;
    let n = proxies.len();
    let mut kept: Vec<ProxyConfig> = Vec::new();
    let mut i: usize = 0;
    while proxies.len() > 0
        invariant
            i + proxies@.len() == p0.len(),
            p0.len() <= usize::MAX,
            proxies@ == p0.skip(i as int),
            kept@ == without_proxy(p0.take(i as int), id@),
        decreases proxies.len(),
    {
        let p = proxies.remove(0);
        proof {
            assert(p == p0[i as int]);
            assert(p0.take(i + 1).drop_last() =~= p0.take(i as int));
            assert(p0.skip(i + 1) =~= proxies@);
        }
        if !str_eq(p.id.as_str(), id) {
            kept.push(p);
        }
        i = i + 1;
    }
    proof {
        assert(p0.take(p0.len() as int) =~= p0);
    }
    *proxies = kept;
}

/// The password a saved proxy gets: a new non-empty one is stored encrypted,
/// an empty one clears it, and none keeps the existing proxy's.
pub open spec fn stored_password_ok(
    given: Option<String>,
    existing: Option<ProxyConfig>,
    master_key: Seq<u8>,
    stored: Option<String>,
) -> bool {
    match given {
        Some(p) => if p@.len() > 0 {
            stored matches Some(t) && is_sealed_text(master_key, t@, encode_utf8(p@))
        } else {
            stored is None
        },
        None => match existing {
            Some(e) => stored == e.password,
            None => stored is None,
        },
    }
}

/// Saves a proxy: an empty id gets a fresh one; the proxy replaces the first
/// with its id, or is appended; its password follows [`stored_password_ok`].
/// Returns the id.  Only a password too long to encrypt fails, and then the
/// list is unchanged.
pub fn save_proxy(proxies: &mut Vec<ProxyConfig>, proxy: ProxyConfig, master_key: &[u8]) -> (res: AppResult<String>)
    requires
        master_key@.len() == 32,
    ensures
        match res {
            Err(e) => final(proxies)@ == old(proxies)@ && (e matches AppError::Crypto(m) && m@
                == "encryption failed: aead::Error"@) && (proxy.password matches Some(p) && encode_utf8(
                p@,
            ).len() > AES_GCM_MAX_PLAINTEXT),
            Ok(id) => {
                &&& (proxy.id@.len() > 0 ==> id@ == proxy.id@)
                &&& (proxy.id@.len() == 0 ==> is_uuid_v4_text(id@))
                &&& ({
                    let pos = first_index(proxy_ids(old(proxies)@), id@);
                    let existing = match pos {
                        Some(i) => Some(old(proxies)@[i]),
                        None => None,
                    };
                    let i: int = match pos {
                        Some(i) => i,
                        None => old(proxies)@.len() as int,
                    };
                    let s = final(proxies)@[i];
                    &&& (pos is Some ==> final(proxies)@ == old(proxies)@.update(i, s))
                    &&& (pos is None ==> final(proxies)@ == old(proxies)@.push(s))
                    &&& s.id@ == id@ && s.name == proxy.name && s.protocol == proxy.protocol
                    &&& s.host == proxy.host && s.port == proxy.port && s.username == proxy.username
                    &&& stored_password_ok(proxy.password, existing, master_key@, s.password)
                })
            },
        },
{
    let mut proxy = proxy;
    let ghost given = proxy;
    if proxy.id.as_str().is_empty() {
        proxy.id = uuid_v4();
    }
    let target_id = proxy.id.clone();
    let mut pos: usize = 0;
    let mut found = false;
    while !found && pos < proxies.len()
        invariant
            pos <= proxies.len(),
            proxies@ == old(proxies)@,
            forall|j: int| 0 <= j < pos ==> #[trigger] proxy_ids(proxies@)[j] != target_id@,
            found ==> pos < proxies@.len() && proxy_ids(proxies@)[pos as int] == target_id@,
        decreases proxies.len() - pos + (if found {
            0int
        } else {
            1int
        }),
    {
        if str_eq(proxies[pos].id.as_str(), target_id.as_str()) {
            found = true;
        } else {
            pos = pos + 1;
        }
    }
    proof {
        lemma_first_index(proxy_ids(proxies@), target_id@, pos as int);
    }
    let password = match &proxy.password {
        Some(plain) => {
            if plain.as_str().is_empty() {
                None
            } else {
                match encrypt(master_key, plain.as_str()) {
                    Ok(t) => Some(t),
                    Err(e) => {
                        return Err(e);
                    },
                }
            }
        },
        None => {
            if found {
                match &proxies[pos].password {
                    Some(t) => Some(t.clone()),
                    None => None,
                }
            } else {
                None
            }
        },
    };
    proxy.password = password;
    if found {
        proxies.set(pos, proxy);
    } else {
        proxies.push(proxy);
    }
    Ok(target_id)
}

/// The password of the first proxy with id `id`, decrypted; `None` when there
/// is no such proxy, it has no password, or the password does not decrypt.
pub fn get_proxy_password(proxies: &Vec<ProxyConfig>, id: &str, master_key: &[u8]) -> (res: Option<String>)
    requires
        master_key@.len() == 32,
    ensures
        match first_index(proxy_ids(proxies@), id@) {
            None => res is None,
            Some(i) => match proxies@[i].password {
                None => res is None,
                Some(ct) => match decrypt_spec(master_key@, ct@) {
                    Ok(p) => res matches Some(s) && s@ == p,
                    Err(_) => res is None,
                },
            },
        },
{
    let mut i: usize = 0;
    while i < proxies.len()
        invariant
            i <= proxies.len(),
            master_key@.len() == 32,
            forall|j: int| 0 <= j < i ==> #[trigger] proxy_ids(proxies@)[j] != id@,
        decreases proxies.len() - i,
    {
        if str_eq(proxies[i].id.as_str(), id) {
            proof {
                lemma_first_index(proxy_ids(proxies@), id@, i as int);
            }
            return match &proxies[i].password {
                Some(ct) => match decrypt(master_key, ct.as_str()) {
                    Ok(p) => Some(p),
                    Err(_) => None,
                },
                None => None,
            };
        }
        i = i + 1;
    }
    proof {
        lemma_first_index(proxy_ids(proxies@), id@, proxies@.len() as int);
    }
    None
}

/// The first proxy with id `id`.
pub fn load_proxy_by_id(proxies: Vec<ProxyConfig>, id: &str) -> (res: Option<ProxyConfig>)
    ensures
        match first_index(proxy_ids(proxies@), id@) {
            None => res is None,
            Some(i) => res == Some(proxies@[i]),
        },
{
    let ghost p0 = proxies@;
    let mut list = proxies;
    let mut i: usize = 0;
    while i < list.len()
        invariant
            i <= list.len(),
            list@ == p0,
            proxies@ == p0,
            forall|j: int| 0 <= j < i ==> #[trigger] proxy_ids(list@)[j] != id@,
        decreases list.len() - i,
    {
        if str_eq(list[i].id.as_str(), id) {
            proof {
                lemma_first_index(proxy_ids(list@), id@, i as int);
            }
            let r = list.remove(i);
            return Some(r);
        }
        i = i + 1;
    }
    proof {
        lemma_first_index(proxy_ids(list@), id@, list@.len() as int);
    }
    None
}

// ---------------------------------------------------------------------------
// Tunnels
// ---------------------------------------------------------------------------

/// A saved port forward.
#[derive(Debug, Clone)]
pub struct TunnelConfig {
    pub id: String,
    pub name: String,
    /// "local", "remote" or "dynamic".
    pub tunnel_type: String,
    pub connection_id: Option<String>,
    pub listen_port: u16,
    pub target_host: String,
    pub target_port: u16,
    pub is_open: bool,
    pub auto_open: bool,
    pub bind_localhost: bool,
}

/// The type of a tunnel saved without one.
pub fn default_tunnel_type() -> (res: String)
    ensures
        res@ == "local"@,
{
    to_owned_string("local")
}

impl Default for TunnelConfig {
    /// A closed local tunnel under a fresh id, to 127.0.0.1, bound to localhost.
    fn default() -> (res: Self)
        ensures
            is_uuid_v4_text(res.id@),
            res.name@ == Seq::<char>::empty(),
            res.tunnel_type@ == "local"@,
            res.connection_id is None,
            res.listen_port == 0,
            res.target_host@ == "127.0.0.1"@,
            res.target_port == 0,
            !res.is_open,
            !res.auto_open,
            res.bind_localhost,
    {
        TunnelConfig {
            id: uuid_v4(),
            name: String::new(),
            tunnel_type: default_tunnel_type(),
            connection_id: None,
            listen_port: 0,
            target_host: to_owned_string("127.0.0.1"),
            target_port: 0,
            is_open: false,
            auto_open: false,
            bind_localhost: true,
        }
    }
}

/// The tunnels file.
#[derive(Debug, Clone)]
pub struct TunnelsConfig {
    pub tunnels: Vec<TunnelConfig>,
}

} // verus!
