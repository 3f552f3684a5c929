//! Application settings: each section with the defaults a missing field or a
//! missing file reads as, and the migration of the activity bar layout that
//! loading the settings applies.
//!
//! The appearance section holds floating-point sizes and stays with the
//! caller, which also reads and writes `settings.json`.

use vstd::prelude::*;
use crate::history::{lemma_remove_all, remove_all};
use crate::osc::string_views;
use crate::text::{str_eq, to_owned_string};

verus! {

/// Startup and window behaviour.
#[derive(Debug, Clone)]
pub struct GeneralSettings {
    pub startup_restore: bool,
    pub default_local_shell: String,
    pub minimize_to_tray: bool,
    pub boss_key: Option<String>,
    pub confirm_on_close: bool,
}

/// The shell a local session starts when none is configured: PowerShell on
/// Windows, bash elsewhere.
pub open spec fn default_shell_spec(windows: bool) -> Seq<char> {
    if windows {
        "powershell.exe"@
    } else {
        "bash"@
    }
}

/// The default local shell on Windows (`windows`) or another system.
pub fn default_shell(windows: bool) -> (res: String)
    ensures
        res@ == default_shell_spec(windows),
{
    if windows {
        to_owned_string("powershell.exe")
    } else {
        to_owned_string("bash")
    }
}

impl GeneralSettings {
    /// The general settings of a fresh installation on Windows (`windows`) or
    /// another system.
    pub fn default_for(windows: bool) -> (res: Self)
        ensures
            !res.startup_restore,
            res.default_local_shell@ == default_shell_spec(windows),
            !res.minimize_to_tray,
            res.boss_key is None,
            res.confirm_on_close,
    {
        GeneralSettings {
            startup_restore: false,
            default_local_shell: default_shell(windows),
            minimize_to_tray: false,
            boss_key: None,
            confirm_on_close: true,
        }
    }
}

/// The default application theme.
pub fn default_app_theme() -> (res: String)
    ensures
        res@ == "github-dark"@,
{
    to_owned_string("github-dark")
}

/// The default terminal font stack.
pub fn default_font() -> (res: String)
    ensures
        res@ == "JetBrains Mono, 'Noto Sans SC Variable', Consolas, monospace"@,
{
    to_owned_string("JetBrains Mono, 'Noto Sans SC Variable', Consolas, monospace")
}

/// The default cursor style.
pub fn default_cursor_style() -> (res: String)
    ensures
        res@ == "block"@,
{
    to_owned_string("block")
}

/// The application-wide proxy.
#[derive(Debug, Clone)]
pub struct ProxySettings {
    pub enabled: bool,
    pub protocol: String,
    pub host: String,
    pub port: u16,
    pub username: Option<String>,
    /// Never written to the settings file.
    pub password: Option<String>,
}

/// The default proxy protocol.
pub fn default_proxy_protocol() -> (res: String)
    ensures
        res@ == "socks5"@,
{
    to_owned_string("socks5")
}

/// The default proxy host.
pub fn default_proxy_host() -> (res: String)
    ensures
        res@ == "127.0.0.1"@,
{
    to_owned_string("127.0.0.1")
}

/// The default proxy port.
pub fn default_proxy_port() -> (res: u16)
    ensures
        res == 1080,
{
    1080
}

impl Default for ProxySettings {
    fn default() -> (res: Self)
        ensures
            !res.enabled,
            res.protocol@ == "socks5"@,
            res.host@ == "127.0.0.1"@,
            res.port == 1080,
            res.username is None,
            res.password is None,
    {
        ProxySettings {
            enabled: false,
            protocol: default_proxy_protocol(),
            host: default_proxy_host(),
            port: default_proxy_port(),
            username: None,
            password: None,
        }
    }
}

/// A web search engine offered for selected terminal text.
#[derive(Debug, Clone)]
pub struct SearchEngine {
    pub name: String,
    /// The query URL, with `%s` where the search terms go.
    pub url_template: String,
    pub icon: Option<String>,
}

impl Default for SearchEngine {
    fn default() -> (res: Self)
        ensures
            res.name@ == Seq::<char>::empty(),
            res.url_template@ == Seq::<char>::empty(),
            res.icon is None,
    {
        SearchEngine { name: String::new(), url_template: String::new(), icon: None }
    }
}

/// The search engines configured.
#[derive(Debug, Clone)]
pub struct SearchSettings {
    pub custom_engines: Vec<SearchEngine>,
}

/// The engine `name` with query URL `url` and icon `icon`.
pub open spec fn is_engine(e: SearchEngine, name: Seq<char>, url: Seq<char>, icon: Seq<char>) -> bool {
    e.name@ == name && e.url_template@ == url && (e.icon matches Some(i) && i@ == icon)
}

fn engine(name: &str, url: &str, icon: &str) -> (res: SearchEngine)
    ensures
        is_engine(res, name@, url@, icon@),
{
    SearchEngine {
        name: to_owned_string(name),
        url_template: to_owned_string(url),
        icon: Some(to_owned_string(icon)),
    }
}

/// Google, Bing and DuckDuckGo, in that order.
pub fn default_custom_engines() -> (res: Vec<SearchEngine>)
    ensures
        res.len() == 3,
        is_engine(res[0], "Google"@, "https://www.google.com/search?q=%s"@, "google"@),
        is_engine(res[1], "Bing"@, "https://www.bing.com/search?q=%s"@, "bing"@),
        is_engine(res[2], "DuckDuckGo"@, "https://duckduckgo.com/?q=%s"@, "duckduckgo"@),
{
    let mut v: Vec<SearchEngine> = Vec::new();
    v.push(engine("Google", "https://www.google.com/search?q=%s", "google"));
    v.push(engine("Bing", "https://www.bing.com/search?q=%s", "bing"));
    v.push(engine("DuckDuckGo", "https://duckduckgo.com/?q=%s", "duckduckgo"));
    v
}

impl Default for SearchSettings {
    fn default() -> (res: Self)
        ensures
            res.custom_engines.len() == 3,
            is_engine(res.custom_engines[0], "Google"@, "https://www.google.com/search?q=%s"@, "google"@),
            is_engine(res.custom_engines[1], "Bing"@, "https://www.bing.com/search?q=%s"@, "bing"@),
            is_engine(
                res.custom_engines[2],
                "DuckDuckGo"@,
                "https://duckduckgo.com/?q=%s"@,
                "duckduckgo"@,
            ),
    {
        SearchSettings { custom_engines: default_custom_engines() }
    }
}

/// Translation of selected text, with each service's credentials.
#[derive(Debug, Clone)]
pub struct TranslationSettings {
    pub target_language: String,
    pub deepl_api_key: String,
    pub baidu_app_id: String,
    pub baidu_app_key: String,
    pub ali_app_id: String,
    pub ali_app_key: String,
    pub youdao_app_id: String,
    pub youdao_app_key: String,
}

/// The default translation target language.
pub fn default_target_language() -> (res: String)
    ensures
        res@ == "zh-CN"@,
{
    to_owned_string("zh-CN")
}

impl Default for TranslationSettings {
    fn default() -> (res: Self)
        ensures
            res.target_language@ == "zh-CN"@,
            res.deepl_api_key@ == Seq::<char>::empty(),
            res.baidu_app_id@ == Seq::<char>::empty(),
            res.baidu_app_key@ == Seq::<char>::empty(),
            res.ali_app_id@ == Seq::<char>::empty(),
            res.ali_app_key@ == Seq::<char>::empty(),
            res.youdao_app_id@ == Seq::<char>::empty(),
            res.youdao_app_key@ == Seq::<char>::empty(),
    {
        TranslationSettings {
            target_language: default_target_language(),
            deepl_api_key: String::new(),
            baidu_app_id: String::new(),
            baidu_app_key: String::new(),
            ali_app_id: String::new(),
            ali_app_key: String::new(),
            youdao_app_id: String::new(),
            youdao_app_key: String::new(),
        }
    }
}

/// Credential storage, locking and host key checking.
#[derive(Debug, Clone)]
pub struct SecuritySettings {
    pub use_os_keyring: bool,
    pub require_master_password: bool,
    pub enable_screen_lock: bool,
    pub idle_lock_minutes: u32,
    pub lock_password: Option<String>,
    pub host_key_policy: String,
}

/// The default policy for unknown host keys.
pub fn default_host_key_policy() -> (res: String)
    ensures
        res@ == "prompt"@,
{
    to_owned_string("prompt")
}

impl Default for SecuritySettings {
    fn default() -> (res: Self)
        ensures
            res.use_os_keyring,
            !res.require_master_password,
            !res.enable_screen_lock,
            res.idle_lock_minutes == 0,
            res.lock_password is None,
            res.host_key_policy@ == "prompt"@,
    {
        SecuritySettings {
            use_os_keyring: true,
            require_master_password: false,
            enable_screen_lock: false,
            idle_lock_minutes: 0,
            lock_password: None,
            host_key_policy: default_host_key_policy(),
        }
    }
}

/// Words highlighted in terminal output.
#[derive(Debug, Clone)]
pub struct KeywordHighlightRule {
    pub id: String,
    pub name: String,
    pub patterns: Vec<String>,
    pub color_dark: String,
    pub color_light: String,
    pub enabled: bool,
}

/// The default highlight colour on dark themes.
pub fn default_highlight_color_dark() -> (res: String)
    ensures
        res@ == "#79c0ff"@,
{
    to_owned_string("#79c0ff")
}

/// The default highlight colour on light themes.
pub fn default_highlight_color_light() -> (res: String)
    ensures
        res@ == "#0969da"@,
{
    to_owned_string("#0969da")
}

impl Default for KeywordHighlightRule {
    /// An empty, disabled rule (the colours a missing field reads as are
    /// those of `default_highlight_color_dark` and `default_highlight_color_light`).
    fn default() -> (res: Self)
        ensures
            res.id@ == Seq::<char>::empty(),
            res.name@ == Seq::<char>::empty(),
            res.patterns@ == Seq::<String>::empty(),
            res.color_dark@ == Seq::<char>::empty(),
            res.color_light@ == Seq::<char>::empty(),
            !res.enabled,
    {
        KeywordHighlightRule {
            id: String::new(),
            name: String::new(),
            patterns: Vec::new(),
            color_dark: String::new(),
            color_light: String::new(),
            enabled: false,
        }
    }
}

/// Which kinds of text in terminal output become clickable links.
#[derive(Debug, Clone, Copy)]
pub struct ActionLinksMatcherSettings {
    pub ipv4: bool,
    pub archive: bool,
    pub host_port: bool,
}

impl Default for ActionLinksMatcherSettings {
    fn default() -> (res: Self)
        ensures
            res.ipv4 && res.archive && res.host_port,
    {
        ActionLinksMatcherSettings { ipv4: true, archive: true, host_port: true }
    }
}

/// Terminal behaviour.
#[derive(Debug, Clone)]
pub struct TerminalSettings {
    pub scrollback_lines: u32,
    pub keep_alive_interval: u32,
    pub hardware_acceleration: bool,
    pub keyword_highlights_enabled: bool,
    pub keyword_highlights_across_wrapped_lines: bool,
    pub keyword_highlights: Vec<KeywordHighlightRule>,
    pub action_links_enabled: bool,
    pub action_links_matchers: ActionLinksMatcherSettings,
}

/// The default number of scrollback lines.
pub fn default_scrollback() -> (res: u32)
    ensures
        res == 10000,
{
    10000
}

/// The default keep-alive interval, in seconds.
pub fn default_keep_alive() -> (res: u32)
    ensures
        res == 60,
{
    60
}

impl Default for TerminalSettings {
    fn default() -> (res: Self)
        ensures
            res.scrollback_lines == 10000,
            res.keep_alive_interval == 60,
            !res.hardware_acceleration,
            res.keyword_highlights_enabled,
            !res.keyword_highlights_across_wrapped_lines,
            res.keyword_highlights@ == Seq::<KeywordHighlightRule>::empty(),
            res.action_links_enabled,
            res.action_links_matchers.ipv4 && res.action_links_matchers.archive
                && res.action_links_matchers.host_port,
    {
        TerminalSettings {
            scrollback_lines: default_scrollback(),
            keep_alive_interval: default_keep_alive(),
            hardware_acceleration: false,
            keyword_highlights_enabled: true,
            keyword_highlights_across_wrapped_lines: false,
            keyword_highlights: Vec::new(),
            action_links_enabled: true,
            action_links_matchers: ActionLinksMatcherSettings::default(),
        }
    }
}

/// File transfer behaviour.
#[derive(Debug, Clone)]
pub struct TransferSettings {
    pub download_threads: u32,
    pub upload_threads: u32,
    /// "overwrite", "skip" or "rename".
    pub duplicate_strategy: String,
    pub preserve_timestamps: bool,
    pub resume_broken_transfer: bool,
    pub default_file_permissions: String,
    pub max_transfer_retries: u32,
    /// Chunk size in KiB.
    pub transfer_buffer_size: u32,
    pub download_path: String,
    pub ask_save_location: bool,
    pub default_editor: String,
    pub recording_path: String,
}

/// The default number of concurrent chunk transfers per file.
pub fn default_transfer_threads() -> (res: u32)
    ensures
        res == 3,
{
    3
}

/// The default strategy for a destination that exists.
pub fn default_duplicate_strategy() -> (res: String)
    ensures
        res@ == "overwrite"@,
{
    to_owned_string("overwrite")
}

/// The default permissions of created files, in octal.
pub fn default_file_permissions() -> (res: String)
    ensures
        res@ == "644"@,
{
    to_owned_string("644")
}

/// The default number of retries of a failed transfer.
pub fn default_max_retries() -> (res: u32)
    ensures
        res == 2,
{
    2
}

/// The default chunk size in KiB.
pub fn default_buffer_size() -> (res: u32)
    ensures
        res == 32,
{
    32
}

impl Default for TransferSettings {
    fn default() -> (res: Self)
        ensures
            res.download_threads == 3,
            res.upload_threads == 3,
            res.duplicate_strategy@ == "overwrite"@,
            res.preserve_timestamps,
            res.resume_broken_transfer,
            res.default_file_permissions@ == "644"@,
            res.max_transfer_retries == 2,
            res.transfer_buffer_size == 32,
            res.download_path@ == Seq::<char>::empty(),
            !res.ask_save_location,
            res.default_editor@ == Seq::<char>::empty(),
            res.recording_path@ == Seq::<char>::empty(),
    {
        TransferSettings {
            download_threads: default_transfer_threads(),
            upload_threads: default_transfer_threads(),
            duplicate_strategy: default_duplicate_strategy(),
            preserve_timestamps: true,
            resume_broken_transfer: true,
            default_file_permissions: default_file_permissions(),
            max_transfer_retries: default_max_retries(),
            transfer_buffer_size: default_buffer_size(),
            download_path: String::new(),
            ask_save_location: false,
            default_editor: String::new(),
            recording_path: String::new(),
        }
    }
}

/// Mouse and keyboard interaction with the terminal.
#[derive(Debug, Clone)]
pub struct InteractionSettings {
    pub copy_on_select: bool,
    pub right_click_paste: bool,
    pub word_separators: String,
    pub default_encoding: String,
}

/// The characters that end a word when selecting by double click.
pub fn default_word_separators() -> (res: String)
    ensures
        res@ == " ()[]{}\"':=,;|&<>"@,
{
    to_owned_string(" ()[]{}\"':=,;|&<>")
}

/// The default terminal encoding.
pub fn default_encoding() -> (res: String)
    ensures
        res@ == "UTF-8"@,
{
    to_owned_string("UTF-8")
}

impl Default for InteractionSettings {
    fn default() -> (res: Self)
        ensures
            !res.copy_on_select,
            !res.right_click_paste,
            res.word_separators@ == " ()[]{}\"':=,;|&<>"@,
            res.default_encoding@ == "UTF-8"@,
    {
        InteractionSettings {
            copy_on_select: false,
            right_click_paste: false,
            word_separators: default_word_separators(),
            default_encoding: default_encoding(),
        }
    }
}


// ---------------------------------------------------------------------------
// Activity bar layout migration
// ---------------------------------------------------------------------------

/// The panel ids in the four zones of the activity bar.
#[derive(Debug, Clone)]
pub struct ActivityBarLayout {
    pub left_top: Vec<String>,
    pub left_bottom: Vec<String>,
    pub right_top: Vec<String>,
    pub right_bottom: Vec<String>,
}

/// The part of the UI state that the layout migration reads and rewrites.
#[derive(Debug, Clone)]
pub struct UiLayoutState {
    pub activity_bar_layout: ActivityBarLayout,
    pub active_left_panel: Option<String>,
    pub active_right_panel: Option<String>,
}

/// A layout as plain values: the four zones and the two active panels.
pub struct LayoutModel {
    pub left_top: Seq<Seq<char>>,
    pub left_bottom: Seq<Seq<char>>,
    pub right_top: Seq<Seq<char>>,
    pub right_bottom: Seq<Seq<char>>,
    pub active_left_panel: Option<Seq<char>>,
    pub active_right_panel: Option<Seq<char>>,
}

/// The view of an optional string.
pub open spec fn opt_view(o: Option<String>) -> Option<Seq<char>> {
    match o {
        Some(s) => Some(s@),
        None => None,
    }
}

impl UiLayoutState {
    /// The layout as plain values.
    pub open spec fn model(&self) -> LayoutModel {
        LayoutModel {
            left_top: string_views(self.activity_bar_layout.left_top@),
            left_bottom: string_views(self.activity_bar_layout.left_bottom@),
            right_top: string_views(self.activity_bar_layout.right_top@),
            right_bottom: string_views(self.activity_bar_layout.right_bottom@),
            active_left_panel: opt_view(self.active_left_panel),
            active_right_panel: opt_view(self.active_right_panel),
        }
    }
}

/// The panel id the key manager had before it became `securityAuth`.
pub open spec fn key_management_id() -> Seq<char> {
    "keyManagement"@
}

/// The panel id of security and authentication.
pub open spec fn security_auth_id() -> Seq<char> {
    "securityAuth"@
}

/// The file transfer panel, no longer in the activity bar.
pub open spec fn file_transfer_id() -> Seq<char> {
    "fileTransfer"@
}

/// The network panel, which every layout has.
pub open spec fn network_id() -> Seq<char> {
    "network"@
}

/// The recording panel, which every layout has.
pub open spec fn recording_id() -> Seq<char> {
    "recording"@
}

/// `z` with `keyManagement` renamed to `securityAuth`.
pub open spec fn rename_key_management(z: Seq<Seq<char>>) -> Seq<Seq<char>> {
    z.map_values(|x: Seq<char>| if x == key_management_id() { security_auth_id() } else { x })
}

/// `id` is in one of the four zones.
pub open spec fn in_any_zone(m: LayoutModel, id: Seq<char>) -> bool {
    m.left_top.contains(id) || m.left_bottom.contains(id) || m.right_top.contains(id)
        || m.right_bottom.contains(id)
}

/// A zone after the renaming and the removal of `fileTransfer`.
pub open spec fn migrate_zone(z: Seq<Seq<char>>) -> Seq<Seq<char>> {
    remove_all(rename_key_management(z), file_transfer_id())
}

/// The layout after its panels were renamed and `fileTransfer` removed: the
/// left panel `keyManagement` becomes `securityAuth`, a left panel
/// `fileTransfer` becomes `fileExplorer` and a right one `savedConnections`.
pub open spec fn migrate_panels(m: LayoutModel) -> LayoutModel {
    LayoutModel {
        left_top: migrate_zone(m.left_top),
        left_bottom: migrate_zone(m.left_bottom),
        right_top: migrate_zone(m.right_top),
        right_bottom: migrate_zone(m.right_bottom),
        active_left_panel: match m.active_left_panel {
            Some(p) => if p == key_management_id() {
                Some(security_auth_id())
            } else if p == file_transfer_id() {
                Some("fileExplorer"@)
            } else {
                Some(p)
            },
            None => None,
        },
        active_right_panel: if m.active_right_panel == Some(file_transfer_id()) {
            Some("savedConnections"@)
        } else {
            m.active_right_panel
        },
    }
}

/// The layout after `network` was appended to the left top zone when no zone
/// had it.
pub open spec fn ensure_network(m: LayoutModel) -> LayoutModel {
    if in_any_zone(m, network_id()) {
        m
    } else {
        LayoutModel { left_top: m.left_top.push(network_id()), ..m }
    }
}

/// The layout after `recording` was put second in the right bottom zone when
/// no zone had it.
pub open spec fn ensure_recording(m: LayoutModel) -> LayoutModel {
    if in_any_zone(m, recording_id()) {
        m
    } else {
        LayoutModel { right_bottom: m.right_bottom.insert(1, recording_id()), ..m }
    }
}

/// The migrated layout.
pub open spec fn migrate_layout(m: LayoutModel) -> LayoutModel {
    ensure_recording(ensure_network(migrate_panels(m)))
}

/// The migration applies to `m`: the recording panel has to be put second in
/// the right bottom zone only when that zone holds at least one panel.
pub open spec fn migration_applies(m: LayoutModel) -> bool {
    let b = ensure_network(migrate_panels(m));
    !in_any_zone(b, recording_id()) ==> b.right_bottom.len() >= 1
}

/// Something in `m` is out of date: a renamed or removed panel, or a missing
/// network or recording panel.
pub open spec fn layout_needs_migration(m: LayoutModel) -> bool {
    let a = migrate_panels(m);
    let b = ensure_network(a);
    ||| m.left_top.contains(key_management_id())
    ||| m.left_bottom.contains(key_management_id())
    ||| m.right_top.contains(key_management_id())
    ||| m.right_bottom.contains(key_management_id())
    ||| m.active_left_panel == Some(key_management_id())
    ||| rename_key_management(m.left_top).contains(file_transfer_id())
    ||| rename_key_management(m.left_bottom).contains(file_transfer_id())
    ||| rename_key_management(m.right_top).contains(file_transfer_id())
    ||| rename_key_management(m.right_bottom).contains(file_transfer_id())
    ||| m.active_left_panel == Some(file_transfer_id())
    ||| m.active_right_panel == Some(file_transfer_id())
    ||| !in_any_zone(a, network_id())
    ||| !in_any_zone(b, recording_id())
}

/// Renames `keyManagement` to `securityAuth` in a zone; whether one was there.
fn rename_in_zone(z: &mut Vec<String>) -> (changed: bool)
    ensures
        string_views(final(z)@) == rename_key_management(string_views(old(z)@)),
        changed == string_views(old(z)@).contains(key_management_id()),
{
    let ghost z0 = string_views(z@);
    let mut changed = false;
    let mut i: usize = 0;
    while i < z.len()
        invariant
            i <= z.len(),
            z0.len() == z.len(),
            forall|j: int| 0 <= j < i ==> #[trigger] string_views(z@)[j] == rename_key_management(z0)[j],
            forall|j: int| i <= j < z.len() ==> #[trigger] string_views(z@)[j] == z0[j],
            changed == exists|j: int| 0 <= j < i && z0[j] == key_management_id(),
        decreases z.len() - i,
    {
        let ghost before = z@;
        proof {
            assert(string_views(z@)[i as int] == z0[i as int]);
            assert(string_views(z@)[i as int] == z@[i as int]@);
        }
        if str_eq(z[i].as_str(), "keyManagement") {
            let sa = to_owned_string("securityAuth");
            z.set(i, sa);
            changed = true;
            proof {
                assert(z@ == before.update(i as int, sa));
                assert(z@[i as int]@ == security_auth_id());
                assert(z0[i as int] == key_management_id());
            }
        }
        proof {
            assert(string_views(z@)[i as int] == z@[i as int]@);
            assert(rename_key_management(z0)[i as int] == (if z0[i as int] == key_management_id() {
                security_auth_id()
            } else {
                z0[i as int]
            }));
            assert forall|j: int| 0 <= j < z.len() && j != i implies #[trigger] string_views(z@)[j]
                == string_views(before)[j] by {
                assert(z@[j] == before[j]);
            }
        }
        i = i + 1;
    }
    proof {
        assert(string_views(z@) =~= rename_key_management(z0));
        if changed {
            let j = choose|j: int| 0 <= j < z0.len() && z0[j] == key_management_id();
            assert(z0.contains(key_management_id()));
        }
    }
    changed
}

/// Removes every `id` from a zone; whether there was one.
fn remove_from_zone(z: &mut Vec<String>, id: &str) -> (changed: bool)
    ensures
        string_views(final(z)@) == remove_all(string_views(old(z)@), id@),
        changed == string_views(old(z)@).contains(id@),
{
    let ghost z0 = string_views(z@);
    let mut kept: Vec<String> = Vec::new();
    let mut changed = false;
    let mut i: usize = 0;
    while i < z.len()
        invariant
            i <= z.len(),
            z0 == string_views(z@),
            string_views(kept@) == remove_all(z0.take(i as int), id@),
            changed == z0.take(i as int).contains(id@),
        decreases z.len() - i,
    {
        proof {
            assert(z0.take(i + 1).drop_last() =~= z0.take(i as int));
            assert(z0.take(i + 1).last() == z0[i as int]);
        }
        if str_eq(z[i].as_str(), id) {
            changed = true;
            proof {
                assert(z0.take(i + 1)[i as int] == id@);
            }
        } else {
            kept.push(z[i].clone());
            proof {
                assert(string_views(kept@) =~= remove_all(z0.take(i as int), id@).push(z0[i as int]));
            }
        }
        proof {
            assert(z0.take(i + 1) =~= z0.take(i as int).push(z0[i as int]));
            if z0.take(i as int).contains(id@) {
                let j = choose|j: int| 0 <= j < i && #[trigger] z0.take(i as int)[j] == id@;
                assert(z0.take(i + 1)[j] == id@);
            }
            if z0.take(i + 1).contains(id@) && z0[i as int] != id@ {
                let j = choose|j: int| 0 <= j < i + 1 && #[trigger] z0.take(i + 1)[j] == id@;
                assert(z0.take(i as int)[j] == id@);
            }
        }
        i = i + 1;
    }
    proof {
        assert(z0.take(z0.len() as int) =~= z0);
    }
    *z = kept;
    changed
}

/// Whether a zone has the panel `id`.
fn zone_has(z: &Vec<String>, id: &str) -> (res: bool)
    ensures
        res == string_views(z@).contains(id@),
{
    let mut i: usize = 0;
    while i < z.len()
        invariant
            i <= z.len(),
            forall|j: int| 0 <= j < i ==> z@[j]@ != id@,
        decreases z.len() - i,
    {
        if str_eq(z[i].as_str(), id) {
            proof {
                assert(string_views(z@)[i as int] == id@);
            }
            return true;
        }
        i = i + 1;
    }
    proof {
        if string_views(z@).contains(id@) {
            let j = choose|j: int| 0 <= j < z.len() && string_views(z@)[j] == id@;
            assert(z@[j]@ == id@);
        }
    }
    false
}

/// Whether a layout has the panel `id` in one of its zones.
fn layout_has(l: &ActivityBarLayout, id: &str) -> (res: bool)
    ensures
        res == (string_views(l.left_top@).contains(id@) || string_views(l.left_bottom@).contains(
            id@,
        ) || string_views(l.right_top@).contains(id@) || string_views(l.right_bottom@).contains(
            id@,
        )),
{
    zone_has(&l.left_top, id) || zone_has(&l.left_bottom, id) || zone_has(&l.right_top, id)
        || zone_has(&l.right_bottom, id)
}

impl UiLayoutState {
    /// Whether `migrate` can run on this layout (see [`migration_applies`]).
    pub fn migration_applies(&self) -> (res: bool)
        ensures
            res == migration_applies(self.model()),
    {
        let mut probe = self.clone_layout();
        probe.migrate_panels();
        if !layout_has(&probe.activity_bar_layout, "network") {
            probe.activity_bar_layout.left_top.push(to_owned_string("network"));
            proof {
                assert(string_views(probe.activity_bar_layout.left_top@) =~= ensure_network(
                    migrate_panels(self.model()),
                ).left_top);
            }
        }
        proof {
            assert(probe.model() == ensure_network(migrate_panels(self.model())));
        }
        layout_has(&probe.activity_bar_layout, "recording")
            || probe.activity_bar_layout.right_bottom.len() >= 1
    }

    /// A copy of this layout.
    pub fn clone_layout(&self) -> (res: Self)
        ensures
            res.model() == self.model(),
    {
        let l = &self.activity_bar_layout;
        let res = UiLayoutState {
            activity_bar_layout: ActivityBarLayout {
                left_top: clone_strings(&l.left_top),
                left_bottom: clone_strings(&l.left_bottom),
                right_top: clone_strings(&l.right_top),
                right_bottom: clone_strings(&l.right_bottom),
            },
            active_left_panel: clone_opt(&self.active_left_panel),
            active_right_panel: clone_opt(&self.active_right_panel),
        };
        res
    }

    /// The first stage of the migration; whether it changed anything.
    fn migrate_panels(&mut self) -> (changed: bool)
        ensures
            final(self).model() == migrate_panels(old(self).model()),
            changed == ({
                let m = old(self).model();
                ||| m.left_top.contains(key_management_id())
                ||| m.left_bottom.contains(key_management_id())
                ||| m.right_top.contains(key_management_id())
                ||| m.right_bottom.contains(key_management_id())
                ||| m.active_left_panel == Some(key_management_id())
                ||| rename_key_management(m.left_top).contains(file_transfer_id())
                ||| rename_key_management(m.left_bottom).contains(file_transfer_id())
                ||| rename_key_management(m.right_top).contains(file_transfer_id())
                ||| rename_key_management(m.right_bottom).contains(file_transfer_id())
                ||| m.active_left_panel == Some(file_transfer_id())
                ||| m.active_right_panel == Some(file_transfer_id())
            }),
    {
        proof {
            reveal_strlit("keyManagement");
            reveal_strlit("fileTransfer");
            reveal_strlit("securityAuth");
            assert(security_auth_id()[0] != file_transfer_id()[0]);
        }
        let mut changed = false;
        if rename_in_zone(&mut self.activity_bar_layout.left_top) {
            changed = true;
        }
        if rename_in_zone(&mut self.activity_bar_layout.left_bottom) {
            changed = true;
        }
        if rename_in_zone(&mut self.activity_bar_layout.right_top) {
            changed = true;
        }
        if rename_in_zone(&mut self.activity_bar_layout.right_bottom) {
            changed = true;
        }
        let left_is_km = match &self.active_left_panel {
            Some(p) => str_eq(p.as_str(), "keyManagement"),
            None => false,
        };
        if left_is_km {
            self.active_left_panel = Some(to_owned_string("securityAuth"));
            changed = true;
        }
        if remove_from_zone(&mut self.activity_bar_layout.left_top, "fileTransfer") {
            changed = true;
        }
        if remove_from_zone(&mut self.activity_bar_layout.left_bottom, "fileTransfer") {
            changed = true;
        }
        if remove_from_zone(&mut self.activity_bar_layout.right_top, "fileTransfer") {
            changed = true;
        }
        if remove_from_zone(&mut self.activity_bar_layout.right_bottom, "fileTransfer") {
            changed = true;
        }
        let left_is_ft = match &self.active_left_panel {
            Some(p) => str_eq(p.as_str(), "fileTransfer"),
            None => false,
        };
        if left_is_ft {
            self.active_left_panel = Some(to_owned_string("fileExplorer"));
            changed = true;
        }
        let right_is_ft = match &self.active_right_panel {
            Some(p) => str_eq(p.as_str(), "fileTransfer"),
            None => false,
        };
        if right_is_ft {
            self.active_right_panel = Some(to_owned_string("savedConnections"));
            changed = true;
        }
        proof {
            assert(self.model().left_top == migrate_panels(old(self).model()).left_top);
            assert(self.model().active_left_panel == migrate_panels(old(self).model()).active_left_panel);
            assert(self.model().active_right_panel == migrate_panels(old(self).model()).active_right_panel);
        }
        changed
    }

    /// Brings a layout saved by an earlier version up to date:
    /// `keyManagement` becomes `securityAuth`, `fileTransfer` leaves the
    /// activity bar (an active `fileTransfer` panel becomes `fileExplorer` on
    /// the left and `savedConnections` on the right), `network` is appended to
    /// the left top zone and `recording` put second in the right bottom zone
    /// when no zone has them.  Returns whether anything changed, that is
    /// whether the settings have to be written back.
    pub fn migrate(&mut self) -> (migrated: bool)
        requires
            migration_applies(old(self).model()),
        ensures
            final(self).model() == migrate_layout(old(self).model()),
            migrated == layout_needs_migration(old(self).model()),
    {
        proof {
            reveal_strlit("network");
            reveal_strlit("recording");
        }
        let mut migrated = self.migrate_panels();
        if !layout_has(&self.activity_bar_layout, "network") {
            self.activity_bar_layout.left_top.push(to_owned_string("network"));
            migrated = true;
            proof {
                assert(string_views(self.activity_bar_layout.left_top@) =~= ensure_network(
                    migrate_panels(old(self).model()),
                ).left_top);
            }
        }
        proof {
            assert(self.model() == ensure_network(migrate_panels(old(self).model())));
        }
        if !layout_has(&self.activity_bar_layout, "recording") {
            self.activity_bar_layout.right_bottom.insert(1, to_owned_string("recording"));
            migrated = true;
            proof {
                assert(string_views(self.activity_bar_layout.right_bottom@) =~= ensure_recording(
                    ensure_network(migrate_panels(old(self).model())),
                ).right_bottom);
            }
        }
        proof {
            assert(self.model() == migrate_layout(old(self).model()));
        }
        migrated
    }
}

fn clone_strings(v: &Vec<String>) -> (res: Vec<String>)
    ensures
        string_views(res@) == string_views(v@),
{
    let mut out: Vec<String> = Vec::new();
    let mut i: usize = 0;
    while i < v.len()
        invariant
            i <= v.len(),
            string_views(out@) == string_views(v@.take(i as int)),
        decreases v.len() - i,
    {
        let c = v[i].clone();
        let ghost before = out@;
        out.push(c);
        proof {
            assert(c@ == v@[i as int]@);
            assert(v@.take(i + 1) =~= v@.take(i as int).push(v@[i as int]));
            assert(string_views(out@) =~= string_views(before).push(c@));
            assert(string_views(v@.take(i + 1)) =~= string_views(v@.take(i as int)).push(v@[i as int]@));
        }
        i = i + 1;
    }
    proof {
        assert(v@.take(v@.len() as int) =~= v@);
    }
    out
}

fn clone_opt(o: &Option<String>) -> (res: Option<String>)
    ensures
        opt_view(res) == opt_view(*o),
{
    match o {
        Some(s) => Some(s.clone()),
        None => None,
    }
}


proof fn lemma_panel_ids_distinct()
    ensures
        key_management_id() != security_auth_id(),
        key_management_id() != file_transfer_id(),
        key_management_id() != network_id(),
        key_management_id() != recording_id(),
        security_auth_id() != file_transfer_id(),
        file_transfer_id() != network_id(),
        file_transfer_id() != recording_id(),
        network_id() != recording_id(),
        "fileExplorer"@ != key_management_id(),
        "fileExplorer"@ != file_transfer_id(),
        "savedConnections"@ != file_transfer_id(),
{
    reveal_strlit("keyManagement");
    reveal_strlit("securityAuth");
    reveal_strlit("fileTransfer");
    reveal_strlit("network");
    reveal_strlit("recording");
    reveal_strlit("fileExplorer");
    reveal_strlit("savedConnections");
    assert(security_auth_id()[0] != file_transfer_id()[0]);
    assert("fileExplorer"@[4] != file_transfer_id()[4]);
    assert(key_management_id().len() == 13);
    assert(network_id().len() == 7);
    assert(recording_id().len() == 9);
    assert(file_transfer_id().len() == 12);
}

proof fn lemma_rename_key_management(z: Seq<Seq<char>>)
    ensures
        !rename_key_management(z).contains(key_management_id()),
        !z.contains(key_management_id()) ==> rename_key_management(z) == z,
        forall|x: Seq<char>|
            x != key_management_id() && x != security_auth_id() ==> (#[trigger] rename_key_management(
                z,
            ).contains(x) <==> z.contains(x)),
{
    lemma_panel_ids_distinct();
    let r = rename_key_management(z);
    if r.contains(key_management_id()) {
        let j = choose|j: int| 0 <= j < r.len() && r[j] == key_management_id();
        assert(r[j] == (if z[j] == key_management_id() { security_auth_id() } else { z[j] }));
    }
    if !z.contains(key_management_id()) {
        assert forall|j: int| 0 <= j < z.len() implies r[j] == z[j] by {
            if z[j] == key_management_id() {
                assert(z.contains(key_management_id()));
            }
        }
        assert(r =~= z);
    }
    assert forall|x: Seq<char>|
        x != key_management_id() && x != security_auth_id() implies (#[trigger] r.contains(x)
        <==> z.contains(x)) by {
        if r.contains(x) {
            let j = choose|j: int| 0 <= j < r.len() && r[j] == x;
            assert(z[j] == x);
        }
        if z.contains(x) {
            let j = choose|j: int| 0 <= j < z.len() && z[j] == x;
            assert(r[j] == x);
        }
    }
}

proof fn lemma_push_contains(s: Seq<Seq<char>>, a: Seq<char>)
    ensures
        forall|x: Seq<char>| #[trigger] s.push(a).contains(x) <==> (s.contains(x) || x == a),
{
    assert forall|x: Seq<char>| #[trigger] s.push(a).contains(x) <==> (s.contains(x) || x == a) by {
        if s.push(a).contains(x) {
            let j = choose|j: int| 0 <= j < s.push(a).len() && s.push(a)[j] == x;
            if j < s.len() {
                assert(s[j] == x);
            }
        }
        if s.contains(x) {
            let j = choose|j: int| 0 <= j < s.len() && s[j] == x;
            assert(s.push(a)[j] == x);
        }
        if x == a {
            assert(s.push(a)[s.len() as int] == x);
        }
    }
}

proof fn lemma_insert_contains(s: Seq<Seq<char>>, a: Seq<char>)
    requires
        s.len() >= 1,
    ensures
        forall|x: Seq<char>| #[trigger] s.insert(1, a).contains(x) <==> (s.contains(x) || x == a),
{
    let t = s.insert(1, a);
    assert forall|x: Seq<char>| #[trigger] t.contains(x) <==> (s.contains(x) || x == a) by {
        if t.contains(x) {
            let j = choose|j: int| 0 <= j < t.len() && t[j] == x;
            if j < 1 {
                assert(s[j] == x);
            } else if j > 1 {
                assert(s[j - 1] == x);
            }
        }
        if s.contains(x) {
            let j = choose|j: int| 0 <= j < s.len() && s[j] == x;
            if j < 1 {
                assert(t[j] == x);
            } else {
                assert(t[j + 1] == x);
            }
        }
        if x == a {
            assert(t[1] == x);
        }
    }
}

proof fn lemma_migrate_zone(z: Seq<Seq<char>>)
    ensures
        !migrate_zone(z).contains(key_management_id()),
        !migrate_zone(z).contains(file_transfer_id()),
        forall|x: Seq<char>|
            x != key_management_id() && x != security_auth_id() && x != file_transfer_id() ==> (
            #[trigger] migrate_zone(z).contains(x) <==> z.contains(x)),
        !z.contains(key_management_id()) && !z.contains(file_transfer_id()) ==> migrate_zone(z)
            == z,
{
    lemma_panel_ids_distinct();
    lemma_rename_key_management(z);
    lemma_remove_all(rename_key_management(z), file_transfer_id());
    assert forall|x: Seq<char>|
        x != key_management_id() && x != security_auth_id() && x != file_transfer_id() implies (
        #[trigger] migrate_zone(z).contains(x) <==> z.contains(x)) by {
        assert(rename_key_management(z).contains(x) <==> z.contains(x));
        assert(migrate_zone(z).contains(x) <==> rename_key_management(z).contains(x));
    }
    if !z.contains(key_management_id()) && !z.contains(file_transfer_id()) {
        assert(!rename_key_management(z).contains(file_transfer_id()));
    }
}

/// Migrating a layout a second time changes nothing and reports nothing to
/// write back: after one migration no old panel id is left, no
/// `fileTransfer` remains, and the network and recording panels are present.
pub proof fn law_migration_is_idempotent(m: LayoutModel)
    requires
        migration_applies(m),
    ensures
        migration_applies(migrate_layout(m)),
        !layout_needs_migration(migrate_layout(m)),
        migrate_layout(migrate_layout(m)) == migrate_layout(m),
{
    lemma_panel_ids_distinct();
    let a = migrate_panels(m);
    let b = ensure_network(a);
    let r = migrate_layout(m);
    lemma_migrate_zone(m.left_top);
    lemma_migrate_zone(m.left_bottom);
    lemma_migrate_zone(m.right_top);
    lemma_migrate_zone(m.right_bottom);
    lemma_push_contains(a.left_top, network_id());
    // after the network step: no old ids, network present
    assert(!b.left_top.contains(key_management_id()) && !b.left_top.contains(file_transfer_id()));
    assert(in_any_zone(b, network_id()));
    if b.right_bottom.len() >= 1 {
        lemma_insert_contains(b.right_bottom, recording_id());
    }
    // the result: no old ids in any zone, network and recording present
    assert(!r.right_bottom.contains(key_management_id()) && !r.right_bottom.contains(
        file_transfer_id(),
    ));
    assert(in_any_zone(r, network_id()));
    assert(in_any_zone(r, recording_id()));
    lemma_migrate_zone(r.left_top);
    lemma_migrate_zone(r.left_bottom);
    lemma_migrate_zone(r.right_top);
    lemma_migrate_zone(r.right_bottom);
    lemma_rename_key_management(r.left_top);
    lemma_rename_key_management(r.left_bottom);
    lemma_rename_key_management(r.right_top);
    lemma_rename_key_management(r.right_bottom);
    let a2 = migrate_panels(r);
    assert(a2.left_top == r.left_top);
    assert(a2.right_bottom == r.right_bottom);
    assert(a2 == r);
    assert(ensure_network(a2) == r);
    assert(ensure_recording(r) == r);
}


// ---------------------------------------------------------------------------
// Closing the main window
// ---------------------------------------------------------------------------

/// What a close request on a window does.
#[derive(Debug, Clone, Copy, PartialEq, Eq, Structural)]
pub enum WindowCloseAction {
    /// Hide the main window to the tray instead of closing it.
    HideToTray,
    /// Close the main window and its child windows.
    CloseWithChildren,
    /// Close the window.
    Close,
}

/// The windows closed with the main window.
pub const CHILD_WINDOWS: [&'static str; 3] = ["settings", "new-session", "quick-command"];

/// The action for a close request on the window `label`: the main window
/// hides to the tray when the settings (when they could be read) say so, and
/// otherwise closes with its children; other windows just close.
pub fn close_request_action(label: &str, minimize_to_tray: Option<bool>) -> (res: WindowCloseAction)
    ensures
        label@ != "main"@ ==> res == WindowCloseAction::Close,
        label@ == "main"@ && minimize_to_tray == Some(true) ==> res == WindowCloseAction::HideToTray,
        label@ == "main"@ && minimize_to_tray != Some(true) ==> res
            == WindowCloseAction::CloseWithChildren,
{
    if !str_eq(label, "main") {
        return WindowCloseAction::Close;
    }
    match minimize_to_tray {
        Some(true) => WindowCloseAction::HideToTray,
        _ => WindowCloseAction::CloseWithChildren,
    }
}

} // verus!
