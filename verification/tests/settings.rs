use dragonfly::settings::{
    default_app_theme, default_cursor_style, default_custom_engines, default_encoding, default_font,
    default_shell, default_word_separators, ActionLinksMatcherSettings, ActivityBarLayout,
    GeneralSettings, InteractionSettings, KeywordHighlightRule, ProxySettings, SearchEngine,
    SearchSettings, SecuritySettings, TerminalSettings, TransferSettings, TranslationSettings,
    UiLayoutState,
};

fn strings(v: &[&str]) -> Vec<String> {
    v.iter().map(|s| s.to_string()).collect()
}

fn layout(lt: &[&str], lb: &[&str], rt: &[&str], rb: &[&str], left: Option<&str>, right: Option<&str>) -> UiLayoutState {
    UiLayoutState {
        activity_bar_layout: ActivityBarLayout {
            left_top: strings(lt),
            left_bottom: strings(lb),
            right_top: strings(rt),
            right_bottom: strings(rb),
        },
        active_left_panel: left.map(str::to_string),
        active_right_panel: right.map(str::to_string),
    }
}

#[test]
fn defaults_match_fresh_installation() {
    let g = GeneralSettings::default_for(false);
    assert_eq!(g.default_local_shell, "bash");
    assert!(!g.startup_restore && g.confirm_on_close && !g.minimize_to_tray);
    assert_eq!(GeneralSettings::default_for(true).default_local_shell, "powershell.exe");
    assert_eq!(default_shell(true), "powershell.exe");

    let p = ProxySettings::default();
    assert!(!p.enabled);
    assert_eq!((p.protocol.as_str(), p.host.as_str(), p.port), ("socks5", "127.0.0.1", 1080));

    let t = TerminalSettings::default();
    assert_eq!(t.scrollback_lines, 10000);
    assert_eq!(t.keep_alive_interval, 60);
    assert!(t.action_links_matchers.ipv4 && t.action_links_matchers.archive);
    assert!(t.keyword_highlights.is_empty());

    let tr = TransferSettings::default();
    assert_eq!(tr.download_threads, 3);
    assert_eq!(tr.upload_threads, 3);
    assert_eq!(tr.duplicate_strategy, "overwrite");
    assert_eq!(tr.default_file_permissions, "644");
    assert_eq!(tr.max_transfer_retries, 2);
    assert_eq!(tr.transfer_buffer_size, 32);
    assert!(tr.preserve_timestamps && tr.resume_broken_transfer && !tr.ask_save_location);

    let i = InteractionSettings::default();
    assert!(!i.copy_on_select && !i.right_click_paste);
    assert_eq!(i.word_separators, " ()[]{}\"':=,;|&<>");
    assert_eq!(i.default_encoding, "UTF-8");
    assert_eq!(default_word_separators(), i.word_separators);
    assert_eq!(default_encoding(), "UTF-8");

    let s = SecuritySettings::default();
    assert!(s.use_os_keyring && !s.require_master_password);
    assert_eq!(s.host_key_policy, "prompt");
    assert_eq!(TranslationSettings::default().target_language, "zh-CN");

    let k = KeywordHighlightRule::default();
    assert!(!k.enabled && k.patterns.is_empty() && k.color_dark.is_empty());
    let a = ActionLinksMatcherSettings::default();
    assert!(a.ipv4 && a.archive && a.host_port);
    let e = SearchEngine::default();
    assert!(e.name.is_empty() && e.icon.is_none());

    assert_eq!(default_app_theme(), "github-dark");
    assert_eq!(default_cursor_style(), "block");
    assert!(default_font().starts_with("JetBrains Mono"));
}

#[test]
fn default_search_engines() {
    let engines = default_custom_engines();
    let names: Vec<&str> = engines.iter().map(|e| e.name.as_str()).collect();
    assert_eq!(names, vec!["Google", "Bing", "DuckDuckGo"]);
    assert_eq!(engines[0].url_template, "https://www.google.com/search?q=%s");
    assert_eq!(engines[2].icon.as_deref(), Some("duckduckgo"));
    assert_eq!(SearchSettings::default().custom_engines.len(), 3);
}

#[test]
fn old_layout_is_migrated() {
    let mut ui = layout(
        &["sessions", "keyManagement", "fileTransfer"],
        &["fileTransfer"],
        &[],
        &["settings"],
        Some("keyManagement"),
        Some("fileTransfer"),
    );
    assert!(ui.migration_applies());
    assert!(ui.migrate());
    let l = &ui.activity_bar_layout;
    assert_eq!(l.left_top, strings(&["sessions", "securityAuth", "network"]));
    assert!(l.left_bottom.is_empty());
    assert_eq!(l.right_bottom, strings(&["settings", "recording"]));
    assert_eq!(ui.active_left_panel.as_deref(), Some("securityAuth"));
    assert_eq!(ui.active_right_panel.as_deref(), Some("savedConnections"));
}

#[test]
fn migration_is_idempotent() {
    let mut ui = layout(
        &["fileTransfer"],
        &[],
        &["keyManagement"],
        &["a", "b"],
        Some("fileTransfer"),
        None,
    );
    assert!(ui.migrate());
    assert_eq!(ui.active_left_panel.as_deref(), Some("fileExplorer"));
    assert_eq!(ui.activity_bar_layout.right_bottom, strings(&["a", "recording", "b"]));
    let before = ui.clone();
    assert!(!ui.migrate());
    assert_eq!(ui.activity_bar_layout.left_top, before.activity_bar_layout.left_top);
    assert_eq!(ui.activity_bar_layout.right_top, before.activity_bar_layout.right_top);
    assert_eq!(ui.activity_bar_layout.right_bottom, before.activity_bar_layout.right_bottom);
    assert_eq!(ui.active_left_panel, before.active_left_panel);
}

#[test]
fn current_layout_needs_no_migration() {
    let mut ui = layout(&["network"], &[], &[], &["x", "recording"], Some("fileExplorer"), None);
    assert!(!ui.migrate());
    assert_eq!(ui.activity_bar_layout.left_top, strings(&["network"]));
}

#[test]
fn migration_does_not_apply_to_empty_right_bottom_without_recording() {
    let ui = layout(&["network"], &[], &[], &[], None, None);
    assert!(!ui.migration_applies());
    let ui = layout(&["network"], &[], &["recording"], &[], None, None);
    assert!(ui.migration_applies());
}
