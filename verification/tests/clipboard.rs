use omniclip::overlay::overlay_position;
use omniclip::clipboard::models::{title_prefix, ClipboardContent, RecordType};
use omniclip::encryption::aes::EncryptionManager;
use omniclip::database::ClipboardRecord;
use omniclip::clipboard::monitor::ClipboardWatcher;
use omniclip::config::AppSettings;
use omniclip::database::{default_settings, like_pattern};
use omniclip::encryption::digest::hash_content;
use omniclip::tray::{
    is_monitoring, monitor_label, toggle_monitor, toggle_monitoring, tray_action, tray_menu,
    MenuEntry, MonitoringState, TrayAction,
};

#[test]
fn short_text_is_its_own_title() {
    let c = ClipboardContent::from_text("hello");
    assert_eq!(c.record_type, RecordType::Text);
    assert_eq!(c.content, "hello");
    assert_eq!(c.title, "hello");
    assert!(c.thumbnail_path.is_none());
}

#[test]
fn long_text_title_is_cut_at_fifty_bytes() {
    let text = "a".repeat(60);
    let c = ClipboardContent::from_text(&text);
    assert_eq!(c.title, format!("{}...", "a".repeat(50)));
    assert_eq!(c.content, text);
    let exactly = "b".repeat(50);
    assert_eq!(ClipboardContent::from_text(&exactly).title, exactly);
}

#[test]
fn title_cut_counts_bytes() {
    // Two-byte characters: byte 50 ends the 25th character.
    let text = "é".repeat(30);
    assert_eq!(title_prefix(&text), "é".repeat(25));
    assert_eq!(ClipboardContent::from_text(&text).title, format!("{}...", "é".repeat(25)));
}

#[test]
fn record_type_names() {
    assert_eq!(RecordType::Text.to_string(), "text");
    assert_eq!(RecordType::Image.to_string(), "image");
    assert_eq!(RecordType::Files.to_string(), "files");
}

#[test]
fn watcher_captures_new_text_once() {
    let mut w = ClipboardWatcher::new();
    assert_eq!(w.observe("copied", true), Some(hash_content("copied")));
    assert_eq!(w.observe("copied", true), None);
    assert_eq!(w.observe("other", true), Some(hash_content("other")));
    assert_eq!(w.observe("copied", true), Some(hash_content("copied")));
}

#[test]
fn watcher_ignores_blank_text() {
    let mut w = ClipboardWatcher::new();
    assert_eq!(w.observe("  \n\t", true), None);
    assert_eq!(w.observe("", true), None);
    assert_eq!(w.observe("x", true), Some(hash_content("x")));
    assert_eq!(w.observe(" ", true), None);
    assert_eq!(w.observe("x", true), None);
}

#[test]
fn watcher_remembers_text_seen_while_paused() {
    let mut w = ClipboardWatcher::new();
    assert_eq!(w.observe("seen", false), None);
    assert_eq!(w.observe("seen", true), None);
    assert_eq!(w.observe("new", true), Some(hash_content("new")));
}

#[test]
fn monitoring_toggles() {
    let mut s = MonitoringState::new();
    assert!(is_monitoring(&s));
    toggle_monitoring(&mut s);
    assert!(!is_monitoring(&s));
    toggle_monitoring(&mut s);
    assert!(is_monitoring(&s));
    assert!(!toggle_monitor(&mut s));
    assert!(toggle_monitor(&mut s));
}

#[test]
fn tray_labels_and_actions() {
    assert_eq!(monitor_label(true), "Pause Monitoring");
    assert_eq!(monitor_label(false), "Resume Monitoring");
    assert_eq!(tray_action("show"), TrayAction::ShowWindow);
    assert_eq!(tray_action("monitor"), TrayAction::ToggleMonitoring);
    assert_eq!(tray_action("quit"), TrayAction::Quit);
    assert_eq!(tray_action("other"), TrayAction::Nothing);
}

#[test]
fn tray_menu_entries() {
    let m = tray_menu(false);
    assert_eq!(m.len(), 5);
    match &m[2] {
        MenuEntry::Item { id, label } => {
            assert_eq!(id, "monitor");
            assert_eq!(label, "Resume Monitoring");
        }
        MenuEntry::Separator => panic!("expected an item"),
    }
    assert!(matches!(m[1], MenuEntry::Separator));
    assert!(matches!(&m[4], MenuEntry::Item { id, .. } if id == "quit"));
}

#[test]
fn default_settings_values() {
    let s = AppSettings::default();
    assert_eq!(s.max_history_count, 1000);
    assert_eq!(s.auto_cleanup_days, 30);
    assert!(s.keep_starred);
    assert_eq!(s.global_shortcut, "CmdOrCtrl+Shift+V");
    assert!(s.ignore_apps.is_empty());
    assert_eq!(s.theme, "system");
    assert_eq!(s.master_password_hash, "");
}

#[test]
fn database_defaults_and_patterns() {
    let d = default_settings();
    assert_eq!(d.len(), 5);
    assert_eq!(d[0], ("max_history_count".to_string(), "1000".to_string()));
    assert_eq!(d[3], ("theme".to_string(), "light".to_string()));
    assert_eq!(like_pattern("abc"), "%abc%");
}

#[test]
fn overlay_opens_centred_a_third_down() {
    assert_eq!(overlay_position(1920, 1080), (790, 360));
    assert_eq!(overlay_position(300, 90), (0, 30));
    assert_eq!(overlay_position(-10, -10), (0, 0));
}

#[test]
fn captured_text_is_stored_sealed_and_shown_opened() {
    let m = EncryptionManager::from_key([3u8; 32], "/tmp/omniclip".to_string());
    let c = ClipboardContent::from_text("secret note");
    let sealed = c.seal(&m).unwrap();
    assert_ne!(sealed.content, "secret note");
    assert_eq!(sealed.title, "secret note");
    assert_eq!(sealed.record_type, RecordType::Text);
    assert_eq!(m.decrypt_string(&sealed.content), Ok("secret note".to_string()));
    let record = ClipboardRecord {
        id: "1".to_string(),
        record_type: "text".to_string(),
        content_hash: String::new(),
        content: sealed.content.clone(),
        thumbnail_path: None,
        title: sealed.title.clone(),
        is_starred: false,
        copy_count: 1,
        source_app: None,
        created_at: "t".to_string(),
        updated_at: "t".to_string(),
        last_used_at: None,
        tags: None,
    };
    let shown = record.clone().opened(&m);
    assert_eq!(shown.content, "secret note");
    assert_eq!(shown.id, "1");
    let mut plain = record.clone();
    plain.content = "stored before sealing".to_string();
    assert_eq!(plain.opened(&m).content, "stored before sealing");
    let mut image = record;
    image.record_type = "image".to_string();
    assert_eq!(image.opened(&m).content, sealed.content);
}
