//! Notifications, shortcuts and the tray.

use workcheck::calendar::Date;
use workcheck::checks::KeySet;
use workcheck::hotkey;
use workcheck::hotkey::Phase;
use workcheck::hotkey::ShortcutAction;
use workcheck::model::PendingSummary;
use workcheck::model::Setting;
use workcheck::notify;
use workcheck::pages::PerTaskNotify;
use workcheck::settings;
use workcheck::tray;

fn setting(key: &str, value: &str) -> Setting {
    Setting { key: key.to_string(), value: value.to_string() }
}

fn pending(overdue: i64, total: i64, names: &[&str]) -> PendingSummary {
    PendingSummary {
        overdue,
        total,
        overdue_keys: (0..overdue).map(|i| (i, "2026-07-21".to_string())).collect(),
        sample_names: names.iter().map(|n| n.to_string()).collect(),
    }
}

#[test]
fn times_of_day() {
    assert_eq!(notify::parse_notify_time("00:00"), 0);
    assert_eq!(notify::parse_notify_time("18:30"), 18 * 3600 + 30 * 60);
    assert_eq!(notify::parse_notify_time("9:5"), 9 * 3600 + 5 * 60);
    for bad in ["", "25:00", "noon", "09:00:00"] {
        assert_eq!(notify::parse_notify_time(bad), 9 * 3600);
    }
}

#[test]
fn words() {
    assert_eq!(notify::overdue_body(&pending(2, 3, &["a", "b"])), "밀림 2건 · a, b");
    assert_eq!(notify::overdue_body(&pending(2, 3, &[])), "밀림 2건");
    assert_eq!(notify::summary_body(&pending(2, 3, &["a", "b"])), "밀림 2건 · a, b");
    assert_eq!(notify::summary_body(&pending(0, 1, &["a"])), "a");
    assert_eq!(notify::summary_body(&pending(0, 0, &[])), "");
}

#[test]
fn daily_summary() {
    let none: Vec<Setting> = vec![];
    let nine = 9 * 3600;
    let p = pending(1, 2, &["a"]);
    let toast = notify::summary_tick(&none, &p, nine, "2026-07-22").unwrap();
    assert_eq!(toast.title, "오늘 미체크 업무 2건");
    assert_eq!(toast.body, "밀림 1건 · a");
    assert!(notify::summary_tick(&none, &p, nine - 1, "2026-07-22").is_none());
    assert!(notify::summary_tick(&vec![setting("notify_enabled", "0")], &p, nine, "2026-07-22").is_none());
    assert!(notify::summary_tick(&vec![setting("notify_time", "10:00")], &p, nine, "2026-07-22").is_none());
    let sent = vec![setting("last_notify_date", "2026-07-22")];
    assert!(notify::summary_tick(&sent, &p, nine, "2026-07-22").is_none());
    assert!(notify::summary_tick(&sent, &p, nine, "2026-07-23").is_some());
    assert!(notify::summary_tick(&none, &pending(0, 0, &[]), nine, "2026-07-22").is_none());
}

#[test]
fn late_ones() {
    let none: Vec<Setting> = vec![];
    let off = vec![setting("notify_on_overdue", "0")];
    let p = pending(2, 2, &["a"]);
    assert_eq!(notify::start_toast(&none, &p).unwrap().title, "밀린 업무 2건");
    assert!(notify::start_toast(&off, &p).is_none());
    assert!(notify::start_toast(&none, &pending(0, 4, &["a"])).is_none());

    let mut known = KeySet::new();
    known.insert(0, "2026-07-21".to_string());
    let (toast, now) = notify::new_late_toast(&none, &p, &known);
    let toast = toast.unwrap();
    assert_eq!(toast.title, "새 밀린 업무 1건");
    assert_eq!(toast.body, "밀림 2건 · a");
    assert!(now.has(1, "2026-07-21"));
    assert!(notify::new_late_toast(&none, &p, &now).0.is_none());
    let (toast, now) = notify::new_late_toast(&off, &p, &known);
    assert!(toast.is_none());
    assert!(now.has(1, "2026-07-21"));
}

#[test]
fn reminders_once_a_day() {
    let items = vec![
        PerTaskNotify {
            task_id: 1,
            name: "a".to_string(),
            today_notify_time: Some("10:00".to_string()),
            remind: None,
        },
        PerTaskNotify {
            task_id: 2,
            name: "b".to_string(),
            today_notify_time: None,
            remind: Some((2, Date::from_ymd_opt(2026, 7, 24).unwrap())),
        },
    ];
    let none: Vec<Setting> = vec![];
    let mut sent = KeySet::new();
    let mut reminded = KeySet::new();
    let mut tick = |now: u32, today: &str| {
        notify::per_task_tick(&none, &items, now, today, &mut sent, &mut reminded)
    };
    assert!(tick(8 * 3600, "2026-07-22").is_empty());
    assert_eq!(tick(9 * 3600, "2026-07-22"), vec!["「b」 — 2일 후(7/24) 기한".to_string()]);
    assert_eq!(tick(10 * 3600, "2026-07-22"), vec!["「a」 체크할 시간입니다".to_string()]);
    assert!(tick(10 * 3600, "2026-07-22").is_empty());
    assert!(tick(23 * 3600, "2026-07-22").is_empty());
    assert_eq!(tick(23 * 3600, "2026-07-23").len(), 2);
}

#[test]
fn settings_by_key() {
    let s = vec![setting("a", "1"), setting("b", "")];
    assert_eq!(settings::read_setting(&s, "a"), Some("1".to_string()));
    assert_eq!(settings::read_setting(&s, "c"), None);
    assert_eq!(settings::setting_str(&s, "c"), "");
    assert!(settings::setting_bool(&s, "a", false));
    assert!(!settings::setting_bool(&s, "b", true));
    assert!(settings::setting_bool(&s, "c", true));
}

#[test]
fn tray_hint() {
    assert_eq!(tray::tooltip_text(3), "업무 체크 — 미체크 3건");
    assert_eq!(tray::tooltip_text(0), "업무 체크 — 미체크 없음");
    assert_eq!(tray::tooltip_text(-1), "업무 체크 — 미체크 없음");
    assert_eq!(tray::TRAY_ID, "main");
}

#[test]
fn pressed_shortcuts() {
    assert_eq!(hotkey::handle_shortcut(true, true, true), ShortcutAction::ToggleMain);
    assert_eq!(hotkey::handle_shortcut(true, false, true), ShortcutAction::OpenQuick);
    assert_eq!(hotkey::handle_shortcut(true, false, false), ShortcutAction::Nothing);
    assert_eq!(hotkey::handle_shortcut(false, true, true), ShortcutAction::Nothing);
    assert!(hotkey::hides_main(true, true));
    assert!(!hotkey::hides_main(true, false));
    assert!(!hotkey::hides_main(false, true));
}

#[test]
fn shortcuts_at_the_start() {
    assert_eq!(hotkey::initial_accel(&None, hotkey::DEFAULT_TOGGLE), Some("Ctrl+Alt+W".to_string()));
    assert_eq!(hotkey::initial_accel(&None, hotkey::DEFAULT_QUICK), Some("Ctrl+Alt+A".to_string()));
    assert_eq!(hotkey::initial_accel(&Some(" Alt+X ".to_string()), "d"), Some("Alt+X".to_string()));
    assert_eq!(hotkey::initial_accel(&Some("  ".to_string()), "d"), None);
}

#[test]
fn shortcut_is_changed() {
    let c = hotkey::set_hotkey("toggle", " Alt+X ", true).unwrap();
    assert_eq!(c.setting, "hotkey_toggle");
    assert_eq!(c.accel, "Alt+X");
    assert!(matches!(c.phase, Phase::Parse));
    let c = c.advance(None);
    assert!(matches!(c.phase, Phase::Unregister));
    let c = c.advance(Some("ignored".to_string()));
    assert!(matches!(c.phase, Phase::Register));
    let c = c.advance(None);
    assert!(matches!(c.phase, Phase::Store));
    assert!(matches!(c.advance(None).phase, Phase::Done));
    let c = hotkey::set_hotkey("quick", "", false).unwrap();
    assert_eq!(c.setting, "hotkey_quick");
    assert!(matches!(c.phase, Phase::Store));
}

#[test]
fn refused_shortcut_is_taken_back() {
    match hotkey::set_hotkey("other", "Alt+X", true) {
        Err(e) => assert_eq!(e, "알 수 없는 단축키 종류: other"),
        Ok(_) => panic!(),
    }
    let c = hotkey::set_hotkey("toggle", "Alt+?", true).unwrap().advance(Some("bad".to_string()));
    match c.phase {
        Phase::Failed(e) => assert_eq!(e, "단축키 형식이 올바르지 않습니다: Alt+?"),
        _ => panic!(),
    }
    let c = hotkey::set_hotkey("toggle", "Alt+X", true).unwrap().advance(None).advance(None);
    let c = c.advance(Some("taken".to_string()));
    assert!(matches!(c.phase, Phase::Restore(_)));
    match c.advance(None).phase {
        Phase::Failed(e) => assert_eq!(e, "단축키 등록 실패: taken"),
        _ => panic!(),
    }
    let c = hotkey::set_hotkey("toggle", "Alt+X", false).unwrap().advance(None);
    assert!(matches!(c.advance(Some("taken".to_string())).phase, Phase::Failed(_)));
}
