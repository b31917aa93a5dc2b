use windash::persist::FileRead;
use windash::settings::{ProcessSort, Settings, SettingsPatch, SettingsStore, ThemePreference};

#[test]
fn test_settings_defaults() {
    let s = Settings::default();
    assert!(s.always_on_top);
    assert_eq!(s.refresh_ms, 2000);
    assert_eq!(s.theme, ThemePreference::System);
    assert!(s.show_disks);
    assert!(s.show_processes);
    assert!(s.show_notes);
    assert!(s.show_actions);
    assert!(s.mica_enabled);
    assert_eq!(s.sort_key, ProcessSort::Cpu);
}

#[test]
fn test_settings_normalize_clamps_refresh_ms() {
    let zero = Settings {
        refresh_ms: 0,
        ..Default::default()
    }
    .normalize();
    assert_eq!(zero.refresh_ms, 1000);

    let small = Settings {
        refresh_ms: 500,
        ..Default::default()
    }
    .normalize();
    assert_eq!(small.refresh_ms, 1000);

    let large = Settings {
        refresh_ms: 99_999,
        ..Default::default()
    }
    .normalize();
    assert_eq!(large.refresh_ms, 10_000);
}

#[test]
fn test_invalid_enums_repair_to_defaults() {
    let json = r#"{"refresh_ms": 0, "theme": "invalid_theme", "sort_key": "junk"}"#;
    let v: serde_json::Value = serde_json::from_str(json).unwrap();
    let parsed = Settings {
        refresh_ms: v.get("refresh_ms").and_then(|r| r.as_u64()).unwrap_or(2000),
        theme: ThemePreference::from_lenient(v.get("theme").and_then(|t| t.as_str())),
        sort_key: ProcessSort::from_lenient(v.get("sort_key").and_then(|k| k.as_str())),
        ..Default::default()
    };
    let normalized = parsed.normalize();
    assert_eq!(normalized.refresh_ms, 1000);
    assert_eq!(normalized.theme, ThemePreference::System);
    assert_eq!(normalized.sort_key, ProcessSort::Cpu);
}

#[test]
fn lenient_names_ignore_case() {
    assert_eq!(ThemePreference::from_lenient(Some("DARK")), ThemePreference::Dark);
    assert_eq!(ThemePreference::from_lenient(Some("Light")), ThemePreference::Light);
    assert_eq!(ThemePreference::from_lenient(None), ThemePreference::System);
    assert_eq!(ProcessSort::from_lenient(Some("MEM")), ProcessSort::Mem);
    assert_eq!(ProcessSort::from_lenient(Some("Name")), ProcessSort::Name);
    assert_eq!(ProcessSort::from_lenient(None), ProcessSort::Cpu);
    // The Kelvin sign lower-cases to 'k'.
    assert_eq!(ThemePreference::from_lenient(Some("dar\u{212a}")), ThemePreference::Dark);
    assert_eq!(ThemePreference::from_lowercase("DARK"), ThemePreference::System);
}

#[test]
fn names_round_trip() {
    for t in [ThemePreference::System, ThemePreference::Dark, ThemePreference::Light] {
        assert_eq!(ThemePreference::from_lowercase(t.as_str()), t);
    }
    for k in [ProcessSort::Cpu, ProcessSort::Mem, ProcessSort::Name] {
        assert_eq!(ProcessSort::from_lowercase(k.as_str()), k);
    }
    assert_eq!(ThemePreference::Dark.as_str(), "dark");
    assert_eq!(ProcessSort::Mem.as_str(), "mem");
}

#[test]
fn settings_load_outcomes() {
    let parsed = Settings { refresh_ms: 3000, always_on_top: false, ..Default::default() };
    let r = SettingsStore::load(&FileRead::Parsed(parsed)).unwrap();
    assert_eq!(r.value, parsed);
    assert!(!r.backup && !r.rewrite);

    let out_of_range = Settings { refresh_ms: 50, ..Default::default() };
    let r = SettingsStore::load(&FileRead::Parsed(out_of_range)).unwrap();
    assert_eq!(r.value.refresh_ms, 1000);
    assert!(!r.backup && r.rewrite);

    let r = SettingsStore::load(&FileRead::Unparsable).unwrap();
    assert_eq!(r.value, Settings::default());
    assert!(r.backup && r.rewrite);

    let r = SettingsStore::load(&FileRead::Missing).unwrap();
    assert_eq!(r.value, Settings::default());
    assert!(!r.backup && !r.rewrite);

    match SettingsStore::load(&FileRead::Failed("busy".to_string())) {
        Err(e) => assert_eq!(e, "read: busy"),
        Ok(_) => panic!("expected a read error"),
    }
}

#[test]
fn settings_update_merges_only_given_keys() {
    let mut store = SettingsStore { cache: Settings::default() };
    let patch = SettingsPatch {
        refresh_ms: Some(20_000),
        theme: Some(ThemePreference::Light),
        ..Default::default()
    };
    let expected = store.patched(&patch);
    assert_eq!(expected.refresh_ms, 10_000);
    let s = store.update(patch, Ok(())).unwrap();
    assert_eq!(s, expected);
    assert_eq!(store.get(), s);
    assert_eq!(s.theme, ThemePreference::Light);
    assert!(s.show_disks && s.always_on_top);

    // A failed save leaves the settings as they were.
    let before = store.get();
    let err = store.update(SettingsPatch { show_disks: Some(false), ..Default::default() }, Err("disk full".to_string()));
    assert_eq!(err, Err("disk full".to_string()));
    assert_eq!(store.get(), before);

    // An empty patch changes nothing.
    assert_eq!(store.patched(&SettingsPatch::default()), before);
}
