use windash::dock::{DockConfig, DockEdge, DockStore};
use windash::persist::FileRead;

#[test]
fn test_dock_config_canonical_default() {
    let cfg = DockConfig::default();
    assert_eq!(cfg.edge, DockEdge::Floating);
    assert_eq!(cfg.width, 390);
    assert!(cfg.always_on_top);
}

#[test]
fn dock_edge_names_round_trip() {
    for e in [DockEdge::Floating, DockEdge::Left, DockEdge::Right] {
        assert_eq!(DockEdge::from_str(e.as_str()), e);
    }
    assert_eq!(DockEdge::Left.as_str(), "left");
    assert_eq!(DockEdge::Right.as_str(), "right");
    assert_eq!(DockEdge::Floating.as_str(), "none");
    assert_eq!(DockEdge::from_str("top"), DockEdge::Floating);
    assert_eq!(DockEdge::from_str("LEFT"), DockEdge::Floating);
    assert_eq!(DockEdge::from_str(""), DockEdge::Floating);
}

#[test]
fn dock_store_get_after_set() {
    let mut store = DockStore { file: FileRead::Missing };
    let cfg = DockConfig { edge: DockEdge::Right, width: 500, always_on_top: false };
    store.set(&cfg);
    let r = store.get();
    assert_eq!(r.value, cfg);
    assert!(!r.backup && !r.rewrite);
}

#[test]
fn dock_store_missing_corrupt_and_unreadable() {
    let missing = DockStore { file: FileRead::Missing }.get();
    assert_eq!(missing.value, DockConfig::default());
    assert!(!missing.backup && !missing.rewrite);

    let corrupt = DockStore { file: FileRead::Unparsable }.get();
    assert_eq!(corrupt.value, DockConfig::default());
    assert!(corrupt.backup && corrupt.rewrite);

    let unreadable = DockStore { file: FileRead::Failed("denied".to_string()) };
    match unreadable.load() {
        Err(e) => assert_eq!(e, "read: denied"),
        Ok(_) => panic!("expected a read error"),
    }
    let got = unreadable.get();
    assert_eq!(got.value, DockConfig::default());
    assert!(!got.backup && !got.rewrite);
}

#[test]
fn docked_width_is_clamped() {
    let mut cfg = DockConfig::default();
    assert_eq!(cfg.docked_width(), 390);
    cfg.width = 100;
    assert_eq!(cfg.docked_width(), 280);
    cfg.width = 5000;
    assert_eq!(cfg.docked_width(), 640);
    cfg.width = 640;
    assert_eq!(cfg.docked_width(), 640);
}
