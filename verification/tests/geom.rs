use windash::geom::{GeomFile, GeomStore, WindowGeom};
use windash::persist::FileRead;

#[test]
fn test_window_geom_default() {
    let g = WindowGeom::default();
    assert_eq!(g.x, 0);
    assert_eq!(g.y, 0);
    assert_eq!(g.width, 0);
    assert_eq!(g.height, 0);
}

#[test]
fn test_signed_coordinates_survive() {
    let mut store = GeomStore::default_map();
    let neg_geom = WindowGeom { x: -1200, y: -500, width: 390, height: 720 };
    store.set("none", &neg_geom);
    let retrieved = store.get("none");
    assert_eq!(retrieved.x, -1200);
    assert_eq!(retrieved.y, -500);
}

#[test]
fn geom_get_falls_back_and_clamps() {
    let store = GeomStore::default_map();
    // No entry for "left": the floating geometry is used.
    assert_eq!(store.get("left"), WindowGeom { x: 200, y: 100, width: 390, height: 720 });
    let empty = GeomStore::from_entries(Vec::new());
    assert_eq!(empty.get("none"), WindowGeom { x: 200, y: 100, width: 390, height: 720 });

    let tiny = GeomStore::from_entries(vec![(
        "right".to_string(),
        WindowGeom { x: 5, y: 6, width: 10, height: 5000 },
    )]);
    assert_eq!(tiny.get("right"), WindowGeom { x: 5, y: 6, width: 280, height: 1440 });
}

#[test]
fn geom_set_reports_changes_and_clamps() {
    let mut store = GeomStore::default_map();
    let g = WindowGeom { x: 10, y: 20, width: 5000, height: 100 };
    assert!(store.set("left", &g));
    assert_eq!(store.get("left"), WindowGeom { x: 10, y: 20, width: 1920, height: 440 });
    // Setting the same geometry again changes nothing.
    assert!(!store.set("left", &g));
    // The stored default floating geometry is already what it would be set to.
    assert!(!store.set("none", &WindowGeom { x: 200, y: 100, width: 390, height: 720 }));
    assert_eq!(store.entries().len(), 2);
}

#[test]
fn geom_later_entries_override_earlier() {
    let store = GeomStore::from_entries(vec![
        ("none".to_string(), WindowGeom { x: 1, y: 1, width: 300, height: 500 }),
        ("none".to_string(), WindowGeom { x: 2, y: 2, width: 300, height: 500 }),
    ]);
    assert_eq!(store.get("none").x, 2);
}

#[test]
fn geom_load_file_outcomes() {
    let missing = GeomStore::load_file(FileRead::Missing);
    assert!(!missing.backup && missing.rewrite);
    assert_eq!(missing.value.get("none"), WindowGeom { x: 200, y: 100, width: 390, height: 720 });

    let corrupt = GeomStore::load_file(FileRead::Unparsable);
    assert!(corrupt.backup && corrupt.rewrite);

    let legacy = GeomStore::load_file(FileRead::Parsed(GeomFile::Legacy(WindowGeom {
        x: -50,
        y: 40,
        width: 400,
        height: 800,
    })));
    assert!(!legacy.backup && legacy.rewrite);
    assert_eq!(legacy.value.get("none"), WindowGeom { x: -50, y: 40, width: 400, height: 800 });
    assert_eq!(legacy.value.get("left"), WindowGeom { x: -50, y: 40, width: 400, height: 800 });

    let map = GeomStore::load_file(FileRead::Parsed(GeomFile::Entries(vec![(
        "left".to_string(),
        WindowGeom { x: 3, y: 4, width: 500, height: 600 },
    )])));
    assert!(!map.backup && !map.rewrite);
    assert_eq!(map.value.get("left"), WindowGeom { x: 3, y: 4, width: 500, height: 600 });
}
