use serde_json::Value;
use windash::notes::{Note, NotesData, NotesDoc, NotesStore};
use windash::persist::FileRead;

const T: &str = "2026-08-25T00:00:00Z";

fn note(id: u64, text: &str, created_at: &str) -> Note {
    Note { id, text: text.to_string(), created_at: created_at.to_string() }
}

fn note_from_value(v: &Value) -> Option<Note> {
    let o = v.as_object()?;
    Some(Note {
        id: o.get("id")?.as_u64()?,
        text: o.get("text")?.as_str()?.to_string(),
        created_at: o.get("created_at")?.as_str()?.to_string(),
    })
}

fn notes_from_value(v: &Value) -> Option<Vec<Note>> {
    v.as_array()?.iter().map(note_from_value).collect()
}

/// Reads the notes file shapes, in the order the store tries them.
fn read_doc(text: &str) -> Option<NotesDoc> {
    let v: Value = serde_json::from_str(text).ok()?;
    if let Some(o) = v.as_object() {
        if let Some(notes) = o.get("notes").and_then(notes_from_value) {
            if let Some(next_id) = o.get("next_id").and_then(|n| n.as_u64()) {
                return Some(NotesDoc::Full(NotesData { notes, next_id }));
            }
            return Some(NotesDoc::NotesOnly(notes));
        }
        return None;
    }
    notes_from_value(&v).map(NotesDoc::Bare)
}

#[test]
fn test_notes_data_default() {
    let data = NotesData::default();
    assert!(data.notes.is_empty());
    assert_eq!(data.next_id, 0);
}

#[test]
fn test_notes_recovery_missing_next_id() {
    let json =
        r#"{"notes": [{"id": 5, "text": "Recover me", "created_at": "2026-08-25T00:00:00Z"}]}"#;
    let recovered = NotesStore::parse_or_recover(read_doc(json)).expect("recovered");
    assert_eq!(recovered.notes.len(), 1);
    assert_eq!(recovered.notes[0].text, "Recover me");
    assert_eq!(recovered.next_id, 6);
}

#[test]
fn test_notes_recovery_raw_array() {
    let json = r#"[{"id": 10, "text": "Array note", "created_at": "2026-08-25T00:00:00Z"}]"#;
    let recovered = NotesStore::parse_or_recover(read_doc(json)).expect("recovered");
    assert_eq!(recovered.notes.len(), 1);
    assert_eq!(recovered.notes[0].text, "Array note");
    assert_eq!(recovered.next_id, 11);
}

#[test]
fn test_notes_recovery_rejects_unusable_json() {
    let json = r#"{"invalid": "unrelated object"}"#;
    assert!(NotesStore::parse_or_recover(read_doc(json)).is_none());
    assert!(NotesStore::parse_or_recover(read_doc("not json")).is_none());
}

#[test]
fn recovery_of_empty_list_starts_ids_at_zero() {
    let r = NotesStore::parse_or_recover(Some(NotesDoc::Bare(Vec::new()))).unwrap();
    assert_eq!(r.next_id, 0);
    let r = NotesStore::parse_or_recover(Some(NotesDoc::NotesOnly(vec![
        note(3, "a", "t"),
        note(9, "b", "t"),
        note(4, "c", "t"),
    ])))
    .unwrap();
    assert_eq!(r.next_id, 10);
}

#[test]
fn list_is_newest_first_and_stable() {
    let store = NotesStore {
        data: NotesData {
            notes: vec![
                note(0, "old", "2026-01-01T00:00:00Z"),
                note(1, "new", "2026-03-01T00:00:00Z"),
                note(2, "mid-a", "2026-02-01T00:00:00Z"),
                note(3, "mid-b", "2026-02-01T00:00:00Z"),
            ],
            next_id: 4,
        },
    };
    let listed: Vec<u64> = store.list().iter().map(|n| n.id).collect();
    assert_eq!(listed, vec![1, 2, 3, 0]);
    // Listing does not change the stored order.
    let stored: Vec<u64> = store.data.notes.iter().map(|n| n.id).collect();
    assert_eq!(stored, vec![0, 1, 2, 3]);
}

#[test]
fn list_orders_by_instant_not_by_text() {
    let store = NotesStore {
        data: NotesData {
            notes: vec![
                note(0, "older", "2026-08-25T00:00:00Z"),
                note(1, "later", "2026-08-25T00:00:00.500+00:00"),
                // 01:00 at +02:00 is 23:00 the day before in UTC: the oldest dated note.
                note(2, "offset", "2026-08-25T01:00:00+02:00"),
                note(3, "undated-a", "yesterday"),
                note(4, "same-instant", "2026-08-25T02:00:00+02:00"),
                note(5, "undated-b", ""),
            ],
            next_id: 6,
        },
    };
    let listed: Vec<u64> = store.list().iter().map(|n| n.id).collect();
    // Newest first; ids 0 and 4 denote the same instant and keep their stored order;
    // creation times that do not parse come last, in stored order.
    assert_eq!(listed, vec![1, 0, 4, 2, 3, 5]);
}

#[test]
fn list_matches_a_sort_by_parsed_instant() {
    let stamps = [
        "2026-01-01T00:00:00Z",
        "2026-01-01T00:00:00.000000001Z",
        "2025-12-31T23:59:60Z",
        "not a time",
        "2026-01-01T05:30:00+05:30",
        "2026-01-01T00:00:00-00:01",
        "1969-12-31T23:59:59.5Z",
        "2026-01-01T00:00:00Z",
    ];
    let notes: Vec<Note> = stamps.iter().enumerate().map(|(i, t)| note(i as u64, "x", t)).collect();
    let store = NotesStore { data: NotesData { notes: notes.clone(), next_id: 8 } };
    let key = |n: &Note| {
        chrono::DateTime::parse_from_rfc3339(&n.created_at)
            .ok()
            .map(|t| (t.timestamp(), t.timestamp_subsec_nanos()))
    };
    let mut expected = notes;
    expected.sort_by(|a, b| key(b).cmp(&key(a)));
    let got: Vec<u64> = store.list().into_iter().map(|n| n.id).collect();
    let want: Vec<u64> = expected.into_iter().map(|n| n.id).collect();
    assert_eq!(got, want);
}

#[test]
fn add_trims_assigns_ids_and_appends() {
    let mut store = NotesStore { data: NotesData::default() };
    let now = chrono::Utc::now().to_rfc3339();
    let n = store.add("  hello  ", now.clone()).unwrap();
    assert_eq!(n.id, 0);
    assert_eq!(n.text, "hello");
    assert_eq!(n.created_at, now);
    let m = store.add("second", "2026-01-01T00:00:00Z".to_string()).unwrap();
    assert_eq!(m.id, 1);
    assert_eq!(m.created_at, "2026-01-01T00:00:00Z");
    assert_eq!(store.data.next_id, 2);
    assert_eq!(store.data.notes.len(), 2);
    assert_eq!(store.data.notes[1].text, "second");
}

#[test]
fn add_rejects_bad_text_and_full_store() {
    let mut store = NotesStore { data: NotesData::default() };
    assert_eq!(store.add("   \n\t", T.to_string()).unwrap_err(), "Note is empty.");
    let long: String = "é".repeat(501);
    assert_eq!(store.add(&long, T.to_string()).unwrap_err(), "Note is too long (500 character limit).");
    let just_fits: String = "é".repeat(500);
    assert!(store.add(&just_fits, T.to_string()).is_ok());
    assert_eq!(store.data.notes.len(), 1);

    let mut full = NotesStore { data: NotesData::default() };
    for i in 0..200 {
        full.add("n", format!("t{i}")).unwrap();
    }
    assert_eq!(full.add("one more", T.to_string()).unwrap_err(), "Too many notes.");
    assert_eq!(full.data.notes.len(), 200);
    assert_eq!(full.data.next_id, 200);
}

#[test]
fn delete_removes_by_id_or_reports_missing() {
    let mut store = NotesStore { data: NotesData::default() };
    let a = store.add("a", T.to_string()).unwrap();
    let b = store.add("b", T.to_string()).unwrap();
    assert_eq!(store.delete(12345), Err("note id 12345 not found".to_string()));
    assert_eq!(store.data.notes.len(), 2);
    assert_eq!(store.delete(a.id), Ok(()));
    assert_eq!(store.data.notes.len(), 1);
    assert_eq!(store.data.notes[0].id, b.id);
    assert_eq!(store.delete(a.id), Err(format!("note id {} not found", a.id)));
    assert_eq!(store.delete(0), Err("note id 0 not found".to_string()));
}

#[test]
fn delete_undoes_add() {
    let mut store = NotesStore { data: NotesData { notes: vec![note(0, "keep", "t")], next_id: 1 } };
    let n = store.add("temp", T.to_string()).unwrap();
    store.delete(n.id).unwrap();
    assert_eq!(store.data.notes.len(), 1);
    assert_eq!(store.data.notes[0].text, "keep");
}

#[test]
fn notes_load_outcomes() {
    let r = NotesStore::load(FileRead::Missing).unwrap();
    assert!(r.value.notes.is_empty() && r.value.next_id == 0 && !r.backup && !r.rewrite);
    let r = NotesStore::load(FileRead::Unparsable).unwrap();
    assert!(r.value.notes.is_empty() && r.backup && r.rewrite);
    let r = NotesStore::load(FileRead::Parsed(NotesDoc::Bare(vec![note(7, "x", "t")]))).unwrap();
    assert_eq!(r.value.next_id, 8);
    assert!(!r.backup && !r.rewrite);
    match NotesStore::load(FileRead::Failed("gone".to_string())) {
        Err(e) => assert_eq!(e, "read: gone"),
        Ok(_) => panic!("expected a read error"),
    }
}
