use windash::persist::{backup_name, backups_to_remove, is_stale_temp_file, BackupNamer};

#[test]
fn stale_temp_files_are_old_windash_temps() {
    let secs = |s: u128| Some(s * 1_000_000_000);
    assert!(is_stale_temp_file(".windash-tmp-abc.json", secs(301)));
    assert!(!is_stale_temp_file(".windash-tmp-abc.json", secs(300)));
    // 300.5 seconds is older than 300 seconds.
    assert!(is_stale_temp_file(".windash-tmp-abc.json", Some(300_500_000_000)));
    assert!(is_stale_temp_file(".windash-tmp-abc.json", Some(300_000_000_001)));
    assert!(!is_stale_temp_file(".windash-tmp-abc.json", None));
    assert!(!is_stale_temp_file(".windash-tmp-abc.txt", secs(1000)));
    assert!(!is_stale_temp_file("windash-tmp-abc.json", secs(1000)));
    assert!(is_stale_temp_file(".windash-tmp-.json", secs(1000)));
    assert!(!is_stale_temp_file(".windash-tmp.json", secs(1000)));
}

#[test]
fn backup_names() {
    assert_eq!(
        backup_name("windash-notes", "20260101-000000.000", 0),
        "windash-notes.corrupt-20260101-000000.000.bak"
    );
    assert_eq!(
        backup_name("windash-notes", "20260101-000000.000", 12),
        "windash-notes.corrupt-20260101-000000.000-12.bak"
    );
    let namer = BackupNamer::new("settings", "20260825-101500.250");
    assert_eq!(namer.stem, "settings");
    assert_eq!(namer.timestamp, "20260825-101500.250");
    assert_eq!(namer.name(0), "settings.corrupt-20260825-101500.250.bak");
    assert_eq!(namer.name(3), "settings.corrupt-20260825-101500.250-3.bak");
}

#[test]
fn at_most_five_backups_are_kept() {
    // Seven backups of the notes file (written in this order), plus unrelated files.
    let mut entries: Vec<(String, u128)> = Vec::new();
    for i in 0..7u128 {
        entries.push((format!("windash-notes.corrupt-2026010{i}.bak"), 1000 + i));
    }
    entries.push(("windash-notes.json".to_string(), 1));
    entries.push(("windash-settings.corrupt-x.bak".to_string(), 0));
    let removed = backups_to_remove(&entries, "windash-notes", 5);
    assert_eq!(removed, vec![0, 1]);
    let kept = entries
        .iter()
        .enumerate()
        .filter(|(i, (name, _))| {
            name.starts_with("windash-notes.corrupt-") && name.ends_with(".bak") && !removed.contains(i)
        })
        .count();
    assert_eq!(kept, 5);
}

#[test]
fn backups_removed_oldest_first_ties_in_listing_order() {
    let entries: Vec<(String, u128)> = vec![
        ("s.corrupt-a.bak".to_string(), 50),
        ("s.corrupt-b.bak".to_string(), 10),
        ("s.corrupt-c.bak".to_string(), 10),
        ("s.corrupt-d.bak".to_string(), 5),
        ("other".to_string(), 0),
    ];
    assert_eq!(backups_to_remove(&entries, "s", 1), vec![3, 1, 2]);
    assert_eq!(backups_to_remove(&entries, "s", 4), Vec::<usize>::new());
    assert_eq!(backups_to_remove(&entries, "s", 10), Vec::<usize>::new());
    assert_eq!(backups_to_remove(&entries, "s", 0), vec![3, 1, 2, 0]);
}

use windash::persist::{DebouncedWriter, WriterEvent};

#[test]
fn writer_coalesces_updates_and_writes_latest() {
    let mut w: DebouncedWriter<u32> = DebouncedWriter::new();
    assert_eq!(w.wait_nanos(0), 3_600_000_000_000);
    for v in [1, 2, 3] {
        let s = w.step(WriterEvent::Update(v));
        assert!(s.write.is_none() && !s.ack && !s.stop);
    }
    assert_eq!(w.wait_nanos(100_000_000), 300_000_000);
    assert_eq!(w.wait_nanos(400_000_000), 0);
    assert_eq!(w.wait_nanos(u64::MAX), 0);
    let s = w.step(WriterEvent::Timeout);
    assert_eq!(s.write, Some(3));
    assert!(!s.ack && !s.stop);
    let s = w.step(WriterEvent::Flush);
    assert_eq!(s.write, None);
    assert!(s.ack && !s.stop);
}

#[test]
fn writer_flushes_on_stop_and_disconnect() {
    let mut w: DebouncedWriter<u32> = DebouncedWriter::new();
    w.step(WriterEvent::Update(7));
    let s = w.step(WriterEvent::Flush);
    assert_eq!(s.write, Some(7));
    assert!(s.ack);
    w.step(WriterEvent::Update(8));
    let s = w.step(WriterEvent::Stop);
    assert_eq!(s.write, Some(8));
    assert!(s.stop && !s.ack);
    w.step(WriterEvent::Update(9));
    let s = w.step(WriterEvent::Disconnected);
    assert_eq!(s.write, Some(9));
    assert!(s.stop);
    assert!(w.pending.is_none());
}
