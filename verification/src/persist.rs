//! What a store learns when it reads its JSON file, and what it decides to do about it.
use vstd::prelude::*;
use crate::text::{concat_str, decimal, ends_with, ends_with_spec, push_decimal, starts_with, starts_with_spec};

verus! {

/// The outcome of reading a store's file and parsing its contents.
pub enum FileRead<T> {
    /// The file does not exist.
    Missing,
    /// Reading the file failed for another reason; the message says why.
    Failed(String),
    /// The file was read, but its contents are not a document of the store.
    Unparsable,
    /// The file holds this document.
    Parsed(T),
}

/// A value restored from a store's file, with the repairs the file needs:
/// `backup` asks for the file's bytes to be preserved beside it, and `rewrite`
/// asks for the file to be replaced by `value`.
pub struct Restored<T> {
    pub value: T,
    pub backup: bool,
    pub rewrite: bool,
}

} // verus!

verus! {

/// Temporary files are named `.windash-tmp-*.json`; one older than 300 seconds was left
/// behind by a write that never finished.
pub open spec fn spec_is_stale_temp(name: Seq<char>, age_nanos: Option<u128>) -> bool {
    starts_with_spec(name, ".windash-tmp-"@) && ends_with_spec(name, ".json"@) && (age_nanos matches Some(a)
        && a > 300_000_000_000)
}

/// Whether a directory entry is a stale temporary file: a `.windash-tmp-*.json` whose
/// age (in nanoseconds) is known and more than 300 seconds.
pub fn is_stale_temp_file(name: &str, age_nanos: Option<u128>) -> (r: bool)
    ensures
        r == spec_is_stale_temp(name@, age_nanos),
{
    if !(starts_with(name, ".windash-tmp-") && ends_with(name, ".json")) {
        return false;
    }
    match age_nanos {
        Some(a) => a > 300_000_000_000,
        None => false,
    }
}

/// The name a backup of a corrupt file gets: `<stem>.corrupt-<timestamp>.bak`, or, for
/// the `counter`-th alternative when that name is taken, `<stem>.corrupt-<timestamp>-<counter>.bak`.
pub open spec fn spec_backup_name(stem: Seq<char>, timestamp: Seq<char>, counter: u64) -> Seq<char> {
    if counter == 0 {
        stem + ".corrupt-"@ + timestamp + ".bak"@
    } else {
        stem + ".corrupt-"@ + timestamp + "-"@ + decimal(counter as nat) + ".bak"@
    }
}

/// The file name for a backup of a corrupt file (see `spec_backup_name`).
pub fn backup_name(stem: &str, timestamp: &str, counter: u64) -> (r: String)
    ensures
        r@ == spec_backup_name(stem@, timestamp@, counter),
{
    let mut s = concat_str(stem, ".corrupt-");
    s.append(timestamp);
    if counter != 0 {
        s.append("-");
        push_decimal(&mut s, counter);
    }
    s.append(".bak");
    s
}

/// Names the backups of one corrupt file: all candidates share the stem and the time
/// the backup was started.
pub struct BackupNamer {
    pub stem: String,
    pub timestamp: String,
}

impl BackupNamer {
    /// A namer for backups of the file with this stem, stamped with `timestamp` (the
    /// time the backup is made, read by the caller).
    pub fn new(stem: &str, timestamp: &str) -> (b: BackupNamer)
        ensures
            b.stem@ == stem@,
            b.timestamp@ == timestamp@,
    {
        BackupNamer { stem: stem.to_owned(), timestamp: timestamp.to_owned() }
    }

    /// The `counter`-th candidate name (0 for the plain name).
    pub fn name(&self, counter: u64) -> (r: String)
        ensures
            r@ == spec_backup_name(self.stem@, self.timestamp@, counter),
    {
        backup_name(self.stem.as_str(), self.timestamp.as_str(), counter)
    }
}

/// Whether a file name is a backup of the file with this stem: `<stem>.corrupt-*.bak`.
pub open spec fn is_backup_of(name: Seq<char>, stem: Seq<char>) -> bool {
    starts_with_spec(name, stem + ".corrupt-"@) && ends_with_spec(name, ".bak"@)
}

/// Entry `a` is older than entry `b`: an earlier modification time, or the same time
/// and listed earlier.
pub open spec fn older(e: Seq<(String, u128)>, a: int, b: int) -> bool {
    e[a].1 < e[b].1 || (e[a].1 == e[b].1 && a < b)
}

/// How many of the first `n` entries are backups of the file with this stem.
pub open spec fn count_backups(e: Seq<(String, u128)>, stem: Seq<char>, n: int) -> int
    decreases n,
{
    if n <= 0 {
        0
    } else {
        count_backups(e, stem, n - 1) + if is_backup_of(e[n - 1].0@, stem) {
            1int
        } else {
            0
        }
    }
}

/// How many backups are over the limit.
pub open spec fn excess_backups(e: Seq<(String, u128)>, stem: Seq<char>, max_backups: int) -> int {
    let c = count_backups(e, stem, e.len() as int);
    if c > max_backups {
        c - max_backups
    } else {
        0
    }
}

/// Which directory entries (name, modification time) to delete so that at most
/// `max_backups` backups of the file with this stem remain: the oldest ones, as many as
/// are over the limit, oldest first.
pub fn backups_to_remove(entries: &Vec<(String, u128)>, stem: &str, max_backups: usize) -> (r: Vec<usize>)
    ensures
        r@.len() == excess_backups(entries@, stem@, max_backups as int),
        forall|a: int| 0 <= a < r@.len() ==> #[trigger] r@[a] < entries@.len() && is_backup_of(
            entries@[r@[a] as int].0@,
            stem@,
        ),
        forall|a: int, b: int|
            0 <= a < b < r@.len() ==> older(entries@, #[trigger] r@[a] as int, #[trigger] r@[b] as int),
        forall|a: int, j: int|
            #![trigger r@[a], entries@[j]]
            0 <= a < r@.len() && 0 <= j < entries@.len() && is_backup_of(entries@[j].0@, stem@)
                && !r@.contains(j as usize) ==> older(entries@, r@[a] as int, j),
{
    let prefix = concat_str(stem, ".corrupt-");
    let n = entries.len();
    let mut sorted: Vec<usize> = Vec::new();
    let mut i: usize = 0;
    while i < n
        invariant
            n == entries@.len(),
            prefix@ == stem@ + ".corrupt-"@,
            i <= n,
            sorted@.len() == count_backups(entries@, stem@, i as int),
            forall|a: int| 0 <= a < sorted@.len() ==> #[trigger] sorted@[a] < i && is_backup_of(
                entries@[sorted@[a] as int].0@,
                stem@,
            ),
            forall|a: int, b: int|
                0 <= a < b < sorted@.len() ==> older(entries@, #[trigger] sorted@[a] as int, #[trigger] sorted@[b] as int),
            forall|x: int|
                0 <= x < i && is_backup_of(entries@[x].0@, stem@) ==> sorted@.contains(x as usize),
        decreases n - i,
    {
        let name = entries[i].0.as_str();
        if starts_with(name, prefix.as_str()) && ends_with(name, ".bak") {
            let t = entries[i].1;
            let mut p = sorted.len();
            while p > 0 && entries[sorted[p - 1]].1 > t
                invariant
                    p <= sorted@.len(),
                    n == entries@.len(),
                    i < n,
                    t == entries@[i as int].1,
                    forall|a: int| 0 <= a < sorted@.len() ==> #[trigger] sorted@[a] < i,
                    forall|q: int| p <= q < sorted@.len() ==> entries@[#[trigger] sorted@[q] as int].1 > t,
                decreases p,
            {
                p = p - 1;
            }
            let ghost old_sorted = sorted@;
            sorted.insert(p, i);
            proof {
                old_sorted.insert_ensures(p as int, i);
                let s = sorted@;
                assert forall|a: int, b: int|
                    0 <= a < b < s.len() implies older(entries@, #[trigger] s[a] as int, #[trigger] s[b] as int) by {
                    if b < p {
                        assert(s[a] == old_sorted[a] && s[b] == old_sorted[b]);
                    } else if b == p {
                        assert(s[a] == old_sorted[a]);
                        if a < p - 1 {
                            assert(older(entries@, old_sorted[a] as int, old_sorted[p - 1] as int));
                        }
                        assert(entries@[old_sorted[p - 1] as int].1 <= t);
                    } else if a > p {
                        assert(s[a] == old_sorted[a - 1] && s[b] == old_sorted[b - 1]);
                    } else if a == p {
                        assert(s[b] == old_sorted[b - 1]);
                    } else {
                        assert(s[a] == old_sorted[a] && s[b] == old_sorted[b - 1]);
                    }
                }
                assert forall|x: int|
                    0 <= x < i + 1 && is_backup_of(entries@[x].0@, stem@) implies s.contains(x as usize) by {
                    if x < i {
                        let w = choose|w: int| 0 <= w < old_sorted.len() && old_sorted[w] == x as usize;
                        if w < p {
                            assert(s[w] == old_sorted[w]);
                        } else {
                            assert(s[w + 1] == old_sorted[w]);
                        }
                    } else {
                        assert(s[p as int] == i);
                    }
                }
                assert forall|a: int| 0 <= a < s.len() implies #[trigger] s[a] < i + 1 && is_backup_of(
                    entries@[s[a] as int].0@,
                    stem@,
                ) by {
                    if a < p {
                        assert(s[a] == old_sorted[a]);
                    } else if a > p {
                        assert(s[a] == old_sorted[a - 1]);
                    }
                }
            }
        } else {
            proof {
                assert forall|x: int|
                    0 <= x < i + 1 && is_backup_of(entries@[x].0@, stem@) implies sorted@.contains(x as usize) by {
                }
            }
        }
        i = i + 1;
    }
    let total = sorted.len();
    let keep = if total > max_backups { total - max_backups } else { 0 };
    let mut r: Vec<usize> = Vec::new();
    let mut k: usize = 0;
    while k < keep
        invariant
            k <= keep <= total == sorted@.len(),
            r@ == sorted@.take(k as int),
        decreases keep - k,
    {
        r.push(sorted[k]);
        assert(sorted@.take(k + 1) =~= sorted@.take(k as int).push(sorted@[k as int]));
        k = k + 1;
    }
    proof {
        assert forall|a: int, j: int|
            #![trigger r@[a], entries@[j]]
            0 <= a < r@.len() && 0 <= j < entries@.len() && is_backup_of(entries@[j].0@, stem@)
                && !r@.contains(j as usize) implies older(entries@, r@[a] as int, j) by {
            let w = choose|w: int| 0 <= w < sorted@.len() && sorted@[w] == j as usize;
            if w < keep {
                assert(r@[w] == j as usize);
            }
            assert(r@[a] == sorted@[a]);
        }
    }
    r
}

} // verus!

verus! {

/// What a debounced writer hears: a new value to persist, a request to flush now,
/// a request to stop, the debounce delay running out, or its channel closing.
pub enum WriterEvent<T> {
    Update(T),
    Flush,
    Stop,
    Timeout,
    Disconnected,
}

/// What a debounced writer does after an event: the value to write, if any; whether to
/// acknowledge a flush; and whether to stop.
pub struct WriterStep<T> {
    pub write: Option<T>,
    pub ack: bool,
    pub stop: bool,
}

/// A writer that coalesces updates and writes the latest one once no update has come
/// for the debounce delay (400 ms), or at once when flushed, stopped or disconnected.
pub struct DebouncedWriter<T> {
    pub pending: Option<T>,
}

/// The debounce delay, in nanoseconds.
pub open spec fn debounce_nanos() -> int {
    400_000_000
}

/// How long to wait with nothing pending (an hour), in nanoseconds.
pub open spec fn idle_wait_nanos() -> int {
    3_600_000_000_000
}

impl<T> DebouncedWriter<T> {
    /// A writer with nothing pending.
    pub fn new() -> (w: Self)
        ensures
            w.pending is None,
    {
        DebouncedWriter { pending: None }
    }

    /// How long to wait for the next event, given the time since the last update: the
    /// rest of the debounce delay while a value is pending, else an hour.
    pub fn wait_nanos(&self, since_update_nanos: u64) -> (w: u64)
        ensures
            self.pending is Some ==> w == if since_update_nanos >= debounce_nanos() {
                0
            } else {
                debounce_nanos() - since_update_nanos
            },
            self.pending is None ==> w == idle_wait_nanos(),
    {
        if self.pending.is_some() {
            if since_update_nanos >= 400_000_000 {
                0
            } else {
                400_000_000 - since_update_nanos
            }
        } else {
            3_600_000_000_000
        }
    }

    /// Handles one event. An update replaces what is pending and writes nothing; any
    /// other event writes what is pending (if anything) and leaves nothing pending; a
    /// flush is acknowledged; a stop or a closed channel ends the writer.
    pub fn step(&mut self, event: WriterEvent<T>) -> (s: WriterStep<T>)
        ensures
            (final(self).pending, s.write) == writer_next(old(self).pending, event),
            match event {
                WriterEvent::Update(v) => final(self).pending == Some(v) && s.write is None && !s.ack
                    && !s.stop,
                WriterEvent::Flush => final(self).pending is None && s.write == old(self).pending
                    && s.ack && !s.stop,
                WriterEvent::Stop => final(self).pending is None && s.write == old(self).pending
                    && !s.ack && s.stop,
                WriterEvent::Timeout => final(self).pending is None && s.write == old(self).pending
                    && !s.ack && !s.stop,
                WriterEvent::Disconnected => final(self).pending is None && s.write == old(
                    self,
                ).pending && !s.ack && s.stop,
            },
    {
        match event {
            WriterEvent::Update(v) => {
                self.pending = Some(v);
                WriterStep { write: None, ack: false, stop: false }
            },
            WriterEvent::Flush => WriterStep { write: self.pending.take(), ack: true, stop: false },
            WriterEvent::Stop => WriterStep { write: self.pending.take(), ack: false, stop: true },
            WriterEvent::Timeout => WriterStep { write: self.pending.take(), ack: false, stop: false },
            WriterEvent::Disconnected => WriterStep {
                write: self.pending.take(),
                ack: false,
                stop: true,
            },
        }
    }
}

/// One event's effect on what is pending: the new pending value and the value written.
pub open spec fn writer_next<T>(pending: Option<T>, event: WriterEvent<T>) -> (Option<T>, Option<T>) {
    match event {
        WriterEvent::Update(v) => (Some(v), None),
        _ => (None, pending),
    }
}

/// The values a writer writes for a sequence of events, and what is left pending.
pub open spec fn writer_run<T>(pending: Option<T>, events: Seq<WriterEvent<T>>) -> (Option<T>, Seq<T>)
    decreases events.len(),
{
    if events.len() == 0 {
        (pending, seq![])
    } else {
        let (p1, w) = writer_next(pending, events[0]);
        let (p2, ws) = writer_run(p1, events.drop_first());
        (
            p2,
            match w {
                Some(x) => seq![x] + ws,
                None => ws,
            },
        )
    }
}

/// Updates carrying the values `vs`, in order.
pub open spec fn updates<T>(vs: Seq<T>) -> Seq<WriterEvent<T>> {
    Seq::new(vs.len(), |i: int| WriterEvent::Update(vs[i]))
}

/// Updates are coalesced and the latest wins: after a burst of updates, whatever was
/// pending before, the next flush, timeout, stop or disconnect writes exactly one value,
/// the last update, and leaves nothing pending.
pub proof fn lemma_writer_latest_update_wins<T>(pending: Option<T>, vs: Seq<T>, e: WriterEvent<T>)
    requires
        vs.len() >= 1,
        !(e is Update),
    ensures
        writer_run(pending, updates(vs).push(e)) == (None::<T>, seq![vs.last()]),
    decreases vs.len(),
{
    let evs = updates(vs).push(e);
    assert(evs[0] == WriterEvent::Update(vs[0]));
    if vs.len() == 1 {
        assert(evs.drop_first() =~= seq![e]);
        assert(seq![e].drop_first() =~= Seq::<WriterEvent<T>>::empty());
        assert(writer_next(Some(vs[0]), e) == (None::<T>, Some(vs[0])));
        assert(writer_run(None::<T>, seq![e].drop_first()) == (None::<T>, Seq::<T>::empty()));
        assert(seq![vs[0]] + Seq::<T>::empty() =~= seq![vs[0]]);
        assert(writer_run(Some(vs[0]), seq![e]) == (None::<T>, seq![vs[0]]));
    } else {
        lemma_writer_latest_update_wins(Some(vs[0]), vs.drop_first(), e);
        assert(evs.drop_first() =~= updates(vs.drop_first()).push(e));
    }
}

} // verus!
