//! The notes strip: short text notes with ids and creation times, kept newest first.
use vstd::prelude::*;
use crate::persist::{FileRead, Restored};
use crate::text::{concat_str, decimal, push_decimal, trim_spec, trim_str};

verus! {

/// One note.
#[derive(Clone, Debug)]
pub struct Note {
    pub id: u64,
    pub text: String,
    pub created_at: String,
}

impl Note {
    /// An identical copy of the note.
    pub fn duplicate(&self) -> (n: Note)
        ensures
            n == *self,
    {
        Note { id: self.id, text: self.text.clone(), created_at: self.created_at.clone() }
    }
}

/// The document kept in the notes file: the notes, and the id the next note gets.
#[derive(Clone, Debug)]
pub struct NotesData {
    pub notes: Vec<Note>,
    pub next_id: u64,
}

impl NotesData {
    /// No notes; ids start at 0.
    pub fn new() -> (d: NotesData)
        ensures
            d.notes@ == Seq::<Note>::empty(),
            d.next_id == 0,
    {
        NotesData { notes: Vec::new(), next_id: 0 }
    }
}

impl Default for NotesData {
    fn default() -> (d: Self)
        ensures
            d.notes@ == Seq::<Note>::empty(),
            d.next_id == 0,
    {
        NotesData::new()
    }
}

/// The shapes of notes file that can be read: the full document, an object holding
/// only the notes (from before ids were tracked), or a bare array of notes.
pub enum NotesDoc {
    Full(NotesData),
    NotesOnly(Vec<Note>),
    Bare(Vec<Note>),
}

/// The largest id among `s`, if any.
pub open spec fn max_id(s: Seq<Note>) -> Option<u64>
    decreases s.len(),
{
    if s.len() == 0 {
        None
    } else {
        match max_id(s.drop_last()) {
            None => Some(s.last().id),
            Some(m) => Some(if m < s.last().id { s.last().id } else { m }),
        }
    }
}

/// The id that follows every id of `s`: one past the largest, or 0 for no notes.
pub open spec fn id_after(s: Seq<Note>) -> int {
    match max_id(s) {
        None => 0,
        Some(m) => m + 1,
    }
}

/// No note of `s` has the largest possible id, so one past every id is an id too.
pub open spec fn ids_not_max(s: Seq<Note>) -> bool {
    forall|i: int| 0 <= i < s.len() ==> #[trigger] s[i].id < u64::MAX
}

/// Whether a readable document can be recovered: the id-less shapes need ids below the maximum.
pub open spec fn doc_recoverable(doc: NotesDoc) -> bool {
    match doc {
        NotesDoc::Full(_) => true,
        NotesDoc::NotesOnly(v) => ids_not_max(v@),
        NotesDoc::Bare(v) => ids_not_max(v@),
    }
}

/// The document recovered from a readable shape: taken as it is, or with the next id
/// set one past the largest id.
pub open spec fn recovered_notes(doc: NotesDoc) -> (Seq<Note>, int) {
    match doc {
        NotesDoc::Full(d) => (d.notes@, d.next_id as int),
        NotesDoc::NotesOnly(v) => (v@, id_after(v@)),
        NotesDoc::Bare(v) => (v@, id_after(v@)),
    }
}

/// Whether `next_id` is one past the largest id of `s`, or 0 when `s` is empty.
pub open spec fn one_past_largest(s: Seq<Note>, next_id: int) -> bool {
    &&& (s.len() == 0 ==> next_id == 0)
    &&& (s.len() > 0 ==> (forall|i: int| 0 <= i < s.len() ==> #[trigger] s[i].id < next_id) && (exists|
        i: int,
    | 0 <= i < s.len() && #[trigger] s[i].id + 1 == next_id))
}

/// Whether `notes` and `next_id` are what reading `doc` restores: every note of the file,
/// in order, with a full document's next id as it is, and for the id-less shapes the id
/// one past the largest.
pub open spec fn restores(doc: NotesDoc, notes: Seq<Note>, next_id: int) -> bool {
    match doc {
        NotesDoc::Full(d) => notes == d.notes@ && next_id == d.next_id,
        NotesDoc::NotesOnly(v) => notes == v@ && one_past_largest(v@, next_id),
        NotesDoc::Bare(v) => notes == v@ && one_past_largest(v@, next_id),
    }
}

proof fn lemma_max_id_bound(s: Seq<Note>)
    ensures
        max_id(s) matches Some(m) ==> forall|i: int| 0 <= i < s.len() ==> #[trigger] s[i].id <= m,
        max_id(s) matches Some(m) ==> exists|i: int| 0 <= i < s.len() && #[trigger] s[i].id == m,
        max_id(s) is None <==> s.len() == 0,
    decreases s.len(),
{
    if s.len() > 0 {
        lemma_max_id_bound(s.drop_last());
        let t = s.drop_last();
        assert forall|i: int| 0 <= i < t.len() implies #[trigger] t[i] == s[i] by {}
        match max_id(t) {
            None => {
                assert(s[s.len() - 1].id == s.last().id);
            },
            Some(m) => {
                let w = choose|i: int| 0 <= i < t.len() && #[trigger] t[i].id == m;
                assert(s[w].id == m);
                assert(s[s.len() - 1].id == s.last().id);
            },
        }
        let mx = max_id(s)->0;
        assert forall|i: int| 0 <= i < s.len() implies #[trigger] s[i].id <= mx by {
            if i < t.len() {
                assert(t[i] == s[i]);
            }
        }
    }
}

proof fn lemma_id_after_one_past(s: Seq<Note>)
    ensures
        one_past_largest(s, id_after(s)),
{
    lemma_max_id_bound(s);
    if s.len() > 0 {
        let m = max_id(s)->0;
        let w = choose|i: int| 0 <= i < s.len() && #[trigger] s[i].id == m;
        assert(s[w].id + 1 == id_after(s));
    }
}

/// Reading any readable shape restores every note of the file in order; a full document
/// keeps its next id, and an id-less shape gets the id one past its largest (0 when it
/// holds no note).
pub proof fn lemma_recovery_restores(doc: NotesDoc)
    ensures
        restores(doc, recovered_notes(doc).0, recovered_notes(doc).1),
{
    match doc {
        NotesDoc::Full(_) => {},
        NotesDoc::NotesOnly(v) => lemma_id_after_one_past(v@),
        NotesDoc::Bare(v) => lemma_id_after_one_past(v@),
    }
}

/// The next free id: one past the largest id among `notes`, or 0 when there are none.
fn next_id_after(notes: &Vec<Note>) -> (r: u64)
    requires
        ids_not_max(notes@),
    ensures
        r == id_after(notes@),
{
    let mut best: Option<u64> = None;
    let n = notes.len();
    let mut i: usize = 0;
    while i < n
        invariant
            n == notes.len(),
            i <= n,
            best == max_id(notes@.take(i as int)),
        decreases n - i,
    {
        assert(notes@.take(i + 1).drop_last() =~= notes@.take(i as int));
        let id = notes[i].id;
        best = match best {
            None => Some(id),
            Some(m) => Some(if m < id { id } else { m }),
        };
        i = i + 1;
    }
    assert(notes@.take(n as int) =~= notes@);
    proof {
        lemma_max_id_bound(notes@);
    }
    match best {
        None => 0,
        Some(m) => {
            proof {
                let w = choose|i: int| 0 <= i < notes@.len() && #[trigger] notes@[i].id == m;
                assert(notes@[w].id < u64::MAX);
            }
            m + 1
        },
    }
}

/// An instant as whole seconds since the Unix epoch and nanoseconds within the second
/// (`None` for a creation time that is not RFC 3339).
pub type Moment = Option<(i64, u32)>;

/// The instant an RFC 3339 date-time string denotes, as chrono's
/// `DateTime::parse_from_rfc3339` reads it (seconds since the Unix epoch and the
/// nanoseconds within the second); `None` when it is not RFC 3339.
pub uninterp spec fn rfc3339_instant(s: Seq<char>) -> Option<(i64, u32)>;

/// chrono's `DateTime::parse_from_rfc3339`, its result read out as `timestamp()` and
/// `timestamp_subsec_nanos()`; a parse error gives `None`. The result is named, a
/// function of the string alone.
#[verifier::external_body]
fn parse_rfc3339(s: &str) -> (r: Option<(i64, u32)>)
    ensures
        r == rfc3339_instant(s@),
{
    match chrono::DateTime::parse_from_rfc3339(s) {
        Ok(t) => Some((t.timestamp(), t.timestamp_subsec_nanos())),
        Err(_) => None,
    }
}

/// `a` is an earlier instant than `b`; a creation time that does not parse counts as
/// earlier than every instant.
pub open spec fn earlier(a: Moment, b: Moment) -> bool {
    match (a, b) {
        (None, Some(_)) => true,
        (Some(x), Some(y)) => x.0 < y.0 || (x.0 == y.0 && x.1 < y.1),
        _ => false,
    }
}

/// The instant a note was created at.
pub open spec fn note_moment(n: Note) -> Moment {
    rfc3339_instant(n.created_at@)
}

/// Notes ordered newest first: no note was created before a later one in the sequence.
pub open spec fn newest_first(s: Seq<Note>) -> bool {
    forall|i: int, j: int|
        0 <= i < j < s.len() ==> !earlier(#[trigger] note_moment(s[i]), #[trigger] note_moment(s[j]))
}

/// The notes of `s` created at instant `k`, in their order in `s`.
pub open spec fn notes_at(s: Seq<Note>, k: Moment) -> Seq<Note>
    decreases s.len(),
{
    if s.len() == 0 {
        seq![]
    } else if note_moment(s.last()) == k {
        notes_at(s.drop_last(), k).push(s.last())
    } else {
        notes_at(s.drop_last(), k)
    }
}

/// Dated entries ordered newest first by their instants.
pub open spec fn dated_newest_first(s: Seq<(Note, Moment)>) -> bool {
    forall|i: int, j: int| 0 <= i < j < s.len() ==> !earlier((#[trigger] s[i]).1, (#[trigger] s[j]).1)
}

/// The entries of `s` dated `k`, in their order in `s`.
pub open spec fn dated_at(s: Seq<(Note, Moment)>, k: Moment) -> Seq<(Note, Moment)>
    decreases s.len(),
{
    if s.len() == 0 {
        seq![]
    } else if s.last().1 == k {
        dated_at(s.drop_last(), k).push(s.last())
    } else {
        dated_at(s.drop_last(), k)
    }
}

/// The notes of dated entries.
pub open spec fn undated(s: Seq<(Note, Moment)>) -> Seq<Note> {
    s.map_values(|e: (Note, Moment)| e.0)
}

proof fn lemma_dated_at_add(a: Seq<(Note, Moment)>, b: Seq<(Note, Moment)>, k: Moment)
    ensures
        dated_at(a + b, k) == dated_at(a, k) + dated_at(b, k),
    decreases b.len(),
{
    if b.len() == 0 {
        assert(a + b =~= a);
        assert(dated_at(a, k) + dated_at(b, k) =~= dated_at(a, k));
    } else {
        lemma_dated_at_add(a, b.drop_last(), k);
        assert((a + b).drop_last() =~= a + b.drop_last());
        assert((a + b).last() == b.last());
        if b.last().1 == k {
            assert(dated_at(a, k) + dated_at(b.drop_last(), k).push(b.last()) =~= (dated_at(a, k)
                + dated_at(b.drop_last(), k)).push(b.last()));
        }
    }
}

proof fn lemma_dated_at_none(s: Seq<(Note, Moment)>, k: Moment)
    requires
        forall|q: int| 0 <= q < s.len() ==> (#[trigger] s[q]).1 != k,
    ensures
        dated_at(s, k) == Seq::<(Note, Moment)>::empty(),
    decreases s.len(),
{
    if s.len() > 0 {
        let t = s.drop_last();
        assert forall|q: int| 0 <= q < t.len() implies (#[trigger] t[q]).1 != k by {
            assert(t[q] == s[q]);
        }
        lemma_dated_at_none(t, k);
        assert(s[s.len() - 1] == s.last());
    }
}

proof fn lemma_dated_at_insert(s: Seq<(Note, Moment)>, p: int, x: (Note, Moment), k: Moment)
    requires
        0 <= p <= s.len(),
        forall|q: int| p <= q < s.len() ==> (#[trigger] s[q]).1 != x.1,
    ensures
        dated_at(s.insert(p, x), k) == if x.1 == k {
            dated_at(s, k).push(x)
        } else {
            dated_at(s, k)
        },
{
    let a = s.subrange(0, p);
    let b = s.subrange(p, s.len() as int);
    assert(s =~= a + b);
    assert(s.insert(p, x) =~= a.push(x) + b);
    lemma_dated_at_add(a, b, k);
    lemma_dated_at_add(a.push(x), b, k);
    assert(a.push(x).drop_last() =~= a);
    if x.1 == k {
        assert forall|q: int| 0 <= q < b.len() implies (#[trigger] b[q]).1 != k by {
            assert(b[q] == s[q + p]);
        }
        lemma_dated_at_none(b, k);
        assert(dated_at(a, k) + dated_at(b, k) =~= dated_at(a, k));
        assert(dated_at(a, k).push(x) + dated_at(b, k) =~= dated_at(a, k).push(x));
    }
}

/// Sorting dated notes keeps the notes of each instant in order: when every entry carries
/// its note's instant, the notes of the entries dated `k` are the notes created at `k`.
proof fn lemma_undated_at(s: Seq<(Note, Moment)>, k: Moment)
    requires
        forall|q: int| 0 <= q < s.len() ==> (#[trigger] s[q]).1 == note_moment(s[q].0),
    ensures
        undated(dated_at(s, k)) == notes_at(undated(s), k),
    decreases s.len(),
{
    if s.len() > 0 {
        let t = s.drop_last();
        assert forall|q: int| 0 <= q < t.len() implies (#[trigger] t[q]).1 == note_moment(t[q].0) by {
            assert(t[q] == s[q]);
        }
        lemma_undated_at(t, k);
        assert(undated(s).drop_last() =~= undated(t));
        assert(undated(s).last() == s.last().0);
        assert(s[s.len() - 1] == s.last());
        if s.last().1 == k {
            assert(undated(dated_at(t, k).push(s.last())) =~= undated(dated_at(t, k)).push(s.last().0));
        }
    }
}

/// Orders dated notes newest first; entries of the same instant keep their order.
pub fn sort_newest_first(entries: &Vec<(Note, Moment)>) -> (r: Vec<(Note, Moment)>)
    ensures
        dated_newest_first(r@),
        forall|k: Moment| #[trigger] dated_at(r@, k) == dated_at(entries@, k),
        r@.len() == entries@.len(),
{
    let n = entries.len();
    let mut out: Vec<(Note, Moment)> = Vec::new();
    let mut i: usize = 0;
    while i < n
        invariant
            n == entries.len(),
            i <= n,
            out@.len() == i,
            dated_newest_first(out@),
            forall|k: Moment| #[trigger] dated_at(out@, k) == dated_at(entries@.take(i as int), k),
        decreases n - i,
    {
        let x = (entries[i].0.duplicate(), entries[i].1);
        let mut p = out.len();
        while p > 0 && earlier_than(out[p - 1].1, x.1)
            invariant
                p <= out.len(),
                forall|q: int| p <= q < out.len() ==> earlier((#[trigger] out@[q]).1, x.1),
            decreases p,
        {
            p = p - 1;
        }
        let ghost old_out = out@;
        proof {
            assert forall|k: Moment| #[trigger] dated_at(old_out.insert(p as int, x), k) == dated_at(
                entries@.take(i + 1),
                k,
            ) by {
                lemma_dated_at_insert(old_out, p as int, x, k);
                assert(entries@.take(i + 1).drop_last() =~= entries@.take(i as int));
                assert(entries@.take(i + 1).last() == x);
            }
        }
        out.insert(p, x);
        proof {
            let s = out@;
            assert(s == old_out.insert(p as int, x));
            old_out.insert_ensures(p as int, x);
            assert forall|a: int, b: int| 0 <= a < b < s.len() implies !earlier((#[trigger] s[a]).1, (#[trigger] s[b]).1) by {
                if b < p {
                    assert(s[a] == old_out[a] && s[b] == old_out[b]);
                } else if b == p {
                    assert(s[a] == old_out[a]);
                    assert(!earlier(old_out[p - 1].1, x.1));
                    if a < p - 1 {
                        assert(!earlier(old_out[a].1, old_out[p - 1].1));
                    }
                } else if a > p {
                    assert(s[a] == old_out[a - 1] && s[b] == old_out[b - 1]);
                } else if a == p {
                    assert(s[b] == old_out[b - 1]);
                } else {
                    assert(s[a] == old_out[a] && s[b] == old_out[b - 1]);
                }
            }
        }
        i = i + 1;
    }
    assert(entries@.take(n as int) =~= entries@);
    out
}

fn earlier_than(a: Moment, b: Moment) -> (r: bool)
    ensures
        r == earlier(a, b),
{
    match (a, b) {
        (None, Some(_)) => true,
        (Some(x), Some(y)) => x.0 < y.0 || (x.0 == y.0 && x.1 < y.1),
        _ => false,
    }
}

/// The notes store: the contents of its file, as loaded by the caller.
pub struct NotesStore {
    pub data: NotesData,
}

/// The message for a note text that cannot be stored, if any: after trimming, it must
/// be non-empty and at most 500 characters long.
pub open spec fn note_text_error(text: Seq<char>) -> Option<Seq<char>> {
    let t = trim_spec(text);
    if t.len() == 0 {
        Some("Note is empty."@)
    } else if t.len() > 500 {
        Some("Note is too long (500 character limit)."@)
    } else {
        None
    }
}

/// At most this many notes are kept.
pub open spec fn max_notes() -> int {
    200
}

/// What adding `text` created at `created_at` does to notes `old` with next id `old_next`:
/// either it fails with the reason and changes nothing, or it appends a note with the
/// next id and the trimmed text, and advances the next id.
pub open spec fn spec_add(
    old_notes: Seq<Note>,
    old_next: u64,
    text: Seq<char>,
    r: Result<Note, String>,
    new_notes: Seq<Note>,
    new_next: u64,
) -> bool {
    match note_text_error(text) {
        Some(e) => r matches Err(m) && m@ == e && new_notes == old_notes && new_next == old_next,
        None => if old_notes.len() >= max_notes() {
            r matches Err(m) && m@ == "Too many notes."@ && new_notes == old_notes && new_next
                == old_next
        } else {
            r matches Ok(n) && n.id == old_next && n.text@ == trim_spec(text) && new_notes
                == old_notes.push(n) && new_next == old_next + 1
        },
    }
}

/// The notes of `s` whose id is not `id`, in order.
pub open spec fn without_id(s: Seq<Note>, id: u64) -> Seq<Note>
    decreases s.len(),
{
    if s.len() == 0 {
        seq![]
    } else if s.last().id == id {
        without_id(s.drop_last(), id)
    } else {
        without_id(s.drop_last(), id).push(s.last())
    }
}

/// Whether some note of `s` has id `id`.
pub open spec fn has_id(s: Seq<Note>, id: u64) -> bool {
    exists|i: int| 0 <= i < s.len() && #[trigger] s[i].id == id
}

impl NotesStore {
    /// Recovers a notes document from a readable shape of the file; `None` when none matched.
    pub fn parse_or_recover(doc: Option<NotesDoc>) -> (r: Option<NotesData>)
        requires
            doc matches Some(d) ==> doc_recoverable(d),
        ensures
            match doc {
                None => r is None,
                Some(d) => r matches Some(data) && (data.notes@, data.next_id as int)
                    == recovered_notes(d),
            },
            doc matches Some(d) ==> r matches Some(data) && restores(d, data.notes@, data.next_id as int),
    {
        proof {
            if doc is Some {
                lemma_recovery_restores(doc->Some_0);
            }
        }
        match doc {
            None => None,
            Some(NotesDoc::Full(data)) => Some(data),
            Some(NotesDoc::NotesOnly(notes)) => {
                let next_id = next_id_after(&notes);
                Some(NotesData { notes, next_id })
            },
            Some(NotesDoc::Bare(notes)) => {
                let next_id = next_id_after(&notes);
                Some(NotesData { notes, next_id })
            },
        }
    }

    /// Loads the notes from the file: no notes when there is none, the recovered document
    /// when a shape was readable, no notes with a backup and rewrite when the file is
    /// corrupt, or an error when it could not be read.
    pub fn load(file: FileRead<NotesDoc>) -> (r: Result<Restored<NotesData>, String>)
        requires
            file matches FileRead::Parsed(d) ==> doc_recoverable(d),
        ensures
            match file {
                FileRead::Missing => r matches Ok(x) && x.value.notes@.len() == 0
                    && x.value.next_id == 0 && !x.backup && !x.rewrite,
                FileRead::Failed(e) => r matches Err(m) && m@ == "read: "@ + e@,
                FileRead::Unparsable => r matches Ok(x) && x.value.notes@.len() == 0
                    && x.value.next_id == 0 && x.backup && x.rewrite,
                FileRead::Parsed(d) => r matches Ok(x) && (x.value.notes@, x.value.next_id as int)
                    == recovered_notes(d) && !x.backup && !x.rewrite,
            },
            file matches FileRead::Parsed(d) ==> r matches Ok(x) && restores(
                d,
                x.value.notes@,
                x.value.next_id as int,
            ),
    {
        proof {
            if file is Parsed {
                lemma_recovery_restores(file->Parsed_0);
            }
        }
        match file {
            FileRead::Missing => Ok(Restored { value: NotesData::new(), backup: false, rewrite: false }),
            FileRead::Failed(e) => Err(concat_str("read: ", e.as_str())),
            FileRead::Unparsable => Ok(Restored { value: NotesData::new(), backup: true, rewrite: true }),
            FileRead::Parsed(d) => {
                let data = match NotesStore::parse_or_recover(Some(d)) {
                    Some(data) => data,
                    None => NotesData::new(),
                };
                Ok(Restored { value: data, backup: false, rewrite: false })
            },
        }
    }

    /// All notes, newest first by the instant of their RFC 3339 creation time; notes
    /// created at the same instant keep their stored order, and notes whose creation
    /// time does not parse come last.
    pub fn list(&self) -> (r: Vec<Note>)
        ensures
            newest_first(r@),
            forall|k: Moment| #[trigger] notes_at(r@, k) == notes_at(self.data.notes@, k),
            forall|n: Note| #[trigger] r@.contains(n) <==> self.data.notes@.contains(n),
            r@.len() == self.data.notes@.len(),
    {
        let notes = &self.data.notes;
        let n = notes.len();
        let mut dated: Vec<(Note, Moment)> = Vec::new();
        let mut i: usize = 0;
        while i < n
            invariant
                n == notes.len(),
                i <= n,
                dated@.len() == i,
                forall|q: int| 0 <= q < i ==> (#[trigger] dated@[q]) == (notes@[q], note_moment(notes@[q])),
            decreases n - i,
        {
            let m = parse_rfc3339(notes[i].created_at.as_str());
            dated.push((notes[i].duplicate(), m));
            i = i + 1;
        }
        proof {
            assert(undated(dated@) =~= notes@);
        }
        let sorted = sort_newest_first(&dated);
        proof {
            assert forall|q: int| 0 <= q < sorted@.len() implies (#[trigger] sorted@[q]).1 == note_moment(sorted@[q].0) by {
                let e = sorted@[q];
                lemma_dated_at_contains(sorted@, e);
                lemma_dated_at_contains(dated@, e);
                assert(sorted@.contains(e));
                assert(dated_at(sorted@, e.1) == dated_at(dated@, e.1));
                let w = choose|w: int| 0 <= w < dated@.len() && dated@[w] == e;
            }
        }
        let mut out: Vec<Note> = Vec::new();
        let mut j: usize = 0;
        while j < n
            invariant
                n == sorted@.len(),
                j <= n,
                out@ == undated(sorted@.take(j as int)),
            decreases n - j,
        {
            out.push(sorted[j].0.duplicate());
            assert(undated(sorted@.take(j + 1)) =~= undated(sorted@.take(j as int)).push(sorted@[j as int].0));
            j = j + 1;
        }
        proof {
            assert(sorted@.take(n as int) =~= sorted@);
            assert forall|k: Moment| #[trigger] notes_at(out@, k) == notes_at(notes@, k) by {
                lemma_undated_at(sorted@, k);
                lemma_undated_at(dated@, k);
            }
            assert forall|a: int, b: int| 0 <= a < b < out@.len() implies !earlier(
                #[trigger] note_moment(out@[a]),
                #[trigger] note_moment(out@[b]),
            ) by {
                assert(out@[a] == sorted@[a].0 && out@[b] == sorted@[b].0);
            }
            assert forall|x: Note| #[trigger] out@.contains(x) <==> notes@.contains(x) by {
                lemma_notes_at_contains(out@, x);
                lemma_notes_at_contains(notes@, x);
                assert(notes_at(out@, note_moment(x)) == notes_at(notes@, note_moment(x)));
            }
        }
        out
    }

    /// The note text as it would be stored (trimmed), or why it cannot be.
    pub fn validate_text(text: &str) -> (r: Result<String, String>)
        ensures
            match note_text_error(text@) {
                Some(e) => r matches Err(m) && m@ == e,
                None => r matches Ok(t) && t@ == trim_spec(text@),
            },
    {
        let (t, count) = trim_str(text);
        if count == 0 {
            return Err("Note is empty.".to_owned());
        }
        if count > 500 {
            return Err("Note is too long (500 character limit).".to_owned());
        }
        Ok(t)
    }

    /// Adds a note created at `created_at` (the caller reads the clock): its text is
    /// trimmed, must be non-empty and at most 500 characters, and at most 200 notes are
    /// kept. The note gets the next id.
    pub fn add(&mut self, text: &str, created_at: String) -> (r: Result<Note, String>)
        requires
            note_text_error(text@) is None && old(self).data.notes.len() < max_notes()
                ==> old(self).data.next_id < u64::MAX,
        ensures
            spec_add(
                old(self).data.notes@,
                old(self).data.next_id,
                text@,
                r,
                final(self).data.notes@,
                final(self).data.next_id,
            ),
            r matches Ok(n) ==> n.created_at == created_at,
            r is Ok <==> 1 <= trim_spec(text@).len() <= 500 && old(self).data.notes@.len() < 200,
            r matches Ok(n) ==> n.id == old(self).data.next_id && n.text@ == trim_spec(text@)
                && final(self).data.notes@ == old(self).data.notes@.push(n) && final(self).data.next_id
                == old(self).data.next_id + 1,
            r is Err ==> final(self).data.notes@ == old(self).data.notes@ && final(self).data.next_id
                == old(self).data.next_id,
    {
        let t = match NotesStore::validate_text(text) {
            Ok(t) => t,
            Err(e) => {
                return Err(e);
            },
        };
        if self.data.notes.len() >= 200 {
            return Err("Too many notes.".to_owned());
        }
        let id = self.data.next_id;
        self.data.next_id = id + 1;
        let note = Note { id, text: t, created_at };
        self.data.notes.push(note.duplicate());
        Ok(note)
    }

    /// Deletes every note with id `id`; an error, with nothing changed, when there is none.
    pub fn delete(&mut self, id: u64) -> (r: Result<(), String>)
        ensures
            has_id(old(self).data.notes@, id) ==> (r is Ok) && final(self).data.notes@ == without_id(
                old(self).data.notes@,
                id,
            ) && final(self).data.next_id == old(self).data.next_id,
            r is Ok ==> final(self).data.notes@ == old(self).data.notes@.filter(|n: Note| n.id != id),
            r is Ok <==> exists|i: int|
                0 <= i < old(self).data.notes@.len() && #[trigger] old(self).data.notes@[i].id == id,
            !has_id(old(self).data.notes@, id) ==> (r matches Err(m) && m@ == "note id "@ + decimal(
                id as nat,
            ) + " not found"@) && final(self).data == old(self).data,
    {
        let notes = &self.data.notes;
        let n = notes.len();
        let mut kept: Vec<Note> = Vec::new();
        let mut i: usize = 0;
        while i < n
            invariant
                n == notes.len(),
                i <= n,
                kept@ == without_id(notes@.take(i as int), id),
                kept@.len() <= i,
                kept@.len() == i <==> !has_id(notes@.take(i as int), id),
            decreases n - i,
        {
            let ghost pre = notes@.take(i as int);
            assert(notes@.take(i + 1).drop_last() =~= pre);
            assert(notes@.take(i + 1).last() == notes@[i as int]);
            if notes[i].id != id {
                kept.push(notes[i].duplicate());
            }
            proof {
                let post = notes@.take(i + 1);
                if has_id(pre, id) {
                    let w = choose|j: int| 0 <= j < pre.len() && #[trigger] pre[j].id == id;
                    assert(post[w] == pre[w]);
                }
                if has_id(post, id) && notes@[i as int].id != id {
                    let w = choose|j: int| 0 <= j < post.len() && #[trigger] post[j].id == id;
                    assert(pre[w] == post[w]);
                }
                if notes@[i as int].id == id {
                    assert(post[i as int].id == id);
                }
            }
            i = i + 1;
        }
        assert(notes@.take(n as int) =~= notes@);
        if kept.len() == n {
            let mut msg = "note id ".to_owned();
            push_decimal(&mut msg, id);
            msg.append(" not found");
            return Err(msg);
        }
        proof {
            lemma_delete_keeps_other_notes(notes@, id);
        }
        self.data.notes = kept;
        Ok(())
    }
}

/// Every stored id is below the next id, so the next note's id is new.
pub open spec fn ids_below_next(notes: Seq<Note>, next_id: u64) -> bool {
    forall|i: int| 0 <= i < notes.len() ==> #[trigger] notes[i].id < next_id
}

/// A document recovered from a shape without a next id gets a next id above every
/// stored id (a full document is taken as it is).
pub proof fn lemma_recovered_ids_below_next(v: Seq<Note>)
    requires
        ids_not_max(v),
    ensures
        forall|i: int| 0 <= i < v.len() ==> #[trigger] v[i].id < id_after(v),
{
    lemma_max_id_bound(v);
}

/// Adding keeps every id below the next id, and never takes the store past 200 notes.
pub proof fn lemma_add_keeps_invariants(
    old_notes: Seq<Note>,
    old_next: u64,
    text: Seq<char>,
    r: Result<Note, String>,
    new_notes: Seq<Note>,
    new_next: u64,
)
    requires
        spec_add(old_notes, old_next, text, r, new_notes, new_next),
        ids_below_next(old_notes, old_next),
    ensures
        ids_below_next(new_notes, new_next),
        old_notes.len() <= max_notes() ==> new_notes.len() <= max_notes(),
        r is Ok ==> !has_id(old_notes, old_next),
{
    if let Ok(n) = r {
        assert forall|i: int| 0 <= i < new_notes.len() implies #[trigger] new_notes[i].id < new_next by {
            if i < old_notes.len() {
                assert(new_notes[i] == old_notes[i]);
            }
        }
    }
}

proof fn lemma_without_absent(s: Seq<Note>, id: u64)
    requires
        !has_id(s, id),
    ensures
        without_id(s, id) == s,
    decreases s.len(),
{
    if s.len() > 0 {
        let t = s.drop_last();
        if has_id(t, id) {
            let w = choose|j: int| 0 <= j < t.len() && #[trigger] t[j].id == id;
            assert(s[w] == t[w]);
        }
        lemma_without_absent(t, id);
        assert(s[s.len() - 1] == s.last());
        assert(t.push(s.last()) =~= s);
    }
}

/// Deleting keeps every id below the next id.
pub proof fn lemma_delete_keeps_ids_below_next(s: Seq<Note>, next_id: u64, id: u64)
    requires
        ids_below_next(s, next_id),
    ensures
        ids_below_next(without_id(s, id), next_id),
    decreases s.len(),
{
    if s.len() > 0 {
        let t = s.drop_last();
        assert forall|i: int| 0 <= i < t.len() implies #[trigger] t[i].id < next_id by {
            assert(t[i] == s[i]);
        }
        lemma_delete_keeps_ids_below_next(t, next_id, id);
        assert(s[s.len() - 1] == s.last());
    }
}

/// Deleting a note just added undoes the addition: when every id is below the next id,
/// adding a note and then deleting its id gives back the notes there were before.
pub proof fn lemma_delete_undoes_add(
    old_notes: Seq<Note>,
    old_next: u64,
    text: Seq<char>,
    r: Result<Note, String>,
    new_notes: Seq<Note>,
    new_next: u64,
)
    requires
        spec_add(old_notes, old_next, text, r, new_notes, new_next),
        ids_below_next(old_notes, old_next),
        r is Ok,
    ensures
        has_id(new_notes, r->Ok_0.id),
        without_id(new_notes, r->Ok_0.id) == old_notes,
{
    let n = r->Ok_0;
    lemma_add_keeps_invariants(old_notes, old_next, text, r, new_notes, new_next);
    assert(new_notes.drop_last() =~= old_notes);
    assert(new_notes[old_notes.len() as int] == n);
    lemma_without_absent(old_notes, n.id);
}

/// Deleting an id keeps, in order, exactly the notes with another id: a note is left
/// if and only if it was there and has another id, and as many notes go as had that id.
pub proof fn lemma_delete_keeps_other_notes(s: Seq<Note>, id: u64)
    ensures
        without_id(s, id) == s.filter(|n: Note| n.id != id),
        forall|n: Note| #[trigger] without_id(s, id).contains(n) <==> s.contains(n) && n.id != id,
        without_id(s, id).len() == s.len() - s.filter(|n: Note| n.id == id).len(),
    decreases s.len(),
{
    reveal(Seq::filter);
    let keep = |n: Note| n.id != id;
    if s.len() > 0 {
        lemma_delete_keeps_other_notes(s.drop_last(), id);
    }
    let f = s.filter(keep);
    assert forall|n: Note| #[trigger] f.contains(n) <==> s.contains(n) && n.id != id by {
        if f.contains(n) {
            s.lemma_filter_contains_rev(keep, n);
            let j = choose|j: int| 0 <= j < f.len() && f[j] == n;
            s.lemma_filter_pred(keep, j);
        }
        if s.contains(n) && n.id != id {
            let i = choose|i: int| 0 <= i < s.len() && s[i] == n;
            s.lemma_filter_contains(keep, i);
        }
    }
}

proof fn lemma_notes_at_contains(s: Seq<Note>, n: Note)
    ensures
        s.contains(n) <==> notes_at(s, note_moment(n)).contains(n),
    decreases s.len(),
{
    if s.len() > 0 {
        let t = s.drop_last();
        lemma_notes_at_contains(t, n);
        let w = notes_at(t, note_moment(n));
        if s.contains(n) && !t.contains(n) {
            let i = choose|i: int| 0 <= i < s.len() && s[i] == n;
            if i < t.len() {
                assert(t[i] == s[i]);
            }
            assert(s.last() == n);
            assert(w.push(n)[w.len() as int] == n);
        }
        if t.contains(n) {
            let i = choose|i: int| 0 <= i < t.len() && t[i] == n;
            assert(s[i] == t[i]);
            let j = choose|j: int| 0 <= j < w.len() && w[j] == n;
            if note_moment(s.last()) == note_moment(n) {
                assert(w.push(s.last())[j] == n);
            }
        }
        if notes_at(s, note_moment(n)).contains(n) && !w.contains(n) {
            assert(note_moment(s.last()) == note_moment(n));
            let j = choose|j: int| 0 <= j < w.len() + 1 && w.push(s.last())[j] == n;
            assert(s[s.len() - 1] == n);
        }
    }
}

proof fn lemma_dated_at_contains(s: Seq<(Note, Moment)>, e: (Note, Moment))
    ensures
        s.contains(e) <==> dated_at(s, e.1).contains(e),
    decreases s.len(),
{
    if s.len() > 0 {
        let t = s.drop_last();
        lemma_dated_at_contains(t, e);
        let w = dated_at(t, e.1);
        if s.contains(e) && !t.contains(e) {
            let i = choose|i: int| 0 <= i < s.len() && s[i] == e;
            if i < t.len() {
                assert(t[i] == s[i]);
            }
            assert(s.last() == e);
            assert(w.push(e)[w.len() as int] == e);
        }
        if t.contains(e) {
            let i = choose|i: int| 0 <= i < t.len() && t[i] == e;
            assert(s[i] == t[i]);
            let j = choose|j: int| 0 <= j < w.len() && w[j] == e;
            if s.last().1 == e.1 {
                assert(w.push(s.last())[j] == e);
            }
        }
        if dated_at(s, e.1).contains(e) && !w.contains(e) {
            assert(s.last().1 == e.1);
            let j = choose|j: int| 0 <= j < w.len() + 1 && w.push(s.last())[j] == e;
            assert(s[s.len() - 1] == e);
        }
    }
}

} // verus!
