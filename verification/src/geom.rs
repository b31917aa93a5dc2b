//! Floating-window geometry remembered per dock edge.
use vstd::prelude::*;
use crate::persist::{FileRead, Restored};
use crate::text::str_eq;

verus! {

/// A window's position (signed, for monitors left of or above the primary) and size.
#[derive(Clone, Copy, PartialEq, Eq, Debug, Structural)]
pub struct WindowGeom {
    pub x: i32,
    pub y: i32,
    pub width: u32,
    pub height: u32,
}

impl Default for WindowGeom {
    fn default() -> (g: Self)
        ensures
            g == (WindowGeom { x: 0, y: 0, width: 0, height: 0 }),
    {
        WindowGeom { x: 0, y: 0, width: 0, height: 0 }
    }
}

/// The geometry used when nothing usable is remembered.
pub open spec fn fallback_geom() -> WindowGeom {
    WindowGeom { x: 200, y: 100, width: 390, height: 720 }
}

/// `v` clamped into `lo..=hi`.
pub open spec fn clamp_u32(v: u32, lo: u32, hi: u32) -> u32 {
    if v < lo {
        lo
    } else if v > hi {
        hi
    } else {
        v
    }
}

/// The geometry with its size clamped to safe UI limits (width 280..=1920, height
/// 440..=1440); the signed position is kept as it is.
pub open spec fn sanitized(g: WindowGeom) -> WindowGeom {
    WindowGeom { width: clamp_u32(g.width, 280, 1920), height: clamp_u32(g.height, 440, 1440), ..g }
}

/// Whether `s` is `g` within the safe UI limits: the same position, and each size kept
/// where it lies within its limits (width 280..=1920, height 440..=1440) and set to the
/// nearer limit where it does not.
pub open spec fn limited_to_ui(g: WindowGeom, s: WindowGeom) -> bool {
    &&& s.x == g.x
    &&& s.y == g.y
    &&& (280 <= g.width <= 1920 ==> s.width == g.width)
    &&& (g.width < 280 ==> s.width == 280)
    &&& (g.width > 1920 ==> s.width == 1920)
    &&& (440 <= g.height <= 1440 ==> s.height == g.height)
    &&& (g.height < 440 ==> s.height == 440)
    &&& (g.height > 1440 ==> s.height == 1440)
}

fn clamp_size(v: u32, lo: u32, hi: u32) -> (r: u32)
    requires
        lo <= hi,
    ensures
        r == clamp_u32(v, lo, hi),
        lo <= v <= hi ==> r == v,
        v < lo ==> r == lo,
        v > hi ==> r == hi,
{
    if v < lo {
        lo
    } else if v > hi {
        hi
    } else {
        v
    }
}

/// The map that a list of entries stands for: later entries override earlier ones.
pub open spec fn entries_map(s: Seq<(String, WindowGeom)>) -> Map<Seq<char>, WindowGeom>
    decreases s.len(),
{
    if s.len() == 0 {
        Map::empty()
    } else {
        entries_map(s.drop_last()).insert(s.last().0@, s.last().1)
    }
}

/// The geometry `get(edge)` gives for the remembered map `m`: the edge's own geometry,
/// else the floating one (under "none"), else the fallback; its size then clamped.
pub open spec fn geom_for(m: Map<Seq<char>, WindowGeom>, edge: Seq<char>) -> WindowGeom {
    let g = if m.contains_key(edge) {
        m[edge]
    } else if m.contains_key("none"@) {
        m["none"@]
    } else {
        fallback_geom()
    };
    sanitized(g)
}

/// The geometries remembered per edge (the key "none" is the floating window).
pub struct GeomStore {
    entries: Vec<(String, WindowGeom)>,
}

impl View for GeomStore {
    type V = Map<Seq<char>, WindowGeom>;

    closed spec fn view(&self) -> Map<Seq<char>, WindowGeom> {
        entries_map(self.entries@)
    }
}

proof fn lemma_entries_lookup(s: Seq<(String, WindowGeom)>, k: Seq<char>, i: int)
    requires
        -1 <= i < s.len(),
        forall|j: int| i < j < s.len() ==> (#[trigger] s[j]).0@ != k,
        i >= 0 ==> s[i].0@ == k,
    ensures
        i >= 0 ==> entries_map(s).contains_key(k) && entries_map(s)[k] == s[i].1,
        i < 0 ==> !entries_map(s).contains_key(k),
    decreases s.len(),
{
    if s.len() > 0 {
        let t = s.drop_last();
        if i == s.len() - 1 {
        } else {
            assert(s[s.len() - 1].0@ != k);
            assert forall|j: int| i < j < t.len() implies (#[trigger] t[j]).0@ != k by {
                assert(t[j] == s[j]);
            }
            if i >= 0 {
                assert(t[i] == s[i]);
            }
            lemma_entries_lookup(t, k, i);
        }
    }
}

proof fn lemma_entries_update(s: Seq<(String, WindowGeom)>, i: int, e: (String, WindowGeom))
    requires
        0 <= i < s.len(),
        s[i].0@ == e.0@,
        forall|j: int| i < j < s.len() ==> (#[trigger] s[j]).0@ != e.0@,
    ensures
        entries_map(s.update(i, e)) == entries_map(s).insert(e.0@, e.1),
    decreases s.len(),
{
    let t = s.drop_last();
    if i == s.len() - 1 {
        assert(s.update(i, e).drop_last() =~= t);
        assert(entries_map(s.update(i, e)) =~= entries_map(s).insert(e.0@, e.1));
    } else {
        assert forall|j: int| i < j < t.len() implies (#[trigger] t[j]).0@ != e.0@ by {
            assert(t[j] == s[j]);
        }
        lemma_entries_update(t, i, e);
        assert(s.update(i, e).drop_last() =~= t.update(i, e));
        assert(s.update(i, e).last() == s.last());
        assert(s[s.len() - 1].0@ != e.0@);
        assert(entries_map(s.update(i, e)) =~= entries_map(s).insert(e.0@, e.1));
    }
}

impl GeomStore {
    /// The store over these entries (later entries override earlier ones with the same key).
    pub fn from_entries(entries: Vec<(String, WindowGeom)>) -> (st: GeomStore)
        ensures
            st@ == entries_map(entries@),
    {
        GeomStore { entries }
    }

    /// The stored entries; their map is the store's view.
    pub fn entries(&self) -> (r: &Vec<(String, WindowGeom)>)
        ensures
            entries_map(r@) == self@,
    {
        &self.entries
    }

    /// The map remembered when there is nothing else: the floating window at (200, 100), 390 x 720.
    pub fn default_map() -> (st: GeomStore)
        ensures
            st@ == Map::<Seq<char>, WindowGeom>::empty().insert("none"@, fallback_geom()),
    {
        let mut entries: Vec<(String, WindowGeom)> = Vec::new();
        let key = "none".to_owned();
        entries.push((key, WindowGeom { x: 200, y: 100, width: 390, height: 720 }));
        proof {
            assert(entries@.drop_last() =~= Seq::<(String, WindowGeom)>::empty());
            assert(entries_map(entries@.drop_last()) == Map::<Seq<char>, WindowGeom>::empty());
            assert(entries@.last().0@ == "none"@);
        }
        GeomStore { entries }
    }

    /// The index of the last entry with key `key`, if any.
    fn find(&self, key: &str) -> (r: Option<usize>)
        ensures
            match r {
                Some(i) => i < self.entries@.len() && self.entries@[i as int].0@ == key@
                    && forall|j: int| i < j < self.entries@.len() ==> (#[trigger] self.entries@[j]).0@ != key@,
                None => forall|j: int| 0 <= j < self.entries@.len() ==> (#[trigger] self.entries@[j]).0@ != key@,
            },
    {
        let n = self.entries.len();
        let mut i = n;
        while i > 0
            invariant
                i <= n == self.entries@.len(),
                forall|j: int| i <= j < n ==> (#[trigger] self.entries@[j]).0@ != key@,
            decreases i,
        {
            if str_eq(self.entries[i - 1].0.as_str(), key) {
                return Some(i - 1);
            }
            i = i - 1;
        }
        None
    }

    /// The geometry remembered under `key`, if any.
    pub fn lookup(&self, key: &str) -> (r: Option<WindowGeom>)
        ensures
            r == if self@.contains_key(key@) {
                Some(self@[key@])
            } else {
                None::<WindowGeom>
            },
    {
        match self.find(key) {
            Some(i) => {
                proof {
                    lemma_entries_lookup(self.entries@, key@, i as int);
                }
                Some(self.entries[i].1)
            },
            None => {
                proof {
                    lemma_entries_lookup(self.entries@, key@, -1);
                }
                None
            },
        }
    }

    /// The geometry for a dock edge: its own, else the floating one, else the fallback,
    /// with the size clamped to safe UI limits; signed coordinates are kept.
    pub fn get(&self, edge: &str) -> (g: WindowGeom)
        ensures
            g == geom_for(self@, edge@),
            self@.contains_key(edge@) ==> limited_to_ui(self@[edge@], g),
    {
        let g = match self.lookup(edge) {
            Some(g) => g,
            None => match self.lookup("none") {
                Some(g) => g,
                None => WindowGeom { x: 200, y: 100, width: 390, height: 720 },
            },
        };
        WindowGeom {
            x: g.x,
            y: g.y,
            width: clamp_size(g.width, 280, 1920),
            height: clamp_size(g.height, 440, 1440),
        }
    }

    /// Remembers the geometry for an edge, its size clamped; returns whether anything
    /// changed (an unchanged geometry needs no write).
    pub fn set(&mut self, edge: &str, geom: &WindowGeom) -> (changed: bool)
        ensures
            ({
                let s = sanitized(*geom);
                if old(self)@.contains_key(edge@) && old(self)@[edge@] == s {
                    !changed && final(self)@ == old(self)@
                } else {
                    changed && final(self)@ == old(self)@.insert(edge@, s)
                }
            }),
            final(self)@.contains_key(edge@) && limited_to_ui(*geom, final(self)@[edge@]),
            forall|k: Seq<char>| k != edge@ ==> #[trigger] final(self)@.contains_key(k) == old(self)@.contains_key(k),
            forall|k: Seq<char>| k != edge@ && old(self)@.contains_key(k) ==> #[trigger] final(self)@[k] == old(self)@[k],
    {
        let s = WindowGeom {
            x: geom.x,
            y: geom.y,
            width: clamp_size(geom.width, 280, 1920),
            height: clamp_size(geom.height, 440, 1440),
        };
        match self.find(edge) {
            Some(i) => {
                proof {
                    lemma_entries_lookup(self.entries@, edge@, i as int);
                }
                if self.entries[i].1 == s {
                    return false;
                }
                let key = self.entries[i].0.clone();
                proof {
                    lemma_entries_update(self.entries@, i as int, (key, s));
                }
                self.entries.set(i, (key, s));
                true
            },
            None => {
                proof {
                    lemma_entries_lookup(self.entries@, edge@, -1);
                }
                let ghost before = self.entries@;
                self.entries.push((edge.to_owned(), s));
                proof {
                    assert(self.entries@.drop_last() =~= before);
                }
                true
            },
        }
    }
}

/// The readable shapes of the geometry file: a map from edge name to geometry, or the
/// older single floating geometry.
pub enum GeomFile {
    Entries(Vec<(String, WindowGeom)>),
    Legacy(WindowGeom),
}

/// The map remembered by default.
pub open spec fn default_geom_map() -> Map<Seq<char>, WindowGeom> {
    Map::<Seq<char>, WindowGeom>::empty().insert("none"@, fallback_geom())
}

impl GeomStore {
    /// The store a geometry file gives: the map it holds; the older single geometry
    /// migrated to the floating entry (and the file rewritten); or, when the file is
    /// missing or unreadable, the default map written out, and when it is corrupt, the
    /// default map with the file backed up first.
    pub fn load_file(file: FileRead<GeomFile>) -> (r: Restored<GeomStore>)
        ensures
            match file {
                FileRead::Missing => r.value@ == default_geom_map() && !r.backup && r.rewrite,
                FileRead::Failed(_) => r.value@ == default_geom_map() && !r.backup && r.rewrite,
                FileRead::Unparsable => r.value@ == default_geom_map() && r.backup && r.rewrite,
                FileRead::Parsed(GeomFile::Entries(v)) => r.value@ == entries_map(v@) && !r.backup
                    && !r.rewrite,
                FileRead::Parsed(GeomFile::Legacy(g)) => r.value@ == Map::<
                    Seq<char>,
                    WindowGeom,
                >::empty().insert("none"@, g) && !r.backup && r.rewrite,
            },
    {
        match file {
            FileRead::Missing => Restored { value: GeomStore::default_map(), backup: false, rewrite: true },
            FileRead::Failed(_) => Restored { value: GeomStore::default_map(), backup: false, rewrite: true },
            FileRead::Unparsable => Restored { value: GeomStore::default_map(), backup: true, rewrite: true },
            FileRead::Parsed(GeomFile::Entries(v)) => Restored {
                value: GeomStore::from_entries(v),
                backup: false,
                rewrite: false,
            },
            FileRead::Parsed(GeomFile::Legacy(g)) => {
                let mut entries: Vec<(String, WindowGeom)> = Vec::new();
                let key = "none".to_owned();
                entries.push((key, g));
                proof {
                    assert(entries@.drop_last() =~= Seq::<(String, WindowGeom)>::empty());
                    assert(entries_map(entries@.drop_last()) == Map::<Seq<char>, WindowGeom>::empty());
                    assert(entries@.last().0@ == "none"@);
                }
                Restored { value: GeomStore::from_entries(entries), backup: false, rewrite: true }
            },
        }
    }
}

/// A read gives back what a write wrote: after `set(edge, g)`, `get(edge)` returns `g`
/// with its size clamped, and its signed position exactly.
pub proof fn lemma_geom_get_after_set(m: Map<Seq<char>, WindowGeom>, edge: Seq<char>, g: WindowGeom)
    ensures
        geom_for(m.insert(edge, sanitized(g)), edge) == sanitized(g),
        geom_for(m.insert(edge, sanitized(g)), edge).x == g.x,
        geom_for(m.insert(edge, sanitized(g)), edge).y == g.y,
{
}

/// Setting the same geometry twice changes nothing the second time: clamping is
/// idempotent, and after the first `set` the edge already holds the clamped geometry.
pub proof fn lemma_geom_set_idempotent(m: Map<Seq<char>, WindowGeom>, edge: Seq<char>, g: WindowGeom)
    ensures
        sanitized(sanitized(g)) == sanitized(g),
        ({
            let m2 = m.insert(edge, sanitized(g));
            m2.contains_key(edge) && m2[edge] == sanitized(g)
        }),
{
}

/// Every geometry `get` gives lies within the safe size limits.
pub proof fn lemma_geom_get_within_limits(m: Map<Seq<char>, WindowGeom>, edge: Seq<char>)
    ensures
        280 <= geom_for(m, edge).width <= 1920,
        440 <= geom_for(m, edge).height <= 1440,
{
}

/// A migrated single geometry is what the floating window (and any edge without its
/// own entry) gets.
pub proof fn lemma_geom_legacy_migration(g: WindowGeom, edge: Seq<char>)
    ensures
        geom_for(Map::<Seq<char>, WindowGeom>::empty().insert("none"@, g), "none"@) == sanitized(g),
        edge != "none"@ ==> geom_for(Map::<Seq<char>, WindowGeom>::empty().insert("none"@, g), edge)
            == sanitized(g),
{
}

/// Clamping keeps a size that is within the limits and moves any other to the nearer
/// limit; the position is never changed. So a geometry already within the limits is
/// kept exactly, and clamping never moves a size away from its limits' range.
pub proof fn lemma_sanitized_limits(g: WindowGeom)
    ensures
        limited_to_ui(g, sanitized(g)),
        280 <= g.width <= 1920 && 440 <= g.height <= 1440 ==> sanitized(g) == g,
{
}

/// A geometry within the limits reads back exactly as it was set: after `set(edge, g)`,
/// `get(edge)` returns `g`.
pub proof fn lemma_geom_in_range_roundtrip(m: Map<Seq<char>, WindowGeom>, edge: Seq<char>, g: WindowGeom)
    requires
        280 <= g.width <= 1920,
        440 <= g.height <= 1440,
    ensures
        geom_for(m.insert(edge, sanitized(g)), edge) == g,
{
    lemma_sanitized_limits(g);
}

} // verus!
