//! Persisted user preferences: always-on-top, refresh interval, theme, section
//! visibility, Mica backdrop and process sort key.
use vstd::prelude::*;
use crate::persist::{FileRead, Restored};
use crate::text::{concat_str, str_eq};

verus! {

/// The colour theme the user chose.
#[derive(Clone, Copy, Debug, PartialEq, Eq, Structural)]
pub enum ThemePreference {
    System,
    Dark,
    Light,
}

/// The key the process list is sorted by.
#[derive(Clone, Copy, Debug, PartialEq, Eq, Structural)]
pub enum ProcessSort {
    Cpu,
    Mem,
    Name,
}

/// The persisted name of a theme.
pub open spec fn theme_name(t: ThemePreference) -> Seq<char> {
    match t {
        ThemePreference::System => "system"@,
        ThemePreference::Dark => "dark"@,
        ThemePreference::Light => "light"@,
    }
}

/// The persisted name of a sort key.
pub open spec fn sort_name(k: ProcessSort) -> Seq<char> {
    match k {
        ProcessSort::Cpu => "cpu"@,
        ProcessSort::Mem => "mem"@,
        ProcessSort::Name => "name"@,
    }
}

/// The theme a lower-cased name stands for; unknown names mean the system theme.
pub open spec fn theme_from_lowercase(l: Seq<char>) -> ThemePreference {
    if l == "dark"@ {
        ThemePreference::Dark
    } else if l == "light"@ {
        ThemePreference::Light
    } else {
        ThemePreference::System
    }
}

/// The sort key a lower-cased name stands for; unknown names mean sorting by CPU.
pub open spec fn sort_from_lowercase(l: Seq<char>) -> ProcessSort {
    if l == "mem"@ {
        ProcessSort::Mem
    } else if l == "name"@ {
        ProcessSort::Name
    } else {
        ProcessSort::Cpu
    }
}

/// The Unicode lower-case form of a string, as std's `str::to_lowercase` computes it.
pub uninterp spec fn lowercase_of(s: Seq<char>) -> Seq<char>;

/// std's `str::to_lowercase`: the lower-case form of `s`, a function of `s` alone
/// (Unicode case mapping, which this contract names rather than states).
#[verifier::external_body]
fn to_lowercase(s: &str) -> (r: String)
    ensures
        r@ == lowercase_of(s@),
{
    s.to_lowercase()
}

impl ThemePreference {
    /// The theme's persisted name.
    pub fn as_str(&self) -> (s: &'static str)
        ensures
            s@ == theme_name(*self),
    {
        match self {
            ThemePreference::System => "system",
            ThemePreference::Dark => "dark",
            ThemePreference::Light => "light",
        }
    }

    /// The theme named by an already lower-cased name.
    pub fn from_lowercase(l: &str) -> (t: ThemePreference)
        ensures
            t == theme_from_lowercase(l@),
    {
        if str_eq(l, "dark") {
            ThemePreference::Dark
        } else if str_eq(l, "light") {
            ThemePreference::Light
        } else {
            ThemePreference::System
        }
    }

    /// Reads a stored theme leniently: a name is matched without regard to case, and a
    /// missing or unknown name means the system theme.
    pub fn from_lenient(name: Option<&str>) -> (t: ThemePreference)
        ensures
            t == match name {
                Some(s) => theme_from_lowercase(lowercase_of(s@)),
                None => ThemePreference::System,
            },
    {
        match name {
            Some(s) => {
                let l = to_lowercase(s);
                ThemePreference::from_lowercase(l.as_str())
            },
            None => ThemePreference::System,
        }
    }
}

impl Default for ThemePreference {
    fn default() -> (t: Self)
        ensures
            t == ThemePreference::System,
    {
        ThemePreference::System
    }
}

impl ProcessSort {
    /// The sort key's persisted name.
    pub fn as_str(&self) -> (s: &'static str)
        ensures
            s@ == sort_name(*self),
    {
        match self {
            ProcessSort::Cpu => "cpu",
            ProcessSort::Mem => "mem",
            ProcessSort::Name => "name",
        }
    }

    /// The sort key named by an already lower-cased name.
    pub fn from_lowercase(l: &str) -> (k: ProcessSort)
        ensures
            k == sort_from_lowercase(l@),
    {
        if str_eq(l, "mem") {
            ProcessSort::Mem
        } else if str_eq(l, "name") {
            ProcessSort::Name
        } else {
            ProcessSort::Cpu
        }
    }

    /// Reads a stored sort key leniently: a name is matched without regard to case, and
    /// a missing or unknown name means sorting by CPU.
    pub fn from_lenient(name: Option<&str>) -> (k: ProcessSort)
        ensures
            k == match name {
                Some(s) => sort_from_lowercase(lowercase_of(s@)),
                None => ProcessSort::Cpu,
            },
    {
        match name {
            Some(s) => {
                let l = to_lowercase(s);
                ProcessSort::from_lowercase(l.as_str())
            },
            None => ProcessSort::Cpu,
        }
    }
}

impl Default for ProcessSort {
    fn default() -> (k: Self)
        ensures
            k == ProcessSort::Cpu,
    {
        ProcessSort::Cpu
    }
}

/// The user's preferences.
#[derive(Clone, Copy, Debug, PartialEq, Eq, Structural)]
pub struct Settings {
    pub always_on_top: bool,
    /// Refresh interval in milliseconds (normalized into 1000..=10000).
    pub refresh_ms: u64,
    pub theme: ThemePreference,
    pub show_disks: bool,
    pub show_processes: bool,
    pub show_notes: bool,
    pub show_actions: bool,
    /// Use the Windows 11 Mica backdrop for the window.
    pub mica_enabled: bool,
    /// Last process sort key.
    pub sort_key: ProcessSort,
}

/// The preferences used when none are saved.
pub open spec fn default_settings() -> Settings {
    Settings {
        always_on_top: true,
        refresh_ms: 2000,
        theme: ThemePreference::System,
        show_disks: true,
        show_processes: true,
        show_notes: true,
        show_actions: true,
        mica_enabled: true,
        sort_key: ProcessSort::Cpu,
    }
}

/// `v` clamped into `lo..=hi`.
pub open spec fn clamp_spec(v: int, lo: int, hi: int) -> int {
    if v < lo {
        lo
    } else if v > hi {
        hi
    } else {
        v
    }
}

/// The preferences with the refresh interval clamped into 1000..=10000 ms.
pub open spec fn normalized(s: Settings) -> Settings {
    Settings { refresh_ms: clamp_spec(s.refresh_ms as int, 1000, 10_000) as u64, ..s }
}

impl Default for Settings {
    fn default() -> (s: Self)
        ensures
            s == default_settings(),
    {
        Settings {
            always_on_top: true,
            refresh_ms: 2000,
            theme: ThemePreference::System,
            show_disks: true,
            show_processes: true,
            show_notes: true,
            show_actions: true,
            mica_enabled: true,
            sort_key: ProcessSort::Cpu,
        }
    }
}

impl Settings {
    /// Brings every value into its safe operating range.
    pub fn normalize(self) -> (s: Self)
        ensures
            s == normalized(self),
    {
        let mut s = self;
        if s.refresh_ms < 1000 {
            s.refresh_ms = 1000;
        } else if s.refresh_ms > 10_000 {
            s.refresh_ms = 10_000;
        }
        s
    }
}

/// A partial update: each key that is `Some` replaces the stored value.
#[derive(Clone, Copy, Debug)]
pub struct SettingsPatch {
    pub always_on_top: Option<bool>,
    pub refresh_ms: Option<u64>,
    pub theme: Option<ThemePreference>,
    pub show_disks: Option<bool>,
    pub show_processes: Option<bool>,
    pub show_notes: Option<bool>,
    pub show_actions: Option<bool>,
    pub mica_enabled: Option<bool>,
    pub sort_key: Option<ProcessSort>,
}

impl Default for SettingsPatch {
    fn default() -> (p: Self)
        ensures
            p == empty_patch(),
    {
        SettingsPatch {
            always_on_top: None,
            refresh_ms: None,
            theme: None,
            show_disks: None,
            show_processes: None,
            show_notes: None,
            show_actions: None,
            mica_enabled: None,
            sort_key: None,
        }
    }
}

/// The patch that changes nothing.
pub open spec fn empty_patch() -> SettingsPatch {
    SettingsPatch {
        always_on_top: None,
        refresh_ms: None,
        theme: None,
        show_disks: None,
        show_processes: None,
        show_notes: None,
        show_actions: None,
        mica_enabled: None,
        sort_key: None,
    }
}

/// `o`'s value when it has one, else `d`.
pub open spec fn or_keep<T>(o: Option<T>, d: T) -> T {
    match o {
        Some(v) => v,
        None => d,
    }
}

/// `s` with every key that `p` provides replaced.
pub open spec fn apply_patch(s: Settings, p: SettingsPatch) -> Settings {
    Settings {
        always_on_top: or_keep(p.always_on_top, s.always_on_top),
        refresh_ms: or_keep(p.refresh_ms, s.refresh_ms),
        theme: or_keep(p.theme, s.theme),
        show_disks: or_keep(p.show_disks, s.show_disks),
        show_processes: or_keep(p.show_processes, s.show_processes),
        show_notes: or_keep(p.show_notes, s.show_notes),
        show_actions: or_keep(p.show_actions, s.show_actions),
        mica_enabled: or_keep(p.mica_enabled, s.mica_enabled),
        sort_key: or_keep(p.sort_key, s.sort_key),
    }
}

/// Whether `s` is what a patch makes of `cache`, key by key: each key that `p` provides
/// holds the provided value, each key that it omits holds the cached value, and the
/// refresh interval so chosen is then clamped into 1000..=10000 ms.
pub open spec fn takes_patch(cache: Settings, p: SettingsPatch, s: Settings) -> bool {
    &&& (p.always_on_top matches Some(v) ==> s.always_on_top == v)
    &&& (p.always_on_top is None ==> s.always_on_top == cache.always_on_top)
    &&& (p.theme matches Some(v) ==> s.theme == v)
    &&& (p.theme is None ==> s.theme == cache.theme)
    &&& (p.show_disks matches Some(v) ==> s.show_disks == v)
    &&& (p.show_disks is None ==> s.show_disks == cache.show_disks)
    &&& (p.show_processes matches Some(v) ==> s.show_processes == v)
    &&& (p.show_processes is None ==> s.show_processes == cache.show_processes)
    &&& (p.show_notes matches Some(v) ==> s.show_notes == v)
    &&& (p.show_notes is None ==> s.show_notes == cache.show_notes)
    &&& (p.show_actions matches Some(v) ==> s.show_actions == v)
    &&& (p.show_actions is None ==> s.show_actions == cache.show_actions)
    &&& (p.mica_enabled matches Some(v) ==> s.mica_enabled == v)
    &&& (p.mica_enabled is None ==> s.mica_enabled == cache.mica_enabled)
    &&& (p.sort_key matches Some(v) ==> s.sort_key == v)
    &&& (p.sort_key is None ==> s.sort_key == cache.sort_key)
    &&& ({
        let r = match p.refresh_ms {
            Some(v) => v,
            None => cache.refresh_ms,
        };
        &&& (1000 <= r <= 10_000 ==> s.refresh_ms == r)
        &&& (r < 1000 ==> s.refresh_ms == 1000)
        &&& (r > 10_000 ==> s.refresh_ms == 10_000)
    })
}

/// `o`'s value when it has one, else `d`.
fn pick<T: Copy>(o: Option<T>, d: T) -> (r: T)
    ensures
        r == or_keep(o, d),
{
    match o {
        Some(v) => v,
        None => d,
    }
}

/// The settings store: the preferences in effect, as loaded from and saved to its file.
pub struct SettingsStore {
    pub cache: Settings,
}

/// What loading the settings file gives: the saved preferences normalized (rewriting
/// the file when normalizing changed them), the defaults when there is no file, the
/// defaults with a backup and rewrite when the file is corrupt, or an error when the
/// file could not be read.
pub open spec fn spec_settings_load(file: FileRead<Settings>) -> Result<Restored<Settings>, Seq<char>> {
    match file {
        FileRead::Missing => Ok(Restored { value: default_settings(), backup: false, rewrite: false }),
        FileRead::Failed(e) => Err("read: "@ + e@),
        FileRead::Unparsable => Ok(Restored { value: default_settings(), backup: true, rewrite: true }),
        FileRead::Parsed(s) => Ok(
            Restored { value: normalized(s), backup: false, rewrite: normalized(s) != s },
        ),
    }
}

impl SettingsStore {
    /// Decides what loading the settings file gives, and which repairs it needs.
    pub fn load(file: &FileRead<Settings>) -> (r: Result<Restored<Settings>, String>)
        ensures
            match (r, spec_settings_load(*file)) {
                (Ok(a), Ok(b)) => a == b,
                (Err(a), Err(b)) => a@ == b,
                _ => false,
            },
    {
        match file {
            FileRead::Missing => Ok(Restored { value: Settings::default(), backup: false, rewrite: false }),
            FileRead::Failed(e) => Err(concat_str("read: ", e.as_str())),
            FileRead::Unparsable => Ok(Restored { value: Settings::default(), backup: true, rewrite: true }),
            FileRead::Parsed(s) => {
                let n = s.normalize();
                let changed = n != *s;
                Ok(Restored { value: n, backup: false, rewrite: changed })
            },
        }
    }

    /// The preferences in effect.
    pub fn get(&self) -> (s: Settings)
        ensures
            s == self.cache,
    {
        self.cache
    }

    /// The preferences that `update(patch, ..)` saves: the provided keys replaced, then normalized.
    pub fn patched(&self, patch: &SettingsPatch) -> (s: Settings)
        ensures
            s == normalized(apply_patch(self.cache, *patch)),
            takes_patch(self.cache, *patch, s),
    {
        let c = self.cache;
        let s = Settings {
            always_on_top: pick(patch.always_on_top, c.always_on_top),
            refresh_ms: pick(patch.refresh_ms, c.refresh_ms),
            theme: pick(patch.theme, c.theme),
            show_disks: pick(patch.show_disks, c.show_disks),
            show_processes: pick(patch.show_processes, c.show_processes),
            show_notes: pick(patch.show_notes, c.show_notes),
            show_actions: pick(patch.show_actions, c.show_actions),
            mica_enabled: pick(patch.mica_enabled, c.mica_enabled),
            sort_key: pick(patch.sort_key, c.sort_key),
        };
        s.normalize()
    }

    /// Merges a partial update, given the outcome of saving `self.patched(&patch)`:
    /// when the save succeeded the merged preferences take effect and are returned;
    /// when it failed the preferences stay as they were and the error is returned.
    pub fn update(&mut self, patch: SettingsPatch, saved: Result<(), String>) -> (r: Result<Settings, String>)
        ensures
            match saved {
                Ok(_) => r == Ok::<Settings, String>(normalized(apply_patch(old(self).cache, patch)))
                    && final(self).cache == normalized(apply_patch(old(self).cache, patch)),
                Err(e) => r == Err::<Settings, String>(e) && final(self).cache == old(self).cache,
            },
            saved is Ok ==> takes_patch(old(self).cache, patch, final(self).cache),
    {
        let s = self.patched(&patch);
        match saved {
            Ok(_) => {
                self.cache = s;
                Ok(s)
            },
            Err(e) => Err(e),
        }
    }
}

/// Normalizing is idempotent, keeps every other preference, and puts the refresh
/// interval into 1000..=10000 ms.
pub proof fn lemma_normalize(s: Settings)
    ensures
        normalized(normalized(s)) == normalized(s),
        1000 <= normalized(s).refresh_ms <= 10_000,
        normalized(s) == (Settings { refresh_ms: normalized(s).refresh_ms, ..s }),
        1000 <= s.refresh_ms <= 10_000 ==> normalized(s) == s,
{
}

/// Whatever the file held, the loaded preferences are normalized, and once the file
/// has been rewritten as asked, loading it again gives the same preferences with no repair.
pub proof fn lemma_settings_load_stable(file: FileRead<Settings>)
    ensures
        spec_settings_load(file) matches Ok(r) ==> {
            &&& normalized(r.value) == r.value
            &&& spec_settings_load(FileRead::Parsed(r.value)) == Ok::<Restored<Settings>, Seq<char>>(
                Restored { value: r.value, backup: false, rewrite: false },
            )
        },
{
}

/// An update that was saved takes effect: `get` then returns what `update` returned,
/// and that value reloads from the file unchanged.
pub proof fn lemma_update_then_get(cache: Settings, patch: SettingsPatch)
    ensures
        ({
            let s = normalized(apply_patch(cache, patch));
            spec_settings_load(FileRead::Parsed(s)) == Ok::<Restored<Settings>, Seq<char>>(
                Restored { value: s, backup: false, rewrite: false },
            )
        }),
{
}

/// A patch replaces exactly the keys it provides: every provided key takes the provided
/// value (the refresh interval clamped into 1000..=10000 ms), and every omitted key keeps
/// the cached value.
pub proof fn lemma_patch_replaces_given_keys(cache: Settings, p: SettingsPatch)
    ensures
        takes_patch(cache, p, normalized(apply_patch(cache, p))),
{
}

/// An empty patch leaves normalized preferences unchanged.
pub proof fn lemma_empty_patch(cache: Settings)
    requires
        normalized(cache) == cache,
    ensures
        normalized(apply_patch(cache, empty_patch())) == cache,
{
}

/// A theme's and a sort key's persisted names read back as the same theme and sort key.
pub proof fn lemma_names_roundtrip(t: ThemePreference, k: ProcessSort)
    ensures
        theme_from_lowercase(theme_name(t)) == t,
        sort_from_lowercase(sort_name(k)) == k,
{
    reveal_strlit("system");
    reveal_strlit("dark");
    reveal_strlit("light");
    reveal_strlit("cpu");
    reveal_strlit("mem");
    reveal_strlit("name");
    assert("system"@ != "dark"@ && "system"@ != "light"@ && "dark"@ != "light"@) by {
        assert("system"@[0] != "dark"@[0] && "system"@[0] != "light"@[0] && "dark"@[0] != "light"@[0]);
    }
    assert("cpu"@ != "mem"@ && "cpu"@ != "name"@ && "mem"@ != "name"@) by {
        assert("cpu"@[0] != "mem"@[0] && "cpu"@[0] != "name"@[0] && "mem"@[0] != "name"@[0]);
    }
}

} // verus!
