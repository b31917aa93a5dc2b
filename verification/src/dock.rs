//! The dock configuration: which edge the window is docked to, and its persisted settings.
use vstd::prelude::*;
use crate::text::{str_eq, concat_str};
use crate::persist::{FileRead, Restored};

verus! {

/// Which screen edge the main window is docked to, if any.
#[derive(Clone, Copy, PartialEq, Eq, Debug, Structural)]
pub enum DockEdge {
    /// Not docked: the window floats freely.
    Floating,
    Left,
    Right,
}

/// The persisted name of an edge.
pub open spec fn edge_name(e: DockEdge) -> Seq<char> {
    match e {
        DockEdge::Left => "left"@,
        DockEdge::Right => "right"@,
        DockEdge::Floating => "none"@,
    }
}

/// The edge a persisted name stands for; unknown names mean no docking.
pub open spec fn edge_from_name(s: Seq<char>) -> DockEdge {
    if s == "left"@ {
        DockEdge::Left
    } else if s == "right"@ {
        DockEdge::Right
    } else {
        DockEdge::Floating
    }
}

impl DockEdge {
    /// Parses an edge name; anything other than "left" or "right" means not docked.
    pub fn from_str(s: &str) -> (e: DockEdge)
        ensures
            e == edge_from_name(s@),
    {
        if str_eq(s, "left") {
            DockEdge::Left
        } else if str_eq(s, "right") {
            DockEdge::Right
        } else {
            DockEdge::Floating
        }
    }

    /// The edge's persisted name.
    pub fn as_str(&self) -> (s: &'static str)
        ensures
            s@ == edge_name(*self),
    {
        match self {
            DockEdge::Left => "left",
            DockEdge::Right => "right",
            DockEdge::Floating => "none",
        }
    }
}

/// Parsing the name of an edge gives the edge back.
pub proof fn lemma_edge_name_roundtrip(e: DockEdge)
    ensures
        edge_from_name(edge_name(e)) == e,
{
    reveal_strlit("left");
    reveal_strlit("right");
    reveal_strlit("none");
    assert("left"@ != "right"@) by {
        assert("left"@[0] != "right"@[0]);
    }
    assert("none"@ != "left"@) by {
        assert("none"@[0] != "left"@[0]);
    }
    assert("none"@ != "right"@) by {
        assert("none"@[0] != "right"@[0]);
    }
}


/// The dock settings persisted between runs.
#[derive(Clone, Copy, PartialEq, Eq, Debug, Structural)]
pub struct DockConfig {
    pub edge: DockEdge,
    pub width: u32,
    pub always_on_top: bool,
}

/// The configuration used when none has been saved: floating, 390 px wide, always on top.
pub open spec fn default_dock_config() -> DockConfig {
    DockConfig { edge: DockEdge::Floating, width: 390, always_on_top: true }
}

impl Default for DockConfig {
    fn default() -> (cfg: Self)
        ensures
            cfg == default_dock_config(),
    {
        DockConfig { edge: DockEdge::Floating, width: 390, always_on_top: true }
    }
}

impl DockConfig {
    /// The width of the docked window: the configured width clamped into 280..=640.
    pub fn docked_width(&self) -> (w: u32)
        ensures
            w == (if self.width < 280 {
                280
            } else if self.width > 640 {
                640
            } else {
                self.width
            }),
    {
        if self.width < 280 {
            280
        } else if self.width > 640 {
            640
        } else {
            self.width
        }
    }
}

/// The dock store: its view of the dock file, as last read or written.
pub struct DockStore {
    pub file: FileRead<DockConfig>,
}

/// What loading the dock file gives: the saved configuration, the default when
/// there is no file, the default with a repair when the file is corrupt, or an
/// error when the file could not be read.
pub open spec fn spec_dock_load(file: FileRead<DockConfig>) -> Result<Restored<DockConfig>, Seq<char>> {
    match file {
        FileRead::Missing => Ok(Restored { value: default_dock_config(), backup: false, rewrite: false }),
        FileRead::Failed(e) => Err("read: "@ + e@),
        FileRead::Unparsable => Ok(Restored { value: default_dock_config(), backup: true, rewrite: true }),
        FileRead::Parsed(cfg) => Ok(Restored { value: cfg, backup: false, rewrite: false }),
    }
}

/// What `get` gives: the loaded configuration, or the default without any repair when loading failed.
pub open spec fn spec_dock_get(file: FileRead<DockConfig>) -> Restored<DockConfig> {
    match spec_dock_load(file) {
        Ok(r) => r,
        Err(_) => Restored { value: default_dock_config(), backup: false, rewrite: false },
    }
}

impl DockStore {
    /// Loads the configuration from the file, deciding on repairs of a corrupt file.
    pub fn load(&self) -> (r: Result<Restored<DockConfig>, String>)
        ensures
            match (r, spec_dock_load(self.file)) {
                (Ok(a), Ok(b)) => a == b,
                (Err(a), Err(b)) => a@ == b,
                _ => false,
            },
    {
        match &self.file {
            FileRead::Missing => Ok(Restored { value: DockConfig::default(), backup: false, rewrite: false }),
            FileRead::Failed(e) => Err(concat_str("read: ", e.as_str())),
            FileRead::Unparsable => Ok(Restored { value: DockConfig::default(), backup: true, rewrite: true }),
            FileRead::Parsed(cfg) => Ok(Restored { value: *cfg, backup: false, rewrite: false }),
        }
    }

    /// The current configuration; when the file cannot be read, the default.
    pub fn get(&self) -> (r: Restored<DockConfig>)
        ensures
            r == spec_dock_get(self.file),
    {
        match self.load() {
            Ok(r) => r,
            Err(_) => Restored { value: DockConfig::default(), backup: false, rewrite: false },
        }
    }

    /// Records that `cfg` was written to the dock file.
    pub fn set(&mut self, cfg: &DockConfig)
        ensures
            final(self).file == FileRead::Parsed(*cfg),
    {
        self.file = FileRead::Parsed(*cfg);
    }
}

/// A read gives back what a write wrote: after `set(cfg)`, `get` returns `cfg` and asks for no repair.
pub proof fn lemma_dock_get_after_set(cfg: DockConfig)
    ensures
        spec_dock_get(FileRead::Parsed(cfg)) == (Restored { value: cfg, backup: false, rewrite: false }),
{
}

/// Repairing is stable: once a repair has rewritten the file with the restored value,
/// loading it again gives the same value and asks for no further repair.
pub proof fn lemma_dock_repair_is_stable(file: FileRead<DockConfig>)
    ensures
        spec_dock_get(file).rewrite ==> spec_dock_get(FileRead::Parsed(spec_dock_get(file).value))
            == (Restored { value: spec_dock_get(file).value, backup: false, rewrite: false }),
{
}

} // verus!
