//! The commands a front-end sends to the daemon.
use vstd::prelude::*;

verus! {

/// Show processes, all of them or those of an ID-set expression.
#[derive(Debug)]
pub struct View {
    pub ids: Option<String>,
    pub debug: bool,
}

/// Start tracking a process, optionally with its fields set.
#[derive(Debug)]
pub struct Add {
    pub name: String,
    pub icon: Option<String>,
    pub duration: Option<String>,
    pub notes: Option<String>,
    pub added_date: Option<String>,
}

/// Stop tracking the process with this ID.
#[derive(Debug)]
pub struct Remove {
    pub id: usize,
}

/// New values for the daemon's intervals; an absent one is left as it is.
#[derive(Debug)]
pub struct Config {
    pub poll_interval: Option<u64>,
    pub duration_update_interval: Option<u64>,
    pub autosave_interval: Option<u64>,
}

/// Change fields of the process with this ID.
#[derive(Debug)]
pub struct Change {
    pub id: usize,
    pub tracking: Option<bool>,
    pub icon: Option<String>,
    pub duration: Option<String>,
    pub notes: Option<String>,
    pub added_date: Option<String>,
}

/// Add seconds to, or take them from, a process's duration.
#[derive(Debug)]
pub struct Duration {
    pub id: usize,
    pub operation: DurationCalculation,
}

/// Write processes to a file, all of them or those of an ID-set expression.
#[derive(Debug)]
pub struct Export {
    pub path: String,
    pub ids: Option<String>,
}

/// Read processes from a file, in the current or the legacy format.
#[derive(Debug)]
pub struct Import {
    pub path: String,
    pub legacy: bool,
}

/// Move the process with this ID.
#[derive(Debug)]
pub struct Move {
    pub id: usize,
    pub direction: MoveDirection,
}

/// How a duration changes.
#[derive(Debug, Clone, Copy, PartialEq, Eq, Structural)]
pub enum DurationCalculation {
    Add { seconds: u64 },
    Subtract { seconds: u64 },
}

/// Where a process moves in the registry.
#[derive(Debug, Clone, Copy, PartialEq, Eq, Structural)]
pub enum MoveDirection {
    Up,
    Down,
    Top,
    Bottom,
}

/// Every command of the protocol.
#[derive(Debug)]
pub enum Commands {
    Launch,
    View(View),
    Processes,
    Settings,
    Add(Add),
    Remove(Remove),
    Option(Config),
    Change(Change),
    Duration(Duration),
    Export(Export),
    Import(Import),
    Move(Move),
    Quit,
}

} // verus!
