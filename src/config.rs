//! The daemon's tunable intervals.
use vstd::prelude::*;
use vstd::string::*;

verus! {

/// The shortest liveness-poll period, in seconds.
pub const MIN_POLL_INTERVAL: u64 = 10;

/// The shortest duration-accrual period, in seconds.
pub const MIN_DURATION_UPDATE_INTERVAL: u64 = 1;

/// The shortest autosave period, in seconds.
pub const MIN_AUTOSAVE_INTERVAL: u64 = 60;

/// The three intervals, in seconds.
#[derive(Debug, Clone, Copy, PartialEq, Eq, Structural)]
pub struct Config {
    pub poll_interval: u64,
    pub duration_update_interval: u64,
    pub autosave_interval: u64,
}

impl Config {
    /// Whether every interval is at least its minimum.
    pub open spec fn is_valid(&self) -> bool {
        &&& self.poll_interval >= MIN_POLL_INTERVAL
        &&& self.duration_update_interval >= MIN_DURATION_UPDATE_INTERVAL
        &&& self.autosave_interval >= MIN_AUTOSAVE_INTERVAL
    }

    /// Accepts a configuration read from disk only when every interval is at
    /// least its minimum.
    pub fn validate(self) -> (r: Result<Config, String>)
        ensures
            r is Ok <==> self.is_valid(),
            r matches Ok(c) ==> c == self,
            r matches Err(e) ==> e@ == "invalid config interval"@,
    {
        if self.poll_interval < MIN_POLL_INTERVAL || self.duration_update_interval
            < MIN_DURATION_UPDATE_INTERVAL || self.autosave_interval < MIN_AUTOSAVE_INTERVAL {
            Err(String::from_str("invalid config interval"))
        } else {
            Ok(self)
        }
    }
}

impl Default for Config {
    fn default() -> (r: Config)
        ensures
            r.poll_interval == 15,
            r.duration_update_interval == 10,
            r.autosave_interval == 300,
            r.is_valid(),
    {
        Config { poll_interval: 15, duration_update_interval: 10, autosave_interval: 300 }
    }
}

} // verus!
