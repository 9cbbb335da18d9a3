//! One handler per command: each reads or changes the state it is given and
//! answers with a message or an error.
use vstd::prelude::*;
use vstd::string::*;

use crate::commands;
use crate::config::Config;
use crate::datetime::{date_accepted, date_error, date_of, epoch, epoch_datetime, local_now, parse_datetime};
use crate::duration::{duration_error, duration_value, string_to_duration};
use crate::legacy_process::{all_legacy_dates_ok, first_bad_record, legacy_error, LegacyProcesses};
use crate::ids::{expression_bounds, expression_error, in_ranges, parse_range, strictly_ascending};
use crate::process::{has_name, names_unique, Process, Processes};
use crate::text::{append_decimal, decimal, texts};

verus! {

/// `prefix` followed by the decimal text of `n`.
fn text_with_number(prefix: &str, n: u64) -> (r: String)
    ensures
        r@ == prefix@ + decimal(n as nat),
{
    let mut s = String::from_str(prefix);
    append_decimal(&mut s, n);
    s
}

/// `a` followed by `b`.
fn joined(a: &str, b: &str) -> (r: String)
    ensures
        r@ == a@ + b@,
{
    let mut s = String::from_str(a);
    s.append(b);
    s
}

/// The registry after moving the entry at `from` to position `to`.
pub open spec fn moved(s: Seq<Process>, from: int, to: int) -> Seq<Process> {
    s.remove(from).insert(to, s[from])
}

/// Where a move sends the entry at `id` in a registry of `n` entries.
pub open spec fn move_target(direction: commands::MoveDirection, id: int, n: int) -> int {
    match direction {
        commands::MoveDirection::Up => id - 1,
        commands::MoveDirection::Down => id + 1,
        commands::MoveDirection::Top => 0,
        commands::MoveDirection::Bottom => n - 1,
    }
}

/// Whether a move goes towards the top.
pub open spec fn moves_up(direction: commands::MoveDirection) -> bool {
    direction is Up || direction is Top
}

/// The message a refused move gets, or `None` when the move is carried out.
pub open spec fn move_error(s: Seq<Process>, move_cmd: commands::Move) -> Option<Seq<char>> {
    let id = move_cmd.id as int;
    if s.len() == 0 {
        Some("no processes to move"@)
    } else if s.len() == 1 {
        Some("cannot move only one process"@)
    } else if id >= s.len() {
        Some("no process with id "@ + decimal(id as nat))
    } else if moves_up(move_cmd.direction) && id == 0 {
        Some(s[id].name@ + " already at top"@)
    } else if !moves_up(move_cmd.direction) && id == s.len() - 1 {
        Some(s[id].name@ + " already at bottom"@)
    } else {
        None
    }
}

/// Whether `v` lists, by ascending ID, exactly the processes of `s` whose
/// IDs lie in the ranges `rs`, each with its ID.
pub open spec fn is_selection(v: Seq<(usize, Process)>, s: Seq<Process>, rs: Seq<(int, int)>) -> bool {
    &&& forall|i: int, j: int| 0 <= i < j < v.len() ==> (#[trigger] v[i]).0 < (#[trigger] v[j]).0
    &&& forall|k: int| 0 <= k < v.len() ==> (#[trigger] v[k]).0 < s.len() && v[k].1 == s[v[k].0 as int]
    &&& forall|i: int|
        0 <= i < s.len() ==> (in_ranges(rs, i) <==> exists|k: int| 0 <= k < v.len() && (#[trigger] v[k]).0 == i)
}

/// The processes to show or export: all of them, each with its ID, or those
/// whose IDs the expression `ids` names.
pub fn get_processes(ids: Option<String>, processes: &Processes) -> (r: Result<Vec<(usize, Process)>, String>)
    ensures
        ids is None ==> (r matches Ok(v) && v@.len() == processes@.len() && forall|k: int|
            0 <= k < v@.len() ==> #[trigger] v@[k] == (k as usize, processes@[k])),
        ids matches Some(s) ==> (r is Ok <==> expression_bounds(s@) is Some),
        ids matches Some(s) ==> (r matches Err(e) ==> e@ == "invalid range "@ + s@ + " -> "@
            + expression_error(s@)->Some_0),
        ids matches Some(s) ==> (r matches Ok(v) ==> is_selection(
            v@,
            processes@,
            expression_bounds(s@)->Some_0,
        )),
{
    let n = processes.0.len();
    let mut out: Vec<(usize, Process)> = Vec::new();
    match ids {
        None => {
            let mut i: usize = 0;
            while i < n
                invariant
                    n == processes@.len(),
                    i <= n,
                    out@.len() == i,
                    forall|k: int| 0 <= k < i ==> #[trigger] out@[k] == (k as usize, processes@[k]),
                decreases n - i,
            {
                out.push((i, processes.0[i].cloned()));
                i = i + 1;
            }
            Ok(out)
        },
        Some(s) => {
            let list = match parse_range(s.as_str()) {
                Ok(list) => list,
                Err(e) => {
                    let mut m = joined("invalid range ", s.as_str());
                    m.append(" -> ");
                    m.append(e.as_str());
                    return Err(m);
                },
            };
            let ghost rs = expression_bounds(s@)->Some_0;
            let mut j: usize = 0;
            while j < list.len()
                invariant
                    n == processes@.len(),
                    j <= list.len(),
                    strictly_ascending(list@),
                    forall|x: usize| list@.contains(x) <==> in_ranges(rs, x as int),
                    forall|a: int, b: int| 0 <= a < b < out@.len() ==> (#[trigger] out@[a]).0 < (#[trigger] out@[b]).0,
                    forall|k: int| 0 <= k < out@.len() ==> (#[trigger] out@[k]).0 < n && out@[k].1 == processes@[out@[k].0 as int],
                    forall|k: int| 0 <= k < out@.len() ==> exists|m: int| 0 <= m < j && list@[m] == (#[trigger] out@[k]).0,
                    forall|m: int| 0 <= m < j && list@[m] < n ==> exists|k: int| 0 <= k < out@.len() && (#[trigger] out@[k]).0 == list@[m],
                decreases list.len() - j,
            {
                let id = list[j];
                if id < n {
                    proof {
                        assert forall|k: int| 0 <= k < out@.len() implies (#[trigger] out@[k]).0 < id by {
                            let m = choose|m: int| 0 <= m < j && list@[m] == out@[k].0;
                        }
                    }
                    let ghost before = out@;
                    out.push((id, processes.0[id].cloned()));
                    proof {
                        assert forall|k: int| 0 <= k < out@.len() implies exists|m: int| 0 <= m < j + 1 && list@[m] == (#[trigger] out@[k]).0 by {
                            if k < before.len() {
                                assert(out@[k] == before[k]);
                                let m = choose|m: int| 0 <= m < j && list@[m] == before[k].0;
                            } else {
                                assert(list@[j as int] == out@[k].0);
                            }
                        }
                        assert forall|m: int| 0 <= m < j + 1 && list@[m] < n implies exists|k: int| 0 <= k < out@.len() && (#[trigger] out@[k]).0 == list@[m] by {
                            if m < j {
                                let k = choose|k: int| 0 <= k < before.len() && (#[trigger] before[k]).0 == list@[m];
                                assert(out@[k] == before[k]);
                            } else {
                                assert(out@[before.len() as int].0 == list@[m]);
                            }
                        }
                    }
                }
                j = j + 1;
            }
            proof {
                assert forall|i: int| 0 <= i < n implies (in_ranges(rs, i) <==> exists|k: int| 0 <= k < out@.len() && (#[trigger] out@[k]).0 == i) by {
                    if in_ranges(rs, i) {
                        assert(list@.contains(i as usize));
                        let m = choose|m: int| 0 <= m < list@.len() && list@[m] == i as usize;
                    }
                    if exists|k: int| 0 <= k < out@.len() && (#[trigger] out@[k]).0 == i {
                        let k = choose|k: int| 0 <= k < out@.len() && (#[trigger] out@[k]).0 == i;
                        let m = choose|m: int| 0 <= m < j && list@[m] == out@[k].0;
                        assert(list@.contains(i as usize));
                    }
                }
            }
            Ok(out)
        },
    }
}

/// The current intervals.
pub fn get_settings(config: &Config) -> (r: Config)
    ensures
        r == *config,
{
    *config
}

/// Removes the process with ID `id`.
pub fn remove_processes(id: usize, processes: &mut Processes) -> (r: Result<String, String>)
    ensures
        old(processes)@.len() == 0 ==> (r matches Err(e) && e@ == "no processes to remove"@),
        0 < old(processes)@.len() <= id ==> (r matches Err(e) && e@ == "no process with id "@
            + decimal(id as nat)),
        r is Err ==> final(processes)@ == old(processes)@,
        id < old(processes)@.len() ==> (r matches Ok(m) && m@ == "removed "@ + old(
            processes,
        )@[id as int].name@ && final(processes)@ == old(processes)@.remove(id as int)),
{
    if processes.0.len() == 0 {
        return Err(String::from_str("no processes to remove"));
    }
    if id >= processes.0.len() {
        return Err(text_with_number("no process with id ", id as u64));
    }
    let removed = processes.0.remove(id);
    Ok(joined("removed ", removed.name.as_str()))
}

/// Sets the intervals that the command supplies; the others stay.
pub fn change_config(config_cmd: commands::Config, config: &mut Config) -> (r: Result<String, String>)
    ensures
        (r matches Ok(m) && m@ == "changed config"@),
        final(config).poll_interval == match config_cmd.poll_interval {
            Some(v) => v,
            None => old(config).poll_interval,
        },
        final(config).duration_update_interval == match config_cmd.duration_update_interval {
            Some(v) => v,
            None => old(config).duration_update_interval,
        },
        final(config).autosave_interval == match config_cmd.autosave_interval {
            Some(v) => v,
            None => old(config).autosave_interval,
        },
{
    if let Some(v) = config_cmd.poll_interval {
        config.poll_interval = v;
    }
    if let Some(v) = config_cmd.duration_update_interval {
        config.duration_update_interval = v;
    }
    if let Some(v) = config_cmd.autosave_interval {
        config.autosave_interval = v;
    }
    Ok(String::from_str("changed config"))
}

/// The process after its duration is changed as `operation` says, without
/// wrapping: an addition stops at `u64::MAX`, a subtraction at zero.
pub open spec fn adjusted(p: Process, operation: commands::DurationCalculation) -> Process {
    Process {
        duration: match operation {
            commands::DurationCalculation::Add { seconds } => if p.duration + seconds
                > u64::MAX {
                u64::MAX
            } else {
                (p.duration + seconds) as u64
            },
            commands::DurationCalculation::Subtract { seconds } => if p.duration < seconds {
                0
            } else {
                (p.duration - seconds) as u64
            },
        },
        ..p
    }
}

/// Adds seconds to, or subtracts them from, the duration of one process.
pub fn change_duration(duration_cmd: commands::Duration, processes: &mut Processes) -> (r: Result<String, String>)
    ensures
        duration_cmd.id >= old(processes)@.len() ==> (r matches Err(e) && e@ == "invalid ID "@
            + decimal(duration_cmd.id as nat) && final(processes)@ == old(processes)@),
        duration_cmd.id < old(processes)@.len() ==> {
            let p = old(processes)@[duration_cmd.id as int];
            &&& final(processes)@ == old(processes)@.update(
                duration_cmd.id as int,
                adjusted(p, duration_cmd.operation),
            )
            &&& (r matches Ok(m) && m@ == match duration_cmd.operation {
                commands::DurationCalculation::Add { seconds } => "added "@ + decimal(
                    seconds as nat,
                ) + " seconds for "@ + p.name@,
                commands::DurationCalculation::Subtract { seconds } => "subtracted "@
                    + decimal(seconds as nat) + " seconds for "@ + p.name@,
            })
        },
{
    let id = duration_cmd.id;
    if id >= processes.0.len() {
        return Err(text_with_number("invalid ID ", id as u64));
    }
    let mut message;
    match duration_cmd.operation {
        commands::DurationCalculation::Add { seconds } => {
            processes.0[id].duration = processes.0[id].duration.saturating_add(seconds);
            message = text_with_number("added ", seconds);
        },
        commands::DurationCalculation::Subtract { seconds } => {
            processes.0[id].duration = processes.0[id].duration.saturating_sub(seconds);
            message = text_with_number("subtracted ", seconds);
        },
    }
    message.append(" seconds for ");
    message.append(processes.0[id].name.as_str());
    assert(processes@ =~= old(processes)@.update(
        id as int,
        adjusted(old(processes)@[id as int], duration_cmd.operation),
    ));
    Ok(message)
}

/// Moves one process up or down by one place, or to the top or the bottom.
pub fn move_process(move_cmd: commands::Move, processes: &mut Processes) -> (r: Result<String, String>)
    ensures
        move_error(old(processes)@, move_cmd) matches Some(e) ==> (r matches Err(m) && m@ == e
            && final(processes)@ == old(processes)@),
        old(processes)@.len() >= 2 && move_cmd.id == 0 && moves_up(move_cmd.direction) ==> (r matches Err(m)
            && m@ == old(processes)@[0].name@ + " already at top"@ && final(processes)@ == old(processes)@),
        old(processes)@.len() >= 2 && move_cmd.id == old(processes)@.len() - 1 && !moves_up(
            move_cmd.direction,
        ) ==> (r matches Err(m) && m@ == old(processes)@.last().name@ + " already at bottom"@
            && final(processes)@ == old(processes)@),
        move_error(old(processes)@, move_cmd) is None ==> {
            let id = move_cmd.id as int;
            let s = old(processes)@;
            &&& final(processes)@ == moved(s, id, move_target(move_cmd.direction, id, s.len() as int))
            &&& (r matches Ok(m) && m@ == "moved "@ + s[id].name@)
        },
{
    let n = processes.0.len();
    let id = move_cmd.id;
    if n == 0 {
        return Err(String::from_str("no processes to move"));
    } else if n == 1 {
        return Err(String::from_str("cannot move only one process"));
    } else if id >= n {
        return Err(text_with_number("no process with id ", id as u64));
    }
    let to = match move_cmd.direction {
        commands::MoveDirection::Up | commands::MoveDirection::Top => {
            if id == 0 {
                return Err(joined(processes.0[id].name.as_str(), " already at top"));
            }
            if move_cmd.direction == commands::MoveDirection::Top {
                0
            } else {
                id - 1
            }
        },
        commands::MoveDirection::Down | commands::MoveDirection::Bottom => {
            if id == n - 1 {
                return Err(joined(processes.0[id].name.as_str(), " already at bottom"));
            }
            if move_cmd.direction == commands::MoveDirection::Bottom {
                n - 1
            } else {
                id + 1
            }
        },
    };
    let p = processes.0.remove(id);
    let message = joined("moved ", p.name.as_str());
    processes.0.insert(to, p);
    Ok(message)
}

/// Raises the flag that stops the daemon once the answer is sent.
pub fn set_exit_flag(close_server_flag: &mut bool) -> (r: Result<String, String>)
    ensures
        *final(close_server_flag),
        (r matches Ok(m) && m@ == "stopping server"@),
{
    *close_server_flag = true;
    Ok(String::from_str("stopping server"))
}

/// Whether optional duration text is absent or readable.
pub open spec fn duration_text_ok(d: Option<String>) -> bool {
    d matches Some(t) ==> duration_value(t@) is Some
}

/// Whether optional timestamp text is absent or readable.
pub open spec fn date_text_ok(d: Option<String>) -> bool {
    d matches Some(t) ==> date_accepted(t@)
}

/// The message for unreadable duration text, then for an unreadable
/// timestamp, or `None` when both are fine.
pub open spec fn field_error(duration: Option<String>, date: Option<String>) -> Option<Seq<char>> {
    if !duration_text_ok(duration) {
        Some(duration_error(duration->Some_0@))
    } else if !date_text_ok(date) {
        Some(date_error(date->Some_0@))
    } else {
        None
    }
}

/// The message a refused addition gets, or `None` when it is carried out.
pub open spec fn add_error(s: Seq<Process>, add_cmd: commands::Add) -> Option<Seq<char>> {
    if has_name(s, add_cmd.name@) {
        Some("process "@ + add_cmd.name@ + " is already tracked"@)
    } else {
        field_error(add_cmd.duration, add_cmd.added_date)
    }
}

/// The text of an optional string, empty when it is absent.
pub open spec fn text_or_empty(t: Option<String>) -> Seq<char> {
    match t {
        Some(s) => s@,
        None => Seq::empty(),
    }
}

/// Whether `p` is the process that `add_cmd` describes: last seen at the
/// epoch, added at the given timestamp (when none is given, at the time of
/// the call, which no contract can name).
pub open spec fn is_added_process(p: Process, add_cmd: commands::Add) -> bool {
    &&& !p.is_running
    &&& p.is_tracked
    &&& p.name == add_cmd.name
    &&& p.icon@ == text_or_empty(add_cmd.icon)
    &&& p.duration == match add_cmd.duration {
        Some(t) => duration_value(t@)->Some_0,
        None => 0,
    }
    &&& p.notes@ == text_or_empty(add_cmd.notes)
    &&& p.last_seen_date == epoch_datetime()
    &&& add_cmd.added_date matches Some(t) ==> p.added_date == date_of(t@)
}

/// Reads optional duration text, zero when it is absent.
fn optional_duration(d: &Option<String>) -> (r: Result<u64, String>)
    ensures
        r is Ok <==> duration_text_ok(*d),
        r matches Ok(v) ==> v == match *d {
            Some(t) => duration_value(t@)->Some_0,
            None => 0,
        },
        r matches Err(e) ==> e@ == duration_error(d->Some_0@),
{
    match d {
        Some(t) => string_to_duration(t.as_str()),
        None => Ok(0),
    }
}

/// The string held by an option, or an empty one.
fn string_or_empty(t: Option<String>) -> (r: String)
    ensures
        r@ == text_or_empty(t),
{
    match t {
        Some(s) => s,
        None => String::new(),
    }
}

/// Starts tracking a new process. Refused when the name is already tracked
/// or when the duration or the timestamp text cannot be read; the registry
/// is then unchanged. Without a timestamp the process is added as of now.
pub fn add_new_process(add_cmd: commands::Add, processes: &mut Processes) -> (r: Result<String, String>)
    ensures
        has_name(old(processes)@, add_cmd.name@) ==> (r matches Err(m) && m@ == "process "@
            + add_cmd.name@ + " is already tracked"@),
        add_error(old(processes)@, add_cmd) matches Some(e) ==> (r matches Err(m) && m@ == e
            && final(processes)@ == old(processes)@),
        add_error(old(processes)@, add_cmd) is None ==> {
            &&& (r matches Ok(m) && m@ == "added "@ + add_cmd.name@)
            &&& final(processes)@.len() == old(processes)@.len() + 1
            &&& final(processes)@.drop_last() == old(processes)@
            &&& is_added_process(final(processes)@.last(), add_cmd)
        },
        names_unique(old(processes)@) ==> names_unique(final(processes)@),
{
    if processes.contains_process(add_cmd.name.as_str()) {
        let mut m = joined("process ", add_cmd.name.as_str());
        m.append(" is already tracked");
        return Err(m);
    }
    let duration = optional_duration(&add_cmd.duration)?;
    let added_date = match &add_cmd.added_date {
        Some(t) => parse_datetime(t.as_str())?,
        None => local_now(),
    };
    let commands::Add { name, icon, duration: _, notes, added_date: _ } = add_cmd;
    let message = joined("added ", name.as_str());
    let ghost before = processes@;
    processes.0.push(
        Process {
            is_running: false,
            is_tracked: true,
            icon: string_or_empty(icon),
            name,
            duration,
            notes: string_or_empty(notes),
            last_seen_date: epoch(),
            added_date,
        },
    );
    assert(processes@.drop_last() =~= before);
    proof {
        if names_unique(before) {
            assert forall|i: int, j: int| 0 <= i < j < processes@.len() implies (#[trigger] processes@[i]).name@
                != (#[trigger] processes@[j]).name@ by {
                if j == before.len() {
                    assert(processes@[i] == before[i]);
                }
            }
        }
    }
    Ok(message)
}

/// What `change_cmd` makes of process `p`.
pub open spec fn changed_process(p: Process, change_cmd: commands::Change) -> Process {
    Process {
        is_tracked: match change_cmd.tracking {
            Some(t) => t,
            None => p.is_tracked,
        },
        icon: match change_cmd.icon {
            Some(i) => i,
            None => p.icon,
        },
        duration: match change_cmd.duration {
            Some(t) => duration_value(t@)->Some_0 as u64,
            None => p.duration,
        },
        notes: match change_cmd.notes {
            Some(n) => n,
            None => p.notes,
        },
        added_date: match change_cmd.added_date {
            Some(t) => date_of(t@),
            None => p.added_date,
        },
        ..p
    }
}

/// The message a refused change gets, or `None` when it is carried out.
pub open spec fn change_error(s: Seq<Process>, change_cmd: commands::Change) -> Option<Seq<char>> {
    if change_cmd.id >= s.len() {
        Some("invalid ID "@ + decimal(change_cmd.id as nat))
    } else {
        field_error(change_cmd.duration, change_cmd.added_date)
    }
}

/// Changes the fields of one process that the command supplies. Refused,
/// with the registry unchanged, when the ID is out of range or the duration
/// or timestamp text cannot be read.
pub fn change_process(change_cmd: commands::Change, processes: &mut Processes) -> (r: Result<String, String>)
    ensures
        change_error(old(processes)@, change_cmd) matches Some(e) ==> (r matches Err(m) && m@ == e
            && final(processes)@ == old(processes)@),
        change_error(old(processes)@, change_cmd) is None ==> {
            let id = change_cmd.id as int;
            let p = old(processes)@[id];
            &&& (r matches Ok(m) && m@ == "changed "@ + p.name@)
            &&& final(processes)@ == old(processes)@.update(id, changed_process(p, change_cmd))
        },
{
    let id = change_cmd.id;
    if id >= processes.0.len() {
        return Err(text_with_number("invalid ID ", id as u64));
    }
    let duration = optional_duration(&change_cmd.duration)?;
    let added_date = match &change_cmd.added_date {
        Some(t) => Some(parse_datetime(t.as_str())?),
        None => None,
    };
    let commands::Change { id: _, tracking, icon, duration: given_duration, notes, added_date: _ } = change_cmd;
    if let Some(t) = tracking {
        processes.0[id].is_tracked = t;
    }
    if let Some(i) = icon {
        processes.0[id].icon = i;
    }
    if given_duration.is_some() {
        processes.0[id].duration = duration;
    }
    if let Some(n) = notes {
        processes.0[id].notes = n;
    }
    if let Some(d) = added_date {
        processes.0[id].added_date = d;
    }
    let message = joined("changed ", processes.0[id].name.as_str());
    assert(processes@ =~= old(processes)@.update(
        id as int,
        changed_process(old(processes)@[id as int], change_cmd),
    ));
    Ok(message)
}

/// The process as an import adds it: never marked running.
pub open spec fn not_running(p: Process) -> Process {
    Process { is_running: false, ..p }
}

/// The registry after importing `incoming` in order, with the names that
/// were added and those that were already tracked. A process whose name is
/// tracked by then, in the registry or earlier in `incoming`, is skipped.
pub open spec fn imported(s: Seq<Process>, incoming: Seq<Process>) -> (
    Seq<Process>,
    Seq<Seq<char>>,
    Seq<Seq<char>>,
)
    decreases incoming.len(),
{
    if incoming.len() == 0 {
        (s, Seq::empty(), Seq::empty())
    } else {
        let (reg, added, existing) = imported(s, incoming.drop_last());
        let p = incoming.last();
        if has_name(reg, p.name@) {
            (reg, added, existing.push(p.name@))
        } else {
            (reg.push(not_running(p)), added.push(p.name@), existing)
        }
    }
}

/// Importing keeps the registry's entries in front, adds only processes
/// that are not running, leaves every incoming name tracked, and never
/// brings a second process of one name into a registry whose names were
/// distinct.
pub proof fn lemma_import_preserves_registry(s: Seq<Process>, incoming: Seq<Process>)
    ensures
        imported(s, incoming).0.len() >= s.len(),
        imported(s, incoming).0.subrange(0, s.len() as int) == s,
        forall|i: int|
            s.len() <= i < imported(s, incoming).0.len() ==> !(#[trigger] imported(s, incoming).0[i]).is_running,
        forall|k: int| 0 <= k < incoming.len() ==> has_name(imported(s, incoming).0, (#[trigger] incoming[k]).name@),
        names_unique(s) ==> names_unique(imported(s, incoming).0),
    decreases incoming.len(),
{
    if incoming.len() == 0 {
        assert(s.subrange(0, s.len() as int) =~= s);
    } else {
        let init = incoming.drop_last();
        lemma_import_preserves_registry(s, init);
        let reg = imported(s, init).0;
        let p = incoming.last();
        let out = imported(s, incoming).0;
        if !has_name(reg, p.name@) {
            assert(out == reg.push(not_running(p)));
            assert(out.subrange(0, s.len() as int) =~= reg.subrange(0, s.len() as int));
            assert(out[reg.len() as int].name@ == p.name@);
            if names_unique(reg) {
                assert forall|i: int, j: int| 0 <= i < j < out.len() implies (#[trigger] out[i]).name@
                    != (#[trigger] out[j]).name@ by {
                    if j == reg.len() {
                        assert(out[i] == reg[i]);
                    }
                }
            }
        }
        assert forall|k: int| 0 <= k < incoming.len() implies has_name(out, (#[trigger] incoming[k]).name@) by {
            if k < init.len() {
                assert(init[k] == incoming[k]);
                let i = choose|i: int| 0 <= i < reg.len() && (#[trigger] reg[i]).name@ == init[k].name@;
                assert(out[i] == reg[i]);
            } else if !has_name(reg, p.name@) {
                assert(out[reg.len() as int].name@ == p.name@);
            }
        }
        assert forall|i: int| s.len() <= i < out.len() implies !(#[trigger] out[i]).is_running by {
            if i < reg.len() {
                assert(out[i] == reg[i]);
            }
        }
    }
}

/// Every entry an import appends is one of the incoming processes, not
/// running.
pub proof fn lemma_import_appends_incoming(s: Seq<Process>, incoming: Seq<Process>)
    ensures
        forall|i: int|
            s.len() <= i < imported(s, incoming).0.len() ==> exists|j: int|
                0 <= j < incoming.len() && #[trigger] imported(s, incoming).0[i] == not_running(
                    incoming[j],
                ),
    decreases incoming.len(),
{
    lemma_import_preserves_registry(s, incoming);
    if incoming.len() > 0 {
        let init = incoming.drop_last();
        lemma_import_appends_incoming(s, init);
        let reg = imported(s, init).0;
        let out = imported(s, incoming).0;
        assert forall|i: int| s.len() <= i < out.len() implies exists|j: int|
            0 <= j < incoming.len() && #[trigger] out[i] == not_running(incoming[j]) by {
            if i < reg.len() {
                assert(out[i] == reg[i]);
                let j = choose|j: int| 0 <= j < init.len() && #[trigger] reg[i] == not_running(init[j]);
                assert(init[j] == incoming[j]);
            } else {
                assert(out[i] == not_running(incoming[incoming.len() - 1]));
            }
        }
    }
}

/// An incoming name that is already tracked is reported as already tracked.
pub proof fn lemma_import_reports_tracked(s: Seq<Process>, incoming: Seq<Process>)
    ensures
        forall|k: int|
            0 <= k < incoming.len() && has_name(s, (#[trigger] incoming[k]).name@)
                ==> imported(s, incoming).2.contains(incoming[k].name@),
    decreases incoming.len(),
{
    if incoming.len() > 0 {
        let init = incoming.drop_last();
        lemma_import_reports_tracked(s, init);
        lemma_import_preserves_registry(s, init);
        let reg = imported(s, init).0;
        let existing = imported(s, init).2;
        let existing2 = imported(s, incoming).2;
        let last = incoming.len() - 1;
        let p = incoming[last];
        assert forall|k: int|
            0 <= k < incoming.len() && has_name(s, (#[trigger] incoming[k]).name@) implies existing2.contains(
            incoming[k].name@,
        ) by {
            if k < last {
                assert(init[k] == incoming[k]);
                let t = choose|t: int| 0 <= t < existing.len() && existing[t] == incoming[k].name@;
                if existing2 != existing {
                    assert(existing2[t] == existing[t]);
                }
            } else {
                let i = choose|i: int| 0 <= i < s.len() && (#[trigger] s[i]).name@ == p.name@;
                assert(reg.subrange(0, s.len() as int)[i] == s[i]);
                assert(reg[i].name@ == p.name@);
                assert(existing2[existing.len() as int] == p.name@);
            }
        }
    }
}

/// An incoming process whose name is neither tracked nor earlier in
/// `incoming` is reported as added and appended, not running.
pub proof fn lemma_import_adds_new(s: Seq<Process>, incoming: Seq<Process>)
    ensures
        forall|k: int|
            0 <= k < incoming.len() && !has_name(s, (#[trigger] incoming[k]).name@) && (forall|j: int|
                0 <= j < k ==> incoming[j].name@ != incoming[k].name@) ==> {
                &&& imported(s, incoming).1.contains(incoming[k].name@)
                &&& exists|i: int|
                    s.len() <= i < imported(s, incoming).0.len() && imported(s, incoming).0[i]
                        == not_running(incoming[k])
            },
    decreases incoming.len(),
{
    if incoming.len() > 0 {
        let init = incoming.drop_last();
        lemma_import_adds_new(s, init);
        lemma_import_preserves_registry(s, init);
        lemma_import_appends_incoming(s, init);
        let reg = imported(s, init).0;
        let added = imported(s, init).1;
        let out = imported(s, incoming).0;
        let added2 = imported(s, incoming).1;
        let last = incoming.len() - 1;
        let p = incoming[last];
        assert forall|k: int|
            0 <= k < incoming.len() && !has_name(s, (#[trigger] incoming[k]).name@) && (forall|j: int|
                0 <= j < k ==> incoming[j].name@ != incoming[k].name@) implies {
            &&& added2.contains(incoming[k].name@)
            &&& exists|i: int| s.len() <= i < out.len() && out[i] == not_running(incoming[k])
        } by {
            if k < last {
                assert(init[k] == incoming[k]);
                assert forall|j: int| 0 <= j < k implies init[j].name@ != init[k].name@ by {
                    assert(init[j] == incoming[j]);
                }
                let t = choose|t: int| 0 <= t < added.len() && added[t] == incoming[k].name@;
                let i = choose|i: int| s.len() <= i < reg.len() && reg[i] == not_running(init[k]);
                if out != reg {
                    assert(out[i] == reg[i]);
                    assert(added2[t] == added[t]);
                }
            } else {
                assert(!has_name(reg, p.name@)) by {
                    if has_name(reg, p.name@) {
                        let i = choose|i: int| 0 <= i < reg.len() && (#[trigger] reg[i]).name@ == p.name@;
                        if i < s.len() {
                            assert(reg.subrange(0, s.len() as int)[i] == s[i]);
                        } else {
                            let j = choose|j: int| 0 <= j < init.len() && #[trigger] reg[i] == not_running(init[j]);
                            assert(init[j] == incoming[j]);
                        }
                    }
                }
                assert(out[reg.len() as int] == not_running(p));
                assert(added2[added.len() as int] == p.name@);
            }
        }
    }
}

/// The text that std's `Debug` gives for a list of strings, such as
/// `["a", "b"]`.
pub uninterp spec fn debug_list_text(names: Seq<Seq<char>>) -> Seq<char>;

/// Relies on std's `Debug` for `Vec<String>`: the text depends on the
/// strings alone.
#[verifier::external_body]
fn debug_list(names: &Vec<String>) -> (r: String)
    ensures
        r@ == debug_list_text(texts(names@)),
{
    format!("{:?}", names)
}

/// The report of an import, from the shown lists of added names and of
/// names already tracked; the second part is left out when nothing was
/// already tracked.
pub fn import_message(added_text: &str, existing_text: Option<&str>) -> (r: String)
    ensures
        r@ == "added "@ + added_text@ + match existing_text {
            Some(t) => ", already tracked "@ + t@,
            None => Seq::empty(),
        },
{
    let mut m = joined("added ", added_text);
    match existing_text {
        Some(t) => {
            m.append(", already tracked ");
            m.append(t);
        },
        None => {
            assert(m@ =~= m@ + Seq::<char>::empty());
        },
    }
    m
}

/// The report of an import as `import_processes` writes it.
pub open spec fn import_report(added: Seq<Seq<char>>, existing: Seq<Seq<char>>) -> Seq<char> {
    "added "@ + debug_list_text(added) + if existing.len() == 0 {
        Seq::empty()
    } else {
        ", already tracked "@ + debug_list_text(existing)
    }
}

/// Adds each incoming process whose name is not yet tracked, not running,
/// at the end of the registry.
fn merge_processes(incoming: &Processes, processes: &mut Processes) -> (r: (Vec<String>, Vec<String>))
    ensures
        final(processes)@ == imported(old(processes)@, incoming@).0,
        texts(r.0@) == imported(old(processes)@, incoming@).1,
        texts(r.1@) == imported(old(processes)@, incoming@).2,
{
    let mut added: Vec<String> = Vec::new();
    let mut existing: Vec<String> = Vec::new();
    let mut k: usize = 0;
    while k < incoming.0.len()
        invariant
            k <= incoming@.len(),
            processes@ == imported(old(processes)@, incoming@.subrange(0, k as int)).0,
            texts(added@) == imported(old(processes)@, incoming@.subrange(0, k as int)).1,
            texts(existing@) == imported(old(processes)@, incoming@.subrange(0, k as int)).2,
        decreases incoming@.len() - k,
    {
        let ghost prefix = incoming@.subrange(0, k as int + 1);
        assert(prefix.drop_last() =~= incoming@.subrange(0, k as int));
        let p = incoming.0[k].cloned();
        if processes.contains_process(p.name.as_str()) {
            existing.push(p.name.clone());
            assert(texts(existing@) =~= imported(old(processes)@, prefix).2);
        } else {
            added.push(p.name.clone());
            processes.0.push(Process { is_running: false, ..p });
            assert(texts(added@) =~= imported(old(processes)@, prefix).1);
        }
        k = k + 1;
    }
    assert(incoming@.subrange(0, k as int) =~= incoming@);
    (added, existing)
}

/// Imports processes read from a file in the current format: each one whose
/// name is not yet tracked is added at the end, not running; the others are
/// reported as already tracked.
pub fn import_processes(incoming: Processes, processes: &mut Processes) -> (r: String)
    ensures
        final(processes)@ == imported(old(processes)@, incoming@).0,
        r@ == import_report(imported(old(processes)@, incoming@).1, imported(old(processes)@, incoming@).2),
        final(processes)@.len() >= old(processes)@.len(),
        final(processes)@.subrange(0, old(processes)@.len() as int) == old(processes)@,
        forall|i: int|
            old(processes)@.len() <= i < final(processes)@.len() ==> !(#[trigger] final(processes)@[i]).is_running,
        forall|k: int| 0 <= k < incoming@.len() ==> has_name(final(processes)@, (#[trigger] incoming@[k]).name@),
        names_unique(old(processes)@) ==> names_unique(final(processes)@),
        forall|k: int|
            0 <= k < incoming@.len() && has_name(old(processes)@, (#[trigger] incoming@[k]).name@)
                ==> imported(old(processes)@, incoming@).2.contains(incoming@[k].name@),
        names_unique(old(processes)@) ==> forall|k: int, i: int|
            0 <= k < incoming@.len() && has_name(old(processes)@, (#[trigger] incoming@[k]).name@) && 0 <= i
                < final(processes)@.len() && (#[trigger] final(processes)@[i]).name@ == incoming@[k].name@
                ==> i < old(processes)@.len(),
        forall|k: int|
            0 <= k < incoming@.len() && !has_name(old(processes)@, (#[trigger] incoming@[k]).name@) && (forall|j: int|
                0 <= j < k ==> incoming@[j].name@ != incoming@[k].name@) ==> {
                &&& imported(old(processes)@, incoming@).1.contains(incoming@[k].name@)
                &&& exists|i: int|
                    old(processes)@.len() <= i < final(processes)@.len() && final(processes)@[i]
                        == not_running(incoming@[k])
            },
{
    proof {
        lemma_import_preserves_registry(processes@, incoming@);
        lemma_import_reports_tracked(processes@, incoming@);
        lemma_import_adds_new(processes@, incoming@);
        let s = processes@;
        let out = imported(s, incoming@).0;
        if names_unique(s) {
            assert forall|k: int, i: int|
                0 <= k < incoming@.len() && has_name(s, (#[trigger] incoming@[k]).name@) && 0 <= i < out.len()
                    && (#[trigger] out[i]).name@ == incoming@[k].name@ implies i < s.len() by {
                let j = choose|j: int| 0 <= j < s.len() && (#[trigger] s[j]).name@ == incoming@[k].name@;
                assert(out.subrange(0, s.len() as int)[j] == s[j]);
                assert(out[j].name@ == out[i].name@);
            }
        }
    }
    let (added, existing) = merge_processes(&incoming, processes);
    let added_text = debug_list(&added);
    if existing.len() == 0 {
        import_message(added_text.as_str(), None)
    } else {
        let existing_text = debug_list(&existing);
        import_message(added_text.as_str(), Some(existing_text.as_str()))
    }
}

/// Imports processes read from a file in the older format. Every record's
/// timestamps are read before anything is added, so a record that cannot be
/// read refuses the whole import, even one whose name is already tracked,
/// and the registry is then unchanged. Otherwise as `import_processes`, none
/// of the added processes running.
pub fn import_legacy_processes(incoming: LegacyProcesses, processes: &mut Processes) -> (r: Result<String, String>)
    ensures
        r is Ok <==> all_legacy_dates_ok(incoming.0@),
        r matches Err(e) ==> final(processes)@ == old(processes)@ && exists|k: int|
            first_bad_record(incoming.0@, k) && e@ == legacy_error(incoming.0@[k].1),
        final(processes)@.len() >= old(processes)@.len(),
        final(processes)@.subrange(0, old(processes)@.len() as int) == old(processes)@,
        forall|i: int|
            old(processes)@.len() <= i < final(processes)@.len() ==> !(#[trigger] final(processes)@[i]).is_running,
        names_unique(old(processes)@) ==> names_unique(final(processes)@),
        r is Ok ==> exists|converted: Processes|
            {
                &&& converted@.len() == incoming.0@.len()
                &&& forall|k: int|
                    0 <= k < converted@.len() ==> crate::legacy_process::is_legacy_process(
                        #[trigger] converted@[k],
                        incoming.0@[k].0,
                        incoming.0@[k].1,
                    )
                &&& final(processes)@ == imported(old(processes)@, converted@).0
                &&& r matches Ok(m) && m@ == import_report(
                    imported(old(processes)@, converted@).1,
                    imported(old(processes)@, converted@).2,
                )
            },
{
    let converted = match incoming.into_processes() {
        Ok(c) => c,
        Err(e) => {
            assert(processes@.subrange(0, processes@.len() as int) =~= processes@);
            return Err(e);
        },
    };
    let ghost c = converted;
    let m = import_processes(converted, processes);
    assert(c@.len() == incoming.0@.len());
    Ok(m)
}

} // verus!
