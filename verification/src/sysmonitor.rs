//! Monitors of the system monitor: their settings, defaults, validity,
//! and the decisions they take on what they observe.

use vstd::prelude::*;
use crate::text::{chars_of, parse_int, parse_int_range, remove_all, remove_all_of};

verus! {

/// Whether a monitor runs and whether it raises alarms.
#[derive(Debug, Clone, Copy, PartialEq, Eq, Structural)]
pub struct Switch {
    pub monitor: bool,
    pub alarm: bool,
}

/// The switches of all monitors, from the main configuration.
#[derive(Debug, Clone, Copy, PartialEq, Eq, Structural)]
pub struct SysMonitor {
    pub zombie_monitor: bool,
    pub zombie_alarm: bool,
    pub process_fd_num_monitor: bool,
    pub process_fd_num_alarm: bool,
    pub pscnt_monitor: bool,
    pub pscnt_alarm: bool,
}

/// The zombie process monitor.
#[derive(Debug, Clone, Copy, PartialEq, Eq, Structural)]
pub struct ZombieCount {
    pub config: Switch,
    pub alarm: u32,
    pub resume: u32,
    pub period: u32,
    pub status: bool,
}

/// Default alarm threshold of the zombie monitor.
pub fn alarm_default() -> (r: u32)
    ensures
        r == 500,
{
    500
}

/// Default resume threshold of the zombie monitor.
pub fn resume_default() -> (r: u32)
    ensures
        r == 400,
{
    400
}

/// Default period of the zombie monitor, in seconds.
pub fn period_default() -> (r: u32)
    ensures
        r == 60,
{
    60
}

/// Default alarm threshold of the descriptor monitor, in percent.
pub fn fd_alarm_default() -> (r: u32)
    ensures
        r == 80,
{
    80
}

/// Default number of processes listed by the process count monitor.
pub fn show_top_proc_num_default() -> (r: u32)
    ensures
        r == 10,
{
    10
}

impl Default for ZombieCount {
    fn default() -> (z: ZombieCount)
        ensures
            z == (ZombieCount { config: Switch { monitor: false, alarm: false }, alarm: 0, resume: 0, period: 0, status: false }),
    {
        ZombieCount { config: Switch { monitor: false, alarm: false }, alarm: 0, resume: 0, period: 0, status: false }
    }
}

impl ZombieCount {
    /// The settings read from the monitor's file (`parsed`), with the
    /// switches of the main configuration.
    pub fn load(&mut self, parsed: ZombieCount, sysmonitor: SysMonitor)
        ensures
            *final(self) == (ZombieCount {
                config: Switch { monitor: sysmonitor.zombie_monitor, alarm: sysmonitor.zombie_alarm },
                ..parsed
            }),
    {
        *self = ZombieCount { config: Switch { monitor: sysmonitor.zombie_monitor, alarm: sysmonitor.zombie_alarm }, ..parsed };
    }

    /// The alarm threshold must lie above the resume threshold.
    pub fn is_valid(&self) -> (r: bool)
        ensures
            r == (self.alarm > self.resume),
    {
        self.alarm > self.resume
    }

    /// Whether a count of zombies calls for reporting their parents: at
    /// or above the alarm threshold while not yet alarmed.
    pub fn should_report(&self, count: u32) -> (r: bool)
        ensures
            r == (count >= self.alarm && !self.status),
    {
        count >= self.alarm && !self.status
    }
}

/// The count in the output of the zombie counting command: the output
/// without line feeds, as a `u32`.
pub open spec fn zombie_count_of(out: Seq<char>) -> Option<int> {
    parse_int(remove_all(out, "\n"@), 0, u32::MAX as int, false)
}

/// Reads the zombie count from the command's output.
pub fn parse_zombie_count(out: &str) -> (r: Option<u32>)
    ensures
        r matches Some(n) ==> zombie_count_of(out@) == Some(n as int),
        r is None ==> zombie_count_of(out@) is None,
{
    let s = remove_all_of(out, "\n");
    let v = chars_of(s.as_str());
    assert(v@.subrange(0, v@.len() as int) =~= v@);
    match parse_int_range(&v, 0, v.len(), 0, u32::MAX as i128, false) {
        Some(n) => Some(n as u32),
        None => None,
    }
}

/// The process descriptor monitor.
#[derive(Debug, Clone, Copy, PartialEq, Eq, Structural)]
pub struct ProcessFd {
    pub config: Switch,
    pub alarm: u32,
}

impl Default for ProcessFd {
    fn default() -> (p: ProcessFd)
        ensures
            p == (ProcessFd { config: Switch { monitor: false, alarm: false }, alarm: 0 }),
    {
        ProcessFd { config: Switch { monitor: false, alarm: false }, alarm: 0 }
    }
}

impl ProcessFd {
    /// The settings read from the monitor's file, with the switches of
    /// the main configuration.
    pub fn load(&mut self, parsed: ProcessFd, sysmonitor: SysMonitor)
        ensures
            *final(self) == (ProcessFd {
                config: Switch { monitor: sysmonitor.process_fd_num_monitor, alarm: sysmonitor.process_fd_num_alarm },
                ..parsed
            }),
    {
        *self = ProcessFd {
            config: Switch { monitor: sysmonitor.process_fd_num_monitor, alarm: sysmonitor.process_fd_num_alarm },
            ..parsed
        };
    }

    /// The threshold is a percentage strictly between 0 and 100.
    pub fn is_valid(&self) -> (r: bool)
        ensures
            r == (0 < self.alarm && self.alarm < 100),
    {
        self.alarm > 0 && self.alarm < 100
    }

    /// The threshold as written to the kernel.
    pub fn threshold_text(&self) -> (r: String)
        ensures
            r@ == crate::text::decimal(self.alarm as nat),
    {
        crate::text::decimal_string(self.alarm)
    }
}

} // verus!
