//! What the observation of a build reports about its processes.

use vstd::prelude::*;

verus! {

/// A point in time: seconds and nanoseconds since the Unix epoch, in UTC.
#[derive(Debug, Clone, Copy, PartialEq, Eq, Structural)]
pub struct Timestamp {
    pub seconds: i64,
    pub nanos: u32,
}

/// A change in the life of a process.
pub enum Event {
    /// A process started to run `cmd` in `cwd`.
    Created { pid: u32, ppid: u32, cwd: String, cmd: Vec<String>, when: Timestamp },
    /// A process exited with `code`.
    TerminatedNormally { pid: u32, code: i32, when: Timestamp },
    /// A process was stopped by `signal`.
    TerminatedAbnormally { pid: u32, signal: String, when: Timestamp },
}

impl Event {
    /// The command and working directory of a process start; `None` for the
    /// other events.
    pub fn to_execution(&self) -> (r: Option<(&Vec<String>, &str)>)
        ensures
            match self {
                Event::Created { cwd, cmd, .. } => match r {
                    Some(p) => p.0 == cmd && p.1@ == cwd@,
                    None => false,
                },
                _ => r is None,
            },
    {
        match self {
            Event::Created { cwd, cmd, .. } => Some((cmd, cwd.as_str())),
            _ => None,
        }
    }

    pub fn pid(&self) -> (r: u32)
        ensures
            r == match self {
                Event::Created { pid, .. } => *pid,
                Event::TerminatedNormally { pid, .. } => *pid,
                Event::TerminatedAbnormally { pid, .. } => *pid,
            },
    {
        match self {
            Event::Created { pid, .. } => *pid,
            Event::TerminatedNormally { pid, .. } => *pid,
            Event::TerminatedAbnormally { pid, .. } => *pid,
        }
    }
}

} // verus!
