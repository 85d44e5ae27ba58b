//! Reports the life of a supervised process as events.

use vstd::prelude::*;

use crate::event::{Event, Timestamp};

verus! {

broadcast use vstd::function::group_function_axioms;

/// The event that ends the life of process `pid`: a normal exit where it
/// left an exit code, else a stop by a signal that is not known.
pub open spec fn is_termination(e: Event, pid: u32, code: Option<i32>, when: Timestamp) -> bool {
    match code {
        Some(c) => e == Event::TerminatedNormally { pid, code: c, when },
        None => match e {
            Event::TerminatedAbnormally { pid: p, signal, when: w } => p == pid && signal@ == "unknown"@
                && w == when,
            _ => false,
        },
    }
}

/// Returns the event that ends the life of process `pid`.
pub fn termination(pid: u32, code: Option<i32>, when: Timestamp) -> (r: Event)
    ensures
        is_termination(r, pid, code, when),
{
    match code {
        Some(c) => Event::TerminatedNormally { pid, code: c, when },
        None => Event::TerminatedAbnormally { pid, signal: String::from_str("unknown"), when },
    }
}

/// Hands the events of a supervised process to a sink.
pub struct Supervisor<F> {
    sink: F,
}

impl<F: FnMut(Event)> Supervisor<F> {
    pub closed spec fn sink(&self) -> F {
        self.sink
    }

    pub fn new(sink: F) -> (r: Supervisor<F>)
        ensures
            r.sink() == sink,
    {
        Supervisor { sink }
    }

    /// Reports that process `pid`, a child of `ppid`, started to run `cmd`
    /// in `cwd`.
    pub fn started(&mut self, pid: u32, ppid: u32, cwd: String, cmd: Vec<String>, when: Timestamp)
        requires
            forall|e: Event| call_requires(old(self).sink(), (e,)),
        ensures
            call_ensures(old(self).sink(), ((Event::Created { pid, ppid, cwd, cmd, when }),), ()),
    {
        let event = Event::Created { pid, ppid, cwd, cmd, when };
        assert(call_requires(self.sink(), (event,)));
        (self.sink)(event);
    }

    /// Reports that process `pid` ended, with its exit code where it left one.
    pub fn stopped(&mut self, pid: u32, code: Option<i32>, when: Timestamp)
        requires
            forall|e: Event| call_requires(old(self).sink(), (e,)),
        ensures
            exists|e: Event| is_termination(e, pid, code, when) && call_ensures(old(self).sink(), (e,), ()),
    {
        let event = termination(pid, code, when);
        let ghost handed = event;
        assert(call_requires(self.sink(), (event,)));
        (self.sink)(event);
        assert(is_termination(handed, pid, code, when) && call_ensures(old(self).sink(), (handed,), ()));
    }
}

} // verus!
