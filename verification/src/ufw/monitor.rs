//! Watching `/etc/ufw` for changes: a change of the configuration is reported
//! at most once per half second. The caller watches the directory, times the
//! events and reports; the library decides which events to pass on.
use vstd::prelude::*;

verus! {

/// The directory that is watched, with its subdirectories.
pub const UFW_CONFIG_DIR: &'static str = "/etc/ufw";

/// Events closer than this (in nanoseconds) to the last one passed on are
/// dropped.
pub const DEBOUNCE_NS: u64 = 500000000;

/// What happened to a watched file.
#[derive(Debug, Clone, Copy, PartialEq, Eq, Structural)]
pub enum ChangeKind {
    Any,
    Access,
    Create,
    Modify,
    Remove,
    Other,
}

/// A change that may alter the firewall's state: a file created, modified or
/// removed.
pub open spec fn is_change(k: ChangeKind) -> bool {
    k == ChangeKind::Create || k == ChangeKind::Modify || k == ChangeKind::Remove
}

/// Debounces the events of the watched directory.
#[derive(Debug)]
pub struct UfwMonitor {
    /// When the last event was passed on, in nanoseconds on the caller's
    /// monotonic clock (the start of the watch at first).
    pub last_event_ns: u64,
}

impl UfwMonitor {
    /// A monitor whose watch starts at `now_ns`.
    pub fn new(now_ns: u64) -> (m: UfwMonitor)
        ensures
            m.last_event_ns == now_ns,
    {
        UfwMonitor { last_event_ns: now_ns }
    }

    /// Whether an event of kind `kind` at `now_ns` is passed on: a change
    /// more than half a second after the last event passed on, which then
    /// becomes the last (a time before the last counts as no time passed).
    pub fn on_event(&mut self, kind: ChangeKind, now_ns: u64) -> (fire: bool)
        ensures
            fire == (is_change(kind) && old(self).last_event_ns <= now_ns && now_ns
                - old(self).last_event_ns > DEBOUNCE_NS),
            fire ==> final(self).last_event_ns == now_ns,
            !fire ==> final(self).last_event_ns == old(self).last_event_ns,
    {
        let change = match kind {
            ChangeKind::Create | ChangeKind::Modify | ChangeKind::Remove => true,
            _ => false,
        };
        if change && self.last_event_ns <= now_ns && now_ns - self.last_event_ns > DEBOUNCE_NS {
            self.last_event_ns = now_ns;
            true
        } else {
            false
        }
    }
}

} // verus!
