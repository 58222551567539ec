//! The decisions of the node agent: when to advertise, when to tell the
//! supervisor that the node is ready, and when to stop. The caller does what
//! a directive asks and reports back.

use crate::classify::MalformedAddress;
use crate::directory::well_formed;
use crate::identity::NodeIdentity;
use crate::kernel::only_advertisable;
use crate::monitor::{apply_event, event_applied, event_result, KernelEvent};
use vstd::prelude::*;

verus! {

/// Where the agent stands.
#[derive(Clone, Copy, Debug, PartialEq, Eq, Structural)]
pub enum Phase {
    /// The first advertisement is under way.
    Announcing,
    /// The node has advertised itself and waits for kernel events.
    Watching,
    /// A change is being advertised.
    Updating,
    /// The agent has failed for good.
    Stopped,
}

/// What the caller is to do next.
#[derive(Clone, Copy, Debug, PartialEq, Eq, Structural)]
pub enum Directive {
    /// Advertise the identity as it is now, with retries.
    Advertise,
    /// Tell the supervisor that the node is ready, then wait for an event.
    SignalReady,
    /// Wait for the next kernel event.
    AwaitEvent,
    /// Stop: an advertisement ran out of retries or the kernel sent a
    /// malformed address.
    Stop,
}

/// What the caller reports.
pub enum Report {
    /// The advertisement that was asked for has ended; `true` if it succeeded.
    Advertised(bool),
    /// A kernel event was applied to the directory: whether the directory
    /// changed, or an error.
    Event(Result<bool, MalformedAddress>),
}

/// Phase and directive that follow a report. A report that the phase did not
/// ask for leaves the phase as it is and repeats what the phase asks for.
pub open spec fn step(phase: Phase, report: Report) -> (Phase, Directive) {
    match (phase, report) {
        (Phase::Announcing, Report::Advertised(true)) => (Phase::Watching, Directive::SignalReady),
        (Phase::Updating, Report::Advertised(true)) => (Phase::Watching, Directive::AwaitEvent),
        (Phase::Announcing, Report::Advertised(false)) => (Phase::Stopped, Directive::Stop),
        (Phase::Updating, Report::Advertised(false)) => (Phase::Stopped, Directive::Stop),
        (Phase::Watching, Report::Event(Ok(true))) => (Phase::Updating, Directive::Advertise),
        (Phase::Watching, Report::Event(Ok(false))) => (Phase::Watching, Directive::AwaitEvent),
        (Phase::Watching, Report::Event(Err(_))) => (Phase::Stopped, Directive::Stop),
        (Phase::Announcing, _) => (Phase::Announcing, Directive::Advertise),
        (Phase::Updating, _) => (Phase::Updating, Directive::Advertise),
        (Phase::Watching, _) => (Phase::Watching, Directive::AwaitEvent),
        (Phase::Stopped, _) => (Phase::Stopped, Directive::Stop),
    }
}

/// How often the reports, taken in order from `phase`, lead to the directive
/// `SignalReady`.
pub open spec fn ready_signals(phase: Phase, reports: Seq<Report>) -> nat
    decreases reports.len(),
{
    if reports.len() == 0 {
        0
    } else {
        let next = step(phase, reports.first());
        let rest = ready_signals(next.0, reports.drop_first());
        if next.1 == Directive::SignalReady {
            rest + 1
        } else {
            rest
        }
    }
}

/// The supervisor is told at most once that the node is ready, and never
/// after the first advertisement has ended.
pub proof fn lemma_ready_at_most_once(phase: Phase, reports: Seq<Report>)
    ensures
        ready_signals(phase, reports) <= 1,
        phase != Phase::Announcing ==> ready_signals(phase, reports) == 0,
    decreases reports.len(),
{
    if reports.len() > 0 {
        lemma_ready_at_most_once(step(phase, reports.first()).0, reports.drop_first());
    }
}

/// The agent of one node.
#[derive(Clone, Debug)]
pub struct Agent {
    /// What the node advertises.
    pub identity: NodeIdentity,
    pub phase: Phase,
}

impl Agent {
    /// The agent after the first enumeration: it is to advertise `identity`.
    pub fn start(identity: NodeIdentity) -> (r: (Agent, Directive))
        ensures
            r.0.identity == identity,
            r.0.phase == Phase::Announcing,
            r.1 == Directive::Advertise,
    {
        (Agent { identity, phase: Phase::Announcing }, Directive::Advertise)
    }

    /// Takes the end of an advertisement. The first success leads to
    /// `SignalReady`; a failure stops the agent. What the node advertises
    /// stays as it is.
    pub fn on_advertised(&mut self, succeeded: bool) -> (directive: Directive)
        ensures
            final(self).identity == old(self).identity,
            (final(self).phase, directive) == step(old(self).phase, Report::Advertised(succeeded)),
            directive == Directive::SignalReady <==> old(self).phase == Phase::Announcing
                && succeeded,
    {
        match self.phase {
            Phase::Announcing => {
                if succeeded {
                    self.phase = Phase::Watching;
                    Directive::SignalReady
                } else {
                    self.phase = Phase::Stopped;
                    Directive::Stop
                }
            },
            Phase::Updating => {
                if succeeded {
                    self.phase = Phase::Watching;
                    Directive::AwaitEvent
                } else {
                    self.phase = Phase::Stopped;
                    Directive::Stop
                }
            },
            Phase::Watching => Directive::AwaitEvent,
            Phase::Stopped => Directive::Stop,
        }
    }

    /// Takes a kernel event. While the agent is watching, the event is
    /// applied to the directory: a change is to be advertised, a malformed
    /// address stops the agent. In any other phase the event has no effect.
    pub fn on_event(&mut self, event: &KernelEvent) -> (directive: Directive)
        ensures
            final(self).identity.hostname == old(self).identity.hostname,
            final(self).identity.interfaces@ == (if old(self).phase == Phase::Watching {
                event_applied(old(self).identity.interfaces@, event@)
            } else {
                old(self).identity.interfaces@
            }),
            old(self).phase == Phase::Watching ==> (final(self).phase, directive) == step(
                Phase::Watching,
                Report::Event(event_result(old(self).identity.interfaces@, event@)),
            ),
            old(self).phase != Phase::Watching ==> final(self).phase == old(self).phase
                && directive == step(old(self).phase, Report::Event(Ok(false))).1,
            directive != Directive::SignalReady,
            well_formed(old(self).identity.interfaces@) ==> well_formed(
                final(self).identity.interfaces@,
            ),
            only_advertisable(old(self).identity.interfaces@) ==> only_advertisable(
                final(self).identity.interfaces@,
            ),
    {
        match self.phase {
            Phase::Watching => {
                match apply_event(&mut self.identity.interfaces, event) {
                    Ok(true) => {
                        self.phase = Phase::Updating;
                        Directive::Advertise
                    },
                    Ok(false) => Directive::AwaitEvent,
                    Err(_) => {
                        self.phase = Phase::Stopped;
                        Directive::Stop
                    },
                }
            },
            Phase::Announcing => Directive::Advertise,
            Phase::Updating => Directive::Advertise,
            Phase::Stopped => Directive::Stop,
        }
    }
}

} // verus!
