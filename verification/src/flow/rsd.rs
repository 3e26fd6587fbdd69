//! Pairing a device on a cable for the network.
use vstd::prelude::*;
use crate::error::{other, Error};

verus! {

/// The service that pairs over the cable.
pub const TUNNEL_SERVICE: &'static str =
    "com.apple.internal.dt.coredevice.untrusted.tunnelservice";

/// The PIN that the service takes over the cable.
pub const CABLE_PIN: &'static str = "000000";

pub const TUNNEL_SERVICE_MISSING: &'static str = "Tunnel service not found";

/// What to do next.
#[derive(Debug, Clone, Copy, PartialEq, Eq, Structural)]
pub enum RsdPhase {
    /// See whether there is a saved record.
    CheckFile,
    /// Read the saved record.
    ReadFile,
    /// Open a tunnel over the cable.
    OpenTunnel,
    /// Look for the service that pairs.
    FindService,
    /// Pair with a new record.
    Pair,
    /// Connect once more with that record.
    Confirm,
    /// Save that record.
    Save,
    /// Nothing: there is a record.
    Done,
    /// Nothing: there is no record.
    Failed,
}

/// What came of a step.
#[derive(Debug)]
pub enum RsdEvent {
    /// Whether there is a saved record, or the service.
    Found(bool),
    /// Whether the step was done.
    Finished(Result<(), Error>),
}

impl RsdPhase {
    /// The step that follows where this one was done.
    pub open spec fn following(self) -> RsdPhase {
        match self {
            RsdPhase::OpenTunnel => RsdPhase::FindService,
            RsdPhase::Pair => RsdPhase::Confirm,
            RsdPhase::Confirm => RsdPhase::Save,
            _ => RsdPhase::Done,
        }
    }

    /// The step after an event. An event that belongs to another step changes
    /// nothing.
    pub open spec fn next(self, event: RsdEvent) -> RsdPhase {
        match (self, event) {
            (RsdPhase::CheckFile, RsdEvent::Found(found)) => if found {
                RsdPhase::ReadFile
            } else {
                RsdPhase::OpenTunnel
            },
            (RsdPhase::FindService, RsdEvent::Found(found)) => if found {
                RsdPhase::Pair
            } else {
                RsdPhase::Failed
            },
            (RsdPhase::ReadFile, RsdEvent::Finished(finished))
            | (RsdPhase::OpenTunnel, RsdEvent::Finished(finished))
            | (RsdPhase::Pair, RsdEvent::Finished(finished))
            | (RsdPhase::Confirm, RsdEvent::Finished(finished))
            | (RsdPhase::Save, RsdEvent::Finished(finished)) => if finished is Ok {
                self.following()
            } else {
                RsdPhase::Failed
            },
            _ => self,
        }
    }

    /// Takes in what came of a step: the next one, or the error that there is no
    /// record for.
    pub fn advance(self, event: RsdEvent) -> (r: Result<RsdPhase, Error>)
        ensures
            match r {
                Ok(phase) => phase == self.next(event) && (phase is Failed ==> self is Failed),
                Err(error) => self.next(event) is Failed && !(self is Failed) && (match event {
                    RsdEvent::Found(_) => error.says(TUNNEL_SERVICE_MISSING@),
                    RsdEvent::Finished(finished) => finished == Result::<(), Error>::Err(error),
                }),
            },
    {
        match (self, event) {
            (RsdPhase::CheckFile, RsdEvent::Found(found)) => Ok(
                if found {
                    RsdPhase::ReadFile
                } else {
                    RsdPhase::OpenTunnel
                },
            ),
            (RsdPhase::FindService, RsdEvent::Found(found)) => if found {
                Ok(RsdPhase::Pair)
            } else {
                Err(other(TUNNEL_SERVICE_MISSING))
            },
            (
                RsdPhase::ReadFile
                | RsdPhase::OpenTunnel
                | RsdPhase::Pair
                | RsdPhase::Confirm
                | RsdPhase::Save,
                RsdEvent::Finished(finished),
            ) => match finished {
                Ok(_) => Ok(
                    match self {
                        RsdPhase::OpenTunnel => RsdPhase::FindService,
                        RsdPhase::Pair => RsdPhase::Confirm,
                        RsdPhase::Confirm => RsdPhase::Save,
                        _ => RsdPhase::Done,
                    },
                ),
                Err(error) => Err(error),
            },
            _ => Ok(self),
        }
    }
}

// ---------------------------------------------------------------- laws

/// A record is saved only after it was paired and connected with once more, and
/// never over one that was there.
pub proof fn lemma_rsd_saves_only_confirmed(phase: RsdPhase, event: RsdEvent)
    ensures
        phase.next(event) is Save && !(phase is Save) ==> phase is Confirm && (
        event matches RsdEvent::Finished(Ok(_))),
        phase.next(event) is Confirm && !(phase is Confirm) ==> phase is Pair && (
        event matches RsdEvent::Finished(Ok(_))),
        phase.next(event) is Pair && !(phase is Pair) ==> phase is FindService && event
            == RsdEvent::Found(true),
        phase is ReadFile ==> phase.next(event) is ReadFile || phase.next(event) is Done
            || phase.next(event) is Failed,
{
}

/// A saved record is read and used; without one the device is paired over a tunnel
/// and the record, once confirmed, is saved.
pub proof fn lemma_rsd_steps_in_order()
    ensures
        ({
            let done = RsdEvent::Finished(Ok(()));
            &&& RsdPhase::CheckFile.next(RsdEvent::Found(true)) is ReadFile
            &&& RsdPhase::ReadFile.next(done) is Done
            &&& RsdPhase::CheckFile.next(RsdEvent::Found(false)) is OpenTunnel
            &&& RsdPhase::OpenTunnel.next(done) is FindService
            &&& RsdPhase::FindService.next(RsdEvent::Found(true)) is Pair
            &&& RsdPhase::Pair.next(done) is Confirm
            &&& RsdPhase::Confirm.next(done) is Save
            &&& RsdPhase::Save.next(done) is Done
        }),
{
}

/// A step that goes wrong, and a service that is not there, leave the device without
/// a record.
pub proof fn lemma_rsd_failures_end(phase: RsdPhase, error: Error)
    ensures
        phase is ReadFile || phase is OpenTunnel || phase is Pair || phase is Confirm
            || phase is Save ==> phase.next(RsdEvent::Finished(Err(error))) is Failed,
        phase is FindService ==> phase.next(RsdEvent::Found(false)) is Failed,
{
}

/// Nothing comes after the end, and what belongs to another step changes nothing.
pub proof fn lemma_rsd_ignores_other_events(
    phase: RsdPhase,
    found: bool,
    finished: Result<(), Error>,
)
    ensures
        phase is Done || phase is Failed ==> phase.next(RsdEvent::Found(found)) == phase
            && phase.next(RsdEvent::Finished(finished)) == phase,
        !(phase is CheckFile) && !(phase is FindService) ==> phase.next(RsdEvent::Found(found))
            == phase,
        phase is CheckFile || phase is FindService ==> phase.next(RsdEvent::Finished(finished))
            == phase,
{
}

} // verus!
