//! Pairing with an Apple TV, from the saved record to a new one.
use vstd::prelude::*;
use crate::error::{other, Error};
use crate::net::IpAddr;
use crate::pairing::{
    chosen_action, failure_text, pairing_action, pairing_failure_to_error, PairingFailure,
    PairingStage, NOT_ADVERTISING, STALE_WITHOUT_SERVICE,
};

verus! {

/// What to do next in a pairing.
#[derive(Debug, Clone, Copy, PartialEq, Eq, Structural)]
pub enum PairPhase {
    /// See whether there is a saved record.
    CheckCache,
    /// Read the saved record.
    ReadCache,
    /// Remove the saved record, which cannot be read.
    RemoveUnreadable,
    /// Try the records of other tools.
    Import,
    /// Connect to the device with the saved record.
    Reconnect,
    /// Check the saved record on that connection.
    Verify,
    /// Save the record that was checked.
    SaveReconnected,
    /// See whether the saved record, which does not hold, is still there.
    CheckStale,
    /// Remove the saved record, which does not hold.
    RemoveStale,
    /// Try the records of other tools in place of the one that does not hold.
    ImportAfterStale,
    /// Connect to where the device offers to pair.
    Connect,
    /// Pair anew on that connection.
    Pair,
    /// Save the new record.
    SavePaired,
    /// Nothing: the device is paired.
    Done,
    /// Nothing: the pairing failed.
    Failed,
}

/// Why a connection did not come about.
#[derive(Debug)]
pub struct ConnectFailure {
    /// The text of the address.
    pub address: String,
    /// The text of the error.
    pub reason: String,
}

/// What came of a step.
#[derive(Debug)]
pub enum PairEvent {
    /// Whether there is a saved record.
    Found(bool),
    /// Whether the saved record could be read.
    Read(bool),
    /// The saved record has been removed, or could not be.
    Removed,
    /// Whether a record of another tool was taken over and saved.
    Imported(Result<bool, Error>),
    Connected(Result<(), ConnectFailure>),
    /// Whether the saved record holds.
    Verified(bool),
    Saved(Result<(), Error>),
    Paired(Result<PairingStage, PairingFailure>),
}

pub const NEEDS_MANUAL_SERVICE: &'static str =
    "Apple TV pairing requires its manual-pairing service. On the Apple TV, open Settings > Remotes and Devices > Remote App and Devices and wait for \"Waiting to Pair...\", then scan again.";

pub const NO_NEW_PAIRING: &'static str = "Apple TV pairing did not complete a new pairing";

/// What is said of a device that a saved record could not be checked against.
pub open spec fn reconnect_failure_text(failure: ConnectFailure) -> Seq<char> {
    "Failed to reconnect to Apple TV at "@ + failure.address@ + ": "@ + failure.reason@
        + "; scan again if the device changed its advertised address"@
}

/// What is said of a device that could not be reached to pair anew.
pub open spec fn connect_failure_text(failure: ConnectFailure) -> Seq<char> {
    "Failed to connect to Apple TV at "@ + failure.address@ + ": "@ + failure.reason@
        + ". The manual-pairing port changes each time the Apple TV re-advertises, so a stale scan result will not connect - scan again immediately before pairing."@
}

/// Where the device can be reached: where it takes saved records, else where it
/// offers to pair.
pub open spec fn first_address(
    reconnect_address: Option<(IpAddr, u16)>,
    pairing_address: Option<(IpAddr, u16)>,
) -> Option<(IpAddr, u16)> {
    if reconnect_address is Some {
        reconnect_address
    } else {
        pairing_address
    }
}

/// A pairing: where the device can be reached, and what to do next.
#[derive(Debug, Clone, Copy)]
pub struct PairFlow {
    pub pairing_address: Option<(IpAddr, u16)>,
    pub reconnect_address: Option<(IpAddr, u16)>,
    pub phase: PairPhase,
}

impl PairFlow {
    /// Whether the device has the addresses that the next step takes.
    pub open spec fn wf(self) -> bool {
        match self.phase {
            PairPhase::Reconnect => first_address(
                self.reconnect_address,
                self.pairing_address,
            ) is Some,
            PairPhase::Connect | PairPhase::Pair | PairPhase::SavePaired =>
                self.pairing_address is Some,
            _ => true,
        }
    }

    /// What follows where a record was saved.
    pub open spec fn with_record(self) -> PairPhase {
        if first_address(self.reconnect_address, self.pairing_address) is Some {
            PairPhase::Reconnect
        } else {
            PairPhase::Failed
        }
    }

    /// What follows where there is no record to go by.
    pub open spec fn without_record(self) -> PairPhase {
        if self.pairing_address is Some {
            PairPhase::Connect
        } else {
            PairPhase::Failed
        }
    }

    /// What to do after an event. An event that belongs to another step changes
    /// nothing.
    pub open spec fn next(self, event: PairEvent) -> PairPhase {
        match (self.phase, event) {
            (PairPhase::CheckCache, PairEvent::Found(found)) => if found {
                PairPhase::ReadCache
            } else {
                PairPhase::Import
            },
            (PairPhase::ReadCache, PairEvent::Read(done)) => if done {
                self.with_record()
            } else {
                PairPhase::RemoveUnreadable
            },
            (PairPhase::RemoveUnreadable, PairEvent::Removed) => PairPhase::Import,
            (PairPhase::Import, PairEvent::Imported(imported)) => match imported {
                Ok(done) => if done {
                    PairPhase::Done
                } else {
                    self.without_record()
                },
                Err(_) => PairPhase::Failed,
            },
            (PairPhase::Reconnect, PairEvent::Connected(connected)) => if connected is Ok {
                PairPhase::Verify
            } else {
                PairPhase::Failed
            },
            (PairPhase::Verify, PairEvent::Verified(holds)) => if holds {
                PairPhase::SaveReconnected
            } else {
                PairPhase::CheckStale
            },
            (PairPhase::CheckStale, PairEvent::Found(found)) => if found {
                PairPhase::RemoveStale
            } else {
                PairPhase::ImportAfterStale
            },
            (PairPhase::RemoveStale, PairEvent::Removed) => PairPhase::ImportAfterStale,
            (PairPhase::ImportAfterStale, PairEvent::Imported(imported)) => match imported {
                Ok(done) => if done {
                    PairPhase::Done
                } else {
                    self.without_record()
                },
                Err(_) => PairPhase::Failed,
            },
            (PairPhase::Connect, PairEvent::Connected(connected)) => if connected is Ok {
                PairPhase::Pair
            } else {
                PairPhase::Failed
            },
            (PairPhase::Pair, PairEvent::Paired(outcome)) => match outcome {
                Ok(PairingStage::Paired) => PairPhase::SavePaired,
                _ => PairPhase::Failed,
            },
            (PairPhase::SaveReconnected, PairEvent::Saved(saved)) => if saved is Ok {
                PairPhase::Done
            } else {
                PairPhase::Failed
            },
            (PairPhase::SavePaired, PairEvent::Saved(saved)) => if saved is Ok {
                PairPhase::Done
            } else {
                PairPhase::Failed
            },
            _ => self.phase,
        }
    }

    /// Whether this is the error that an event which ends the pairing comes to.
    pub open spec fn fails_with(self, event: PairEvent, error: Error) -> bool {
        match (self.phase, event) {
            (PairPhase::ReadCache, PairEvent::Read(true)) => error.says(STALE_WITHOUT_SERVICE@),
            (PairPhase::Import, PairEvent::Imported(Err(cause))) => error == cause,
            (PairPhase::Import, PairEvent::Imported(Ok(_))) => error.says(NOT_ADVERTISING@),
            (PairPhase::ImportAfterStale, PairEvent::Imported(Err(cause))) => error == cause,
            (PairPhase::ImportAfterStale, PairEvent::Imported(Ok(_))) => error.says(
                NEEDS_MANUAL_SERVICE@,
            ),
            (PairPhase::Reconnect, PairEvent::Connected(Err(failure))) => error.says(
                reconnect_failure_text(failure),
            ),
            (PairPhase::Connect, PairEvent::Connected(Err(failure))) => error.says(
                connect_failure_text(failure),
            ),
            (PairPhase::Pair, PairEvent::Paired(Err(failure))) => error.says(
                failure_text(failure),
            ),
            (PairPhase::Pair, PairEvent::Paired(Ok(_))) => error.says(NO_NEW_PAIRING@),
            (PairPhase::SaveReconnected, PairEvent::Saved(Err(cause))) => error == cause,
            (PairPhase::SavePaired, PairEvent::Saved(Err(cause))) => error == cause,
            _ => false,
        }
    }

    pub fn start(
        pairing_address: Option<(IpAddr, u16)>,
        reconnect_address: Option<(IpAddr, u16)>,
    ) -> (r: PairFlow)
        ensures
            r.wf(),
            r == (PairFlow { pairing_address, reconnect_address, phase: PairPhase::CheckCache }),
    {
        PairFlow { pairing_address, reconnect_address, phase: PairPhase::CheckCache }
    }

    /// Where to connect to check a saved record, and where to try the records of
    /// other tools.
    pub fn record_address(&self) -> (r: Option<(IpAddr, u16)>)
        ensures
            r == first_address(self.reconnect_address, self.pairing_address),
    {
        if self.reconnect_address.is_some() {
            self.reconnect_address
        } else {
            self.pairing_address
        }
    }

    fn fail(&mut self, error: Error) -> (r: Result<(), Error>)
        ensures
            *final(self) == (PairFlow { phase: PairPhase::Failed, ..*old(self) }),
            r == Result::<(), Error>::Err(error),
    {
        self.phase = PairPhase::Failed;
        Err(error)
    }

    fn go(&mut self, phase: PairPhase) -> (r: Result<(), Error>)
        ensures
            *final(self) == (PairFlow { phase, ..*old(self) }),
            r is Ok,
    {
        self.phase = phase;
        Ok(())
    }

    /// Goes on where there is a way to go about the pairing.
    fn go_by_action(&mut self, has_record: bool, phase: PairPhase) -> (r: Result<(), Error>)
        ensures
            match chosen_action(
                has_record,
                old(self).pairing_address is Some,
                old(self).reconnect_address is Some,
            ) {
                Ok(_) => r is Ok && *final(self) == (PairFlow { phase, ..*old(self) }),
                Err(message) => r is Err && r->Err_0.says(message) && *final(self) == (PairFlow {
                    phase: PairPhase::Failed,
                    ..*old(self)
                }),
            },
    {
        match pairing_action(
            has_record,
            self.pairing_address.is_some(),
            self.reconnect_address.is_some(),
        ) {
            Ok(_) => self.go(phase),
            Err(message) => self.fail(Error::Other(message)),
        }
    }

    /// Takes in what came of a step, and gives the error that ends the pairing where
    /// it does.
    pub fn advance(&mut self, event: PairEvent) -> (r: Result<(), Error>)
        requires
            old(self).wf(),
        ensures
            final(self).wf(),
            *final(self) == (PairFlow { phase: old(self).next(event), ..*old(self) }),
            r is Err <==> old(self).next(event) is Failed && !(old(self).phase is Failed),
            r is Err ==> old(self).fails_with(event, r->Err_0),
    {
        match (self.phase, event) {
            (PairPhase::CheckCache, PairEvent::Found(found)) => self.go(
                if found {
                    PairPhase::ReadCache
                } else {
                    PairPhase::Import
                },
            ),
            (PairPhase::ReadCache, PairEvent::Read(done)) => if !done {
                self.go(PairPhase::RemoveUnreadable)
            } else {
                self.go_by_action(true, PairPhase::Reconnect)
            },
            (PairPhase::RemoveUnreadable, PairEvent::Removed) => self.go(PairPhase::Import),
            (PairPhase::Import, PairEvent::Imported(imported)) => match imported {
                Ok(true) => self.go(PairPhase::Done),
                Ok(false) => self.go_by_action(false, PairPhase::Connect),
                Err(error) => self.fail(error),
            },
            (PairPhase::Reconnect, PairEvent::Connected(connected)) => match connected {
                Ok(_) => self.go(PairPhase::Verify),
                Err(failure) => {
                    let mut text = "Failed to reconnect to Apple TV at ".to_string();
                    text.append(failure.address.as_str());
                    text.append(": ");
                    text.append(failure.reason.as_str());
                    text.append("; scan again if the device changed its advertised address");
                    self.fail(Error::Other(text))
                },
            },
            (PairPhase::Verify, PairEvent::Verified(holds)) => self.go(
                if holds {
                    PairPhase::SaveReconnected
                } else {
                    PairPhase::CheckStale
                },
            ),
            (PairPhase::CheckStale, PairEvent::Found(found)) => self.go(
                if found {
                    PairPhase::RemoveStale
                } else {
                    PairPhase::ImportAfterStale
                },
            ),
            (PairPhase::RemoveStale, PairEvent::Removed) => self.go(PairPhase::ImportAfterStale),
            (PairPhase::ImportAfterStale, PairEvent::Imported(imported)) => match imported {
                Ok(true) => self.go(PairPhase::Done),
                Ok(false) => if self.pairing_address.is_some() {
                    self.go(PairPhase::Connect)
                } else {
                    self.fail(other(NEEDS_MANUAL_SERVICE))
                },
                Err(error) => self.fail(error),
            },
            (PairPhase::Connect, PairEvent::Connected(connected)) => match connected {
                Ok(_) => self.go(PairPhase::Pair),
                Err(failure) => {
                    let mut text = "Failed to connect to Apple TV at ".to_string();
                    text.append(failure.address.as_str());
                    text.append(": ");
                    text.append(failure.reason.as_str());
                    text.append(
                        ". The manual-pairing port changes each time the Apple TV re-advertises, so a stale scan result will not connect - scan again immediately before pairing.",
                    );
                    self.fail(Error::Other(text))
                },
            },
            (PairPhase::Pair, PairEvent::Paired(outcome)) => match outcome {
                Ok(PairingStage::Paired) => self.go(PairPhase::SavePaired),
                Ok(PairingStage::Reconnected) => self.fail(other(NO_NEW_PAIRING)),
                Err(failure) => self.fail(pairing_failure_to_error(failure)),
            },
            (PairPhase::SaveReconnected, PairEvent::Saved(saved)) => match saved {
                Ok(_) => self.go(PairPhase::Done),
                Err(error) => self.fail(error),
            },
            (PairPhase::SavePaired, PairEvent::Saved(saved)) => match saved {
                Ok(_) => self.go(PairPhase::Done),
                Err(error) => self.fail(error),
            },
            _ => Ok(()),
        }
    }
}

// ---------------------------------------------------------------- laws

/// How many steps can be left.
pub open spec fn steps_left(phase: PairPhase) -> nat {
    match phase {
        PairPhase::CheckCache => 11,
        PairPhase::ReadCache => 10,
        PairPhase::RemoveUnreadable => 9,
        PairPhase::Reconnect => 8,
        PairPhase::Verify => 7,
        PairPhase::CheckStale => 6,
        PairPhase::RemoveStale => 5,
        PairPhase::Import => 4,
        PairPhase::ImportAfterStale => 4,
        PairPhase::Connect => 3,
        PairPhase::Pair => 2,
        PairPhase::SaveReconnected => 1,
        PairPhase::SavePaired => 1,
        PairPhase::Done => 0,
        PairPhase::Failed => 0,
    }
}

/// Whether an event is one that a step can come to.
pub open spec fn answers(phase: PairPhase, event: PairEvent) -> bool {
    match phase {
        PairPhase::CheckCache | PairPhase::CheckStale => event is Found,
        PairPhase::ReadCache => event is Read,
        PairPhase::RemoveUnreadable | PairPhase::RemoveStale => event is Removed,
        PairPhase::Import | PairPhase::ImportAfterStale => event is Imported,
        PairPhase::Reconnect | PairPhase::Connect => event is Connected,
        PairPhase::Verify => event is Verified,
        PairPhase::Pair => event is Paired,
        PairPhase::SaveReconnected | PairPhase::SavePaired => event is Saved,
        PairPhase::Done | PairPhase::Failed => false,
    }
}

/// Every answer brings the pairing nearer to its end, so it ends.
pub proof fn lemma_pairing_ends(flow: PairFlow, event: PairEvent)
    requires
        answers(flow.phase, event),
    ensures
        steps_left(flow.next(event)) < steps_left(flow.phase),
{
}

/// A saved record is removed only after it could not be read, or after the device
/// was reached and the record did not hold. A device that cannot be reached costs
/// no record.
pub proof fn lemma_record_removed_only_when_useless(flow: PairFlow, event: PairEvent)
    ensures
        flow.next(event) is RemoveUnreadable && !(flow.phase is RemoveUnreadable)
            ==> flow.phase is ReadCache && event == PairEvent::Read(false),
        flow.next(event) is RemoveStale && !(flow.phase is RemoveStale)
            ==> flow.phase is CheckStale && event == PairEvent::Found(true),
        flow.next(event) is CheckStale && !(flow.phase is CheckStale) ==> flow.phase is Verify
            && event == PairEvent::Verified(false),
        flow.next(event) is Verify && !(flow.phase is Verify) ==> flow.phase is Reconnect && (
        event matches PairEvent::Connected(Ok(_))),
{
}

/// A new pairing is begun only where the device offers to pair, on a connection to
/// that offer, and only once neither a saved record nor one of another tool will
/// do.
pub proof fn lemma_new_pairing_is_last_resort(flow: PairFlow, event: PairEvent)
    ensures
        flow.next(event) is Pair && !(flow.phase is Pair) ==> flow.phase is Connect && (
        event matches PairEvent::Connected(Ok(_))),
        flow.next(event) is Connect && !(flow.phase is Connect) ==> flow.pairing_address is Some
            && (flow.phase is Import || flow.phase is ImportAfterStale) && event
            == PairEvent::Imported(Ok(false)),
{
}

/// A pairing is done only once its record has been saved: one that was checked, a
/// new one, or one of another tool.
pub proof fn lemma_done_only_with_saved_record(flow: PairFlow, event: PairEvent)
    ensures
        flow.next(event) is Done && !(flow.phase is Done) ==> {
            ||| flow.phase is SaveReconnected && (event matches PairEvent::Saved(Ok(_)))
            ||| flow.phase is SavePaired && (event matches PairEvent::Saved(Ok(_)))
            ||| (flow.phase is Import || flow.phase is ImportAfterStale) && event
                == PairEvent::Imported(Ok(true))
        },
        flow.next(event) is SaveReconnected && !(flow.phase is SaveReconnected)
            ==> flow.phase is Verify && event == PairEvent::Verified(true),
        flow.next(event) is SavePaired && !(flow.phase is SavePaired) ==> flow.phase is Pair
            && event == PairEvent::Paired(Ok(PairingStage::Paired)),
{
}

impl PairFlow {
    /// The pairing after some events.
    pub open spec fn after(self, events: Seq<PairEvent>) -> PairFlow
        decreases events.len(),
    {
        if events.len() == 0 {
            self
        } else {
            let before = self.after(events.drop_last());
            PairFlow { phase: before.next(events.last()), ..before }
        }
    }
}

/// Once a saved record has been found to hold, nothing that happens later leads to
/// a new pairing, and so to a PIN.
pub proof fn lemma_record_that_holds_needs_no_pin(flow: PairFlow, events: Seq<PairEvent>)
    requires
        flow.phase is Verify,
        events.len() > 0,
        events[0] == PairEvent::Verified(true),
    ensures
        ({
            let phase = flow.after(events).phase;
            phase is SaveReconnected || phase is Done || phase is Failed
        }),
    decreases events.len(),
{
    let earlier = events.drop_last();
    if earlier.len() > 0 {
        lemma_record_that_holds_needs_no_pin(flow, earlier);
    } else {
        assert(flow.after(earlier) == flow);
    }
}

/// Whatever happens, the addresses stay those of the device, and the next step has
/// the address that it takes.
pub proof fn lemma_pairing_stays_well_formed(flow: PairFlow, events: Seq<PairEvent>)
    requires
        flow.wf(),
    ensures
        flow.after(events).wf(),
        flow.after(events).pairing_address == flow.pairing_address,
        flow.after(events).reconnect_address == flow.reconnect_address,
    decreases events.len(),
{
    if events.len() > 0 {
        lemma_pairing_stays_well_formed(flow, events.drop_last());
    }
}

impl PairFlow {
    /// The pairing after one event.
    pub open spec fn following(self, event: PairEvent) -> PairFlow {
        PairFlow { phase: self.next(event), ..self }
    }
}

/// A record of another tool that was taken over ends the pairing well, wherever it
/// was tried, and so does a record that has been saved.
pub proof fn lemma_record_at_hand_ends_pairing_well(flow: PairFlow)
    ensures
        flow.phase is Import || flow.phase is ImportAfterStale ==> flow.next(
            PairEvent::Imported(Ok(true)),
        ) is Done,
        flow.phase is SaveReconnected || flow.phase is SavePaired ==> flow.next(
            PairEvent::Saved(Ok(())),
        ) is Done,
{
}

/// A saved record is tried wherever the device has an address. One that holds is
/// saved again and the pairing is done.
pub proof fn lemma_saved_record_is_tried(flow: PairFlow)
    requires
        flow.phase is CheckCache,
    ensures
        ({
            let found = flow.following(PairEvent::Found(true));
            let read = found.following(PairEvent::Read(true));
            let reached = read.following(PairEvent::Connected(Ok(())));
            let held = reached.following(PairEvent::Verified(true));
            &&& found.phase is ReadCache
            &&& flow.reconnect_address is Some || flow.pairing_address is Some ==> {
                &&& read.phase is Reconnect
                &&& reached.phase is Verify
                &&& held.phase is SaveReconnected
                &&& held.following(PairEvent::Saved(Ok(()))).phase is Done
            }
            &&& flow.reconnect_address is None && flow.pairing_address is None
                ==> read.phase is Failed
        }),
{
}

/// A record that cannot be read is removed and one that is not there is done
/// without: either way the records of other tools are tried next.
pub proof fn lemma_without_readable_record_others_are_tried(flow: PairFlow)
    requires
        flow.phase is CheckCache,
    ensures
        ({
            let found = flow.following(PairEvent::Found(true));
            let unreadable = found.following(PairEvent::Read(false));
            &&& flow.following(PairEvent::Found(false)).phase is Import
            &&& unreadable.phase is RemoveUnreadable
            &&& unreadable.following(PairEvent::Removed).phase is Import
        }),
{
}

/// A record that does not hold is removed where it is still there, and either way
/// the records of other tools are tried next.
pub proof fn lemma_stale_record_is_replaced(flow: PairFlow)
    requires
        flow.phase is Verify,
    ensures
        ({
            let refused = flow.following(PairEvent::Verified(false));
            let there = refused.following(PairEvent::Found(true));
            &&& refused.phase is CheckStale
            &&& there.phase is RemoveStale
            &&& there.following(PairEvent::Removed).phase is ImportAfterStale
            &&& refused.following(PairEvent::Found(false)).phase is ImportAfterStale
        }),
{
}

/// Where no record of another tool holds, the device is paired anew if it offers to,
/// and the new record is saved; otherwise the pairing fails.
pub proof fn lemma_without_any_record_pairs_anew(flow: PairFlow)
    requires
        flow.phase is Import || flow.phase is ImportAfterStale,
    ensures
        ({
            let none = flow.following(PairEvent::Imported(Ok(false)));
            let reached = none.following(PairEvent::Connected(Ok(())));
            let paired = reached.following(PairEvent::Paired(Ok(PairingStage::Paired)));
            if flow.pairing_address is Some {
                &&& none.phase is Connect
                &&& reached.phase is Pair
                &&& paired.phase is SavePaired
                &&& paired.following(PairEvent::Saved(Ok(()))).phase is Done
            } else {
                none.phase is Failed
            }
        }),
{
}

/// A step that goes wrong ends the pairing: an import or a saving that fails, a device
/// that cannot be reached, and a pairing that brings about nothing new.
pub proof fn lemma_failures_end_pairing(flow: PairFlow, event: PairEvent)
    requires
        match flow.phase {
            PairPhase::Import | PairPhase::ImportAfterStale => event matches PairEvent::Imported(
                Err(_),
            ),
            PairPhase::Reconnect | PairPhase::Connect => event matches PairEvent::Connected(
                Err(_),
            ),
            PairPhase::Pair => (event matches PairEvent::Paired(Err(_))) || event
                == PairEvent::Paired(Ok(PairingStage::Reconnected)),
            PairPhase::SaveReconnected | PairPhase::SavePaired => event matches PairEvent::Saved(
                Err(_),
            ),
            _ => false,
        },
    ensures
        flow.next(event) is Failed,
{
}

/// What ends the pairing is told as it came: an error that is handed in comes out;
/// of a device that cannot be reached, its address and the reason are told; and each
/// lack has its own message.
pub proof fn lemma_pairing_error_tells_cause(flow: PairFlow, event: PairEvent, error: Error)
    requires
        flow.fails_with(event, error),
    ensures
        match event {
            PairEvent::Read(_) => error.says(
                "Apple TV pairing record is stale and no pairing service is currently advertised"@,
            ),
            PairEvent::Imported(Err(cause)) => error == cause,
            PairEvent::Imported(Ok(_)) => error.says(
                if flow.phase is Import {
                    "Apple TV is not advertising its manual-pairing service; open Settings > Remotes and Devices > Remote App and Devices and wait for \"Waiting to Pair...\", then scan again"@
                } else {
                    "Apple TV pairing requires its manual-pairing service. On the Apple TV, open Settings > Remotes and Devices > Remote App and Devices and wait for \"Waiting to Pair...\", then scan again."@
                },
            ),
            PairEvent::Connected(Err(failure)) => (error matches Error::Other(text)
                && if flow.phase is Reconnect {
                &&& ("Failed to reconnect to Apple TV at "@ + failure.address@).is_prefix_of(text@)
                &&& (failure.reason@
                    + "; scan again if the device changed its advertised address"@).is_suffix_of(
                    text@,
                )
            } else {
                &&& ("Failed to connect to Apple TV at "@ + failure.address@).is_prefix_of(text@)
                &&& (failure.reason@
                    + ". The manual-pairing port changes each time the Apple TV re-advertises, so a stale scan result will not connect - scan again immediately before pairing."@).is_suffix_of(
                    text@,
                )
            }),
            PairEvent::Paired(Err(failure)) => error.says(failure_text(failure)),
            PairEvent::Paired(Ok(_)) => error.says(
                "Apple TV pairing did not complete a new pairing"@,
            ),
            PairEvent::Saved(saved) => saved == Result::<(), Error>::Err(error),
            _ => false,
        },
{
    if let PairEvent::Connected(Err(failure)) = event {
        let (text, start, end) = if flow.phase is Reconnect {
            (
                reconnect_failure_text(failure),
                "Failed to reconnect to Apple TV at "@ + failure.address@,
                failure.reason@ + "; scan again if the device changed its advertised address"@,
            )
        } else {
            (
                connect_failure_text(failure),
                "Failed to connect to Apple TV at "@ + failure.address@,
                failure.reason@
                    + ". The manual-pairing port changes each time the Apple TV re-advertises, so a stale scan result will not connect - scan again immediately before pairing."@,
            )
        };
        assert(text.subrange(0, start.len() as int) =~= start);
        assert(text.subrange(text.len() - end.len(), text.len() as int) =~= end);
    }
}

/// The device is reached where it takes saved records, if it does, and only else
/// where it offers to pair.
pub proof fn lemma_reconnect_address_comes_first(
    reconnect: (IpAddr, u16),
    pairing: Option<(IpAddr, u16)>,
)
    ensures
        first_address(Some(reconnect), pairing) == Some(reconnect),
        first_address(None, pairing) == pairing,
{
}

/// An event that the step at hand cannot come to changes nothing, and nothing comes
/// after the end.
pub proof fn lemma_pairing_ignores_other_events(flow: PairFlow, event: PairEvent)
    ensures
        flow.phase is Done || flow.phase is Failed ==> flow.next(event) == flow.phase,
        !answers(flow.phase, event) ==> flow.next(event) == flow.phase,
{
}

/// What is said of a device that cannot be reached names its address and the reason,
/// and what to do, which differs by what it was to be reached for.
pub proof fn lemma_unreached_device_is_told(flow: PairFlow, failure: ConnectFailure, error: Error)
    requires
        flow.fails_with(PairEvent::Connected(Err(failure)), error),
    ensures
        flow.phase is Reconnect || flow.phase is Connect,
        flow.phase is Reconnect ==> error.says(
            "Failed to reconnect to Apple TV at "@ + failure.address@ + ": "@ + failure.reason@
                + "; scan again if the device changed its advertised address"@,
        ),
        flow.phase is Connect ==> error.says(
            "Failed to connect to Apple TV at "@ + failure.address@ + ": "@ + failure.reason@
                + ". The manual-pairing port changes each time the Apple TV re-advertises, so a stale scan result will not connect - scan again immediately before pairing."@,
        ),
{
}

} // verus!
