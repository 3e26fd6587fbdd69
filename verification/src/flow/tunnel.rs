//! Opening a tunnel to a device with a saved pairing record.
use vstd::prelude::*;
use crate::error::{other, Error};
use crate::flow::pair::{first_address, ConnectFailure};
use crate::net::IpAddr;

verus! {

/// What to do next on the way to a tunnel.
#[derive(Debug, Clone, Copy, PartialEq, Eq, Structural)]
pub enum TunnelPhase {
    /// See whether there is a saved record.
    CheckCache,
    /// Read the saved record.
    ReadCache,
    /// Try the records of other tools, there being no saved one.
    ImportFirst,
    /// Connect to the device.
    Connect,
    /// Show the device that this host has the record.
    Verify,
    /// Check that the device still knows the record.
    Validate,
    /// Have the device listen for a tunnel.
    Listen,
    /// Connect to where the device listens.
    ConnectTunnel,
    /// Secure that connection.
    Handshake,
    /// Remove the saved record, which does not hold.
    RemoveStale,
    /// Try the records of other tools in place of the one that does not hold.
    ImportAgain,
    /// Read the address of this end of the tunnel.
    ReadClientAddress,
    /// Read the address of the device's end of the tunnel.
    ReadServerAddress,
    /// Connect to the device's list of services.
    ConnectRsd,
    /// Read the device's list of services.
    HandshakeRsd,
    /// Nothing: the tunnel is open.
    Done,
    /// Nothing: there is no tunnel.
    Failed,
}

/// What came of a step.
#[derive(Debug)]
pub enum TunnelEvent {
    /// Whether there is a saved record.
    Found(bool),
    Read(Result<(), Error>),
    /// Whether a record of another tool was taken over and saved.
    Imported(Result<bool, Error>),
    Connected(Result<(), ConnectFailure>),
    /// Whether the step was done, with the text of the error where it was not.
    Finished(Result<(), String>),
    /// The saved record has been removed, or could not be.
    Removed,
}

pub const NO_NETWORK_ADDRESS: &'static str = "Device has no network address";

pub const NO_RECORD: &'static str =
    "No pairing record is cached for this Apple TV; pair before reconnecting";

/// What is said of a device that could not be reached.
pub open spec fn tunnel_connect_failure_text(failure: ConnectFailure) -> Seq<char> {
    "Could not connect to Apple TV at "@ + failure.address@ + ": "@ + failure.reason@
}

impl TunnelPhase {
    /// What is said of a step that failed, before the reason.
    pub open spec fn failure_start(self) -> Seq<char> {
        match self {
            TunnelPhase::Verify => "Pair-verify failed: "@,
            TunnelPhase::Validate =>
                "This Apple TV no longer recognizes this pairing (it may have been reset, forgotten, or lost pairing after a system update); pair with it again: "@,
            TunnelPhase::Listen => "Failed to create tunnel listener: "@,
            TunnelPhase::ConnectTunnel => "TLS tunnel connect failed: "@,
            TunnelPhase::Handshake => "TLS-PSK tunnel handshake failed: "@,
            TunnelPhase::ReadClientAddress => "Invalid tunnel client address: "@,
            TunnelPhase::ReadServerAddress => "Invalid tunnel server address: "@,
            TunnelPhase::ConnectRsd => "RSD connection failed: "@,
            _ => "RSD handshake failed: "@,
        }
    }

    fn failure_label(self) -> (r: &'static str)
        ensures
            r@ == self.failure_start(),
    {
        match self {
            TunnelPhase::Verify => "Pair-verify failed: ",
            TunnelPhase::Validate =>
                "This Apple TV no longer recognizes this pairing (it may have been reset, forgotten, or lost pairing after a system update); pair with it again: ",
            TunnelPhase::Listen => "Failed to create tunnel listener: ",
            TunnelPhase::ConnectTunnel => "TLS tunnel connect failed: ",
            TunnelPhase::Handshake => "TLS-PSK tunnel handshake failed: ",
            TunnelPhase::ReadClientAddress => "Invalid tunnel client address: ",
            TunnelPhase::ReadServerAddress => "Invalid tunnel server address: ",
            TunnelPhase::ConnectRsd => "RSD connection failed: ",
            _ => "RSD handshake failed: ",
        }
    }

    /// Whether the step is one that is finished or fails with a reason.
    pub open spec fn is_plain(self) -> bool {
        match self {
            TunnelPhase::Verify
            | TunnelPhase::Validate
            | TunnelPhase::Listen
            | TunnelPhase::ConnectTunnel
            | TunnelPhase::Handshake
            | TunnelPhase::ReadClientAddress
            | TunnelPhase::ReadServerAddress
            | TunnelPhase::ConnectRsd
            | TunnelPhase::HandshakeRsd => true,
            _ => false,
        }
    }

    /// Whether a failure of the step means that the record does not hold.
    pub open spec fn checks_record(self) -> bool {
        self is Verify || self is Validate
    }

    /// The step that follows where this one is finished.
    pub open spec fn following(self) -> TunnelPhase {
        match self {
            TunnelPhase::Verify => TunnelPhase::Validate,
            TunnelPhase::Validate => TunnelPhase::Listen,
            TunnelPhase::Listen => TunnelPhase::ConnectTunnel,
            TunnelPhase::ConnectTunnel => TunnelPhase::Handshake,
            TunnelPhase::Handshake => TunnelPhase::ReadClientAddress,
            TunnelPhase::ReadClientAddress => TunnelPhase::ReadServerAddress,
            TunnelPhase::ReadServerAddress => TunnelPhase::ConnectRsd,
            TunnelPhase::ConnectRsd => TunnelPhase::HandshakeRsd,
            _ => TunnelPhase::Done,
        }
    }

    fn follow(self) -> (r: TunnelPhase)
        ensures
            r == self.following(),
    {
        match self {
            TunnelPhase::Verify => TunnelPhase::Validate,
            TunnelPhase::Validate => TunnelPhase::Listen,
            TunnelPhase::Listen => TunnelPhase::ConnectTunnel,
            TunnelPhase::ConnectTunnel => TunnelPhase::Handshake,
            TunnelPhase::Handshake => TunnelPhase::ReadClientAddress,
            TunnelPhase::ReadClientAddress => TunnelPhase::ReadServerAddress,
            TunnelPhase::ReadServerAddress => TunnelPhase::ConnectRsd,
            TunnelPhase::ConnectRsd => TunnelPhase::HandshakeRsd,
            _ => TunnelPhase::Done,
        }
    }
}

/// The state of the way to a tunnel.
pub struct TunnelView {
    /// Where the device is.
    pub address: (IpAddr, u16),
    /// Whether the records of other tools may still be tried in place of the saved
    /// one.
    pub can_try_external: bool,
    pub phase: TunnelPhase,
    /// What is said of the saved record that does not hold, while others are tried.
    pub refused: Option<Seq<char>>,
}

impl TunnelView {
    /// The state after an event. An event that belongs to another step changes
    /// nothing.
    pub open spec fn next(self, event: TunnelEvent) -> TunnelView {
        match (self.phase, event) {
            (TunnelPhase::CheckCache, TunnelEvent::Found(found)) => TunnelView {
                phase: if found {
                    TunnelPhase::ReadCache
                } else {
                    TunnelPhase::ImportFirst
                },
                ..self
            },
            (TunnelPhase::ReadCache, TunnelEvent::Read(read)) => if read is Ok {
                TunnelView { can_try_external: true, phase: TunnelPhase::Connect, ..self }
            } else {
                TunnelView { phase: TunnelPhase::Failed, ..self }
            },
            (TunnelPhase::ImportFirst, TunnelEvent::Imported(imported)) => TunnelView {
                phase: if imported == Result::<bool, Error>::Ok(true) {
                    TunnelPhase::Connect
                } else {
                    TunnelPhase::Failed
                },
                ..self
            },
            (TunnelPhase::Connect, TunnelEvent::Connected(connected)) => TunnelView {
                phase: if connected is Ok {
                    TunnelPhase::Verify
                } else {
                    TunnelPhase::Failed
                },
                ..self
            },
            (TunnelPhase::RemoveStale, TunnelEvent::Removed) => TunnelView {
                phase: TunnelPhase::ImportAgain,
                ..self
            },
            (TunnelPhase::ImportAgain, TunnelEvent::Imported(imported)) => TunnelView {
                phase: if imported == Result::<bool, Error>::Ok(true) {
                    TunnelPhase::Connect
                } else {
                    TunnelPhase::Failed
                },
                refused: if imported is Ok {
                    None
                } else {
                    self.refused
                },
                ..self
            },
            (phase, TunnelEvent::Finished(finished)) => if !phase.is_plain() {
                self
            } else if finished is Ok {
                TunnelView { phase: phase.following(), ..self }
            } else if phase.checks_record() && self.can_try_external {
                TunnelView {
                    can_try_external: false,
                    phase: TunnelPhase::RemoveStale,
                    refused: Some(phase.failure_start() + finished->Err_0@),
                    ..self
                }
            } else {
                TunnelView { phase: TunnelPhase::Failed, ..self }
            },
            _ => self,
        }
    }
}

/// The way to a tunnel: where the device is, and what to do next.
#[derive(Debug)]
pub struct TunnelFlow {
    pub address: (IpAddr, u16),
    pub can_try_external: bool,
    pub phase: TunnelPhase,
    /// Why the saved record does not hold, while others are tried.
    pub refused: Option<Error>,
}

impl View for TunnelFlow {
    type V = TunnelView;

    open spec fn view(&self) -> TunnelView {
        TunnelView {
            address: self.address,
            can_try_external: self.can_try_external,
            phase: self.phase,
            refused: match self.refused {
                Some(Error::Other(text)) => Some(text@),
                _ => None,
            },
        }
    }
}

impl TunnelFlow {
    /// While other records are tried, it is known in words why the saved one does not
    /// hold.
    pub open spec fn wf(self) -> bool {
        &&& self.phase is RemoveStale || self.phase is ImportAgain ==> self.refused is Some
        &&& self.refused is Some ==> self.refused->0 is Other
    }

    /// Whether this is the error that an event which ends the way comes to.
    pub open spec fn fails_with(self, event: TunnelEvent, error: Error) -> bool {
        match (self.phase, event) {
            (TunnelPhase::ReadCache, TunnelEvent::Read(Err(cause))) => error == cause,
            (TunnelPhase::ImportFirst, TunnelEvent::Imported(Err(cause))) => error == cause,
            (TunnelPhase::ImportFirst, TunnelEvent::Imported(Ok(_))) => error.says(NO_RECORD@),
            (TunnelPhase::Connect, TunnelEvent::Connected(Err(failure))) => error.says(
                tunnel_connect_failure_text(failure),
            ),
            (TunnelPhase::ImportAgain, TunnelEvent::Imported(Err(cause))) => error == cause,
            (TunnelPhase::ImportAgain, TunnelEvent::Imported(Ok(_))) => self@.refused is Some
                && error.says(self@.refused->0),
            (phase, TunnelEvent::Finished(Err(reason))) => error.says(
                phase.failure_start() + reason@,
            ),
            _ => false,
        }
    }

    /// Begins where the device takes saved records, else where it offers to pair.
    pub fn start(
        pairing_address: Option<(IpAddr, u16)>,
        reconnect_address: Option<(IpAddr, u16)>,
    ) -> (r: Result<TunnelFlow, Error>)
        ensures
            match first_address(reconnect_address, pairing_address) {
                Some(address) => r is Ok && r->Ok_0 == (TunnelFlow {
                    address,
                    can_try_external: false,
                    phase: TunnelPhase::CheckCache,
                    refused: None,
                }),
                None => r is Err && r->Err_0.says(NO_NETWORK_ADDRESS@),
            },
    {
        let address: Option<(IpAddr, u16)> = if reconnect_address.is_some() {
            reconnect_address
        } else {
            pairing_address
        };
        match address {
            Some(address) => Ok(
                TunnelFlow {
                    address,
                    can_try_external: false,
                    phase: TunnelPhase::CheckCache,
                    refused: None,
                },
            ),
            None => Err(other(NO_NETWORK_ADDRESS)),
        }
    }

    fn go(&mut self, phase: TunnelPhase) -> (r: Result<(), Error>)
        ensures
            *final(self) == (TunnelFlow { phase, ..*old(self) }),
            r is Ok,
    {
        self.phase = phase;
        Ok(())
    }

    fn fail(&mut self, error: Error) -> (r: Result<(), Error>)
        ensures
            *final(self) == (TunnelFlow { phase: TunnelPhase::Failed, ..*old(self) }),
            r == Result::<(), Error>::Err(error),
    {
        self.phase = TunnelPhase::Failed;
        Err(error)
    }

    /// Takes in that a step which can fail for a reason was finished or was not.
    fn finish(&mut self, finished: Result<(), String>) -> (r: Result<(), Error>)
        requires
            old(self).wf(),
            old(self).phase.is_plain(),
        ensures
            final(self).wf(),
            final(self)@ == old(self)@.next(TunnelEvent::Finished(finished)),
            r is Err <==> final(self).phase is Failed,
            r is Err ==> old(self).fails_with(TunnelEvent::Finished(finished), r->Err_0),
    {
        match finished {
            Ok(_) => self.go(self.phase.follow()),
            Err(reason) => {
                let mut text = self.phase.failure_label().to_string();
                text.append(reason.as_str());
                let error = Error::Other(text);
                let checks_record = match self.phase {
                    TunnelPhase::Verify | TunnelPhase::Validate => true,
                    _ => false,
                };
                if checks_record && self.can_try_external {
                    self.can_try_external = false;
                    self.refused = Some(error);
                    self.go(TunnelPhase::RemoveStale)
                } else {
                    self.fail(error)
                }
            },
        }
    }

    /// Takes in what came of a step, and gives the error that ends the way where it
    /// does.
    pub fn advance(&mut self, event: TunnelEvent) -> (r: Result<(), Error>)
        requires
            old(self).wf(),
        ensures
            final(self).wf(),
            final(self)@ == old(self)@.next(event),
            r is Err <==> final(self).phase is Failed && !(old(self).phase is Failed),
            r is Err ==> old(self).fails_with(event, r->Err_0),
    {
        match (self.phase, event) {
            (TunnelPhase::CheckCache, TunnelEvent::Found(found)) => self.go(
                if found {
                    TunnelPhase::ReadCache
                } else {
                    TunnelPhase::ImportFirst
                },
            ),
            (TunnelPhase::ReadCache, TunnelEvent::Read(read)) => match read {
                Ok(_) => {
                    self.can_try_external = true;
                    self.go(TunnelPhase::Connect)
                },
                Err(error) => self.fail(error),
            },
            (TunnelPhase::ImportFirst, TunnelEvent::Imported(imported)) => match imported {
                Ok(true) => self.go(TunnelPhase::Connect),
                Ok(false) => self.fail(other(NO_RECORD)),
                Err(error) => self.fail(error),
            },
            (TunnelPhase::Connect, TunnelEvent::Connected(connected)) => match connected {
                Ok(_) => self.go(TunnelPhase::Verify),
                Err(failure) => {
                    let mut text = "Could not connect to Apple TV at ".to_string();
                    text.append(failure.address.as_str());
                    text.append(": ");
                    text.append(failure.reason.as_str());
                    self.fail(Error::Other(text))
                },
            },
            (TunnelPhase::RemoveStale, TunnelEvent::Removed) => self.go(TunnelPhase::ImportAgain),
            (TunnelPhase::ImportAgain, TunnelEvent::Imported(imported)) => match imported {
                Ok(true) => {
                    self.refused = None;
                    self.go(TunnelPhase::Connect)
                },
                Ok(false) => {
                    let error = self.refused.take().unwrap();
                    self.fail(error)
                },
                Err(error) => self.fail(error),
            },
            (
                TunnelPhase::Verify
                | TunnelPhase::Validate
                | TunnelPhase::Listen
                | TunnelPhase::ConnectTunnel
                | TunnelPhase::Handshake
                | TunnelPhase::ReadClientAddress
                | TunnelPhase::ReadServerAddress
                | TunnelPhase::ConnectRsd
                | TunnelPhase::HandshakeRsd,
                TunnelEvent::Finished(finished),
            ) => self.finish(finished),
            _ => Ok(()),
        }
    }
}

/// What the headers leave of a packet of some length.
pub open spec fn left_by_headers(mtu: int) -> int {
    if mtu >= 60 {
        mtu - 60
    } else {
        0
    }
}

/// What of a packet in the tunnel the headers leave.
pub fn tunnel_mss(mtu: usize) -> (r: usize)
    ensures
        r == left_by_headers(mtu as int),
        r == (if mtu >= 60 {
            mtu - 60
        } else {
            0
        }),
{
    mtu.saturating_sub(60)
}

// ---------------------------------------------------------------- laws

impl TunnelView {
    /// A bound on the steps that are left.
    pub open spec fn steps_left(self) -> nat {
        let while_external: nat = if self.can_try_external {
            20
        } else {
            0
        };
        match self.phase {
            TunnelPhase::CheckCache => 60,
            TunnelPhase::ReadCache => 40,
            TunnelPhase::ImportFirst => 16 + while_external,
            TunnelPhase::RemoveStale => 15 + while_external,
            TunnelPhase::ImportAgain => 14 + while_external,
            TunnelPhase::Connect => 10 + while_external,
            TunnelPhase::Verify => 9 + while_external,
            TunnelPhase::Validate => 8 + while_external,
            TunnelPhase::Listen => 7 + while_external,
            TunnelPhase::ConnectTunnel => 6 + while_external,
            TunnelPhase::Handshake => 5 + while_external,
            TunnelPhase::ReadClientAddress => 4 + while_external,
            TunnelPhase::ReadServerAddress => 3 + while_external,
            TunnelPhase::ConnectRsd => 2 + while_external,
            TunnelPhase::HandshakeRsd => 1 + while_external,
            TunnelPhase::Done => 0,
            TunnelPhase::Failed => 0,
        }
    }

    /// Whether an event is one that the next step can come to.
    pub open spec fn is_answered_by(self, event: TunnelEvent) -> bool {
        match self.phase {
            TunnelPhase::CheckCache => event is Found,
            TunnelPhase::ReadCache => event is Read,
            TunnelPhase::ImportFirst | TunnelPhase::ImportAgain => event is Imported,
            TunnelPhase::Connect => event is Connected,
            TunnelPhase::RemoveStale => event is Removed,
            TunnelPhase::Done | TunnelPhase::Failed => false,
            _ => event is Finished,
        }
    }

    /// The state after some events.
    pub open spec fn after(self, events: Seq<TunnelEvent>) -> TunnelView
        decreases events.len(),
    {
        if events.len() == 0 {
            self
        } else {
            self.after(events.drop_last()).next(events.last())
        }
    }
}

/// Every answer brings the way nearer to its end, so it ends.
pub proof fn lemma_tunnel_ends(tunnel: TunnelView, event: TunnelEvent)
    requires
        tunnel.is_answered_by(event),
    ensures
        tunnel.next(event).steps_left() < tunnel.steps_left(),
{
}

/// Whatever happens, the way leads to the device that it began with.
pub proof fn lemma_tunnel_keeps_address(tunnel: TunnelView, events: Seq<TunnelEvent>)
    ensures
        tunnel.after(events).address == tunnel.address,
    decreases events.len(),
{
    if events.len() > 0 {
        lemma_tunnel_keeps_address(tunnel, events.drop_last());
    }
}

/// The saved record is removed only after the device was reached and the record
/// did not hold. A device that cannot be reached, or a tunnel that cannot be
/// opened, costs no record.
pub proof fn lemma_tunnel_removes_only_refused_record(tunnel: TunnelView, event: TunnelEvent)
    ensures
        tunnel.next(event).phase is RemoveStale && !(tunnel.phase is RemoveStale) ==> {
            &&& tunnel.phase is Verify || tunnel.phase is Validate
            &&& event matches TunnelEvent::Finished(Err(_))
            &&& tunnel.can_try_external
        },
        tunnel.next(event).can_try_external && !tunnel.can_try_external
            ==> tunnel.phase is ReadCache && (event matches TunnelEvent::Read(Ok(_))),
{
}

/// The saved record is removed at most once: after it has been, whatever happens
/// does not lead there again, and neither does anything that happens with a
/// record of another tool.
pub proof fn lemma_tunnel_removes_once(tunnel: TunnelView, events: Seq<TunnelEvent>)
    requires
        !tunnel.can_try_external,
        !(tunnel.phase is CheckCache),
        !(tunnel.phase is ReadCache),
        !(tunnel.phase is RemoveStale),
    ensures
        !tunnel.after(events).can_try_external,
        !(tunnel.after(events).phase is CheckCache),
        !(tunnel.after(events).phase is ReadCache),
        !(tunnel.after(events).phase is RemoveStale),
    decreases events.len(),
{
    if events.len() > 0 {
        lemma_tunnel_removes_once(tunnel, events.drop_last());
    }
}

/// A tunnel is opened only on a connection on which the record was shown and found
/// to be known.
pub proof fn lemma_tunnel_needs_record_that_holds(tunnel: TunnelView, event: TunnelEvent)
    ensures
        tunnel.next(event).phase is Listen && !(tunnel.phase is Listen)
            ==> tunnel.phase is Validate && (event matches TunnelEvent::Finished(Ok(_))),
        tunnel.next(event).phase is Validate && !(tunnel.phase is Validate)
            ==> tunnel.phase is Verify && (event matches TunnelEvent::Finished(Ok(_))),
        tunnel.next(event).phase is Verify && !(tunnel.phase is Verify)
            ==> tunnel.phase is Connect && (event matches TunnelEvent::Connected(Ok(_))),
        tunnel.next(event).phase is Done && !(tunnel.phase is Done)
            ==> tunnel.phase is HandshakeRsd && (event matches TunnelEvent::Finished(Ok(_))),
{
}

/// A record that the device refuses, in either of the two checks, is removed while
/// it is the saved one, and the records of other tools are tried in its place. What
/// is said of the refusal ends in the reason given for it.
pub proof fn lemma_refused_record_is_replaced(tunnel: TunnelView, reason: String)
    requires
        tunnel.phase is Verify || tunnel.phase is Validate,
        tunnel.can_try_external,
    ensures
        ({
            let refused = tunnel.next(TunnelEvent::Finished(Err(reason)));
            let removed = refused.next(TunnelEvent::Removed);
            let replaced = removed.next(TunnelEvent::Imported(Ok(true)));
            &&& refused.phase is RemoveStale
            &&& !refused.can_try_external
            &&& refused.refused is Some
            &&& reason@.is_suffix_of(refused.refused->0)
            &&& removed.phase is ImportAgain
            &&& removed.refused == refused.refused
            &&& replaced.phase is Connect
            &&& replaced.refused is None
            &&& !replaced.can_try_external
        }),
{
    let start = tunnel.phase.failure_start();
    assert((start + reason@).skip(start.len() as int) =~= reason@);
    let text = tunnel.next(TunnelEvent::Finished(Err(reason))).refused->0;
    assert(text.subrange(text.len() - reason@.len(), text.len() as int) =~= reason@);
}

/// Where no other record takes the place of the refused one, the error is the one
/// that the refusal would have ended in without trying any.
pub proof fn lemma_unreplaced_refusal_is_the_error(
    flow: TunnelFlow,
    plain: TunnelFlow,
    later: TunnelFlow,
    reason: String,
    error: Error,
)
    requires
        flow.phase is Verify || flow.phase is Validate,
        flow.can_try_external,
        plain@ == (TunnelView { can_try_external: false, ..flow@ }),
        later@ == flow@.next(TunnelEvent::Finished(Err(reason))).next(TunnelEvent::Removed),
    ensures
        plain@.next(TunnelEvent::Finished(Err(reason))).phase is Failed,
        later@.next(TunnelEvent::Imported(Ok(false))).phase is Failed,
        plain.fails_with(TunnelEvent::Finished(Err(reason)), error) <==> later.fails_with(
            TunnelEvent::Imported(Ok(false)),
            error,
        ),
{
}

/// A failure ends the way, unless it is a refusal of the saved record: the record
/// cannot be read, none is there, saving another fails, the device cannot be reached,
/// any step after the checks fails, or a record of another tool is refused.
pub proof fn lemma_other_failures_end_the_way(tunnel: TunnelView, event: TunnelEvent)
    requires
        match tunnel.phase {
            TunnelPhase::ReadCache => event matches TunnelEvent::Read(Err(_)),
            TunnelPhase::ImportFirst | TunnelPhase::ImportAgain => event
                == TunnelEvent::Imported(Ok(false)) || (event matches TunnelEvent::Imported(
                Err(_),
            )),
            TunnelPhase::Connect => event matches TunnelEvent::Connected(Err(_)),
            TunnelPhase::Verify | TunnelPhase::Validate => !tunnel.can_try_external && (
            event matches TunnelEvent::Finished(Err(_))),
            TunnelPhase::Listen
            | TunnelPhase::ConnectTunnel
            | TunnelPhase::Handshake
            | TunnelPhase::ReadClientAddress
            | TunnelPhase::ReadServerAddress
            | TunnelPhase::ConnectRsd
            | TunnelPhase::HandshakeRsd => event matches TunnelEvent::Finished(Err(_)),
            _ => false,
        },
    ensures
        tunnel.next(event).phase is Failed,
        tunnel.next(event).can_try_external == tunnel.can_try_external,
{
}

/// What ends the way is told as it came: an error that is handed in comes out, and a
/// reason that is handed in ends what is said, which of a device that cannot be
/// reached holds its address too.
pub proof fn lemma_tunnel_error_tells_cause(flow: TunnelFlow, event: TunnelEvent, error: Error)
    requires
        flow.fails_with(event, error),
    ensures
        match event {
            TunnelEvent::Read(read) => read == Result::<(), Error>::Err(error),
            TunnelEvent::Imported(Err(cause)) => error == cause,
            TunnelEvent::Imported(Ok(_)) => if flow.phase is ImportFirst {
                error.says(
                    "No pairing record is cached for this Apple TV; pair before reconnecting"@,
                )
            } else {
                flow@.refused is Some && error.says(flow@.refused->0)
            },
            TunnelEvent::Connected(Err(failure)) => (error matches Error::Other(text)
                && failure.reason@.is_suffix_of(text@) && ("Could not connect to Apple TV at "@
                + failure.address@).is_prefix_of(text@)),
            TunnelEvent::Finished(Err(reason)) => (error matches Error::Other(text)
                && reason@.is_suffix_of(text@)),
            _ => false,
        },
{
    match event {
        TunnelEvent::Connected(Err(failure)) => {
            let text = tunnel_connect_failure_text(failure);
            let start = "Could not connect to Apple TV at "@ + failure.address@;
            assert(text.subrange(0, start.len() as int) =~= start);
            assert(text.subrange(text.len() - failure.reason@.len(), text.len() as int)
                =~= failure.reason@);
        },
        TunnelEvent::Finished(Err(reason)) => {
            let text = flow.phase.failure_start() + reason@;
            assert(text.subrange(text.len() - reason@.len(), text.len() as int) =~= reason@);
        },
        _ => {},
    }
}

/// The steps after the connection follow each other in one order, each once the one
/// before it is done: both checks of the record, the tunnel, its addresses, and the
/// list of services.
pub proof fn lemma_tunnel_steps_in_order(tunnel: TunnelView)
    ensures
        ({
            let done = TunnelEvent::Finished(Ok(()));
            let next = tunnel.next(done);
            &&& tunnel.phase is Verify ==> next.phase is Validate
            &&& tunnel.phase is Validate ==> next.phase is Listen
            &&& tunnel.phase is Listen ==> next.phase is ConnectTunnel
            &&& tunnel.phase is ConnectTunnel ==> next.phase is Handshake
            &&& tunnel.phase is Handshake ==> next.phase is ReadClientAddress
            &&& tunnel.phase is ReadClientAddress ==> next.phase is ReadServerAddress
            &&& tunnel.phase is ReadServerAddress ==> next.phase is ConnectRsd
            &&& tunnel.phase is ConnectRsd ==> next.phase is HandshakeRsd
            &&& tunnel.phase is HandshakeRsd ==> next.phase is Done
            &&& next == (TunnelView { phase: next.phase, ..tunnel })
        }),
{
}

/// A saved record is read and tried, and stays replaceable; without one the records
/// of other tools are tried, and one that was taken over is not replaced again.
pub proof fn lemma_tunnel_begins_with_a_record(tunnel: TunnelView)
    requires
        tunnel.phase is CheckCache,
        !tunnel.can_try_external,
    ensures
        ({
            let found = tunnel.next(TunnelEvent::Found(true));
            let read = found.next(TunnelEvent::Read(Ok(())));
            let missing = tunnel.next(TunnelEvent::Found(false));
            let imported = missing.next(TunnelEvent::Imported(Ok(true)));
            &&& found.phase is ReadCache
            &&& read.phase is Connect
            &&& read.can_try_external
            &&& missing.phase is ImportFirst
            &&& imported.phase is Connect
            &&& !imported.can_try_external
            &&& read.next(TunnelEvent::Connected(Ok(()))).phase is Verify
            &&& imported.next(TunnelEvent::Connected(Ok(()))).phase is Verify
        }),
{
}

/// An event that the step at hand cannot come to changes nothing, and nothing comes
/// after the end.
pub proof fn lemma_tunnel_ignores_other_events(tunnel: TunnelView, event: TunnelEvent)
    ensures
        tunnel.phase is Done || tunnel.phase is Failed ==> tunnel.next(event) == tunnel,
        !tunnel.is_answered_by(event) ==> tunnel.next(event) == tunnel,
{
}

/// What is said of a step that fails names the step and then the reason, also where
/// the way goes on with another record; of a device that cannot be reached it names
/// the address and the reason.
pub proof fn lemma_tunnel_error_names_step(
    flow: TunnelFlow,
    reason: String,
    failure: ConnectFailure,
    error: Error,
)
    ensures
        flow.fails_with(TunnelEvent::Finished(Err(reason)), error) ==> match flow.phase {
            TunnelPhase::Verify => error.says("Pair-verify failed: "@ + reason@),
            TunnelPhase::Validate => error.says(
                "This Apple TV no longer recognizes this pairing (it may have been reset, forgotten, or lost pairing after a system update); pair with it again: "@
                    + reason@,
            ),
            TunnelPhase::Listen => error.says("Failed to create tunnel listener: "@ + reason@),
            TunnelPhase::ConnectTunnel => error.says("TLS tunnel connect failed: "@ + reason@),
            TunnelPhase::Handshake => error.says("TLS-PSK tunnel handshake failed: "@ + reason@),
            TunnelPhase::ReadClientAddress => error.says(
                "Invalid tunnel client address: "@ + reason@,
            ),
            TunnelPhase::ReadServerAddress => error.says(
                "Invalid tunnel server address: "@ + reason@,
            ),
            TunnelPhase::ConnectRsd => error.says("RSD connection failed: "@ + reason@),
            TunnelPhase::HandshakeRsd => error.says("RSD handshake failed: "@ + reason@),
            _ => true,
        },
        flow.fails_with(TunnelEvent::Connected(Err(failure)), error) ==> error.says(
            "Could not connect to Apple TV at "@ + failure.address@ + ": "@ + failure.reason@,
        ),
        flow@.can_try_external && flow.phase is Verify ==> flow@.next(
            TunnelEvent::Finished(Err(reason)),
        ).refused == Some("Pair-verify failed: "@ + reason@),
        flow@.can_try_external && flow.phase is Validate ==> flow@.next(
            TunnelEvent::Finished(Err(reason)),
        ).refused == Some(
            "This Apple TV no longer recognizes this pairing (it may have been reset, forgotten, or lost pairing after a system update); pair with it again: "@
                + reason@,
        ),
{
}

/// The headers take forty bytes and twenty of every packet that holds more, nothing is
/// left of a shorter one, and a longer packet never has less left.
pub proof fn lemma_headers_take_their_share(mtu: int, longer: int)
    requires
        0 <= mtu <= longer,
    ensures
        mtu > 60 ==> left_by_headers(mtu) + 40 + 20 == mtu,
        mtu <= 60 ==> left_by_headers(mtu) == 0,
        left_by_headers(mtu) <= left_by_headers(longer),
{
}

} // verus!
