use std::collections::VecDeque;

use plume_utils::error::Error;
use plume_utils::flow::import::{ImportEvent, ImportFlow, ImportStep};
use plume_utils::flow::pair::{ConnectFailure, PairEvent, PairFlow, PairPhase};
use plume_utils::flow::rsd::{RsdEvent, RsdPhase};
use plume_utils::flow::tunnel::{tunnel_mss, TunnelEvent, TunnelFlow, TunnelPhase};
use plume_utils::net::IpAddr;
use plume_utils::pairing::{
    accept_pin, ensure_pairing, pairing_action, pairing_failure_to_error, pin_failure,
    PairingAction, PairingBackend, PairingFailure, PairingStage,
};

struct MockPairingBackend {
    verify_results: VecDeque<Result<(), PairingFailure>>,
    pair_results: VecDeque<Result<(), PairingFailure>>,
    verify_calls: usize,
    pair_calls: Vec<String>,
}

impl MockPairingBackend {
    fn new(
        verify_results: impl IntoIterator<Item = Result<(), PairingFailure>>,
        pair_results: impl IntoIterator<Item = Result<(), PairingFailure>>,
    ) -> Self {
        Self {
            verify_results: verify_results.into_iter().collect(),
            pair_results: pair_results.into_iter().collect(),
            verify_calls: 0,
            pair_calls: Vec::new(),
        }
    }
}

impl PairingBackend for MockPairingBackend {
    fn verify(&mut self) -> Result<(), PairingFailure> {
        self.verify_calls += 1;
        self.verify_results.pop_front().unwrap_or(Ok(()))
    }

    fn pair(&mut self, pin: &str) -> Result<(), PairingFailure> {
        self.pair_calls.push(pin.to_string());
        self.pair_results.pop_front().unwrap_or(Ok(()))
    }
}

#[test]
fn first_pairing_uses_manual_service_and_pin_once() {
    let mut backend = MockPairingBackend::new([], [Ok(())]);

    let stage = ensure_pairing(&mut backend, false, true, false, || "123456".to_string()).unwrap();

    assert_eq!(stage, PairingStage::Paired);
    assert_eq!(backend.verify_calls, 0);
    assert_eq!(backend.pair_calls, vec!["123456"]);
}

#[test]
fn saved_record_reconnects_without_requesting_pin() {
    let mut backend = MockPairingBackend::new([Ok(())], []);
    let mut requested_pin = false;

    let stage = ensure_pairing(&mut backend, true, false, true, || {
        requested_pin = true;
        "123456".to_string()
    })
    .unwrap();

    assert_eq!(stage, PairingStage::Reconnected);
    assert_eq!(backend.verify_calls, 1);
    assert!(backend.pair_calls.is_empty());
    assert!(!requested_pin);
}

#[test]
fn wrong_pin_is_returned_before_any_installation_step() {
    let mut backend = MockPairingBackend::new([], [Err(PairingFailure::WrongPin)]);

    let error =
        ensure_pairing(&mut backend, false, true, false, || "654321".to_string()).unwrap_err();

    assert_eq!(error, PairingFailure::WrongPin);
    assert_eq!(backend.pair_calls, vec!["654321"]);
}

#[test]
fn cancelled_pin_does_not_call_pairing_backend() {
    let mut backend = MockPairingBackend::new([], []);

    let error = ensure_pairing(&mut backend, false, true, false, String::new).unwrap_err();

    assert_eq!(error, PairingFailure::Cancelled);
    assert!(backend.pair_calls.is_empty());
}

#[test]
fn stale_record_needs_manual_service_before_retrying_pairing() {
    let mut backend = MockPairingBackend::new([Err(PairingFailure::Protocol("stale".into()))], []);

    let error =
        ensure_pairing(&mut backend, true, false, true, || "123456".to_string()).unwrap_err();

    assert_eq!(error, PairingFailure::StaleRecord);
    assert!(backend.pair_calls.is_empty());
}

#[test]
fn disappearing_service_is_not_treated_as_a_pairing_failure() {
    let mut backend = MockPairingBackend::new([], []);

    let error =
        ensure_pairing(&mut backend, false, false, true, || "123456".to_string()).unwrap_err();

    assert_eq!(error, PairingFailure::ServiceDisappeared);
    assert!(backend.pair_calls.is_empty());
}

#[test]
fn a_record_that_does_not_hold_is_paired_anew_where_the_device_offers_to() {
    let mut backend = MockPairingBackend::new([Err(PairingFailure::WrongPin)], [Ok(())]);
    let stage = ensure_pairing(&mut backend, true, true, false, || "000001".to_string()).unwrap();
    assert_eq!(stage, PairingStage::Paired);
    assert_eq!(backend.verify_calls, 1);
    assert_eq!(backend.pair_calls, vec!["000001"]);
}

#[test]
fn a_record_that_holds_is_checked_once_and_no_pin_is_asked_for() {
    for has_reconnect_service in [false, true] {
        let mut backend = MockPairingBackend::new([Ok(())], []);
        let mut requested_pin = false;
        let stage = ensure_pairing(&mut backend, true, true, has_reconnect_service, || {
            requested_pin = true;
            "123456".to_string()
        })
        .unwrap();
        assert_eq!(stage, PairingStage::Reconnected);
        assert_eq!(backend.verify_calls, 1);
        assert!(backend.pair_calls.is_empty());
        assert!(!requested_pin);
    }
}

#[test]
fn the_answer_to_the_pin_is_the_result() {
    let refused = PairingFailure::Protocol("closed".into());
    let mut backend = MockPairingBackend::new([Err(PairingFailure::Cancelled)], [Err(refused.clone())]);
    let error = ensure_pairing(&mut backend, true, true, true, || "987654".to_string()).unwrap_err();
    assert_eq!(error, refused);
    assert_eq!(backend.verify_calls, 1);
    assert_eq!(backend.pair_calls, vec!["987654"]);
}

#[test]
fn without_a_pairing_service_no_pin_is_asked_for() {
    for (has_cached_record, verify_calls, expected) in [
        (true, 1, PairingFailure::StaleRecord),
        (false, 0, PairingFailure::ServiceDisappeared),
    ] {
        let mut backend =
            MockPairingBackend::new([Err(PairingFailure::Protocol("stale".into()))], []);
        let mut requested_pin = false;
        let error = ensure_pairing(&mut backend, has_cached_record, false, true, || {
            requested_pin = true;
            "123456".to_string()
        })
        .unwrap_err();
        assert_eq!(error, expected);
        assert_eq!(backend.verify_calls, verify_calls);
        assert!(backend.pair_calls.is_empty());
        assert!(!requested_pin);
    }
}

#[test]
fn pins_are_six_ascii_digits() {
    assert_eq!(accept_pin("012345".to_string()), Ok("012345".to_string()));
    for pin in ["12345", "1234567", "12345a", " 12345", "\u{661}\u{662}\u{663}"] {
        assert_eq!(accept_pin(pin.to_string()), Err(PairingFailure::InvalidPin));
        let mut backend = MockPairingBackend::new([], []);
        let error =
            ensure_pairing(&mut backend, false, true, true, || pin.to_string()).unwrap_err();
        assert_eq!(error, PairingFailure::InvalidPin);
        assert!(backend.pair_calls.is_empty());
    }
    assert_eq!(accept_pin(String::new()), Err(PairingFailure::Cancelled));
}

#[test]
fn pairing_action_covers_first_pairing_saved_reconnect_stale_and_disappeared_services() {
    assert_eq!(
        pairing_action(false, true, false),
        Ok(PairingAction::FirstPairing)
    );
    assert_eq!(
        pairing_action(true, false, true),
        Ok(PairingAction::Reconnect)
    );
    assert!(pairing_action(true, false, false)
        .unwrap_err()
        .contains("stale"));
    assert!(pairing_action(false, false, true)
        .unwrap_err()
        .contains("manual-pairing"));
}

fn message(error: Error) -> String {
    match error {
        Error::Other(text) => text,
        error => panic!("{error:?}"),
    }
}

#[test]
fn every_pairing_failure_has_its_message() {
    let text = |failure| message(pairing_failure_to_error(failure));
    assert_eq!(text(PairingFailure::Cancelled), "Apple TV pairing was cancelled");
    assert_eq!(
        text(PairingFailure::InvalidPin),
        "Apple TV pairing PIN must contain exactly six digits"
    );
    assert_eq!(text(PairingFailure::WrongPin), "Apple TV rejected the pairing PIN");
    assert_eq!(
        text(PairingFailure::StaleRecord),
        "This Apple TV pairing record is stale; open the Apple TV pairing screen and try again"
    );
    assert_eq!(
        text(PairingFailure::ServiceDisappeared),
        "Apple TV pairing service disappeared; scan again while the pairing screen is open"
    );
    assert_eq!(
        text(pin_failure(false, "closed".to_string())),
        "RPPairing handshake failed: closed"
    );
    assert_eq!(pin_failure(true, "x".to_string()), PairingFailure::WrongPin);
}

const ADDRESS: (IpAddr, u16) = (IpAddr::V4(0x7f00_0001), 49151);
const OTHER: (IpAddr, u16) = (IpAddr::V4(0x7f00_0001), 49152);

fn unreachable_device() -> ConnectFailure {
    ConnectFailure {
        address: "127.0.0.1:49151".to_string(),
        reason: "refused".to_string(),
    }
}

#[test]
fn a_saved_record_that_holds_is_saved_again_and_returned() {
    let mut flow = PairFlow::start(None, Some(ADDRESS));
    assert_eq!(flow.phase, PairPhase::CheckCache);
    flow.advance(PairEvent::Found(true)).unwrap();
    assert_eq!(flow.phase, PairPhase::ReadCache);
    flow.advance(PairEvent::Read(true)).unwrap();
    assert_eq!(flow.phase, PairPhase::Reconnect);
    assert_eq!(flow.record_address(), Some(ADDRESS));
    flow.advance(PairEvent::Connected(Ok(()))).unwrap();
    assert_eq!(flow.phase, PairPhase::Verify);
    flow.advance(PairEvent::Verified(true)).unwrap();
    assert_eq!(flow.phase, PairPhase::SaveReconnected);
    flow.advance(PairEvent::Saved(Ok(()))).unwrap();
    assert_eq!(flow.phase, PairPhase::Done);
    flow.advance(PairEvent::Found(true)).unwrap();
    assert_eq!(flow.phase, PairPhase::Done);
}

#[test]
fn an_unreachable_device_costs_no_record() {
    let mut flow = PairFlow::start(Some(OTHER), Some(ADDRESS));
    flow.advance(PairEvent::Found(true)).unwrap();
    flow.advance(PairEvent::Read(true)).unwrap();
    let error = flow
        .advance(PairEvent::Connected(Err(unreachable_device())))
        .unwrap_err();
    assert_eq!(
        message(error),
        "Failed to reconnect to Apple TV at 127.0.0.1:49151: refused; scan again if the device changed its advertised address"
    );
    assert_eq!(flow.phase, PairPhase::Failed);
}

#[test]
fn a_stale_record_is_removed_and_replaced() {
    let mut flow = PairFlow::start(Some(OTHER), None);
    for event in [
        PairEvent::Found(true),
        PairEvent::Read(true),
        PairEvent::Connected(Ok(())),
        PairEvent::Verified(false),
        PairEvent::Found(true),
    ] {
        flow.advance(event).unwrap();
    }
    assert_eq!(flow.phase, PairPhase::RemoveStale);
    flow.advance(PairEvent::Removed).unwrap();
    assert_eq!(flow.phase, PairPhase::ImportAfterStale);
    flow.advance(PairEvent::Imported(Ok(false))).unwrap();
    assert_eq!(flow.phase, PairPhase::Connect);
    flow.advance(PairEvent::Connected(Ok(()))).unwrap();
    assert_eq!(flow.phase, PairPhase::Pair);
    flow.advance(PairEvent::Paired(Ok(PairingStage::Paired))).unwrap();
    assert_eq!(flow.phase, PairPhase::SavePaired);
    let error = flow
        .advance(PairEvent::Saved(Err(Error::TweakInvalidPath)))
        .unwrap_err();
    assert!(matches!(error, Error::TweakInvalidPath));
    assert_eq!(flow.phase, PairPhase::Failed);
}

#[test]
fn a_stale_record_without_pairing_service_asks_for_the_service() {
    let mut flow = PairFlow::start(None, Some(ADDRESS));
    for event in [
        PairEvent::Found(true),
        PairEvent::Read(true),
        PairEvent::Connected(Ok(())),
        PairEvent::Verified(false),
        PairEvent::Found(false),
    ] {
        flow.advance(event).unwrap();
    }
    assert_eq!(flow.phase, PairPhase::ImportAfterStale);
    assert_eq!(
        message(flow.advance(PairEvent::Imported(Ok(false))).unwrap_err()),
        "Apple TV pairing requires its manual-pairing service. On the Apple TV, open Settings > Remotes and Devices > Remote App and Devices and wait for \"Waiting to Pair...\", then scan again."
    );
}

#[test]
fn an_unreadable_record_is_removed_before_others_are_tried() {
    let mut flow = PairFlow::start(None, None);
    flow.advance(PairEvent::Found(true)).unwrap();
    flow.advance(PairEvent::Read(false)).unwrap();
    assert_eq!(flow.phase, PairPhase::RemoveUnreadable);
    flow.advance(PairEvent::Removed).unwrap();
    assert_eq!(flow.phase, PairPhase::Import);
    assert!(message(flow.advance(PairEvent::Imported(Ok(false))).unwrap_err())
        .contains("manual-pairing"));

    let mut flow = PairFlow::start(None, None);
    flow.advance(PairEvent::Found(true)).unwrap();
    assert!(message(flow.advance(PairEvent::Read(true)).unwrap_err()).contains("stale"));
}

#[test]
fn a_first_pairing_fails_with_what_went_wrong() {
    let begun = || {
        let mut flow = PairFlow::start(Some(OTHER), None);
        flow.advance(PairEvent::Found(false)).unwrap();
        flow.advance(PairEvent::Imported(Ok(false))).unwrap();
        flow
    };
    let mut flow = begun();
    assert_eq!(
        message(
            flow.advance(PairEvent::Connected(Err(unreachable_device())))
                .unwrap_err()
        ),
        "Failed to connect to Apple TV at 127.0.0.1:49151: refused. The manual-pairing port changes each time the Apple TV re-advertises, so a stale scan result will not connect - scan again immediately before pairing."
    );
    let mut flow = begun();
    flow.advance(PairEvent::Connected(Ok(()))).unwrap();
    assert_eq!(
        message(
            flow.advance(PairEvent::Paired(Err(PairingFailure::WrongPin)))
                .unwrap_err()
        ),
        "Apple TV rejected the pairing PIN"
    );
    let mut flow = begun();
    flow.advance(PairEvent::Connected(Ok(()))).unwrap();
    assert_eq!(
        message(
            flow.advance(PairEvent::Paired(Ok(PairingStage::Reconnected)))
                .unwrap_err()
        ),
        "Apple TV pairing did not complete a new pairing"
    );
    let mut flow = PairFlow::start(Some(OTHER), None);
    flow.advance(PairEvent::Found(false)).unwrap();
    flow.advance(PairEvent::Imported(Ok(true))).unwrap();
    assert_eq!(flow.phase, PairPhase::Done);
}

#[test]
fn an_import_takes_the_first_record_that_holds() {
    let mut flow = ImportFlow::start(true, 3);
    assert_eq!(flow.step, ImportStep::Connect(0));
    flow.advance(ImportEvent::Connected(false)).unwrap();
    assert_eq!(flow.step, ImportStep::Connect(1));
    flow.advance(ImportEvent::Connected(true)).unwrap();
    flow.advance(ImportEvent::Verified(false)).unwrap();
    assert_eq!(flow.step, ImportStep::Connect(2));
    flow.advance(ImportEvent::Connected(true)).unwrap();
    flow.advance(ImportEvent::Verified(true)).unwrap();
    assert_eq!(flow.step, ImportStep::Save(2));
    let mut failing = flow;
    flow.advance(ImportEvent::Saved(Ok(()))).unwrap();
    assert_eq!(flow.step, ImportStep::Imported(2));
    assert!(failing
        .advance(ImportEvent::Saved(Err(Error::TweakInvalidPath)))
        .is_err());
    assert_eq!(failing.step, ImportStep::Failed);
}

#[test]
fn an_import_ends_where_nothing_holds() {
    assert_eq!(ImportFlow::start(false, 3).step, ImportStep::Exhausted);
    assert_eq!(ImportFlow::start(true, 0).step, ImportStep::Exhausted);
    let mut flow = ImportFlow::start(true, 1);
    flow.advance(ImportEvent::Connected(true)).unwrap();
    flow.advance(ImportEvent::Verified(false)).unwrap();
    assert_eq!(flow.step, ImportStep::Exhausted);
}

#[test]
fn establish_tvos_tunnel_takes_no_pin_argument() {
    let err = TunnelFlow::start(None, None).unwrap_err();
    assert!(message(err).contains("no network address"));
}

#[test]
fn install_app_network_device_with_no_pairing_file_errors_before_tunnel() {
    let mut flow = TunnelFlow::start(None, Some(ADDRESS)).unwrap();
    flow.advance(TunnelEvent::Found(false)).unwrap();
    assert_eq!(flow.phase, TunnelPhase::ImportFirst);

    let msg = message(flow.advance(TunnelEvent::Imported(Ok(false))).unwrap_err());

    assert!(
        msg.contains("No pairing record is cached"),
        "expected the missing-pairing-file error, got: {msg}"
    );
    assert!(!msg.contains("pairing_cache_dir"));
    assert_eq!(flow.phase, TunnelPhase::Failed);
}

fn tunnel_with_saved_record() -> TunnelFlow {
    let mut flow = TunnelFlow::start(Some(OTHER), Some(ADDRESS)).unwrap();
    assert_eq!(flow.address, ADDRESS);
    flow.advance(TunnelEvent::Found(true)).unwrap();
    flow.advance(TunnelEvent::Read(Ok(()))).unwrap();
    assert_eq!(flow.phase, TunnelPhase::Connect);
    flow
}

#[test]
fn a_tunnel_opens_step_by_step() {
    let mut flow = tunnel_with_saved_record();
    flow.advance(TunnelEvent::Connected(Ok(()))).unwrap();
    for phase in [
        TunnelPhase::Verify,
        TunnelPhase::Validate,
        TunnelPhase::Listen,
        TunnelPhase::ConnectTunnel,
        TunnelPhase::Handshake,
        TunnelPhase::ReadClientAddress,
        TunnelPhase::ReadServerAddress,
        TunnelPhase::ConnectRsd,
        TunnelPhase::HandshakeRsd,
    ] {
        assert_eq!(flow.phase, phase);
        flow.advance(TunnelEvent::Finished(Ok(()))).unwrap();
    }
    assert_eq!(flow.phase, TunnelPhase::Done);
    assert_eq!(tunnel_mss(1280), 1220);
    assert_eq!(tunnel_mss(59), 0);
}

#[test]
fn every_step_of_a_tunnel_says_what_failed() {
    for (done, text) in [
        (2, "Failed to create tunnel listener: x"),
        (3, "TLS tunnel connect failed: x"),
        (4, "TLS-PSK tunnel handshake failed: x"),
        (5, "Invalid tunnel client address: x"),
        (6, "Invalid tunnel server address: x"),
        (7, "RSD connection failed: x"),
        (8, "RSD handshake failed: x"),
    ] {
        let mut flow = tunnel_with_saved_record();
        flow.advance(TunnelEvent::Connected(Ok(()))).unwrap();
        for _ in 0..done {
            flow.advance(TunnelEvent::Finished(Ok(()))).unwrap();
        }
        let error = flow
            .advance(TunnelEvent::Finished(Err("x".to_string())))
            .unwrap_err();
        assert_eq!(message(error), text);
        assert_eq!(flow.phase, TunnelPhase::Failed);
    }
    let mut flow = tunnel_with_saved_record();
    let error = flow
        .advance(TunnelEvent::Connected(Err(unreachable_device())))
        .unwrap_err();
    assert_eq!(
        message(error),
        "Could not connect to Apple TV at 127.0.0.1:49151: refused"
    );
    let mut flow = TunnelFlow::start(Some(OTHER), None).unwrap();
    assert_eq!(flow.address, OTHER);
    flow.advance(TunnelEvent::Found(true)).unwrap();
    assert!(flow
        .advance(TunnelEvent::Read(Err(Error::TweakInvalidPath)))
        .is_err());
}

#[test]
fn a_refused_record_is_removed_once_and_another_is_tried() {
    let mut flow = tunnel_with_saved_record();
    let address = flow.address;
    flow.advance(TunnelEvent::Connected(Ok(()))).unwrap();
    flow.advance(TunnelEvent::Finished(Err("no".to_string()))).unwrap();
    assert_eq!(flow.phase, TunnelPhase::RemoveStale);
    flow.advance(TunnelEvent::Removed).unwrap();
    assert_eq!(flow.phase, TunnelPhase::ImportAgain);
    flow.advance(TunnelEvent::Imported(Ok(true))).unwrap();
    assert_eq!(flow.phase, TunnelPhase::Connect);
    assert_eq!(flow.address, address);
    assert!(flow.refused.is_none());
    flow.advance(TunnelEvent::Connected(Ok(()))).unwrap();
    flow.advance(TunnelEvent::Finished(Ok(()))).unwrap();
    let error = flow
        .advance(TunnelEvent::Finished(Err("no".to_string())))
        .unwrap_err();
    assert_eq!(
        message(error),
        "This Apple TV no longer recognizes this pairing (it may have been reset, forgotten, or lost pairing after a system update); pair with it again: no"
    );
}

#[test]
fn a_refused_record_that_nothing_replaces_is_the_error() {
    let mut flow = tunnel_with_saved_record();
    flow.advance(TunnelEvent::Connected(Ok(()))).unwrap();
    flow.advance(TunnelEvent::Finished(Err("no".to_string()))).unwrap();
    flow.advance(TunnelEvent::Removed).unwrap();
    let error = flow.advance(TunnelEvent::Imported(Ok(false))).unwrap_err();
    assert_eq!(message(error), "Pair-verify failed: no");
    assert_eq!(flow.phase, TunnelPhase::Failed);
}

#[test]
fn a_cable_record_is_paired_twice_before_it_is_saved() {
    let done = || RsdEvent::Finished(Ok(()));
    let mut phase = RsdPhase::CheckFile;
    for (event, next) in [
        (RsdEvent::Found(false), RsdPhase::OpenTunnel),
        (done(), RsdPhase::FindService),
        (RsdEvent::Found(true), RsdPhase::Pair),
        (done(), RsdPhase::Confirm),
        (done(), RsdPhase::Save),
        (done(), RsdPhase::Done),
    ] {
        phase = phase.advance(event).unwrap();
        assert_eq!(phase, next);
    }
    let read = RsdPhase::CheckFile.advance(RsdEvent::Found(true)).unwrap();
    assert_eq!(read, RsdPhase::ReadFile);
    assert_eq!(read.advance(done()).unwrap(), RsdPhase::Done);
    assert_eq!(
        message(RsdPhase::FindService.advance(RsdEvent::Found(false)).unwrap_err()),
        "Tunnel service not found"
    );
    assert!(RsdPhase::Pair
        .advance(RsdEvent::Finished(Err(Error::TweakInvalidPath)))
        .is_err());
}
