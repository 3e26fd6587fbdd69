//! Pairing with a device: when a saved record will do, when a PIN is asked for,
//! and what each way of failing means.
use vstd::prelude::*;
use crate::error::{other, Error};
use crate::text::chars_of;

verus! {

#[derive(Debug, Clone, PartialEq, Eq)]
pub enum PairingFailure {
    Cancelled,
    InvalidPin,
    WrongPin,
    StaleRecord,
    ServiceDisappeared,
    Protocol(String),
}

#[derive(Debug, Clone, Copy, PartialEq, Eq, Structural)]
pub enum PairingStage {
    Reconnected,
    Paired,
}

/// The device's side of a pairing.
pub trait PairingBackend {
    /// Checks the saved record against the device.
    fn verify(&mut self) -> Result<(), PairingFailure>;

    /// Pairs anew with the PIN that the device shows.
    fn pair(&mut self, pin: &str) -> Result<(), PairingFailure>;
}

/// What a pairing begins with.
#[derive(Debug, Clone, Copy, PartialEq, Eq, Structural)]
pub enum FirstStep {
    /// Check the saved record against the device.
    Verify,
    /// Ask for the PIN that the device shows.
    RequestPin,
}

/// Whether the device can be reached to check a saved record.
pub open spec fn can_verify(
    has_cached_record: bool,
    has_pairing_service: bool,
    has_reconnect_service: bool,
) -> bool {
    has_cached_record && (has_reconnect_service || has_pairing_service)
}

/// A PIN is six decimal digits.
pub open spec fn valid_pin(pin: Seq<char>) -> bool {
    pin.len() == 6 && forall|i: int| 0 <= i < pin.len() ==> '0' <= #[trigger] pin[i] <= '9'
}

/// A saved record is checked where the device can be reached; otherwise the PIN
/// is asked for where the device offers to pair.
pub open spec fn first_step(
    has_cached_record: bool,
    has_pairing_service: bool,
    has_reconnect_service: bool,
) -> Result<FirstStep, PairingFailure> {
    if can_verify(has_cached_record, has_pairing_service, has_reconnect_service) {
        Ok(FirstStep::Verify)
    } else if has_pairing_service {
        Ok(FirstStep::RequestPin)
    } else {
        Err(PairingFailure::ServiceDisappeared)
    }
}

pub fn begin_pairing(
    has_cached_record: bool,
    has_pairing_service: bool,
    has_reconnect_service: bool,
) -> (r: Result<FirstStep, PairingFailure>)
    ensures
        r == first_step(has_cached_record, has_pairing_service, has_reconnect_service),
{
    if has_cached_record && (has_reconnect_service || has_pairing_service) {
        Ok(FirstStep::Verify)
    } else if has_pairing_service {
        Ok(FirstStep::RequestPin)
    } else {
        Err(PairingFailure::ServiceDisappeared)
    }
}

/// What follows once the saved record was checked: a record that holds settles
/// the pairing; one that does not is replaced where the device offers to pair,
/// which takes a PIN, and is stale otherwise.
pub open spec fn record_checked(holds: bool, has_pairing_service: bool) -> Result<
    Option<PairingStage>,
    PairingFailure,
> {
    if holds {
        Ok(Some(PairingStage::Reconnected))
    } else if has_pairing_service {
        Ok(None)
    } else {
        Err(PairingFailure::StaleRecord)
    }
}

pub fn after_record_check(holds: bool, has_pairing_service: bool) -> (r: Result<
    Option<PairingStage>,
    PairingFailure,
>)
    ensures
        r == record_checked(holds, has_pairing_service),
{
    if holds {
        Ok(Some(PairingStage::Reconnected))
    } else if has_pairing_service {
        Ok(None)
    } else {
        Err(PairingFailure::StaleRecord)
    }
}

/// What is wrong with a PIN. No PIN means that the pairing was called off.
pub open spec fn pin_refusal(pin: Seq<char>) -> Option<PairingFailure> {
    if pin.len() == 0 {
        Some(PairingFailure::Cancelled)
    } else if !valid_pin(pin) {
        Some(PairingFailure::InvalidPin)
    } else {
        None
    }
}

/// The PIN, where it can be handed to the device.
pub fn accept_pin(pin: String) -> (r: Result<String, PairingFailure>)
    ensures
        match pin_refusal(pin@) {
            Some(failure) => r == Result::<String, PairingFailure>::Err(failure),
            None => r == Result::<String, PairingFailure>::Ok(pin),
        },
{
    if pin.as_str().is_empty() {
        return Err(PairingFailure::Cancelled);
    }
    if !is_valid_pin(pin.as_str()) {
        return Err(PairingFailure::InvalidPin);
    }
    Ok(pin)
}

/// Whether the text is six decimal digits.
pub fn is_valid_pin(pin: &str) -> (r: bool)
    ensures
        r == valid_pin(pin@),
{
    let digits: Vec<char> = chars_of(pin);
    if digits.len() != 6 {
        return false;
    }
    let mut i: usize = 0;
    while i < digits.len()
        invariant
            digits@ == pin@,
            i <= digits.len(),
            forall|k: int| 0 <= k < i ==> '0' <= #[trigger] pin@[k] <= '9',
        decreases digits.len() - i,
    {
        if !('0' <= digits[i] && digits[i] <= '9') {
            assert(!('0' <= pin@[i as int] <= '9'));
            return false;
        }
        i += 1;
    }
    true
}

// ---------------------------------------------------------------- answers

/// What the device, and whoever gives the PIN, would answer in a pairing.
pub struct Answers {
    /// Whether the saved record holds.
    pub record_holds: bool,
    /// The PIN that is given when one is asked for.
    pub pin: Seq<char>,
    /// The answer to the PIN.
    pub to_pin: Result<(), PairingFailure>,
}

/// Whether the PIN is asked for.
pub open spec fn asks_pin(
    has_cached_record: bool,
    has_pairing_service: bool,
    has_reconnect_service: bool,
    answers: Answers,
) -> bool {
    match first_step(has_cached_record, has_pairing_service, has_reconnect_service) {
        Ok(FirstStep::RequestPin) => true,
        Ok(FirstStep::Verify) => record_checked(answers.record_holds, has_pairing_service)
            == Result::<Option<PairingStage>, PairingFailure>::Ok(None),
        Err(_) => false,
    }
}

/// Whether a PIN is handed to the device.
pub open spec fn hands_pin(
    has_cached_record: bool,
    has_pairing_service: bool,
    has_reconnect_service: bool,
    answers: Answers,
) -> bool {
    asks_pin(has_cached_record, has_pairing_service, has_reconnect_service, answers)
        && pin_refusal(answers.pin) is None
}

/// What a pairing with these answers comes to.
pub open spec fn pairing_outcome(
    has_cached_record: bool,
    has_pairing_service: bool,
    has_reconnect_service: bool,
    answers: Answers,
) -> Result<PairingStage, PairingFailure> {
    if asks_pin(has_cached_record, has_pairing_service, has_reconnect_service, answers) {
        match pin_refusal(answers.pin) {
            Some(failure) => Err(failure),
            None => match answers.to_pin {
                Ok(_) => Ok(PairingStage::Paired),
                Err(failure) => Err(failure),
            },
        }
    } else {
        match first_step(has_cached_record, has_pairing_service, has_reconnect_service) {
            Err(failure) => Err(failure),
            Ok(_) => match record_checked(answers.record_holds, has_pairing_service) {
                Err(failure) => Err(failure),
                Ok(stage) => Ok(stage->0),
            },
        }
    }
}

/// Whether the backend stays as it is but for the calls made on it: up to
/// `checked` unless the saved record is checked, and from there on unless a PIN is
/// handed over.
pub open spec fn changed_only_by_calls<B>(
    has_cached_record: bool,
    has_pairing_service: bool,
    has_reconnect_service: bool,
    answers: Answers,
    before: B,
    checked: B,
    after: B,
) -> bool {
    &&& !can_verify(has_cached_record, has_pairing_service, has_reconnect_service) ==> checked
        == before
    &&& !hands_pin(has_cached_record, has_pairing_service, has_reconnect_service, answers) ==> after
        == checked
}

/// Whether some answer of the backend leads to the PIN being asked for.
pub open spec fn may_ask_pin<B: PairingBackend>(
    backend: B,
    has_cached_record: bool,
    has_pairing_service: bool,
    has_reconnect_service: bool,
) -> bool {
    match first_step(has_cached_record, has_pairing_service, has_reconnect_service) {
        Ok(FirstStep::RequestPin) => true,
        Ok(FirstStep::Verify) => has_pairing_service && exists|
            b: &mut B,
            answer: Result<(), PairingFailure>,
        |
            *b == backend && answer is Err && #[trigger] call_ensures(B::verify, (b,), answer),
        Err(_) => false,
    }
}

// ---------------------------------------------------------------- pairing

/// Pairs, or checks that the saved record still holds.
///
/// What the device and the user answer is not foreseen. Whatever they answer, the
/// result is the outcome of those answers. The saved record is checked once where
/// the device can be reached, and otherwise not at all. Only then is the PIN asked
/// for, where it is asked for at all. The PIN that was given is handed over once
/// where it can be, and nothing else happens to the backend. The PIN provider need
/// not be fit to be called where no answer leads to it.
pub fn ensure_pairing<B: PairingBackend, F: FnOnce() -> String>(
    backend: &mut B,
    has_cached_record: bool,
    has_pairing_service: bool,
    has_reconnect_service: bool,
    pin_provider: F,
) -> (r: Result<PairingStage, PairingFailure>)
    requires
        may_ask_pin(
            *old(backend),
            has_cached_record,
            has_pairing_service,
            has_reconnect_service,
        ) ==> pin_provider.requires(()),
    ensures
        exists|answers: Answers, checked: B|
            {
                &&& #[trigger] changed_only_by_calls(
                    has_cached_record,
                    has_pairing_service,
                    has_reconnect_service,
                    answers,
                    *old(backend),
                    checked,
                    *final(backend),
                )
                &&& can_verify(has_cached_record, has_pairing_service, has_reconnect_service)
                    ==> exists|b: &mut B, answer: Result<(), PairingFailure>|
                    {
                        &&& *b == *old(backend)
                        &&& #[trigger] call_ensures(B::verify, (b,), answer)
                        &&& *final(b) == checked
                        &&& answer is Ok == answers.record_holds
                    }
                &&& asks_pin(
                    has_cached_record,
                    has_pairing_service,
                    has_reconnect_service,
                    answers,
                ) ==> exists|pin: String|
                    pin@ == answers.pin && #[trigger] pin_provider.ensures((), pin)
                &&& hands_pin(
                    has_cached_record,
                    has_pairing_service,
                    has_reconnect_service,
                    answers,
                ) ==> exists|b: &mut B, pin: &str|
                    {
                        &&& *b == checked
                        &&& pin@ == answers.pin
                        &&& #[trigger] call_ensures(B::pair, (b, pin), answers.to_pin)
                        &&& *final(b) == *final(backend)
                    }
                &&& r == pairing_outcome(
                    has_cached_record,
                    has_pairing_service,
                    has_reconnect_service,
                    answers,
                )
            },
{
    let ghost mut answers = Answers { record_holds: false, pin: Seq::empty(), to_pin: Ok(()) };
    match begin_pairing(has_cached_record, has_pairing_service, has_reconnect_service) {
        Err(failure) => {
            assert(changed_only_by_calls(
                has_cached_record,
                has_pairing_service,
                has_reconnect_service,
                answers,
                *old(backend),
                *backend,
                *backend,
            ));
            return Err(failure);
        },
        Ok(FirstStep::Verify) => {
            let holds = backend.verify().is_ok();
            proof {
                answers.record_holds = holds;
            }
            match after_record_check(holds, has_pairing_service) {
                Err(failure) => {
                    assert(changed_only_by_calls(
                        has_cached_record,
                        has_pairing_service,
                        has_reconnect_service,
                        answers,
                        *old(backend),
                        *backend,
                        *backend,
                    ));
                    return Err(failure);
                },
                Ok(Some(stage)) => {
                    assert(changed_only_by_calls(
                        has_cached_record,
                        has_pairing_service,
                        has_reconnect_service,
                        answers,
                        *old(backend),
                        *backend,
                        *backend,
                    ));
                    return Ok(stage);
                },
                Ok(None) => {},
            }
        },
        Ok(FirstStep::RequestPin) => {},
    }
    let ghost checked = *backend;
    let given = pin_provider();
    proof {
        answers.pin = given@;
    }
    let pin = match accept_pin(given) {
        Err(failure) => {
            assert(changed_only_by_calls(
                has_cached_record,
                has_pairing_service,
                has_reconnect_service,
                answers,
                *old(backend),
                checked,
                *backend,
            ));
            return Err(failure);
        },
        Ok(pin) => pin,
    };
    let answer = backend.pair(pin.as_str());
    proof {
        answers.to_pin = answer;
    }
    assert(changed_only_by_calls(
        has_cached_record,
        has_pairing_service,
        has_reconnect_service,
        answers,
        *old(backend),
        checked,
        *backend,
    ));
    match answer {
        Err(failure) => Err(failure),
        Ok(_) => Ok(PairingStage::Paired),
    }
}

// ---------------------------------------------------------------- choosing

/// The way to go about a pairing.
#[derive(Debug, Clone, Copy, PartialEq, Eq, Structural)]
pub enum PairingAction {
    FirstPairing,
    Reconnect,
}

pub const STALE_WITHOUT_SERVICE: &'static str =
    "Apple TV pairing record is stale and no pairing service is currently advertised";

pub const NOT_ADVERTISING: &'static str =
    "Apple TV is not advertising its manual-pairing service; open Settings > Remotes and Devices > Remote App and Devices and wait for \"Waiting to Pair...\", then scan again";

/// A saved record is tried wherever the device can be reached; without one the
/// device has to offer to pair.
pub open spec fn chosen_action(
    has_cached_pairing: bool,
    has_pairing_service: bool,
    has_reconnect_service: bool,
) -> Result<PairingAction, Seq<char>> {
    if has_cached_pairing {
        if has_reconnect_service || has_pairing_service {
            Ok(PairingAction::Reconnect)
        } else {
            Err(STALE_WITHOUT_SERVICE@)
        }
    } else if has_pairing_service {
        Ok(PairingAction::FirstPairing)
    } else {
        Err(NOT_ADVERTISING@)
    }
}

pub fn pairing_action(
    has_cached_pairing: bool,
    has_pairing_service: bool,
    has_reconnect_service: bool,
) -> (r: Result<PairingAction, String>)
    ensures
        match chosen_action(has_cached_pairing, has_pairing_service, has_reconnect_service) {
            Ok(action) => r == Result::<PairingAction, String>::Ok(action),
            Err(message) => r is Err && r->Err_0@ == message,
        },
{
    if has_cached_pairing && (has_reconnect_service || has_pairing_service) {
        Ok(PairingAction::Reconnect)
    } else if !has_cached_pairing && has_pairing_service {
        Ok(PairingAction::FirstPairing)
    } else if has_cached_pairing {
        Err(STALE_WITHOUT_SERVICE.to_string())
    } else {
        Err(NOT_ADVERTISING.to_string())
    }
}

// ---------------------------------------------------------------- failures

pub const PAIRING_CANCELLED: &'static str = "Apple TV pairing was cancelled";

pub const PIN_NOT_SIX_DIGITS: &'static str = "Apple TV pairing PIN must contain exactly six digits";

pub const PIN_REJECTED: &'static str = "Apple TV rejected the pairing PIN";

pub const RECORD_STALE: &'static str =
    "This Apple TV pairing record is stale; open the Apple TV pairing screen and try again";

pub const SERVICE_DISAPPEARED: &'static str =
    "Apple TV pairing service disappeared; scan again while the pairing screen is open";

pub const HANDSHAKE_FAILED: &'static str = "RPPairing handshake failed: ";

/// What is said of a pairing that failed.
pub open spec fn failure_text(failure: PairingFailure) -> Seq<char> {
    match failure {
        PairingFailure::Cancelled => PAIRING_CANCELLED@,
        PairingFailure::InvalidPin => PIN_NOT_SIX_DIGITS@,
        PairingFailure::WrongPin => PIN_REJECTED@,
        PairingFailure::StaleRecord => RECORD_STALE@,
        PairingFailure::ServiceDisappeared => SERVICE_DISAPPEARED@,
        PairingFailure::Protocol(message) => HANDSHAKE_FAILED@ + message@,
    }
}

/// The failure that the device's answer to a PIN means: a PIN that it did not take,
/// or whatever else went wrong.
pub fn pin_failure(pin_not_taken: bool, message: String) -> (r: PairingFailure)
    ensures
        r == (if pin_not_taken {
            PairingFailure::WrongPin
        } else {
            PairingFailure::Protocol(message)
        }),
{
    if pin_not_taken {
        PairingFailure::WrongPin
    } else {
        PairingFailure::Protocol(message)
    }
}

pub fn pairing_failure_to_error(failure: PairingFailure) -> (r: Error)
    ensures
        r.says(failure_text(failure)),
{
    match failure {
        PairingFailure::Cancelled => other(PAIRING_CANCELLED),
        PairingFailure::InvalidPin => other(PIN_NOT_SIX_DIGITS),
        PairingFailure::WrongPin => other(PIN_REJECTED),
        PairingFailure::StaleRecord => other(RECORD_STALE),
        PairingFailure::ServiceDisappeared => other(SERVICE_DISAPPEARED),
        PairingFailure::Protocol(message) => {
            let mut text = HANDSHAKE_FAILED.to_string();
            text.append(message.as_str());
            Error::Other(text)
        },
    }
}

// ---------------------------------------------------------------- laws

/// A saved record that holds reconnects, and no PIN is asked for.
pub proof fn lemma_saved_record_needs_no_pin(
    has_pairing_service: bool,
    has_reconnect_service: bool,
    answers: Answers,
)
    requires
        has_pairing_service || has_reconnect_service,
        answers.record_holds,
    ensures
        pairing_outcome(true, has_pairing_service, has_reconnect_service, answers) == Result::<
            PairingStage,
            PairingFailure,
        >::Ok(PairingStage::Reconnected),
        !asks_pin(true, has_pairing_service, has_reconnect_service, answers),
{
}

/// A PIN is asked for exactly where the device offers to pair and no saved record
/// holds, and it is handed over exactly where it is then six digits.
pub proof fn lemma_pin_needs_pairing_service(
    has_cached_record: bool,
    has_pairing_service: bool,
    has_reconnect_service: bool,
    answers: Answers,
)
    ensures
        asks_pin(has_cached_record, has_pairing_service, has_reconnect_service, answers)
            <==> has_pairing_service && !(has_cached_record && answers.record_holds),
        hands_pin(has_cached_record, has_pairing_service, has_reconnect_service, answers)
            <==> has_pairing_service && !(has_cached_record && answers.record_holds) && valid_pin(
            answers.pin,
        ),
{
}

/// A new pairing comes about exactly where a PIN was handed to the device and the
/// device took it.
pub proof fn lemma_paired_only_by_pin(
    has_cached_record: bool,
    has_pairing_service: bool,
    has_reconnect_service: bool,
    answers: Answers,
)
    ensures
        pairing_outcome(has_cached_record, has_pairing_service, has_reconnect_service, answers)
            == Result::<PairingStage, PairingFailure>::Ok(PairingStage::Paired) <==> hands_pin(
            has_cached_record,
            has_pairing_service,
            has_reconnect_service,
            answers,
        ) && answers.to_pin is Ok,
{
}

/// A saved record that does not hold is stale where the device does not offer to
/// pair; without a saved record a device that does not offer to pair has
/// disappeared.
pub proof fn lemma_without_pairing_service(has_reconnect_service: bool, answers: Answers)
    ensures
        has_reconnect_service && !answers.record_holds ==> pairing_outcome(
            true,
            false,
            has_reconnect_service,
            answers,
        ) == Result::<PairingStage, PairingFailure>::Err(PairingFailure::StaleRecord),
        pairing_outcome(false, false, has_reconnect_service, answers) == Result::<
            PairingStage,
            PairingFailure,
        >::Err(PairingFailure::ServiceDisappeared),
{
}

/// A saved record is never passed over for a new pairing, and nothing but a device
/// that offers to pair makes for a first pairing.
pub proof fn lemma_action_follows_record(
    has_cached_pairing: bool,
    has_pairing_service: bool,
    has_reconnect_service: bool,
)
    ensures
        ({
            let action = chosen_action(
                has_cached_pairing,
                has_pairing_service,
                has_reconnect_service,
            );
            &&& action == Result::<PairingAction, Seq<char>>::Ok(PairingAction::FirstPairing)
                <==> !has_cached_pairing && has_pairing_service
            &&& action == Result::<PairingAction, Seq<char>>::Ok(PairingAction::Reconnect)
                <==> can_verify(has_cached_pairing, has_pairing_service, has_reconnect_service)
        }),
{
}

/// A PIN is six characters, each of them a decimal digit.
pub proof fn lemma_pin_shape(pin: Seq<char>)
    ensures
        valid_pin(pin) <==> pin.len() == 6 && forall|i: int|
            0 <= i < 6 ==> 48 <= (#[trigger] pin[i]) as u32 <= 57,
{
    if pin.len() == 6 && forall|i: int| 0 <= i < 6 ==> 48 <= (#[trigger] pin[i]) as u32 <= 57 {
        assert forall|i: int| 0 <= i < pin.len() implies '0' <= #[trigger] pin[i] <= '9' by {
            lemma_digit_code(pin[i]);
        }
    }
    if valid_pin(pin) {
        assert forall|i: int| 0 <= i < 6 implies 48 <= (#[trigger] pin[i]) as u32 <= 57 by {
            lemma_digit_code(pin[i]);
        }
    }
}

proof fn lemma_digit_code(c: char)
    ensures
        '0' <= c <= '9' <==> 48 <= c as u32 <= 57,
{
}

/// A PIN is refused as given up where nothing was entered, and as wrongly formed just
/// where what was entered is not six digits.
pub proof fn lemma_pin_refused(pin: Seq<char>)
    ensures
        pin.len() == 0 <==> pin_refusal(pin) == Some(PairingFailure::Cancelled),
        pin.len() > 0 && !valid_pin(pin) <==> pin_refusal(pin) == Some(PairingFailure::InvalidPin),
        pin_refusal(pin) is None <==> valid_pin(pin),
{
}

/// A saved record is what a pairing begins with wherever the device can be reached;
/// without one it begins with the PIN, if the device offers to pair.
pub proof fn lemma_pairing_begins(offers_pairing: bool, takes_records: bool)
    ensures
        first_step(true, offers_pairing, takes_records) == Result::<
            FirstStep,
            PairingFailure,
        >::Ok(FirstStep::Verify) <==> offers_pairing || takes_records,
        first_step(false, offers_pairing, takes_records) == Result::<
            FirstStep,
            PairingFailure,
        >::Ok(FirstStep::RequestPin) <==> offers_pairing,
        first_step(true, false, false) == Result::<FirstStep, PairingFailure>::Err(
            PairingFailure::ServiceDisappeared,
        ),
        first_step(false, false, takes_records) == Result::<FirstStep, PairingFailure>::Err(
            PairingFailure::ServiceDisappeared,
        ),
{
}

/// A record that holds ends the pairing; one that does not is passed over where the
/// device offers to pair, and is stale where it does not.
pub proof fn lemma_checked_record_decides(offers_pairing: bool)
    ensures
        record_checked(true, offers_pairing) == Result::<
            Option<PairingStage>,
            PairingFailure,
        >::Ok(Some(PairingStage::Reconnected)),
        record_checked(false, true) == Result::<Option<PairingStage>, PairingFailure>::Ok(None),
        record_checked(false, false) == Result::<Option<PairingStage>, PairingFailure>::Err(
            PairingFailure::StaleRecord,
        ),
{
}

/// How a pairing ends, by what is there and what is answered. A record that holds
/// reconnects. Where the device offers to pair and no record holds, nothing entered
/// cancels, anything but six digits is refused, and six digits end as the device
/// answers them. Where it does not, a record that does not hold is stale, and without
/// one, or without any service, the device is gone.
pub proof fn lemma_pairing_ends_as_answered(
    has_record: bool,
    offers_pairing: bool,
    takes_records: bool,
    answers: Answers,
)
    ensures
        ({
            let outcome = pairing_outcome(has_record, offers_pairing, takes_records, answers);
            let checked = has_record && (offers_pairing || takes_records);
            let asked = offers_pairing && !(has_record && answers.record_holds);
            let six_digits = answers.pin.len() == 6 && forall|i: int|
                0 <= i < 6 ==> 48 <= (#[trigger] answers.pin[i]) as u32 <= 57;
            &&& checked && answers.record_holds ==> (outcome matches Ok(stage)
                && stage is Reconnected)
            &&& checked && !answers.record_holds && !offers_pairing ==> (outcome matches Err(failure)
                && failure is StaleRecord)
            &&& !checked && !offers_pairing ==> (outcome matches Err(failure)
                && failure is ServiceDisappeared)
            &&& asked && answers.pin.len() == 0 ==> (outcome matches Err(failure)
                && failure is Cancelled)
            &&& asked && answers.pin.len() > 0 && !six_digits ==> (outcome matches Err(failure)
                && failure is InvalidPin)
            &&& asked && six_digits && answers.to_pin is Ok ==> (outcome matches Ok(stage)
                && stage is Paired)
            &&& asked && six_digits && answers.to_pin is Err ==> (outcome matches Err(failure)
                && failure == answers.to_pin->Err_0)
        }),
{
    lemma_pin_shape(answers.pin);
}

/// The device is not called on where there is nothing to ask of it: no check without
/// a record or a service, and no new pairing but with six digits.
pub proof fn lemma_device_called_only_when_asked<B>(
    has_record: bool,
    offers_pairing: bool,
    takes_records: bool,
    answers: Answers,
    before: B,
    checked: B,
    after: B,
)
    requires
        changed_only_by_calls(
            has_record,
            offers_pairing,
            takes_records,
            answers,
            before,
            checked,
            after,
        ),
    ensures
        !has_record || (!offers_pairing && !takes_records) ==> checked == before,
        !offers_pairing || (has_record && answers.record_holds) || answers.pin.len() != 6
            ==> after == checked,
{
    lemma_pin_shape(answers.pin);
}

/// No PIN is asked for where the device does not offer to pair, and one is wherever it
/// does and there is no record.
pub proof fn lemma_when_a_pin_may_be_asked<B: PairingBackend>(
    backend: B,
    has_record: bool,
    takes_records: bool,
)
    ensures
        !may_ask_pin(backend, has_record, false, takes_records),
        may_ask_pin(backend, false, true, takes_records),
{
}

/// What a refused request is answered: with a record that it is stale, without one
/// that the device does not offer to pair.
pub proof fn lemma_refused_action(offers_pairing: bool, takes_records: bool)
    ensures
        chosen_action(true, false, false) == Result::<PairingAction, Seq<char>>::Err(
            "Apple TV pairing record is stale and no pairing service is currently advertised"@,
        ),
        chosen_action(false, false, takes_records) == Result::<PairingAction, Seq<char>>::Err(
            "Apple TV is not advertising its manual-pairing service; open Settings > Remotes and Devices > Remote App and Devices and wait for \"Waiting to Pair...\", then scan again"@,
        ),
        offers_pairing || takes_records ==> chosen_action(true, offers_pairing, takes_records)
            == Result::<PairingAction, Seq<char>>::Ok(PairingAction::Reconnect),
        offers_pairing ==> chosen_action(false, offers_pairing, takes_records) == Result::<
            PairingAction,
            Seq<char>,
        >::Ok(PairingAction::FirstPairing),
{
}

/// Each failure has its own text, and a failure of the protocol tells what went wrong.
pub proof fn lemma_failure_texts(message: String)
    ensures
        failure_text(PairingFailure::Cancelled) == "Apple TV pairing was cancelled"@,
        failure_text(PairingFailure::InvalidPin)
            == "Apple TV pairing PIN must contain exactly six digits"@,
        failure_text(PairingFailure::WrongPin) == "Apple TV rejected the pairing PIN"@,
        failure_text(PairingFailure::StaleRecord)
            == "This Apple TV pairing record is stale; open the Apple TV pairing screen and try again"@,
        failure_text(PairingFailure::ServiceDisappeared)
            == "Apple TV pairing service disappeared; scan again while the pairing screen is open"@,
        message@.is_suffix_of(failure_text(PairingFailure::Protocol(message))),
        "RPPairing handshake failed: "@.is_prefix_of(
            failure_text(PairingFailure::Protocol(message)),
        ),
        failure_text(PairingFailure::Protocol(message)).len()
            == "RPPairing handshake failed: "@.len() + message@.len(),
{
    let text = failure_text(PairingFailure::Protocol(message));
    let start = "RPPairing handshake failed: "@;
    assert(text.subrange(0, start.len() as int) =~= start);
    assert(text.subrange(text.len() - message@.len(), text.len() as int) =~= message@);
}

} // verus!
