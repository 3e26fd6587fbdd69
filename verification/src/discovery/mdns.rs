//! A multicast DNS scan: which services to browse for, how long to wait for
//! each answer, and what the answers add up to.
use vstd::prelude::*;
use crate::discovery::enrichment::{enrich_and_filter, enriched_devices};
use crate::discovery::{
    advertisement, advertisement_key, build_device, dedup_key, instance_label, parse_instance_name,
    views, DiscoveredDevice, DiscoveredDeviceView, ALL_SCANNED_SERVICE_TYPES,
};
use crate::net::AdvertisedAddress;
use crate::string_map::StringMap;
use crate::text::{same_text, texts};

verus! {

pub struct MdnsDiscovery {
    service_types: Vec<String>,
}

/// The services that a scan browses for.
pub open spec fn scanned_services() -> Seq<Seq<char>> {
    ALL_SCANNED_SERVICE_TYPES@.map_values(|s: &'static str| s@)
}

impl MdnsDiscovery {
    /// The services that this scan browses for, in order.
    pub closed spec fn services(self) -> Seq<Seq<char>> {
        texts(self.service_types@)
    }

    pub fn new() -> (r: MdnsDiscovery)
        ensures
            r.services() == scanned_services(),
    {
        let mut service_types: Vec<String> = Vec::new();
        let mut i: usize = 0;
        while i < ALL_SCANNED_SERVICE_TYPES.len()
            invariant
                i <= ALL_SCANNED_SERVICE_TYPES@.len(),
                texts(service_types@) == scanned_services().take(i as int),
            decreases ALL_SCANNED_SERVICE_TYPES.len() - i,
        {
            let ghost before = service_types@;
            service_types.push(ALL_SCANNED_SERVICE_TYPES[i].to_string());
            assert(texts(service_types@) =~= texts(before).push(scanned_services()[i as int]));
            assert(scanned_services().take(i + 1) =~= scanned_services().take(i as int).push(
                scanned_services()[i as int],
            ));
            i += 1;
        }
        assert(scanned_services().take(i as int) =~= scanned_services());
        MdnsDiscovery { service_types }
    }

    pub fn service_types(&self) -> (r: &Vec<String>)
        ensures
            texts(r@) == self.services(),
    {
        &self.service_types
    }
}

impl Default for MdnsDiscovery {
    fn default() -> (r: MdnsDiscovery)
        ensures
            r.services() == scanned_services(),
    {
        MdnsDiscovery::new()
    }
}

// ---------------------------------------------------------------- waiting

/// The longest wait for one answer, in nanoseconds.
pub const MAX_POLL_NANOS: u128 = 200_000_000;

/// One pass over the browsed services.
#[derive(Debug, Clone, Copy, PartialEq, Eq, Structural)]
pub struct ScanRound {
    /// What was left of the scan when the pass began, in nanoseconds.
    pub remaining: u128,
    /// How long to wait for an answer of each service, in nanoseconds.
    pub poll: u128,
    /// Whether any service has answered.
    pub got_event: bool,
}

/// What is left of a scan at a time, and how long to wait for each answer.
pub open spec fn round_at(time: u128, deadline: u128) -> ScanRound {
    let remaining: u128 = if time < deadline {
        (deadline - time) as u128
    } else {
        0
    };
    ScanRound {
        remaining,
        poll: if remaining < MAX_POLL_NANOS {
            remaining
        } else {
            MAX_POLL_NANOS
        },
        got_event: false,
    }
}

impl ScanRound {
    /// The next pass, or none once the deadline is reached. The clock is read
    /// once to see whether there is time left and once more to measure it.
    pub fn begin(checked_at: u128, measured_at: u128, deadline: u128) -> (r: Option<ScanRound>)
        ensures
            r == (if checked_at < deadline {
                Some(round_at(measured_at, deadline))
            } else {
                None
            }),
    {
        if checked_at >= deadline {
            return None;
        }
        let remaining: u128 = if measured_at < deadline {
            deadline - measured_at
        } else {
            0
        };
        let poll: u128 = if remaining < MAX_POLL_NANOS {
            remaining
        } else {
            MAX_POLL_NANOS
        };
        Some(ScanRound { remaining, poll, got_event: false })
    }

    /// A service has answered.
    pub fn note_event(&mut self)
        ensures
            *final(self) == (ScanRound { got_event: true, ..*old(self) }),
    {
        self.got_event = true;
    }

    /// Whether the scan is over with this pass: nothing answered, and there was
    /// no time left beyond it.
    pub fn ends_scan(&self) -> (r: bool)
        ensures
            r == (!self.got_event && self.poll == self.remaining),
    {
        !self.got_event && self.poll == self.remaining
    }
}

// ---------------------------------------------------------------- answers

/// An advertisement, and what tells it from the others.
struct Answer {
    host_key: String,
    service_key: String,
    device: DiscoveredDevice,
}

impl Answer {
    spec fn key(self) -> (Seq<char>, Seq<char>) {
        (self.host_key@, self.service_key@)
    }
}

/// What the answers of a scan add up to so far.
pub struct MdnsScan {
    answers: Vec<Answer>,
}

/// The advertisements of a scan by what tells them apart, and the order in which
/// each was first seen.
pub struct MdnsScanView {
    pub order: Seq<(Seq<char>, Seq<char>)>,
    pub found: Map<(Seq<char>, Seq<char>), DiscoveredDeviceView>,
}

impl MdnsScanView {
    /// A later advertisement takes the place of an earlier one of the same key.
    pub open spec fn with(
        self,
        key: (Seq<char>, Seq<char>),
        device: DiscoveredDeviceView,
    ) -> MdnsScanView {
        MdnsScanView {
            order: if self.found.contains_key(key) {
                self.order
            } else {
                self.order.push(key)
            },
            found: self.found.insert(key, device),
        }
    }

    /// The advertisements in order.
    pub open spec fn devices(self) -> Seq<DiscoveredDeviceView> {
        self.order.map_values(|key: (Seq<char>, Seq<char>)| self.found[key])
    }
}

impl View for MdnsScan {
    type V = MdnsScanView;

    closed spec fn view(&self) -> MdnsScanView {
        MdnsScanView {
            order: answer_keys(self.answers@),
            found: Map::new(
                |key: (Seq<char>, Seq<char>)| answer_keys(self.answers@).contains(key),
                |key: (Seq<char>, Seq<char>)|
                    self.answers@[answer_keys(self.answers@).index_of(key)].device@,
            ),
        }
    }
}

spec fn answer_keys(answers: Seq<Answer>) -> Seq<(Seq<char>, Seq<char>)> {
    answers.map_values(|a: Answer| a.key())
}

impl MdnsScan {
    /// No two answers kept are of one key.
    pub closed spec fn wf(self) -> bool {
        answer_keys(self.answers@).no_duplicates()
    }

    pub fn new() -> (r: MdnsScan)
        ensures
            r.wf(),
            r@.order == Seq::<(Seq<char>, Seq<char>)>::empty(),
            r@.found == Map::<(Seq<char>, Seq<char>), DiscoveredDeviceView>::empty(),
    {
        let r = MdnsScan { answers: Vec::new() };
        assert(answer_keys(r.answers@) =~= Seq::<(Seq<char>, Seq<char>)>::empty());
        assert(r@.found =~= Map::<(Seq<char>, Seq<char>), DiscoveredDeviceView>::empty());
        r
    }

    /// The place of the answer of one key.
    fn find(&self, host_key: &str, service_key: &str) -> (r: Option<usize>)
        ensures
            match r {
                Some(i) => i < self.answers.len() && answer_keys(self.answers@)[i as int] == (
                    host_key@,
                    service_key@,
                ),
                None => !answer_keys(self.answers@).contains((host_key@, service_key@)),
            },
    {
        let ghost keys = answer_keys(self.answers@);
        let mut i: usize = 0;
        while i < self.answers.len()
            invariant
                keys == answer_keys(self.answers@),
                i <= self.answers.len(),
                forall|k: int| 0 <= k < i ==> #[trigger] keys[k] != (host_key@, service_key@),
            decreases self.answers.len() - i,
        {
            assert(keys[i as int] == self.answers@[i as int].key());
            if same_text(self.answers[i].host_key.as_str(), host_key) && same_text(
                self.answers[i].service_key.as_str(),
                service_key,
            ) {
                return Some(i);
            }
            i += 1;
        }
        None
    }

    /// Keeps an advertisement under its key.
    fn keep(&mut self, host_key: String, service_key: String, device: DiscoveredDevice)
        requires
            old(self).wf(),
        ensures
            final(self).wf(),
            final(self)@ == old(self)@.with((host_key@, service_key@), device@),
    {
        let ghost key = (host_key@, service_key@);
        let ghost keys = answer_keys(self.answers@);
        match self.find(host_key.as_str(), service_key.as_str()) {
            Some(i) => {
                self.answers.set(i, Answer { host_key, service_key, device });
                proof {
                    assert(answer_keys(self.answers@) =~= keys);
                    assert(keys.contains(key));
                }
            },
            None => {
                self.answers.push(Answer { host_key, service_key, device });
                proof {
                    let grown = answer_keys(self.answers@);
                    assert(grown =~= keys.push(key));
                    assert(grown[keys.len() as int] == key);
                    assert forall|k: (Seq<char>, Seq<char>)| keys.contains(k) implies
                        grown.contains(k) && grown.index_of(k) == keys.index_of(k) by {
                        assert(grown[keys.index_of(k)] == k);
                    }
                    assert forall|k: (Seq<char>, Seq<char>)| grown.contains(k) && k
                        != key implies keys.contains(k) by {
                        let j = choose|j: int| 0 <= j < grown.len() && grown[j] == k;
                        assert(keys[j] == k);
                    }
                    assert(grown.index_of(key) == keys.len());
                }
            },
        }
        assert(self@.found =~= old(self)@.with(key, device@).found);
    }

    /// Takes one resolved service into account.
    pub fn resolved(
        &mut self,
        full_name: &str,
        hostname: &str,
        service_type: &str,
        port: Option<u16>,
        addresses: &[AdvertisedAddress],
        props: &StringMap<String>,
    )
        requires
            old(self).wf(),
        ensures
            final(self).wf(),
            ({
                let instance = instance_label(full_name@, service_type@);
                final(self)@ == old(self)@.with(
                    advertisement_key(hostname@, instance, service_type@),
                    advertisement(
                        instance,
                        hostname@,
                        service_type@,
                        port,
                        addresses@,
                        props@,
                    ),
                )
            }),
    {
        let instance_name = parse_instance_name(full_name, service_type);
        let device = build_device(
            instance_name.as_str(),
            hostname,
            service_type,
            port,
            addresses,
            props,
        );
        let (host_key, service_key) = dedup_key(hostname, instance_name.as_str(), service_type);
        self.keep(host_key, service_key, device);
    }

    /// The devices found, each filled in from its description.
    pub fn finish(self) -> (r: Vec<DiscoveredDevice>)
        requires
            self.wf(),
        ensures
            views(r@) == enriched_devices(self@.devices()),
    {
        let mut devices: Vec<DiscoveredDevice> = Vec::new();
        let ghost keys = answer_keys(self.answers@);
        let ghost all = self@.devices();
        let ghost kept = self.answers@;
        assert(all =~= kept.map_values(|a: Answer| a.device@)) by {
            assert forall|i: int| 0 <= i < kept.len() implies all[i] == kept[i].device@ by {
                assert(keys[i] == kept[i].key());
                assert(keys.index_of(keys[i]) == i);
            }
        }
        for answer in it: self.answers
            invariant
                it.seq() == kept,
                all == kept.map_values(|a: Answer| a.device@),
                views(devices@) == all.take(it.index()),
        {
            let ghost before = devices@;
            let ghost n = it.index();
            devices.push(answer.device);
            assert(views(devices@) =~= views(before).push(all[n]));
            assert(all.take(n + 1) =~= all.take(n).push(all[n]));
        }
        assert(all.take(all.len() as int) =~= all);
        enrich_and_filter(devices)
    }
}

// ---------------------------------------------------------------- laws

/// A pass waits for each answer no longer than what is left of the scan, and no
/// longer than the longest wait.
pub proof fn lemma_round_fits(time: u128, deadline: u128)
    ensures
        round_at(time, deadline).poll <= MAX_POLL_NANOS,
        time < deadline ==> time + round_at(time, deadline).poll <= deadline,
        time >= deadline ==> round_at(time, deadline).poll == 0,
{
}

/// One device under two services is kept as two advertisements.
pub proof fn lemma_services_stay_separate(
    hostname: Seq<char>,
    first_instance: Seq<char>,
    second_instance: Seq<char>,
    first_service: Seq<char>,
    second_service: Seq<char>,
)
    requires
        first_service != second_service,
    ensures
        advertisement_key(hostname, first_instance, first_service) != advertisement_key(
            hostname,
            second_instance,
            second_service,
        ),
{
}

/// An advertisement that comes again takes the place of the first one, and the
/// others stay as they are.
pub proof fn lemma_later_answer_replaces(
    scan: MdnsScanView,
    key: (Seq<char>, Seq<char>),
    first: DiscoveredDeviceView,
    second: DiscoveredDeviceView,
)
    ensures
        scan.with(key, first).with(key, second) == scan.with(key, second),
        forall|other: (Seq<char>, Seq<char>)|
            other != key && scan.found.contains_key(other) ==> scan.with(
                key,
                first,
            ).found.contains_key(other) && scan.with(key, first).found[other]
                == #[trigger] scan.found[other],
{
    assert(scan.with(key, first).with(key, second).found =~= scan.with(key, second).found);
}

/// A scan browses for the four services of devices and for the one that describes
/// them.
pub proof fn lemma_services_browsed_for()
    ensures
        scanned_services() == seq![
            "_apple-mobdev2._tcp.local."@,
            "_apple-pairable._tcp.local."@,
            "_remotepairing._tcp.local."@,
            "_remotepairing-manual-pairing._tcp.local."@,
            "_companion-link._tcp.local."@,
        ],
{
    assert(scanned_services() =~= seq![
        "_apple-mobdev2._tcp.local."@,
        "_apple-pairable._tcp.local."@,
        "_remotepairing._tcp.local."@,
        "_remotepairing-manual-pairing._tcp.local."@,
        "_companion-link._tcp.local."@,
    ]);
}

/// A pass measures the whole time up to the deadline, waits for each answer as long
/// as that, though a fifth of a second at most, and begins without an answer.
pub proof fn lemma_round_measures_time(time: u128, deadline: u128)
    ensures
        time < deadline ==> time + round_at(time, deadline).remaining == deadline,
        time >= deadline ==> round_at(time, deadline).remaining == 0,
        round_at(time, deadline).poll <= round_at(time, deadline).remaining,
        round_at(time, deadline).poll == round_at(time, deadline).remaining || round_at(
            time,
            deadline,
        ).poll == 200_000_000,
        !round_at(time, deadline).got_event,
{
}

/// An answer of a new key comes last; one of a key that was seen before stands where
/// the earlier one stood. No other answer moves or changes.
pub proof fn lemma_answers_keep_their_places(
    scan: MdnsScanView,
    key: (Seq<char>, Seq<char>),
    device: DiscoveredDeviceView,
    i: int,
)
    requires
        0 <= i < scan.order.len(),
        scan.order.no_duplicates(),
        scan.found.contains_key(key) <==> scan.order.contains(key),
    ensures
        ({
            let before = scan.devices();
            let after = scan.with(key, device).devices();
            &&& !scan.order.contains(key) ==> after == before.push(device)
            &&& scan.order.contains(key) ==> after.len() == before.len()
            &&& scan.order[i] == key ==> after[i] == device
            &&& scan.order[i] != key ==> after[i] == before[i]
        }),
{
    let next = scan.with(key, device);
    if !scan.order.contains(key) {
        assert forall|k: int| 0 <= k < scan.order.len() implies scan.order[k] != key by {}
        assert(next.devices() =~= scan.devices().push(device));
    }
}

} // verus!
