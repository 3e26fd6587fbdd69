//! The developer platform that a device belongs to.
use vstd::prelude::*;
use crate::property_list::{dictionary_entries, string_value, value_text};
use crate::text::{eq_ignore_ascii_case, lowered, starts_with};

verus! {

#[derive(Debug, Clone, Copy, PartialEq, Eq, Structural)]
pub enum DeveloperPlatform {
    Ios,
    Tvos,
}

impl Default for DeveloperPlatform {
    fn default() -> (r: DeveloperPlatform)
        ensures
            r == DeveloperPlatform::Ios,
    {
        DeveloperPlatform::Ios
    }
}

/// Whether what is known of a device says that it runs tvOS: it is reached over
/// the network, its product type begins with `AppleTV`, or its device class is
/// `AppleTV` in any case.
pub open spec fn is_tvos_metadata(
    product_type: Option<Seq<char>>,
    device_class: Option<Seq<char>>,
    network_transport: bool,
) -> bool {
    ||| network_transport
    ||| (product_type is Some && "AppleTV"@.is_prefix_of(product_type->0))
    ||| (device_class is Some && lowered(device_class->0) == lowered("AppleTV"@))
}

/// Whether `after` is `before` with every one of `fields` set to its text and no
/// other key touched.
pub open spec fn fields_applied(
    before: Map<Seq<char>, plist::Value>,
    after: Map<Seq<char>, plist::Value>,
    fields: Seq<(&'static str, &'static str)>,
) -> bool {
    &&& forall|k: Seq<char>| #[trigger]
        after.contains_key(k) <==> before.contains_key(k) || is_field(fields, k)
    &&& forall|k: Seq<char>| #[trigger]
        after.contains_key(k) && !is_field(fields, k) ==> after[k] == before[k]
    &&& forall|i: int|
        0 <= i < fields.len() ==> value_text(after[(#[trigger] fields[i]).0@]) == Some(
            fields[i].1@,
        )
}

/// Whether `k` is the key of one of `fields`.
pub open spec fn is_field(fields: Seq<(&'static str, &'static str)>, k: Seq<char>) -> bool {
    exists|i: int| 0 <= i < fields.len() && (#[trigger] fields[i]).0@ == k
}

impl DeveloperPlatform {
    /// The request fields that select this platform.
    pub open spec fn fields(self) -> Seq<(&'static str, &'static str)> {
        match self {
            DeveloperPlatform::Ios => seq![],
            DeveloperPlatform::Tvos => seq![("DTDK_Platform", "tvos"), ("subPlatform", "tvOS")],
        }
    }

    /// The names by which provisioning profiles call this platform.
    pub open spec fn names(self) -> Seq<&'static str> {
        match self {
            DeveloperPlatform::Ios => seq!["ios", "iphoneos"],
            DeveloperPlatform::Tvos => seq!["tvos"],
        }
    }

    /// Whether a profile's platform name means this platform, in any case.
    pub open spec fn accepts(self, value: Seq<char>) -> bool {
        exists|i: int|
            0 <= i < self.names().len() && lowered((#[trigger] self.names()[i])@) == lowered(value)
    }

    pub fn from_device_metadata(
        product_type: Option<&str>,
        device_class: Option<&str>,
        network_transport: bool,
    ) -> (r: DeveloperPlatform)
        ensures
            r == (if is_tvos_metadata(
                match product_type {
                    Some(p) => Some(p@),
                    None => None,
                },
                match device_class {
                    Some(c) => Some(c@),
                    None => None,
                },
                network_transport,
            ) {
                DeveloperPlatform::Tvos
            } else {
                DeveloperPlatform::Ios
            }),
    {
        if network_transport {
            return DeveloperPlatform::Tvos;
        }
        if let Some(p) = product_type {
            if starts_with(p, "AppleTV") {
                return DeveloperPlatform::Tvos;
            }
        }
        if let Some(c) = device_class {
            if eq_ignore_ascii_case(c, "AppleTV") {
                return DeveloperPlatform::Tvos;
            }
        }
        DeveloperPlatform::Ios
    }

    pub fn request_fields(self) -> (r: &'static [(&'static str, &'static str)])
        ensures
            r@ == self.fields(),
    {
        match self {
            DeveloperPlatform::Ios => &[],
            DeveloperPlatform::Tvos => &[("DTDK_Platform", "tvos"), ("subPlatform", "tvOS")],
        }
    }

    /// Adds the request fields of this platform to a request body.
    pub fn apply_to(self, body: &mut plist::Dictionary)
        ensures
            fields_applied(
                dictionary_entries(*old(body)),
                dictionary_entries(*final(body)),
                self.fields(),
            ),
            self is Ios ==> *final(body) == *old(body),
    {
        let fields = self.request_fields();
        if fields.len() == 0 {
            return;
        }
        proof {
            reveal_strlit("DTDK_Platform");
            reveal_strlit("subPlatform");
            assert("DTDK_Platform"@.len() != "subPlatform"@.len());
        }
        let ghost before = dictionary_entries(*body);
        let mut i: usize = 0;
        while i < fields.len()
            invariant
                self is Tvos,
                fields@ == self.fields(),
                fields@[0].0@ != fields@[1].0@,
                i <= fields.len(),
                before == dictionary_entries(*old(body)),
                fields_applied(before, dictionary_entries(*body), fields@.take(i as int)),
            decreases fields.len() - i,
        {
            let ghost so_far = dictionary_entries(*body);
            let (key, value) = fields[i];
            body.insert(key.to_string(), string_value(value.to_string()));
            proof {
                let done = fields@.take(i as int);
                let next = fields@.take(i + 1);
                let after = dictionary_entries(*body);
                assert forall|k: Seq<char>| is_field(next, k) <==> is_field(done, k) || k == key@ by {
                    if is_field(done, k) {
                        let j = choose|j: int| 0 <= j < done.len() && (#[trigger] done[j]).0@ == k;
                        assert(next[j].0@ == k);
                    }
                    if k == key@ {
                        assert(next[i as int].0@ == k);
                    }
                    if is_field(next, k) {
                        let j = choose|j: int| 0 <= j < next.len() && (#[trigger] next[j]).0@ == k;
                        if j < i {
                            assert(done[j].0@ == k);
                        }
                    }
                }
                assert forall|j: int| 0 <= j < next.len() implies value_text(
                    after[(#[trigger] next[j]).0@],
                ) == Some(next[j].1@) by {
                    if j < i {
                        assert(done[j] == next[j]);
                    }
                }
            }
            i += 1;
        }
        assert(fields@.take(i as int) =~= self.fields());
    }

    pub fn profile_platforms(self) -> (r: &'static [&'static str])
        ensures
            r@ == self.names(),
    {
        match self {
            DeveloperPlatform::Ios => &["ios", "iphoneos"],
            DeveloperPlatform::Tvos => &["tvos"],
        }
    }

    pub fn matches_profile_platform(self, value: &str) -> (r: bool)
        ensures
            r == self.accepts(value@),
    {
        let names = self.profile_platforms();
        let mut i: usize = 0;
        while i < names.len()
            invariant
                names@ == self.names(),
                i <= names.len(),
                forall|k: int|
                    0 <= k < i ==> lowered((#[trigger] self.names()[k])@) != lowered(value@),
            decreases names.len() - i,
        {
            if eq_ignore_ascii_case(names[i], value) {
                assert(lowered(self.names()[i as int]@) == lowered(value@));
                return true;
            }
            i += 1;
        }
        false
    }

    /// The platform's written name.
    pub fn label(self) -> (r: &'static str)
        ensures
            r@ == (match self {
                DeveloperPlatform::Ios => "iOS"@,
                DeveloperPlatform::Tvos => "tvOS"@,
            }),
    {
        match self {
            DeveloperPlatform::Ios => "iOS",
            DeveloperPlatform::Tvos => "tvOS",
        }
    }
}

/// No profile platform name means both platforms.
pub proof fn lemma_platforms_share_no_name(value: Seq<char>)
    ensures
        !(DeveloperPlatform::Ios.accepts(value) && DeveloperPlatform::Tvos.accepts(value)),
{
    reveal_strlit("ios");
    reveal_strlit("iphoneos");
    reveal_strlit("tvos");
    if DeveloperPlatform::Ios.accepts(value) && DeveloperPlatform::Tvos.accepts(value) {
        assert(lowered("tvos"@).len() == 4);
        assert(lowered("ios"@).len() == 3);
        assert(lowered("iphoneos"@).len() == 8);
        assert(lowered(DeveloperPlatform::Tvos.names()[0]@) == lowered(value));
    }
}

/// Adding the fields of a platform a second time changes no text.
pub proof fn lemma_fields_applied_again(
    before: Map<Seq<char>, plist::Value>,
    once: Map<Seq<char>, plist::Value>,
    twice: Map<Seq<char>, plist::Value>,
    fields: Seq<(&'static str, &'static str)>,
)
    requires
        fields_applied(before, once, fields),
        fields_applied(once, twice, fields),
    ensures
        fields_applied(before, twice, fields),
        once.dom() == twice.dom(),
        forall|k: Seq<char>| #[trigger]
            once.contains_key(k) ==> value_text(once[k]) == value_text(twice[k]),
{
    assert forall|k: Seq<char>| once.contains_key(k) == twice.contains_key(k) by {}
    assert(once.dom() =~= twice.dom());
    assert forall|k: Seq<char>| #[trigger] once.contains_key(k) implies value_text(once[k])
        == value_text(twice[k]) by {
        if is_field(fields, k) {
            let i = choose|i: int| 0 <= i < fields.len() && (#[trigger] fields[i]).0@ == k;
            assert(value_text(once[fields[i].0@]) == Some(fields[i].1@));
            assert(value_text(twice[fields[i].0@]) == Some(fields[i].1@));
        } else {
            assert(twice.contains_key(k));
        }
    }
}

/// A device runs tvOS if and only if it is reached over the network, its product type
/// begins with the name of the Apple TV, or its class is that name in any case.
pub proof fn lemma_tvos_metadata(product: Seq<char>, class: Seq<char>)
    ensures
        is_tvos_metadata(Some(product), Some(class), true),
        is_tvos_metadata(None, None, true),
        !is_tvos_metadata(None, None, false),
        is_tvos_metadata(Some(product), None, false) <==> "AppleTV"@.is_prefix_of(product),
        is_tvos_metadata(None, Some(class), false) <==> lowered(class) == lowered("AppleTV"@),
        is_tvos_metadata(Some(product), Some(class), false) <==> is_tvos_metadata(
            Some(product),
            None,
            false,
        ) || is_tvos_metadata(None, Some(class), false),
{
}

/// A request for tvOS says so under two keys and is otherwise what it was; one for
/// iOS is what it was.
pub proof fn lemma_request_names_platform(
    before: Map<Seq<char>, plist::Value>,
    after: Map<Seq<char>, plist::Value>,
    platform: DeveloperPlatform,
)
    requires
        fields_applied(before, after, platform.fields()),
    ensures
        platform is Ios ==> after == before,
        platform is Tvos ==> {
            &&& after.contains_key("DTDK_Platform"@)
            &&& value_text(after["DTDK_Platform"@]) == Some("tvos"@)
            &&& after.contains_key("subPlatform"@)
            &&& value_text(after["subPlatform"@]) == Some("tvOS"@)
            &&& after.remove("DTDK_Platform"@).remove("subPlatform"@) == before.remove(
                "DTDK_Platform"@,
            ).remove("subPlatform"@)
        },
{
    let fields = platform.fields();
    if platform is Ios {
        assert forall|k: Seq<char>| after.contains_key(k) == before.contains_key(k) by {}
        assert(after =~= before);
    } else {
        assert(fields[0].0@ == "DTDK_Platform"@);
        assert(fields[1].0@ == "subPlatform"@);
        assert(is_field(fields, "DTDK_Platform"@));
        assert(is_field(fields, "subPlatform"@));
        assert(value_text(after[fields[0].0@]) == Some(fields[0].1@));
        assert(value_text(after[fields[1].0@]) == Some(fields[1].1@));
        let a = after.remove("DTDK_Platform"@).remove("subPlatform"@);
        let b = before.remove("DTDK_Platform"@).remove("subPlatform"@);
        assert forall|k: Seq<char>| #[trigger] a.contains_key(k) == b.contains_key(k) by {
            assert(after.contains_key(k) <==> before.contains_key(k) || is_field(fields, k));
        }
        assert(a =~= b);
    }
}

/// A profile is for iOS under two names and for tvOS under one, in any case, and
/// under no other.
pub proof fn lemma_profile_names(value: Seq<char>)
    ensures
        DeveloperPlatform::Ios.accepts(value) <==> lowered(value) == lowered("ios"@) || lowered(
            value,
        ) == lowered("iphoneos"@),
        DeveloperPlatform::Tvos.accepts(value) <==> lowered(value) == lowered("tvos"@),
{
    let ios = DeveloperPlatform::Ios.names();
    let tvos = DeveloperPlatform::Tvos.names();
    assert(ios.len() == 2 && ios[0]@ == "ios"@ && ios[1]@ == "iphoneos"@);
    assert(tvos.len() == 1 && tvos[0]@ == "tvos"@);
    if lowered(value) == lowered("ios"@) {
        assert(lowered(ios[0]@) == lowered(value));
    }
    if lowered(value) == lowered("iphoneos"@) {
        assert(lowered(ios[1]@) == lowered(value));
    }
    if lowered(value) == lowered("tvos"@) {
        assert(lowered(tvos[0]@) == lowered(value));
    }
}

} // verus!
