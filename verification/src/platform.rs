//! The platforms a device, an app and a provisioning profile can be for.
use crate::plist_value::{with_entry, PlistDictionary, PlistModel, PlistValue};
use crate::text::{eq_ignore_case, is_prefix, same_ignoring_case, starts_with};
use vstd::prelude::*;

verus! {

#[derive(Debug, Clone, Copy, PartialEq, Eq, Structural)]
pub enum DeveloperPlatform {
    Ios,
    Tvos,
}

impl Default for DeveloperPlatform {
    fn default() -> (r: DeveloperPlatform)
        ensures
            r == DeveloperPlatform::Ios,
    {
        DeveloperPlatform::Ios
    }
}

/// The platform of a device with the given metadata.
pub open spec fn platform_of(
    product_type: Option<Seq<char>>,
    device_class: Option<Seq<char>>,
    network_transport: bool,
) -> DeveloperPlatform {
    if network_transport || (product_type matches Some(p) && is_prefix("AppleTV"@, p)) || (
    device_class matches Some(c) && same_ignoring_case(c, "AppleTV"@)) {
        DeveloperPlatform::Tvos
    } else {
        DeveloperPlatform::Ios
    }
}

/// The extra fields of a developer service request for `platform`.
pub open spec fn platform_fields(platform: DeveloperPlatform) -> Seq<(Seq<char>, Seq<char>)> {
    match platform {
        DeveloperPlatform::Ios => seq![],
        DeveloperPlatform::Tvos => seq![
            ("DTDK_Platform"@, "tvos"@),
            ("subPlatform"@, "tvOS"@),
        ],
    }
}

/// A profile that names `value` among its platforms is for `platform`.
pub open spec fn names_platform(platform: DeveloperPlatform, value: Seq<char>) -> bool {
    match platform {
        DeveloperPlatform::Ios => same_ignoring_case("ios"@, value) || same_ignoring_case(
            "iphoneos"@,
            value,
        ),
        DeveloperPlatform::Tvos => same_ignoring_case("tvos"@, value),
    }
}

/// The name of a platform as it is shown.
pub open spec fn platform_name(platform: DeveloperPlatform) -> Seq<char> {
    match platform {
        DeveloperPlatform::Ios => "iOS"@,
        DeveloperPlatform::Tvos => "tvOS"@,
    }
}

/// The characters of an optional text.
pub open spec fn opt_str(o: Option<&str>) -> Option<Seq<char>> {
    match o {
        Some(s) => Some(s@),
        None => None,
    }
}

impl DeveloperPlatform {
    pub fn from_device_metadata(
        product_type: Option<&str>,
        device_class: Option<&str>,
        network_transport: bool,
    ) -> (r: DeveloperPlatform)
        ensures
            r == platform_of(opt_str(product_type), opt_str(device_class), network_transport),
    {
        let by_product: bool = match product_type {
            Some(p) => starts_with(p, "AppleTV"),
            None => false,
        };
        let by_class: bool = match device_class {
            Some(c) => eq_ignore_case(c, "AppleTV"),
            None => false,
        };
        if network_transport || by_product || by_class {
            DeveloperPlatform::Tvos
        } else {
            DeveloperPlatform::Ios
        }
    }

    /// The extra fields of a developer service request, as pairs of a key and a value.
    pub fn request_fields(self) -> (r: Vec<(&'static str, &'static str)>)
        ensures
            r@.map_values(|f: (&'static str, &'static str)| (f.0@, f.1@)) == platform_fields(self),
    {
        let r: Vec<(&'static str, &'static str)> = match self {
            DeveloperPlatform::Ios => Vec::new(),
            DeveloperPlatform::Tvos => vec![("DTDK_Platform", "tvos"), ("subPlatform", "tvOS")],
        };
        proof {
            assert(r@.map_values(|f: (&'static str, &'static str)| (f.0@, f.1@)) =~= platform_fields(
                self,
            ));
        }
        r
    }

    /// The platform's name in a query for capabilities.
    pub fn capabilities_filter(self) -> (r: &'static str)
        ensures
            r@ == match self {
                DeveloperPlatform::Ios => "IOS"@,
                DeveloperPlatform::Tvos => "TVOS"@,
            },
    {
        match self {
            DeveloperPlatform::Ios => "IOS",
            DeveloperPlatform::Tvos => "TVOS",
        }
    }

    /// Puts the platform's request fields into `body`.
    pub fn apply_to(self, body: &mut PlistDictionary)
        ensures
            final(body)@ == match self {
                DeveloperPlatform::Ios => old(body)@,
                DeveloperPlatform::Tvos => with_entry(
                    with_entry(old(body)@, "DTDK_Platform"@, PlistModel::Text("tvos"@)),
                    "subPlatform"@,
                    PlistModel::Text("tvOS"@),
                ),
            },
    {
        let fields: Vec<(&'static str, &'static str)> = self.request_fields();
        let ghost shown = fields@.map_values(|f: (&'static str, &'static str)| (f.0@, f.1@));
        let ghost start = body@;
        let mut i: usize = 0;
        while i < fields.len()
            invariant
                i <= fields@.len(),
                shown == platform_fields(self),
                shown == fields@.map_values(|f: (&'static str, &'static str)| (f.0@, f.1@)),
                body@ == (if i == 0 {
                    start
                } else if i == 1 {
                    with_entry(start, shown[0].0, PlistModel::Text(shown[0].1))
                } else {
                    with_entry(
                        with_entry(start, shown[0].0, PlistModel::Text(shown[0].1)),
                        shown[1].0,
                        PlistModel::Text(shown[1].1),
                    )
                }),
            decreases fields@.len() - i,
        {
            proof {
                assert(shown.len() <= 2);
                assert(shown[i as int] == (fields@[i as int].0@, fields@[i as int].1@));
            }
            body.insert(fields[i].0.to_string(), PlistValue::Text(fields[i].1.to_string()));
            i += 1;
        }
        proof {
            assert(shown.len() == i);
        }
    }

    /// The names that a profile for this platform carries.
    pub fn profile_platforms(self) -> (r: Vec<&'static str>)
        ensures
            r@.map_values(|s: &'static str| s@) == match self {
                DeveloperPlatform::Ios => seq!["ios"@, "iphoneos"@],
                DeveloperPlatform::Tvos => seq!["tvos"@],
            },
    {
        let r: Vec<&'static str> = match self {
            DeveloperPlatform::Ios => vec!["ios", "iphoneos"],
            DeveloperPlatform::Tvos => vec!["tvos"],
        };
        proof {
            assert(r@.map_values(|s: &'static str| s@) =~= match self {
                DeveloperPlatform::Ios => seq!["ios"@, "iphoneos"@],
                DeveloperPlatform::Tvos => seq!["tvos"@],
            });
        }
        r
    }

    pub fn matches_profile_platform(self, value: &str) -> (r: bool)
        ensures
            r == names_platform(self, value@),
    {
        match self {
            DeveloperPlatform::Ios => eq_ignore_case("ios", value) || eq_ignore_case(
                "iphoneos",
                value,
            ),
            DeveloperPlatform::Tvos => eq_ignore_case("tvos", value),
        }
    }

    /// The platform's name as it is shown.
    pub fn to_text(&self) -> (r: &'static str)
        ensures
            r@ == platform_name(*self),
    {
        match self {
            DeveloperPlatform::Ios => "iOS",
            DeveloperPlatform::Tvos => "tvOS",
        }
    }
}

/// A name fits at most one platform.
pub proof fn law_profile_platforms_are_disjoint(value: Seq<char>)
    ensures
        !(names_platform(DeveloperPlatform::Ios, value) && names_platform(
            DeveloperPlatform::Tvos,
            value,
        )),
{
    reveal_strlit("ios");
    reveal_strlit("iphoneos");
    reveal_strlit("tvos");
    if names_platform(DeveloperPlatform::Tvos, value) {
        assert(crate::text::lower(value).len() == 4);
        assert(crate::text::lower("ios"@).len() == 3);
        assert(crate::text::lower("iphoneos"@).len() == 8);
        assert(crate::text::lower("tvos"@).len() == 4);
    }
}

/// A device that is reached over the network, or that calls itself an Apple TV by its product or its
/// class, is one; a device that says neither is not.
pub proof fn law_televisions_are_told_apart(
    product: Seq<char>,
    class: Seq<char>,
    more: Seq<char>,
    known: Option<Seq<char>>,
    network: bool,
)
    ensures
        platform_of(known, Some(class), true) == DeveloperPlatform::Tvos,
        platform_of(Some("AppleTV"@ + more), known, network) == DeveloperPlatform::Tvos,
        crate::text::lower(class) == "appletv"@ ==> platform_of(known, Some(class), network)
            == DeveloperPlatform::Tvos,
        platform_of(None, None, false) == DeveloperPlatform::Ios,
        product.len() < 7 || product.take(7) != "AppleTV"@ ==> platform_of(
            Some(product),
            None,
            false,
        ) == DeveloperPlatform::Ios,
        crate::text::lower(class) != "appletv"@ ==> platform_of(None, Some(class), false)
            == DeveloperPlatform::Ios,
{
    reveal_strlit("AppleTV");
    reveal_strlit("appletv");
    let p = "AppleTV"@ + more;
    assert(p.subrange(0, 7) =~= "AppleTV"@);
    assert(crate::text::lower("AppleTV"@) =~= "appletv"@);
    if product.len() >= 7 {
        assert(product.subrange(0, 7) =~= product.take(7));
    }
}

/// A request for a television names it, one for a phone adds nothing, and the two have names of their
/// own.
pub proof fn law_requests_name_the_platform()
    ensures
        platform_fields(DeveloperPlatform::Ios).len() == 0,
        platform_fields(DeveloperPlatform::Tvos).len() == 2,
        forall|i: int|
            0 <= i < 2 ==> crate::text::lower(
                #[trigger] platform_fields(DeveloperPlatform::Tvos)[i].1,
            ) == crate::text::lower(platform_name(DeveloperPlatform::Tvos)),
        platform_fields(DeveloperPlatform::Tvos)[0].0 == "DTDK_Platform"@,
        platform_fields(DeveloperPlatform::Tvos)[1].0 == "subPlatform"@,
        platform_name(DeveloperPlatform::Ios) != platform_name(DeveloperPlatform::Tvos),
{
    reveal_strlit("tvos");
    reveal_strlit("tvOS");
    reveal_strlit("iOS");
    assert(crate::text::lower("tvos"@) =~= crate::text::lower("tvOS"@));
    assert("iOS"@.len() == 3 && "tvOS"@.len() == 4);
}

} // verus!
