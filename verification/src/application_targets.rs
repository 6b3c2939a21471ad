//! The applications that a user can choose from.

use vstd::prelude::*;

use crate::audio::audio_system::AppInfo;
use crate::audio::pulse::backend;
use crate::audio::pulse::backend::to_lowercase;
use crate::audio::pulse::pulse_monitor;
use crate::audio::pulse::pulse_monitor::{request_explicit_refresh, RefreshQueue};
use crate::audio::{registry_applications, AudioRegistry};
use crate::sort;
use crate::sort::Sortable;
use crate::text;
use crate::text::{contains_string, is_before, same};

verus! {

/// An application that can be chosen.
#[derive(Debug)]
pub struct ApplicationTargetOption {
    pub id: String,
    pub name: String,
    pub detail: String,
    pub available: bool,
}

/// Whether an option is listed before another: by its name in lower case,
/// then by its detail.
pub open spec fn listed_before(
    name: Seq<char>,
    detail: Seq<char>,
    other_name: Seq<char>,
    other_detail: Seq<char>,
) -> bool {
    text::precedes(name, other_name) || (name == other_name && text::precedes(
        detail,
        other_detail,
    ))
}

/// Whether an option is listed before another. The names are given in lower
/// case.
pub fn is_listed_before(name: &str, detail: &str, other_name: &str, other_detail: &str) -> (res:
    bool)
    ensures
        res == listed_before(name@, detail@, other_name@, other_detail@),
{
    is_before(name, other_name) || (same(name, other_name) && is_before(detail, other_detail))
}

impl Sortable for ApplicationTargetOption {
    open spec fn goes_before(&self, other: &Self) -> bool {
        listed_before(
            backend::unicode_lowercase(self.name@),
            self.detail@,
            backend::unicode_lowercase(other.name@),
            other.detail@,
        )
    }

    fn is_before(&self, other: &Self) -> (res: bool) {
        let name = to_lowercase(self.name.as_str());
        let other_name = to_lowercase(other.name.as_str());
        is_listed_before(
            name.as_str(),
            self.detail.as_str(),
            other_name.as_str(),
            other.detail.as_str(),
        )
    }

    proof fn asymmetric(a: &Self, b: &Self) {
        let x = backend::unicode_lowercase(a.name@);
        let y = backend::unicode_lowercase(b.name@);
        text::lemma_precedes_irreflexive(x);
        text::lemma_precedes_irreflexive(a.detail@);
        if text::precedes(x, y) && text::precedes(y, x) {
            text::lemma_precedes_transitive(x, y, x);
        }
        if text::precedes(a.detail@, b.detail@) && text::precedes(b.detail@, a.detail@) {
            text::lemma_precedes_transitive(a.detail@, b.detail@, a.detail@);
        }
    }

    proof fn negatively_transitive(a: &Self, b: &Self, c: &Self) {
        let x = backend::unicode_lowercase(a.name@);
        let y = backend::unicode_lowercase(b.name@);
        let z = backend::unicode_lowercase(c.name@);
        text::lemma_precedes_total(x, y);
        text::lemma_precedes_total(y, z);
        text::lemma_precedes_total(x, z);
        text::lemma_precedes_irreflexive(x);
        text::lemma_precedes_total(a.detail@, b.detail@);
        text::lemma_precedes_total(b.detail@, c.detail@);
        text::lemma_precedes_irreflexive(a.detail@);
        if text::precedes(z, y) && text::precedes(y, x) {
            text::lemma_precedes_transitive(z, y, x);
        }
        if text::precedes(x, z) && text::precedes(z, x) {
            text::lemma_precedes_transitive(x, z, x);
        }
        if text::precedes(c.detail@, b.detail@) && text::precedes(b.detail@, a.detail@) {
            text::lemma_precedes_transitive(c.detail@, b.detail@, a.detail@);
        }
        if text::precedes(a.detail@, c.detail@) && text::precedes(c.detail@, a.detail@) {
            text::lemma_precedes_transitive(a.detail@, c.detail@, a.detail@);
        }
    }
}

/// The places, of the first `n`, whose id did not come before.
pub open spec fn first_places(ids: Seq<String>, n: nat) -> Seq<usize>
    decreases n,
{
    if n == 0 {
        Seq::empty()
    } else {
        let before = first_places(ids, (n - 1) as nat);
        if text::texts(ids.take(n - 1)).contains(ids[n - 1]@) {
            before
        } else {
            before.push((n - 1) as usize)
        }
    }
}

/// What is said of an application beside its name. Devices are told apart
/// where `names_devices` says so.
pub open spec fn detail_of(app: AppInfo, names_devices: bool) -> Seq<char> {
    if names_devices && app.is_device {
        "System output"@
    } else if app.is_multi_sink_app {
        "All active streams"@
    } else {
        match app.sink_name {
            Some(name) => name@,
            None => Seq::empty(),
        }
    }
}

/// Whether this is the option for an application.
pub open spec fn is_option_of(
    option: ApplicationTargetOption,
    app: AppInfo,
    id: Seq<char>,
    names_devices: bool,
) -> bool {
    &&& option.id@ == id
    &&& option.name@ == app.app_name@
    &&& option.detail@ == detail_of(app, names_devices)
    &&& option.available
}

/// Whether these are the options for the applications, one for each id, made
/// from the first application with it.
pub open spec fn are_options_of(
    options: Seq<ApplicationTargetOption>,
    apps: Seq<AppInfo>,
    ids: Seq<String>,
    names_devices: bool,
) -> bool {
    let places = first_places(ids, ids.len());
    &&& options.len() == places.len()
    &&& forall|k: int|
        0 <= k < options.len() ==> is_option_of(
            #[trigger] options[k],
            apps[places[k] as int],
            ids[places[k] as int]@,
            names_devices,
        )
}

proof fn lemma_first_places(ids: Seq<String>, n: nat)
    requires
        n <= ids.len(),
        ids.len() <= usize::MAX,
    ensures
        forall|k: int|
            0 <= k < first_places(ids, n).len() ==> (#[trigger] first_places(ids, n)[k]) < n,
        forall|k: int, q: int|
            0 <= k < first_places(ids, n).len() && 0 <= q < first_places(ids, n)[k] ==> (
            #[trigger] ids[q])@ != ids[(#[trigger] first_places(ids, n)[k]) as int]@,
        forall|i: int|
            0 <= i < n ==> exists|k: int|
                0 <= k < first_places(ids, n).len() && ids[(#[trigger] first_places(
                    ids,
                    n,
                )[k]) as int]@ == (#[trigger] ids[i])@,
        forall|a: int, b: int|
            0 <= a < b < first_places(ids, n).len() ==> #[trigger] first_places(ids, n)[a]
                < #[trigger] first_places(ids, n)[b],
    decreases n,
{
    if n > 0 {
        lemma_first_places(ids, (n - 1) as nat);
        let before = first_places(ids, (n - 1) as nat);
        let all = first_places(ids, n);
        let earlier = text::texts(ids.take(n - 1));
        if !earlier.contains(ids[n - 1]@) {
            assert forall|q: int| 0 <= q < n - 1 implies (#[trigger] ids[q])@ != ids[n - 1]@ by {
                assert(earlier[q] == ids[q]@);
            }
        }
        assert forall|k: int, q: int|
            0 <= k < all.len() && 0 <= q < all[k] implies (#[trigger] ids[q])@ != ids[(
        #[trigger] all[k]) as int]@ by {
            if k < before.len() {
                assert(all[k] == before[k]);
            }
        }
        assert forall|i: int| 0 <= i < n implies exists|k: int|
            0 <= k < all.len() && ids[(#[trigger] all[k]) as int]@ == (#[trigger] ids[i])@ by {
            let j = if i < n - 1 {
                i
            } else if earlier.contains(ids[n - 1]@) {
                choose|j: int| 0 <= j < earlier.len() && earlier[j] == ids[n - 1]@
            } else {
                i
            };
            if j < n - 1 {
                assert(ids[j]@ == ids[i]@);
                let k = choose|k: int|
                    0 <= k < before.len() && ids[(#[trigger] before[k]) as int]@ == ids[j]@;
                assert(all[k] == before[k]);
            } else {
                assert(all[before.len() as int] == n - 1);
            }
        }
    }
}

/// Every application that plays is offered exactly once: there is one option
/// with its id, it is that of the first application with the id, and there is
/// no other option.
pub proof fn every_application_is_offered_once(
    options: Seq<ApplicationTargetOption>,
    apps: Seq<AppInfo>,
    ids: Seq<String>,
    names_devices: bool,
    i: int,
)
    requires
        apps.len() == ids.len() <= usize::MAX,
        are_options_of(options, apps, ids, names_devices),
        0 <= i < ids.len(),
        forall|k: int| 0 <= k < i ==> (#[trigger] ids[k])@ != ids[i]@,
    ensures
        exists|k: int|
            0 <= k < options.len() && (#[trigger] options[k]).id@ == ids[i]@ && options[k].name@
                == apps[i].app_name@ && options[k].available && options[k].detail@ == detail_of(
                apps[i],
                names_devices,
            ),
        forall|a: int, b: int|
            0 <= a < b < options.len() ==> (#[trigger] options[a]).id@ != (
            #[trigger] options[b]).id@,
        forall|a: int|
            0 <= a < options.len() ==> text::texts(ids).contains((#[trigger] options[a]).id@),
{
    let places = first_places(ids, ids.len());
    lemma_first_places(ids, ids.len());
    let k = choose|k: int| 0 <= k < places.len() && ids[(#[trigger] places[k]) as int]@ == ids[i]@;
    assert(places[k] == i) by {
        if places[k] < i {
            assert(ids[places[k] as int]@ != ids[i]@);
        }
        if places[k] > i {
            assert(ids[i]@ != ids[places[k] as int]@);
        }
    }
    assert(is_option_of(options[k], apps[i], ids[i]@, names_devices));
    assert forall|a: int, b: int| 0 <= a < b < options.len() implies (#[trigger] options[a]).id@
        != (#[trigger] options[b]).id@ by {
        assert(places[a] < places[b]);
        assert(ids[places[a] as int]@ != ids[places[b] as int]@);
    }
    assert forall|a: int| 0 <= a < options.len() implies text::texts(ids).contains(
        (#[trigger] options[a]).id@,
    ) by {
        assert(text::texts(ids)[places[a] as int] == ids[places[a] as int]@);
    }
}

/// What is said beside the name tells a device, an application with several
/// streams, and else the one stream.
pub proof fn details_tell_streams_apart(app: AppInfo, names_devices: bool)
    ensures
        names_devices && app.is_device ==> detail_of(app, names_devices) == "System output"@,
        !(names_devices && app.is_device) && app.is_multi_sink_app ==> detail_of(app, names_devices)
            == "All active streams"@,
        !(names_devices && app.is_device) && !app.is_multi_sink_app && app.sink_name is Some
            ==> detail_of(app, names_devices) == app.sink_name->0@,
        !(names_devices && app.is_device) && !app.is_multi_sink_app && app.sink_name is None
            ==> detail_of(app, names_devices).len() == 0,
{
}

/// The options are listed by their names in lower case, and those of one name
/// by their details.
pub proof fn options_are_listed_by_name(options: Seq<ApplicationTargetOption>, i: int, j: int)
    requires
        sort::is_sorted(options),
        0 <= i < j < options.len(),
    ensures
        !text::precedes(
            backend::unicode_lowercase(options[j].name@),
            backend::unicode_lowercase(options[i].name@),
        ),
        backend::unicode_lowercase(options[j].name@) == backend::unicode_lowercase(
            options[i].name@,
        ) ==> !text::precedes(options[j].detail@, options[i].detail@),
{
    assert(!options[j].goes_before(&options[i]));
}

/// The options for the applications, one for each id, in the order in which
/// they come.
pub fn target_options(apps: &[AppInfo], ids: &[String], names_devices: bool) -> (res: Vec<
    ApplicationTargetOption,
>)
    requires
        apps@.len() == ids@.len(),
    ensures
        are_options_of(res@, apps@, ids@, names_devices),
{
    let mut out: Vec<ApplicationTargetOption> = Vec::new();
    let mut seen: Vec<String> = Vec::new();
    let mut i: usize = 0;
    assert(text::texts(seen@) =~= text::texts(ids@.take(0)));
    while i < apps.len()
        invariant
            i <= apps@.len(),
            apps@.len() == ids@.len(),
            text::texts(seen@) == text::texts(ids@.take(i as int)),
            out@.len() == first_places(ids@, i as nat).len(),
            forall|k: int|
                0 <= k < out@.len() ==> is_option_of(
                    #[trigger] out@[k],
                    apps@[first_places(ids@, i as nat)[k] as int],
                    ids@[first_places(ids@, i as nat)[k] as int]@,
                    names_devices,
                ),
        decreases apps@.len() - i,
    {
        let ghost before = text::texts(seen@);
        let ghost made = out@;
        let app = &apps[i];
        if !contains_string(seen.as_slice(), ids[i].as_str()) {
            let detail = if names_devices && app.is_device {
                "System output".to_owned()
            } else if app.is_multi_sink_app {
                "All active streams".to_owned()
            } else {
                match &app.sink_name {
                    Some(name) => name.clone(),
                    None => {
                        let empty = String::new();
                        assert(empty@ =~= Seq::empty());
                        empty
                    },
                }
            };
            out.push(
                ApplicationTargetOption {
                    id: ids[i].clone(),
                    name: app.app_name.clone(),
                    detail,
                    available: true,
                },
            );
        }
        let id = ids[i].clone();
        seen.push(id);
        assert(text::texts(seen@) =~= before.push(id@));
        assert(text::texts(ids@.take(i + 1)) =~= before.push(id@));
        proof {
            let places = first_places(ids@, (i + 1) as nat);
            assert forall|k: int| 0 <= k < out@.len() implies is_option_of(
                #[trigger] out@[k],
                apps@[places[k] as int],
                ids@[places[k] as int]@,
                names_devices,
            ) by {
                if k < made.len() {
                    assert(out@[k] == made[k]);
                    assert(places[k] == first_places(ids@, i as nat)[k]);
                }
            }
        }
        i += 1;
    }
    out
}

/// The applications that can be chosen, by name, or what to tell the user
/// where the sound server has not been seen yet. A look at everything is
/// asked for. `ids` holds the ids of the applications in the registry.
pub fn application_target_inventory(
    queue: &mut RefreshQueue,
    registry: &AudioRegistry,
    ids: &[String],
) -> (res: (Vec<ApplicationTargetOption>, Option<String>))
    requires
        registry.applications@.len() == ids@.len(),
    ensures
        *final(queue) == pulse_monitor::requested(
            *old(queue),
            pulse_monitor::RefreshReason::Explicit,
        ),
        !registry.initialized ==> res.0@.len() == 0 && text::text_of(res.1) == Some(
            "Audio registry is not initialized"@,
        ),
        registry.initialized ==> {
            &&& res.1 is None
            &&& sort::is_sorted(res.0@)
            &&& exists|options: Seq<ApplicationTargetOption>|
                {
                    &&& #[trigger] are_options_of(options, registry.applications@, ids@, true)
                    &&& res.0@.to_multiset() == options.to_multiset()
                }
        },
{
    request_explicit_refresh(queue);
    let apps = match registry_applications(registry) {
        Some(apps) => apps,
        None => {
            return (Vec::new(), Some("Audio registry is not initialized".to_owned()));
        },
    };
    let options = target_options(apps.as_slice(), ids, true);
    let ghost made = options@;
    assert(are_options_of(made, registry.applications@, ids@, true));
    (sort::sort(options), None)
}

} // verus!
