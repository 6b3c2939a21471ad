//! The channels of the mixer: the applications that are shown in columns.

use vstd::prelude::*;

use crate::audio::audio_system::AppInfo;
use crate::text;
use crate::text::{contains_string, copy_option};

verus! {

/// A channel of the mixer. `vol_percent_bits` is the bit pattern of its
/// volume, a 32-bit floating-point percentage.
#[derive(Debug)]
pub struct MixerChannel {
    pub header_id: Option<String>,
    pub upper_vol_btn_id: Option<String>,
    pub lower_vol_btn_id: Option<String>,
    pub uid: u32,
    pub app_name: String,
    pub sink_name: Option<String>,
    pub mute: bool,
    pub vol_percent_bits: u32,
    pub icon_uri: String,
    pub icon_uri_mute: String,
    pub uses_default_icon: bool,
    pub is_device: bool,
    pub is_multi_sink_app: bool,
}

impl Clone for MixerChannel {
    fn clone(&self) -> (res: Self)
        ensures
            res == *self,
    {
        MixerChannel {
            header_id: copy_option(&self.header_id),
            upper_vol_btn_id: copy_option(&self.upper_vol_btn_id),
            lower_vol_btn_id: copy_option(&self.lower_vol_btn_id),
            uid: self.uid,
            app_name: self.app_name.clone(),
            sink_name: copy_option(&self.sink_name),
            mute: self.mute,
            vol_percent_bits: self.vol_percent_bits,
            icon_uri: self.icon_uri.clone(),
            icon_uri_mute: self.icon_uri_mute.clone(),
            uses_default_icon: self.uses_default_icon,
            is_device: self.is_device,
            is_multi_sink_app: self.is_multi_sink_app,
        }
    }
}

/// A channel with another volume and mute state.
pub open spec fn with_state(channel: MixerChannel, vol_percent_bits: u32, mute: bool) -> MixerChannel {
    MixerChannel { vol_percent_bits, mute, ..channel }
}

/// A new state of a channel is its volume and its mute state, and nothing else.
pub proof fn state_of_a_channel_is_volume_and_mute(
    channel: MixerChannel,
    vol_percent_bits: u32,
    mute: bool,
)
    ensures
        ({
            let after = with_state(channel, vol_percent_bits, mute);
            &&& after.vol_percent_bits == vol_percent_bits
            &&& after.mute == mute
            &&& after.uid == channel.uid
            &&& after.app_name == channel.app_name
            &&& after.sink_name == channel.sink_name
            &&& after.icon_uri == channel.icon_uri
            &&& after.icon_uri_mute == channel.icon_uri_mute
            &&& after.is_device == channel.is_device
            &&& after.is_multi_sink_app == channel.is_multi_sink_app
            &&& with_state(after, channel.vol_percent_bits, channel.mute) == channel
        }),
{
}

/// Notes the state of a stream in all channels that show it.
pub fn update_channel_state(
    channels: &mut Vec<MixerChannel>,
    uid: u32,
    vol_percent_bits: u32,
    mute: bool,
)
    ensures
        final(channels)@.len() == old(channels)@.len(),
        forall|i: int|
            0 <= i < old(channels)@.len() ==> (#[trigger] final(channels)@[i]) == if old(
                channels,
            )@[i].uid == uid {
                with_state(old(channels)@[i], vol_percent_bits, mute)
            } else {
                old(channels)@[i]
            },
{
    let mut i: usize = 0;
    while i < channels.len()
        invariant
            i <= channels@.len(),
            channels@.len() == old(channels)@.len(),
            forall|k: int|
                0 <= k < i ==> (#[trigger] channels@[k]) == if old(channels)@[k].uid == uid {
                    with_state(old(channels)@[k], vol_percent_bits, mute)
                } else {
                    old(channels)@[k]
                },
            forall|k: int|
                i <= k < channels@.len() ==> (#[trigger] channels@[k]) == old(channels)@[k],
        decreases channels@.len() - i,
    {
        if channels[i].uid == uid {
            let mut channel = channels[i].clone();
            channel.vol_percent_bits = vol_percent_bits;
            channel.mute = mute;
            channels.set(i, channel);
        }
        i += 1;
    }
}

/// The icon of an application, as it is and muted, and whether it is the one
/// that stands for all.
#[derive(Debug)]
pub struct AppIcon {
    pub normal: String,
    pub muted: String,
    pub uses_default: bool,
}

/// The places of the applications that are shown, of the first `n`: those
/// that are not ignored.
pub open spec fn shown_places(apps: Seq<AppInfo>, ignored: Seq<Seq<char>>, n: nat) -> Seq<usize>
    decreases n,
{
    if n == 0 {
        Seq::empty()
    } else {
        let before = shown_places(apps, ignored, (n - 1) as nat);
        if ignored.contains(apps[n - 1].app_name@) {
            before
        } else {
            before.push((n - 1) as usize)
        }
    }
}

/// The places of the applications that are shown.
pub open spec fn visible_places(apps: Seq<AppInfo>, ignored: Seq<Seq<char>>) -> Seq<usize> {
    shown_places(apps, ignored, apps.len())
}

proof fn lemma_shown(apps: Seq<AppInfo>, ignored: Seq<Seq<char>>, n: nat)
    requires
        n <= apps.len(),
        apps.len() <= usize::MAX,
    ensures
        forall|k: int|
            0 <= k < shown_places(apps, ignored, n).len() ==> (#[trigger] shown_places(
                apps,
                ignored,
                n,
            )[k]) < n && !ignored.contains(
                apps[shown_places(apps, ignored, n)[k] as int].app_name@,
            ),
    decreases n,
{
    if n > 0 {
        lemma_shown(apps, ignored, (n - 1) as nat);
        let before = shown_places(apps, ignored, (n - 1) as nat);
        assert forall|k: int| 0 <= k < shown_places(apps, ignored, n).len() implies (
        #[trigger] shown_places(apps, ignored, n)[k]) < n && !ignored.contains(
            apps[shown_places(apps, ignored, n)[k] as int].app_name@,
        ) by {
            if k < before.len() {
                assert(shown_places(apps, ignored, n)[k] == before[k]);
            }
        }
    }
}

/// No ignored application is shown.
pub proof fn ignored_applications_are_not_shown(
    apps: Seq<AppInfo>,
    ignored: Seq<Seq<char>>,
    k: int,
)
    requires
        apps.len() <= usize::MAX,
        0 <= k < visible_places(apps, ignored).len(),
    ensures
        visible_places(apps, ignored)[k] < apps.len(),
        !ignored.contains(apps[visible_places(apps, ignored)[k] as int].app_name@),
{
    lemma_shown(apps, ignored, apps.len());
}

proof fn lemma_all_shown(apps: Seq<AppInfo>, ignored: Seq<Seq<char>>, n: nat)
    requires
        n <= apps.len(),
        apps.len() <= usize::MAX,
    ensures
        forall|i: int|
            0 <= i < n && !ignored.contains((#[trigger] apps[i]).app_name@) ==> shown_places(
                apps,
                ignored,
                n,
            ).contains(i as usize),
        forall|a: int, b: int|
            0 <= a < b < shown_places(apps, ignored, n).len() ==> #[trigger] shown_places(
                apps,
                ignored,
                n,
            )[a] < #[trigger] shown_places(apps, ignored, n)[b],
    decreases n,
{
    if n > 0 {
        lemma_all_shown(apps, ignored, (n - 1) as nat);
        lemma_shown(apps, ignored, (n - 1) as nat);
        let before = shown_places(apps, ignored, (n - 1) as nat);
        let all = shown_places(apps, ignored, n);
        assert forall|i: int|
            0 <= i < n && !ignored.contains((#[trigger] apps[i]).app_name@) implies all.contains(
            i as usize,
        ) by {
            if i < n - 1 {
                assert(before.contains(i as usize));
                let k = choose|k: int| 0 <= k < before.len() && before[k] == i as usize;
                assert(all[k] == i as usize);
            } else {
                assert(all.last() == i as usize);
                assert(all[all.len() - 1] == i as usize);
            }
        }
    }
}

/// Every application that is not ignored is shown, whatever its state, each
/// once and in their order.
pub proof fn all_other_applications_are_shown(
    apps: Seq<AppInfo>,
    ignored: Seq<Seq<char>>,
    i: int,
    a: int,
    b: int,
)
    requires
        apps.len() <= usize::MAX,
        0 <= i < apps.len(),
    ensures
        visible_places(apps, ignored).contains(i as usize) <==> !ignored.contains(
            apps[i].app_name@,
        ),
        0 <= a < b < visible_places(apps, ignored).len() ==> visible_places(apps, ignored)[a]
            < visible_places(apps, ignored)[b],
{
    lemma_shown(apps, ignored, apps.len());
    lemma_all_shown(apps, ignored, apps.len());
    let all = visible_places(apps, ignored);
    if all.contains(i as usize) {
        let k = choose|k: int| 0 <= k < all.len() && all[k] == i as usize;
        assert(!ignored.contains(apps[all[k] as int].app_name@));
    }
}

/// The places of the applications that are shown.
pub fn visible_applications(apps: &[AppInfo], ignored: &[String]) -> (res: Vec<usize>)
    ensures
        res@ == visible_places(apps@, text::texts(ignored@)),
        forall|k: int| 0 <= k < res@.len() ==> (#[trigger] res@[k]) < apps@.len(),
{
    let mut out: Vec<usize> = Vec::new();
    let mut i: usize = 0;
    while i < apps.len()
        invariant
            i <= apps@.len(),
            out@ == shown_places(apps@, text::texts(ignored@), i as nat),
        decreases apps@.len() - i,
    {
        if !contains_string(ignored, apps[i].app_name.as_str()) {
            out.push(i);
        }
        i += 1;
    }
    proof {
        lemma_shown(apps@, text::texts(ignored@), apps@.len());
    }
    out
}

/// Whether the channel needs another icon than the one it showed before: it
/// showed another stream, or none.
pub open spec fn needs_icon(previous: Seq<MixerChannel>, k: int, app: AppInfo) -> bool {
    !(k < previous.len() && previous[k].uid == app.uid)
}

/// Whether a channel needs another icon than the one it showed before.
pub fn channel_needs_icon(previous: &[MixerChannel], k: usize, app: &AppInfo) -> (res: bool)
    ensures
        res == needs_icon(previous@, k as int, *app),
{
    !(k < previous.len() && previous[k].uid == app.uid)
}

/// Whether this is the channel at a place, for an application. It keeps the
/// keys of the channel that was there before.
pub open spec fn is_channel(
    channel: MixerChannel,
    previous: Seq<MixerChannel>,
    k: int,
    app: AppInfo,
    icon: Option<AppIcon>,
) -> bool {
    &&& channel.uid == app.uid
    &&& channel.app_name == app.app_name
    &&& channel.sink_name == app.sink_name
    &&& channel.mute == app.mute
    &&& channel.vol_percent_bits == app.vol_percent_bits
    &&& channel.is_device == app.is_device
    &&& channel.is_multi_sink_app == app.is_multi_sink_app
    &&& if k < previous.len() {
        &&& channel.header_id == previous[k].header_id
        &&& channel.upper_vol_btn_id == previous[k].upper_vol_btn_id
        &&& channel.lower_vol_btn_id == previous[k].lower_vol_btn_id
    } else {
        &&& channel.header_id is None
        &&& channel.upper_vol_btn_id is None
        &&& channel.lower_vol_btn_id is None
    }
    &&& if needs_icon(previous, k, app) {
        icon matches Some(icon) && channel.icon_uri == icon.normal && channel.icon_uri_mute
            == icon.muted && channel.uses_default_icon == icon.uses_default
    } else {
        &&& channel.icon_uri == previous[k].icon_uri
        &&& channel.icon_uri_mute == previous[k].icon_uri_mute
        &&& channel.uses_default_icon == previous[k].uses_default_icon
    }
}

/// Every application that is not ignored has a channel, and the channel shows
/// its name, volume and mute state. A channel keeps its keys, and the icon that
/// it showed only where it showed the same stream; else it gets the icon that
/// was found.
pub proof fn channels_show_their_applications(
    previous: Seq<MixerChannel>,
    apps: Seq<AppInfo>,
    ignored: Seq<Seq<char>>,
    icons: Seq<Option<AppIcon>>,
    channels: Seq<MixerChannel>,
    i: int,
)
    requires
        apps.len() <= usize::MAX,
        channels.len() == visible_places(apps, ignored).len(),
        forall|k: int|
            0 <= k < channels.len() ==> is_channel(
                #[trigger] channels[k],
                previous,
                k,
                apps[visible_places(apps, ignored)[k] as int],
                icons[k],
            ),
        0 <= i < apps.len(),
        !ignored.contains(apps[i].app_name@),
    ensures
        exists|k: int|
            {
                let channel = #[trigger] channels[k];
                &&& 0 <= k < channels.len()
                &&& channel.uid == apps[i].uid
                &&& channel.app_name@ == apps[i].app_name@
                &&& text::text_of(channel.sink_name) == text::text_of(apps[i].sink_name)
                &&& channel.mute == apps[i].mute
                &&& channel.vol_percent_bits == apps[i].vol_percent_bits
                &&& channel.is_device == apps[i].is_device
                &&& channel.is_multi_sink_app == apps[i].is_multi_sink_app
                &&& k < previous.len() ==> channel.header_id == previous[k].header_id
                    && channel.upper_vol_btn_id == previous[k].upper_vol_btn_id
                    && channel.lower_vol_btn_id == previous[k].lower_vol_btn_id
                &&& k >= previous.len() ==> channel.header_id is None
                    && channel.upper_vol_btn_id is None && channel.lower_vol_btn_id is None
                &&& if k < previous.len() && previous[k].uid == apps[i].uid {
                    &&& channel.icon_uri == previous[k].icon_uri
                    &&& channel.icon_uri_mute == previous[k].icon_uri_mute
                    &&& channel.uses_default_icon == previous[k].uses_default_icon
                } else {
                    icons[k] matches Some(icon) && channel.icon_uri == icon.normal
                        && channel.icon_uri_mute == icon.muted && channel.uses_default_icon
                        == icon.uses_default
                }
            },
{
    all_other_applications_are_shown(apps, ignored, i, 0, 0);
    let places = visible_places(apps, ignored);
    let k = choose|k: int| 0 <= k < places.len() && places[k] == i as usize;
    assert(is_channel(channels[k], previous, k, apps[places[k] as int], icons[k]));
}

/// The channels for the applications that are shown, in place of those shown
/// before. `icons` holds the icons that were found for the channels that need
/// one. A channel is known by its place, which has to fit into a byte.
pub fn update_mixer_channels(
    previous: &[MixerChannel],
    apps: &[AppInfo],
    ignored: &[String],
    icons: &[Option<AppIcon>],
) -> (res: Vec<MixerChannel>)
    requires
        visible_places(apps@, text::texts(ignored@)).len() <= 255,
        icons@.len() == visible_places(apps@, text::texts(ignored@)).len(),
        forall|k: int|
            0 <= k < icons@.len() && needs_icon(
                previous@,
                k,
                apps@[visible_places(apps@, text::texts(ignored@))[k] as int],
            ) ==> (#[trigger] icons@[k]) is Some,
    ensures
        res@.len() == visible_places(apps@, text::texts(ignored@)).len(),
        forall|k: int|
            0 <= k < res@.len() ==> is_channel(
                #[trigger] res@[k],
                previous@,
                k,
                apps@[visible_places(apps@, text::texts(ignored@))[k] as int],
                icons@[k],
            ),
{
    let visible = visible_applications(apps, ignored);
    let ghost places = visible_places(apps@, text::texts(ignored@));
    let mut out: Vec<MixerChannel> = Vec::new();
    let mut k: usize = 0;
    while k < visible.len()
        invariant
            k <= visible@.len(),
            visible@ == places,
            out@.len() == k,
            icons@.len() == places.len(),
            forall|j: int| 0 <= j < visible@.len() ==> (#[trigger] visible@[j]) < apps@.len(),
            forall|j: int|
                0 <= j < icons@.len() && needs_icon(previous@, j, apps@[places[j] as int])
                    ==> (#[trigger] icons@[j]) is Some,
            forall|j: int|
                0 <= j < k ==> is_channel(
                    #[trigger] out@[j],
                    previous@,
                    j,
                    apps@[places[j] as int],
                    icons@[j],
                ),
        decreases visible@.len() - k,
    {
        let app = &apps[visible[k]];
        let (header_id, upper_vol_btn_id, lower_vol_btn_id): (
            Option<String>,
            Option<String>,
            Option<String>,
        ) = if k < previous.len() {
            (
                copy_option(&previous[k].header_id),
                copy_option(&previous[k].upper_vol_btn_id),
                copy_option(&previous[k].lower_vol_btn_id),
            )
        } else {
            (None, None, None)
        };
        let (icon_uri, icon_uri_mute, uses_default_icon): (String, String, bool) =
            if channel_needs_icon(previous, k, app) {
            match &icons[k] {
                Some(icon) => (icon.normal.clone(), icon.muted.clone(), icon.uses_default),
                None => (String::new(), String::new(), false),
            }
        } else {
            (
                previous[k].icon_uri.clone(),
                previous[k].icon_uri_mute.clone(),
                previous[k].uses_default_icon,
            )
        };
        out.push(
            MixerChannel {
                header_id,
                upper_vol_btn_id,
                lower_vol_btn_id,
                uid: app.uid,
                app_name: app.app_name.clone(),
                sink_name: copy_option(&app.sink_name),
                mute: app.mute,
                vol_percent_bits: app.vol_percent_bits,
                icon_uri,
                icon_uri_mute,
                uses_default_icon,
                is_device: app.is_device,
                is_multi_sink_app: app.is_multi_sink_app,
            },
        );
        k += 1;
    }
    out
}

/// The channels when there were none before.
pub fn create_mixer_channels(apps: &[AppInfo], ignored: &[String], icons: &[Option<AppIcon>]) -> (
res: Vec<MixerChannel>)
    requires
        visible_places(apps@, text::texts(ignored@)).len() <= 255,
        icons@.len() == visible_places(apps@, text::texts(ignored@)).len(),
        forall|k: int| 0 <= k < icons@.len() ==> (#[trigger] icons@[k]) is Some,
    ensures
        res@.len() == visible_places(apps@, text::texts(ignored@)).len(),
        forall|k: int|
            0 <= k < res@.len() ==> is_channel(
                #[trigger] res@[k],
                Seq::empty(),
                k,
                apps@[visible_places(apps@, text::texts(ignored@))[k] as int],
                icons@[k],
            ),
{
    let none: Vec<MixerChannel> = Vec::new();
    assert(none@ =~= Seq::empty());
    update_mixer_channels(none.as_slice(), apps, ignored, icons)
}

} // verus!
