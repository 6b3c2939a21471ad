//! From what PulseAudio tells to applications and devices.

use vstd::arithmetic::power2::{lemma_pow2_adds, pow2};
use vstd::prelude::*;

use crate::audio::audio_system;
use crate::audio::audio_system::{is_monitor_source, AppInfo, AudioDeviceInfo, DeviceKind};
use crate::audio::pulse::client::{Device, PlaybackStream};
use crate::percent;
use crate::table::Table;
use crate::text;
use crate::text::copy_option;
use crate::utils::{should_show_system_mixer, SystemMixer};

verus! {

/// Which part of the server's interface mutes a device.
#[derive(Clone, Copy, Debug, PartialEq, Eq, Structural)]
pub enum DeviceMuteApi {
    Sink,
    Source,
}

/// Which part of the server's interface mutes a device of this kind.
pub fn device_mute_api(kind: DeviceKind) -> (res: DeviceMuteApi)
    ensures
        res == match kind {
            DeviceKind::Output => DeviceMuteApi::Sink,
            DeviceKind::Input => DeviceMuteApi::Source,
        },
{
    match kind {
        DeviceKind::Output => DeviceMuteApi::Sink,
        DeviceKind::Input => DeviceMuteApi::Source,
    }
}

// ---------------------------------------------------------------------
// Volumes
// ---------------------------------------------------------------------

/// The sum of the volumes of all channels.
pub open spec fn total_volume(channels: Seq<u32>) -> nat
    decreases channels.len(),
{
    if channels.len() == 0 {
        0
    } else {
        total_volume(channels.drop_last()) + channels.last() as nat
    }
}

/// Whether this is the mean volume of the channels, rounded, halves upwards.
/// Without channels it is zero.
pub open spec fn is_mean_of(mean: nat, channels: Seq<u32>) -> bool {
    &&& channels.len() == 0 ==> mean == 0
    &&& channels.len() > 0 ==> mean == (2 * total_volume(channels) + channels.len()) / (2
        * channels.len())
}

proof fn lemma_total_is_bounded(channels: Seq<u32>, low: nat, high: nat)
    requires
        forall|i: int| 0 <= i < channels.len() ==> low <= #[trigger] channels[i] <= high,
    ensures
        low * channels.len() <= total_volume(channels) <= high * channels.len(),
    decreases channels.len(),
{
    if channels.len() > 0 {
        let before = channels.drop_last();
        assert forall|i: int| 0 <= i < before.len() implies low <= #[trigger] before[i] <= high by {
            assert(before[i] == channels[i]);
        }
        lemma_total_is_bounded(before, low, high);
        assert(low <= channels[channels.len() - 1] <= high);
        let n = before.len();
        assert(low * (n + 1) == low * n + low) by (nonlinear_arith);
        assert(high * (n + 1) == high * n + high) by (nonlinear_arith);
    }
}

/// The mean volume is that of a channel no louder than the loudest and no
/// softer than the softest one, and channels of the same volume have it as
/// their mean. It is off by half a step at most, and each channel counts with
/// its volume.
pub proof fn mean_lies_among_the_channels(
    mean: nat,
    channels: Seq<u32>,
    low: nat,
    high: nat,
    more: u32,
)
    requires
        channels.len() > 0,
        is_mean_of(mean, channels),
        forall|i: int| 0 <= i < channels.len() ==> low <= #[trigger] channels[i] <= high,
    ensures
        low <= mean <= high,
        2 * total_volume(channels) - channels.len() < 2 * (channels.len() * mean),
        2 * (channels.len() * mean) <= 2 * total_volume(channels) + channels.len(),
        total_volume(channels.push(more)) == total_volume(channels) + more,
{
    lemma_total_is_bounded(channels, low, high);
    assert(channels.push(more).drop_last() =~= channels);
    let n = channels.len();
    let total = total_volume(channels);
    assert(2 * total - n < 2 * (n * mean) && 2 * (n * mean) <= 2 * total + n) by (nonlinear_arith)
        requires
            n > 0,
            mean == (2 * total + n) / (2 * n),
    ;
    assert(low <= mean) by (nonlinear_arith)
        requires
            n > 0,
            low * n <= total,
            2 * total - n < 2 * (n * mean),
    ;
    assert(mean <= high) by (nonlinear_arith)
        requires
            n > 0,
            total <= high * n,
            2 * (n * mean) <= 2 * total + n,
    ;
}

/// The mean volume of the channels, rounded, halves upwards. Without channels
/// it is zero.
pub fn average_channel_volume(channels: &[u32]) -> (res: u32)
    requires
        channels@.len() <= 255,
    ensures
        is_mean_of(res as nat, channels@),
{
    if channels.len() == 0 {
        return 0;
    }
    let mut total: u64 = 0;
    let mut i: usize = 0;
    while i < channels.len()
        invariant
            i <= channels@.len() <= 255,
            total == total_volume(channels@.take(i as int)),
            total <= i * 0xffff_ffff,
        decreases channels@.len() - i,
    {
        assert(channels@.take(i + 1).drop_last() =~= channels@.take(i as int));
        total = total + channels[i] as u64;
        i += 1;
    }
    assert(channels@.take(i as int) =~= channels@);
    let count: u64 = channels.len() as u64;
    let mean: u64 = (2 * total + count) / (2 * count);
    proof {
        let t = total as int;
        let c = count as int;
        assert(t <= c * 0xffff_ffff);
        assert((2 * t + c) / (2 * c) <= 0xffff_ffff) by (nonlinear_arith)
            requires
                0 <= t <= c * 0xffff_ffff,
                c > 0,
        ;
    }
    mean as u32
}

/// The volume that PulseAudio calls normal.
pub const NORMAL_VOLUME: u32 = 65536;

/// Whether the bit pattern is the percentage of a volume: the normal volume
/// is one hundred percent.
pub open spec fn is_percent_of_raw(bits: u64, raw: u32) -> bool {
    &&& percent::is_finite(bits)
    &&& !percent::is_negative(bits)
    &&& NORMAL_VOLUME * percent::value(bits) == percent::whole(100 * raw as nat)
}

/// The percentage of a volume, as the bit pattern of a 64-bit floating-point
/// number. No volume needs more digits than the pattern has, so it is exact.
pub fn pulse_raw_to_percent(raw: u32) -> (res: u64)
    ensures
        is_percent_of_raw(res, raw),
{
    if raw == 0 {
        assert(percent::value(0) == 0);
        assert(percent::whole(0) == 0) by (nonlinear_arith);
        return 0;
    }
    let hundredfold: u64 = 100 * (raw as u64);
    let mut digits: u64 = hundredfold;
    let mut doubled: u64 = 0;
    proof {
        vstd::arithmetic::power2::lemma2_to64();
        vstd::arithmetic::power2::lemma2_to64_rest();
    }
    while digits < percent::FRACTIONS
        invariant
            1 <= hundredfold <= 100 * 0xffff_ffff,
            digits == hundredfold * pow2(doubled as nat),
            digits < 2 * percent::FRACTIONS,
            doubled <= 52,
            pow2(52) == percent::FRACTIONS,
        decreases 52 - doubled,
    {
        proof {
            lemma_pow2_adds(1, doubled as nat);
            vstd::arithmetic::power2::lemma2_to64();
            assert(hundredfold * (2 * pow2(doubled as nat)) == 2 * (hundredfold * pow2(
                doubled as nat,
            ))) by (nonlinear_arith);
            if doubled == 52 {
                assert(hundredfold * pow2(52) >= pow2(52)) by (nonlinear_arith)
                    requires
                        hundredfold >= 1,
                ;
            }
        }
        digits = 2 * digits;
        doubled = doubled + 1;
    }
    let exponent: u64 = 1059 - doubled;
    let fraction: u64 = digits - percent::FRACTIONS;
    let bits: u64 = exponent * percent::FRACTIONS + fraction;
    proof {
        assert(bits / percent::FRACTIONS == exponent && bits % percent::FRACTIONS == fraction);
        let n = hundredfold as nat;
        let a = pow2(doubled as nat);
        let b = pow2((exponent - 1) as nat);
        lemma_pow2_adds(doubled as nat, (exponent - 1) as nat);
        lemma_pow2_adds(16, 1058);
        vstd::arithmetic::power2::lemma2_to64();
        let c = pow2(1058);
        assert(a * b == c);
        assert(percent::magnitude(bits) == digits * b);
        assert((n * a) * b == n * (a * b)) by (nonlinear_arith);
        assert(65536 * (n * c) == n * (65536 * c)) by (nonlinear_arith);
    }
    bits
}

/// The normal volume is one hundred percent, and one and a half times that
/// is one hundred and fifty; a louder volume has the higher percentage.
pub proof fn percentages_are_normalized(bits: u64, raw: u32, other_bits: u64, other: u32)
    requires
        is_percent_of_raw(bits, raw),
        is_percent_of_raw(other_bits, other),
    ensures
        raw == NORMAL_VOLUME ==> percent::value(bits) == percent::whole(100),
        2 * raw == 3 * NORMAL_VOLUME ==> percent::value(bits) == percent::whole(150),
        raw < other ==> percent::value(bits) < percent::value(other_bits),
        percent::is_finite(bits) && !percent::is_negative(bits),
{
    let p = pow2(1074);
    vstd::arithmetic::power2::lemma_pow2_pos(1074);
    assert((100 * 65536) * p == 65536 * (100 * p)) by (nonlinear_arith);
    assert((100 * 98304) * p == 65536 * (150 * p)) by (nonlinear_arith);
    if raw < other {
        assert((100 * raw) * p < (100 * other) * p) by (nonlinear_arith)
            requires
                raw < other,
                p > 0,
        ;
    }
}

// ---------------------------------------------------------------------
// Devices
// ---------------------------------------------------------------------

/// Whether a source counts as a device that records: it does not record what
/// a sink plays.
pub open spec fn records(device: Device) -> bool {
    device.monitor_of_sink is None && !audio_system::is_monitor(
        device.name@,
        match device.description {
            Some(description) => description@,
            None => Seq::empty(),
        },
    )
}

/// The devices of a list that count as devices of this kind.
pub open spec fn listed_devices(devices: Seq<Device>, kind: DeviceKind) -> Seq<Device>
    decreases devices.len(),
{
    if devices.len() == 0 {
        Seq::empty()
    } else {
        let rest = listed_devices(devices.drop_last(), kind);
        if kind == DeviceKind::Output || records(devices.last()) {
            rest.push(devices.last())
        } else {
            rest
        }
    }
}

/// Whether the record of a device holds what the server told of it.
pub open spec fn is_info_of(info: AudioDeviceInfo, device: Device, kind: DeviceKind) -> bool {
    &&& info.stable_name@ == device.name@
    &&& info.description@ == match device.description {
        Some(description) => description@,
        None => match kind {
            DeviceKind::Output => "Audio output"@,
            DeviceKind::Input => "Audio input"@,
        },
    }
    &&& info.mute == device.mute
    &&& info.vol_percent_bits == device.vol_percent_bits
    &&& info.icon_name == device.icon_name
    &&& info.kind == kind
}

/// Whether the records are those of the devices, in order.
pub open spec fn are_infos_of(
    infos: Seq<AudioDeviceInfo>,
    devices: Seq<Device>,
    kind: DeviceKind,
) -> bool {
    &&& infos.len() == devices.len()
    &&& forall|i: int|
        0 <= i < infos.len() ==> is_info_of(#[trigger] infos[i], devices[i], kind)
}

fn is_recording(device: &Device) -> (res: bool)
    ensures
        res == records(*device),
{
    if device.monitor_of_sink.is_some() {
        return false;
    }
    match &device.description {
        Some(description) => !is_monitor_source(device.name.as_str(), description.as_str()),
        None => {
            let empty = String::new();
            assert(empty@ =~= Seq::empty());
            !is_monitor_source(device.name.as_str(), empty.as_str())
        },
    }
}

/// The devices of a kind, from the sinks or the sources that the server
/// lists.
pub fn list_devices(devices: &[Device], kind: DeviceKind) -> (res: Vec<AudioDeviceInfo>)
    ensures
        are_infos_of(res@, listed_devices(devices@, kind), kind),
{
    let mut out: Vec<AudioDeviceInfo> = Vec::new();
    let mut i: usize = 0;
    while i < devices.len()
        invariant
            i <= devices@.len(),
            are_infos_of(out@, listed_devices(devices@.take(i as int), kind), kind),
        decreases devices@.len() - i,
    {
        assert(devices@.take(i + 1).drop_last() =~= devices@.take(i as int));
        let device = &devices[i];
        let listed = match kind {
            DeviceKind::Output => true,
            DeviceKind::Input => is_recording(device),
        };
        if listed {
            let description = match &device.description {
                Some(description) => description.clone(),
                None => match kind {
                    DeviceKind::Output => "Audio output".to_owned(),
                    DeviceKind::Input => "Audio input".to_owned(),
                },
            };
            out.push(
                AudioDeviceInfo {
                    stable_name: device.name.clone(),
                    description,
                    mute: device.mute,
                    vol_percent_bits: device.vol_percent_bits,
                    icon_name: copy_option(&device.icon_name),
                    kind,
                },
            );
        }
        i += 1;
    }
    assert(devices@.take(i as int) =~= devices@);
    out
}

/// No source that records what a sink plays is listed as a device.
pub proof fn monitors_are_left_out(devices: Seq<Device>, i: int)
    requires
        0 <= i < listed_devices(devices, DeviceKind::Input).len(),
    ensures
        records(listed_devices(devices, DeviceKind::Input)[i]),
        devices.contains(listed_devices(devices, DeviceKind::Input)[i]),
    decreases devices.len(),
{
    if devices.len() > 0 {
        let shorter = devices.drop_last();
        let rest = listed_devices(shorter, DeviceKind::Input);
        if i < rest.len() {
            monitors_are_left_out(shorter, i);
            let k = choose|k: int| 0 <= k < shorter.len() && shorter[k] == rest[i];
            assert(devices[k] == rest[i]);
        } else {
            assert(devices[devices.len() - 1] == devices.last());
        }
    }
}

proof fn lemma_listed(devices: Seq<Device>, kind: DeviceKind, i: int)
    requires
        0 <= i < devices.len(),
        kind == DeviceKind::Output || records(devices[i]),
    ensures
        listed_devices(devices, kind).contains(devices[i]),
    decreases devices.len(),
{
    let rest = listed_devices(devices.drop_last(), kind);
    let all = listed_devices(devices, kind);
    if i < devices.len() - 1 {
        lemma_listed(devices.drop_last(), kind, i);
        let k = choose|k: int| 0 <= k < rest.len() && rest[k] == devices[i];
        assert(all[k] == devices[i]);
    } else {
        assert(all[rest.len() as int] == devices[i]);
    }
}

/// Every output is listed, and every input that does not record what a sink
/// plays, with its state as the server told it. What has no description is
/// described by its kind.
pub proof fn all_devices_are_listed(
    infos: Seq<AudioDeviceInfo>,
    devices: Seq<Device>,
    kind: DeviceKind,
    i: int,
)
    requires
        are_infos_of(infos, listed_devices(devices, kind), kind),
        0 <= i < devices.len(),
        kind == DeviceKind::Output || records(devices[i]),
    ensures
        exists|k: int|
            {
                let info = #[trigger] infos[k];
                &&& 0 <= k < infos.len()
                &&& info.stable_name@ == devices[i].name@
                &&& info.mute == devices[i].mute
                &&& info.vol_percent_bits == devices[i].vol_percent_bits
                &&& info.icon_name == devices[i].icon_name
                &&& info.kind == kind
                &&& devices[i].description matches Some(description) ==> info.description@
                    == description@
                &&& devices[i].description is None ==> info.description@ == if kind
                    == DeviceKind::Output {
                    "Audio output"@
                } else {
                    "Audio input"@
                }
            },
{
    lemma_listed(devices, kind, i);
    let all = listed_devices(devices, kind);
    let k = choose|k: int| 0 <= k < all.len() && all[k] == devices[i];
    assert(is_info_of(infos[k], all[k], kind));
}

/// What the server calls the monitor of a sink is no input, nor is a source
/// whose name or description says so, in letters of either case.
pub proof fn monitors_do_not_record(device: Device, at: int)
    ensures
        device.monitor_of_sink is Some ==> !records(device),
        text::occurs_at(text::lowered(device.name@), ".monitor"@, at) ==> !records(device),
        device.description matches Some(description) ==> text::occurs_at(
            text::lowered(description@),
            "monitor of"@,
            at,
        ) ==> !records(device),
        device.monitor_of_sink is None && device.description is None && !text::occurs(
            text::lowered(device.name@),
            ".monitor"@,
        ) ==> records(device),
{
    reveal_strlit("monitor of");
}

// ---------------------------------------------------------------------
// Applications
// ---------------------------------------------------------------------

/// A text with its letters in lower case, as Unicode maps them.
pub uninterp spec fn unicode_lowercase(text: Seq<char>) -> Seq<char>;

/// Maps a text to lower case with `str::to_lowercase`, which maps each letter
/// as Unicode does.
#[verifier::external_body]
pub(crate) fn to_lowercase(text: &str) -> (res: String)
    ensures
        res@ == unicode_lowercase(text@),
{
    text.to_lowercase()
}

/// The name that a stream gives its application.
pub open spec fn given_name(stream: PlaybackStream) -> Seq<char> {
    if stream.properties@.contains_key("application.name"@) {
        stream.properties@["application.name"@]@
    } else {
        "app_stream"@
    }
}

/// The names under which the streams are shown.
pub open spec fn shown_names(streams: Seq<PlaybackStream>) -> Seq<Seq<char>> {
    streams.map_values(|stream: PlaybackStream| unicode_lowercase(given_name(stream)))
}

/// The name under which the device that all play on is shown.
pub open spec fn system_name(sink: Device) -> Seq<char> {
    match sink.description {
        Some(description) => description@,
        None => "System Audio"@,
    }
}

/// The names of all that is shown.
pub open spec fn all_names(names: Seq<Seq<char>>, system: Option<Device>) -> Seq<Seq<char>> {
    match system {
        Some(sink) => names.push(system_name(sink)),
        None => names,
    }
}

/// How often a name stands in a list.
pub open spec fn occurrences(list: Seq<Seq<char>>, name: Seq<char>) -> nat
    decreases list.len(),
{
    if list.len() == 0 {
        0
    } else {
        occurrences(list.drop_last(), name) + if list.last() == name {
            1nat
        } else {
            0nat
        }
    }
}

/// The properties of a stream, with those of its client where the stream has
/// none of its own. Where a client is known, the process that PipeWire names
/// stands in for the one that is missing.
pub open spec fn merged(
    properties: Map<Seq<char>, String>,
    client: Option<Map<Seq<char>, String>>,
) -> Map<Seq<char>, String> {
    match client {
        Some(more) => {
            let all = more.union_prefer_right(properties);
            if !all.contains_key("application.process.id"@) && all.contains_key(
                "pipewire.sec.pid"@,
            ) {
                all.insert("application.process.id"@, all["pipewire.sec.pid"@])
            } else {
                all
            }
        },
        None => properties,
    }
}

/// The properties of the client of a stream.
pub open spec fn client_of(
    stream: PlaybackStream,
    clients: Map<u32, Table<String, String>>,
) -> Option<Map<Seq<char>, String>> {
    match stream.client {
        Some(index) => if clients.contains_key(index) {
            Some(clients[index]@)
        } else {
            None
        },
        None => None,
    }
}

/// Whether the record of an application holds what the server told of its
/// stream. `names` holds the names of all that is shown.
pub open spec fn is_app_of(
    app: AppInfo,
    stream: PlaybackStream,
    name: Seq<char>,
    names: Seq<Seq<char>>,
    clients: Map<u32, Table<String, String>>,
) -> bool {
    &&& app.uid == stream.index
    &&& app.app_name@ == name
    &&& app.sink_name == stream.name
    &&& app.mute == stream.mute
    &&& app.vol_percent_bits == stream.vol_percent_bits
    &&& text::text_of(app.icon_name) == if stream.properties@.contains_key(
        "application.icon_name"@,
    ) {
        Some(stream.properties@["application.icon_name"@]@)
    } else {
        None
    }
    &&& !app.is_device
    &&& app.is_multi_sink_app == (occurrences(names, name) > 1)
    &&& app.metadata@ == merged(stream.properties@, client_of(stream, clients))
}

/// Whether the record of an application stands for the device that all play
/// on.
pub open spec fn is_system_app(app: AppInfo, sink: Device) -> bool {
    &&& app.uid == sink.index
    &&& app.app_name@ == system_name(sink)
    &&& text::text_of(app.sink_name) == Some("System Audio"@)
    &&& app.mute == sink.mute
    &&& app.vol_percent_bits == sink.vol_percent_bits
    &&& text::text_of(app.icon_name) == Some("audio-card"@)
    &&& app.is_device
    &&& !app.is_multi_sink_app
    &&& app.metadata@ == Map::<Seq<char>, String>::empty()
}

/// Whether the records are those of the device that all play on, where it is
/// shown, and of the streams, in order.
pub open spec fn are_apps_of(
    apps: Seq<AppInfo>,
    streams: Seq<PlaybackStream>,
    names: Seq<Seq<char>>,
    clients: Map<u32, Table<String, String>>,
    system: Option<Device>,
) -> bool {
    let first: int = if system is Some {
        1
    } else {
        0
    };
    &&& apps.len() == first + streams.len()
    &&& system matches Some(sink) ==> is_system_app(apps[0], sink)
    &&& forall|i: int|
        first <= i < apps.len() ==> is_app_of(
            #[trigger] apps[i],
            streams[i - first],
            names[i - first],
            all_names(names, system),
            clients,
        )
}

proof fn lemma_occurrences(list: Seq<Seq<char>>, name: Seq<char>)
    ensures
        occurrences(list, name) > 0 <==> list.contains(name),
        occurrences(list, name) > 1 <==> exists|i: int, j: int|
            0 <= i < j < list.len() && #[trigger] list[i] == name && #[trigger] list[j] == name,
    decreases list.len(),
{
    if list.len() > 0 {
        let before = list.drop_last();
        let n = before.len() as int;
        lemma_occurrences(before, name);
        assert(forall|k: int| 0 <= k < n ==> before[k] == list[k]);
        if before.contains(name) {
            let k = choose|k: int| 0 <= k < n && before[k] == name;
            assert(list[k] == name);
            if list.last() == name {
                assert(list[n] == name);
            }
        }
        if list.last() == name {
            assert(list[n] == name);
        }
        if list.contains(name) {
            let k = choose|k: int| 0 <= k < list.len() && list[k] == name;
            assert(k < n ==> before[k] == name);
        }
        if occurrences(before, name) > 1 {
            let (i, j) = choose|i: int, j: int|
                0 <= i < j < n && #[trigger] before[i] == name && #[trigger] before[j] == name;
            assert(list[i] == name && list[j] == name);
        }
        if exists|i: int, j: int|
            0 <= i < j < list.len() && #[trigger] list[i] == name && #[trigger] list[j] == name {
            let (i, j) = choose|i: int, j: int|
                0 <= i < j < list.len() && #[trigger] list[i] == name && #[trigger] list[j] == name;
            assert(before[i] == name);
            assert(j < n ==> before[j] == name);
        }
    }
}

/// Every stream is an application, in the order of the streams and behind the
/// device that all play on, where that is shown. It has the state of its
/// stream and the name that the stream gives, and it counts as one of several
/// exactly where something else that is shown has the same name.
pub proof fn every_stream_is_an_application(
    apps: Seq<AppInfo>,
    streams: Seq<PlaybackStream>,
    clients: Map<u32, Table<String, String>>,
    system: Option<Device>,
    i: int,
)
    requires
        are_apps_of(apps, streams, shown_names(streams), clients, system),
        0 <= i < streams.len(),
    ensures
        ({
            let first: int = if system is Some {
                1
            } else {
                0
            };
            let app = apps[first + i];
            &&& apps.len() == streams.len() + first
            &&& app.uid == streams[i].index
            &&& app.mute == streams[i].mute
            &&& app.vol_percent_bits == streams[i].vol_percent_bits
            &&& app.sink_name == streams[i].name
            &&& !app.is_device
            &&& app.app_name@ == unicode_lowercase(given_name(streams[i]))
            &&& app.is_multi_sink_app <==> (exists|j: int|
                0 <= j < streams.len() && j != i && unicode_lowercase(
                    given_name(#[trigger] streams[j]),
                ) == app.app_name@) || (system is Some && system_name(system->0) == app.app_name@)
            &&& system matches Some(sink) ==> apps[0].is_device && apps[0].uid == sink.index
                && apps[0].mute == sink.mute && apps[0].vol_percent_bits == sink.vol_percent_bits
                && apps[0].app_name@ == system_name(sink) && !apps[0].is_multi_sink_app
                && text::text_of(apps[0].sink_name) == Some("System Audio"@) && text::text_of(
                apps[0].icon_name,
            ) == Some("audio-card"@) && apps[0].metadata@ == Map::<Seq<char>, String>::empty()
            &&& text::text_of(app.icon_name) == if streams[i].properties@.contains_key(
                "application.icon_name"@,
            ) {
                Some(streams[i].properties@["application.icon_name"@]@)
            } else {
                None
            }
            &&& streams[i].client is None ==> app.metadata@ == streams[i].properties@
            &&& streams[i].client matches Some(client) ==> clients.contains_key(client)
                ==> app.metadata@ == merged(streams[i].properties@, Some(clients[client]@))
        }),
{
    let first: int = if system is Some {
        1
    } else {
        0
    };
    let names = shown_names(streams);
    let all = all_names(names, system);
    let app = apps[first + i];
    assert(is_app_of(app, streams[i], names[i], all, clients));
    assert forall|j: int| 0 <= j < streams.len() implies all[j] == unicode_lowercase(
        given_name(#[trigger] streams[j]),
    ) by {
        assert(names[j] == unicode_lowercase(given_name(streams[j])));
    }
    let name = app.app_name@;
    assert(all[i] == name) by {
        let stream = streams[i];
    }
    lemma_occurrences(all, name);
    if app.is_multi_sink_app {
        let (a, b) = choose|a: int, b: int|
            0 <= a < b < all.len() && #[trigger] all[a] == name && #[trigger] all[b] == name;
        let j = if a == i {
            b
        } else {
            a
        };
        if j < streams.len() {
            let stream = streams[j];
        } else {
            assert(all[j] == system_name(system->0));
        }
    }
    if exists|j: int|
        0 <= j < streams.len() && j != i && unicode_lowercase(given_name(#[trigger] streams[j]))
            == name {
        let j = choose|j: int|
            0 <= j < streams.len() && j != i && unicode_lowercase(given_name(#[trigger] streams[j]))
                == name;
        assert(all[j] == name);
        if j < i {
            assert(all[j] == name && all[i] == name);
        } else {
            assert(all[i] == name && all[j] == name);
        }
    }
    if system is Some && system_name(system->0) == name {
        assert(all[streams.len() as int] == name);
        assert(all[i] == name);
    }
}

/// What a stream says of itself counts before what its client says, and what
/// neither says is missing; only the process may be taken from the one that
/// PipeWire names.
pub proof fn own_properties_go_first(
    properties: Map<Seq<char>, String>,
    client: Map<Seq<char>, String>,
    key: Seq<char>,
)
    ensures
        merged(properties, None) == properties,
        properties.contains_key(key) ==> merged(properties, Some(client)).contains_key(key)
            && merged(properties, Some(client))[key] == properties[key],
        !properties.contains_key(key) && client.contains_key(key) ==> merged(
            properties,
            Some(client),
        ).contains_key(key) && merged(properties, Some(client))[key] == client[key],
        !properties.contains_key(key) && !client.contains_key(key) && key
            != "application.process.id"@ ==> !merged(properties, Some(client)).contains_key(key),
        ({
            let pid = "application.process.id"@;
            let other = "pipewire.sec.pid"@;
            let all = merged(properties, Some(client));
            !properties.contains_key(pid) && !client.contains_key(pid) ==> {
                &&& all.contains_key(pid) <==> all.contains_key(other)
                &&& all.contains_key(pid) ==> all[pid] == all[other]
            }
        }),
{
    reveal_strlit("application.process.id");
    reveal_strlit("pipewire.sec.pid");
    assert("application.process.id"@[0] == 'a');
    assert("pipewire.sec.pid"@[0] == 'p');
}

fn count_name(list: &[String], name: &str) -> (res: usize)
    ensures
        res == occurrences(text::texts(list@), name@),
{
    let ghost all = text::texts(list@);
    let mut count: usize = 0;
    let mut i: usize = 0;
    while i < list.len()
        invariant
            i <= list@.len(),
            count <= i,
            all == text::texts(list@),
            count == occurrences(all.take(i as int), name@),
        decreases list@.len() - i,
    {
        assert(all.take(i + 1).drop_last() =~= all.take(i as int));
        assert(all[i as int] == list@[i as int]@);
        if text::same(list[i].as_str(), name) {
            count += 1;
        }
        i += 1;
    }
    assert(all.take(i as int) =~= all);
    count
}

fn merge_properties(
    properties: &Table<String, String>,
    client: Option<&Table<String, String>>,
) -> (res: Table<String, String>)
    ensures
        res@ == merged(
            properties@,
            match client {
                Some(more) => Some(more@),
                None => None,
            },
        ),
{
    let mut all = properties.clone();
    if let Some(more) = client {
        let n: usize = more.len();
        let ghost keys = more.order();
        let mut i: usize = 0;
        while i < n
            invariant
                i <= n,
                n == keys.len(),
                keys == more.order(),
                forall|k: Seq<char>| more@.contains_key(k) <==> #[trigger] keys.contains(k),
                forall|k: Seq<char>| #[trigger]
                    all@.contains_key(k) <==> (properties@.contains_key(k) || keys.take(
                        i as int,
                    ).contains(k)),
                forall|k: Seq<char>| #[trigger]
                    all@.contains_key(k) ==> all@[k] == if properties@.contains_key(k) {
                        properties@[k]
                    } else {
                        more@[k]
                    },
            decreases n - i,
        {
            let key = more.key_at(i).clone();
            let value = more.value_at(i).clone();
            let ghost name = keys[i as int];
            assert(keys.take(i + 1) =~= keys.take(i as int).push(name));
            proof {
                crate::audio::lemma_contains_push(keys.take(i as int), name);
            }
            all.insert_new(key, value);
            i += 1;
        }
        assert(keys.take(i as int) =~= keys);
        assert(all@ =~= more@.union_prefer_right(properties@));
        let process = "application.process.id".to_owned();
        if !all.contains(&process) {
            let pid: Option<String> = match all.get(&"pipewire.sec.pid".to_owned()) {
                Some(pid) => Some(pid.clone()),
                None => None,
            };
            if let Some(pid) = pid {
                all.insert(process, pid);
            }
        }
    }
    all
}

fn optional_property(properties: &Table<String, String>, key: &str) -> (res: Option<String>)
    ensures
        text::text_of(res) == if properties@.contains_key(key@) {
            Some(properties@[key@]@)
        } else {
            None
        },
{
    match properties.get(&key.to_owned()) {
        Some(value) => Some(value.clone()),
        None => None,
    }
}

/// The applications that play sound, from the streams that the server lists
/// and the names under which they are shown. `clients` holds the properties
/// of the clients; `system` is the device that all play on, where it is shown
/// among them.
pub fn assemble_applications(
    streams: &[PlaybackStream],
    names: &[String],
    clients: &Table<u32, Table<String, String>>,
    system: Option<&Device>,
) -> (res: Vec<AppInfo>)
    requires
        streams@.len() == names@.len(),
    ensures
        are_apps_of(
            res@,
            streams@,
            text::texts(names@),
            clients@,
            match system {
                Some(sink) => Some(*sink),
                None => None,
            },
        ),
{
    let ghost shown = match system {
        Some(sink) => Some(*sink),
        None => None,
    };
    let ghost first: int = if system is Some {
        1
    } else {
        0
    };
    let mut all = text::copy_strings(names);
    let mut out: Vec<AppInfo> = Vec::new();
    if let Some(sink) = system {
        let name = match &sink.description {
            Some(description) => description.clone(),
            None => "System Audio".to_owned(),
        };
        let ghost before = text::texts(all@);
        all.push(name.clone());
        assert(text::texts(all@) =~= before.push(name@));
        out.push(
            AppInfo {
                uid: sink.index,
                app_name: name,
                sink_name: Some("System Audio".to_owned()),
                mute: sink.mute,
                vol_percent_bits: sink.vol_percent_bits,
                icon_name: Some("audio-card".to_owned()),
                is_device: true,
                is_multi_sink_app: false,
                metadata: Table::new(),
            },
        );
    }
    assert(text::texts(all@) == all_names(text::texts(names@), shown));
    let mut i: usize = 0;
    while i < streams.len()
        invariant
            i <= streams@.len(),
            streams@.len() == names@.len(),
            shown == match system {
                Some(sink) => Some(*sink),
                None => None,
            },
            first == if shown is Some {
                1int
            } else {
                0int
            },
            text::texts(all@) == all_names(text::texts(names@), shown),
            out@.len() == first + i,
            shown matches Some(sink) ==> is_system_app(out@[0], sink),
            forall|k: int|
                first <= k < out@.len() ==> is_app_of(
                    #[trigger] out@[k],
                    streams@[k - first],
                    text::texts(names@)[k - first],
                    all_names(text::texts(names@), shown),
                    clients@,
                ),
        decreases streams@.len() - i,
    {
        let ghost before = out@;
        let stream = &streams[i];
        let client = match stream.client {
            Some(index) => clients.get(&index),
            None => None,
        };
        let app_name = names[i].clone();
        let count: usize = count_name(all.as_slice(), app_name.as_str());
        let app = AppInfo {
            uid: stream.index,
            app_name,
            sink_name: copy_option(&stream.name),
            mute: stream.mute,
            vol_percent_bits: stream.vol_percent_bits,
            icon_name: optional_property(&stream.properties, "application.icon_name"),
            is_device: false,
            is_multi_sink_app: count > 1,
            metadata: merge_properties(&stream.properties, client),
        };
        assert(is_app_of(
            app,
            streams@[i as int],
            text::texts(names@)[i as int],
            all_names(text::texts(names@), shown),
            clients@,
        ));
        out.push(app);
        i += 1;
        assert forall|k: int| first <= k < out@.len() implies is_app_of(
            #[trigger] out@[k],
            streams@[k - first],
            text::texts(names@)[k - first],
            all_names(text::texts(names@), shown),
            clients@,
        ) by {
            if k < before.len() {
                assert(out@[k] == before[k]);
            }
        }
    }
    out
}

/// The applications that play sound, from the streams that the server lists.
/// The sink that all play on goes before them, where it is shown and there is
/// one.
pub fn list_applications(
    streams: &[PlaybackStream],
    clients: &Table<u32, Table<String, String>>,
    mixer: &SystemMixer,
    default_sink: Option<&Device>,
) -> (res: Vec<AppInfo>)
    ensures
        are_apps_of(
            res@,
            streams@,
            shown_names(streams@),
            clients@,
            match default_sink {
                Some(sink) => if mixer.shown {
                    Some(*sink)
                } else {
                    None
                },
                None => None,
            },
        ),
{
    let mut names: Vec<String> = Vec::new();
    let mut i: usize = 0;
    while i < streams.len()
        invariant
            i <= streams@.len(),
            text::texts(names@) == shown_names(streams@).take(i as int),
        decreases streams@.len() - i,
    {
        let ghost before = text::texts(names@);
        let given = match optional_property(&streams[i].properties, "application.name") {
            Some(name) => name,
            None => "app_stream".to_owned(),
        };
        let name = to_lowercase(given.as_str());
        names.push(name);
        assert(text::texts(names@) =~= before.push(name@));
        i += 1;
        assert(text::texts(names@) =~= shown_names(streams@).take(i as int));
    }
    assert(shown_names(streams@).take(i as int) =~= shown_names(streams@));
    assert(text::texts(names@).len() == names@.len());
    let system = if should_show_system_mixer(mixer) {
        default_sink
    } else {
        None
    };
    assemble_applications(streams, names.as_slice(), clients, system)
}

} // verus!
