//! The dial that sets the volume of a sound device.

use vstd::prelude::*;

use crate::audio;
use crate::audio::audio_system::{AudioDeviceInfo, DeviceKind};
use crate::audio::{find_device, registry_devices, AudioRegistry};
use crate::dial;
use crate::dial::{clamp_step, clamp_target_percent, sanitize_maximum_volume};
use crate::feedback;
use crate::feedback::{
    build_feedback, choose_title, is_dimmed, reconcile_optimistic_mute, DialFeedback, Frame,
    MutePrediction, RenderStep, VolumePrediction,
};
use crate::percent;
use crate::text;
use crate::text::{contains_string, holds};

verus! {

/// The settings of a dial.
#[derive(Debug)]
pub struct AudioDeviceVolumeDialSettings {
    pub device_kind: DeviceKind,
    pub target_id: String,
    pub custom_title: String,
    pub volume_step: u8,
    pub maximum_volume: u16,
}

impl Default for AudioDeviceVolumeDialSettings {
    fn default() -> (res: Self)
        ensures
            res.device_kind == DeviceKind::Output,
            res.target_id@.len() == 0,
            res.custom_title@.len() == 0,
            res.volume_step == 2,
            res.maximum_volume == 100,
    {
        AudioDeviceVolumeDialSettings {
            device_kind: DeviceKind::Output,
            target_id: String::new(),
            custom_title: String::new(),
            volume_step: 2,
            maximum_volume: 100,
        }
    }
}

impl Clone for AudioDeviceVolumeDialSettings {
    fn clone(&self) -> (res: Self)
        ensures
            res == *self,
    {
        AudioDeviceVolumeDialSettings {
            device_kind: self.device_kind,
            target_id: self.target_id.clone(),
            custom_title: self.custom_title.clone(),
            volume_step: self.volume_step,
            maximum_volume: self.maximum_volume,
        }
    }
}

impl AudioDeviceVolumeDialSettings {
    /// The title to show: the user's own, or else the automatic one.
    pub fn title<'a>(&'a self, automatic: &'a str) -> (res: &'a str)
        ensures
            res@ == feedback::title_of(self.custom_title@, automatic@),
    {
        choose_title(self.custom_title.as_str(), automatic)
    }

    /// The percentage of one tick.
    pub fn step(&self) -> (res: u8)
        ensures
            res == dial::step_size(self.volume_step),
            1 <= res <= 10,
    {
        clamp_step(self.volume_step)
    }

    /// The highest volume.
    pub fn maximum(&self) -> (res: u16)
        ensures
            res == percent::highest(self.maximum_volume),
    {
        sanitize_maximum_volume(self.maximum_volume)
    }
}

/// The mute state to order for a device in this one.
pub fn toggled_mute(current: bool) -> (res: bool)
    ensures
        res == !current,
{
    !current
}

/// The value that a dial shows: that the device is not there, that an output
/// is muted, or else the volume, written as `shown`. A muted input keeps its
/// volume.
pub open spec fn device_value(
    available: bool,
    muted: bool,
    kind: DeviceKind,
    shown: Seq<char>,
) -> Seq<char> {
    if !available {
        "Unavailable"@
    } else if muted && kind == DeviceKind::Output {
        "Muted"@
    } else {
        shown
    }
}

/// The value that a dial shows.
pub fn device_value_text(available: bool, muted: bool, kind: DeviceKind, shown: &str) -> (res:
    String)
    ensures
        res@ == device_value(available, muted, kind, shown@),
{
    if !available {
        "Unavailable".to_owned()
    } else if muted && kind == DeviceKind::Output {
        "Muted".to_owned()
    } else {
        shown.to_owned()
    }
}

/// The devices of a kind, or what to tell the user where the sound server has
/// not been seen yet.
pub fn devices(registry: &AudioRegistry, kind: DeviceKind) -> (res: Result<
    &Vec<AudioDeviceInfo>,
    String,
>)
    ensures
        match res {
            Ok(list) => registry.initialized && list@ == audio::devices_of(*registry, kind),
            Err(message) => !registry.initialized && message@
                == "Audio registry is not initialized"@,
        },
{
    match registry_devices(registry, kind) {
        Some(list) => Ok(list),
        None => Err("Audio registry is not initialized".to_owned()),
    }
}

/// The device with this name.
pub open spec fn device_named(devices: Seq<AudioDeviceInfo>, name: Seq<char>) -> Option<
    AudioDeviceInfo,
> {
    let i = audio::place_of_device(devices, name);
    if i < devices.len() {
        Some(devices[i])
    } else {
        None
    }
}

/// Finds the device with a name. It is found again under that name after it
/// was gone, whatever index it then has.
pub fn select_device(devices: &Vec<AudioDeviceInfo>, stable_name: &str) -> (res: Option<
    AudioDeviceInfo,
>)
    ensures
        res == device_named(devices@, stable_name@),
{
    match find_device(devices, stable_name) {
        Some(i) => Some(devices[i].clone()),
        None => None,
    }
}

/// The device that the settings choose.
pub fn selected(registry: &AudioRegistry, settings: &AudioDeviceVolumeDialSettings) -> (res: Option<
    AudioDeviceInfo,
>)
    ensures
        res == if registry.initialized {
            device_named(
                audio::devices_of(*registry, settings.device_kind),
                settings.target_id@,
            )
        } else {
            None
        },
{
    match registry_devices(registry, settings.device_kind) {
        Some(list) => select_device(list, settings.target_id.as_str()),
        None => None,
    }
}

proof fn lemma_device_named(devices: Seq<AudioDeviceInfo>, name: Seq<char>)
    ensures
        0 <= audio::place_of_device(devices, name) <= devices.len(),
        device_named(devices, name) matches Some(device) ==> device.stable_name@ == name
            && devices.contains(device),
        device_named(devices, name) is None ==> forall|i: int|
            0 <= i < devices.len() ==> (#[trigger] devices[i]).stable_name@ != name,
    decreases devices.len(),
{
    if devices.len() > 0 && devices[0].stable_name@ != name {
        let rest = devices.skip(1);
        lemma_device_named(rest, name);
        let i = audio::place_of_device(rest, name);
        if i < rest.len() {
            assert(devices[i + 1] == rest[i]);
        } else {
            assert forall|k: int| 0 <= k < devices.len() implies (
            #[trigger] devices[k]).stable_name@ != name by {
                if k > 0 {
                    assert(rest[k - 1] == devices[k]);
                }
            }
        }
    }
}

/// A device is found exactly while one with its name is there, and what is
/// found has that name.
pub proof fn device_is_found_by_name(devices: Seq<AudioDeviceInfo>, name: Seq<char>)
    ensures
        device_named(devices, name) matches Some(device) ==> device.stable_name@ == name
            && devices.contains(device),
        device_named(devices, name) is None <==> forall|i: int|
            0 <= i < devices.len() ==> (#[trigger] devices[i]).stable_name@ != name,
{
    lemma_device_named(devices, name);
}

// ---------------------------------------------------------------------
// The state of a dial
// ---------------------------------------------------------------------

/// What a dial remembers.
#[derive(Debug)]
pub struct Runtime {
    pub last_name: Option<String>,
    pub last_icon: Option<String>,
    pub icon_target_id: Option<String>,
    pub layout_initialized: bool,
    pub last_feedback: Option<DialFeedback>,
    pub prediction: Option<VolumePrediction>,
    pub mute_prediction: Option<MutePrediction>,
    pub command_sequence: u64,
}

impl Default for Runtime {
    fn default() -> (res: Self)
        ensures
            res.last_name is None,
            res.last_icon is None,
            res.icon_target_id is None,
            !res.layout_initialized,
            res.last_feedback is None,
            res.prediction is None,
            res.mute_prediction is None,
            res.command_sequence == 0,
    {
        Runtime {
            last_name: None,
            last_icon: None,
            icon_target_id: None,
            layout_initialized: false,
            last_feedback: None,
            prediction: None,
            mute_prediction: None,
            command_sequence: 0,
        }
    }
}

/// The icon that stands for the devices of a kind.
pub open spec fn kind_icon(kind: DeviceKind) -> Seq<char> {
    match kind {
        DeviceKind::Output => "audio-speakers"@,
        DeviceKind::Input => "audio-input-microphone"@,
    }
}

/// The icon that stands for the devices of a kind.
pub fn fallback_icon(kind: DeviceKind) -> (res: &'static str)
    ensures
        res@ == kind_icon(kind),
{
    match kind {
        DeviceKind::Output => "audio-speakers",
        DeviceKind::Input => "audio-input-microphone",
    }
}

/// Where the icon of a dial comes from.
#[derive(Debug)]
pub enum DeviceIcon {
    /// It is known already.
    Known(String),
    /// It is the icon of this name, or else the one that stands for the kind.
    /// It is remembered for the device, where there is one.
    Find { name: String, fallback: &'static str, for_device: Option<String> },
}

/// What is shown of a device, but for its volume.
#[derive(Debug)]
pub struct DeviceView {
    pub available: bool,
    pub muted: bool,
    pub kind: DeviceKind,
    pub title: String,
    pub icon: DeviceIcon,
}

/// Whether this is where the icon of a dial comes from: the icon shown last
/// stays while it is that of the device, or while there is no device.
pub open spec fn is_device_icon(
    icon: DeviceIcon,
    device: Option<AudioDeviceInfo>,
    kind: DeviceKind,
    last_icon: Option<Seq<char>>,
    icon_target: Option<Seq<char>>,
) -> bool {
    match device {
        Some(device) => if icon_target != Some(device.stable_name@) {
            icon matches DeviceIcon::Find { name, fallback, for_device } && {
                &&& name@ == match device.icon_name {
                    Some(name) => name@,
                    None => kind_icon(device.kind),
                }
                &&& fallback@ == kind_icon(device.kind)
                &&& text::text_of(for_device) == Some(device.stable_name@)
            }
        } else {
            is_remembered_icon(icon, kind, last_icon)
        },
        None => is_remembered_icon(icon, kind, last_icon),
    }
}

/// Whether this is the icon shown last, or else the one that stands for the
/// kind.
pub open spec fn is_remembered_icon(
    icon: DeviceIcon,
    kind: DeviceKind,
    last_icon: Option<Seq<char>>,
) -> bool {
    match last_icon {
        Some(last) => icon matches DeviceIcon::Known(known) && known@ == last,
        None => icon matches DeviceIcon::Find { name, fallback, for_device } && name@ == kind_icon(
            kind,
        ) && fallback@ == kind_icon(kind) && for_device is None,
    }
}

/// Whether this is what is shown of the device that the settings choose, where
/// it is there, and what the dial remembers then.
pub open spec fn is_prepared(
    before: Runtime,
    after: Runtime,
    view: DeviceView,
    settings: AudioDeviceVolumeDialSettings,
    device: Option<AudioDeviceInfo>,
    now: u64,
) -> bool {
    &&& view.available == device is Some
    &&& (after.mute_prediction, view.muted) == feedback::reconciled_mute(
        before.mute_prediction,
        match device {
            Some(device) => device.mute,
            None => false,
        },
        0,
        now,
    )
    &&& view.kind == match device {
        Some(device) => device.kind,
        None => settings.device_kind,
    }
    &&& text::text_of(after.last_name) == match device {
        Some(device) => Some(device.description@),
        None => text::text_of(before.last_name),
    }
    &&& view.title@ == feedback::title_of(
        settings.custom_title@,
        match text::text_of(after.last_name) {
            Some(name) => name,
            None => "Select device"@,
        },
    )
    &&& is_device_icon(
        view.icon,
        device,
        settings.device_kind,
        text::text_of(before.last_icon),
        text::text_of(before.icon_target_id),
    )
    &&& after.last_icon == before.last_icon
    &&& after.icon_target_id == before.icon_target_id
    &&& after.layout_initialized == before.layout_initialized
    &&& after.last_feedback == before.last_feedback
    &&& after.prediction == before.prediction
    &&& after.command_sequence == before.command_sequence
}

/// A dial shows the device that is there, under the user's own title wherever
/// there is one, and else under the device's description, which it keeps for
/// when the device is gone. While a device is there, the icon shown last stays
/// only where it was found for that device; else the device's own icon is
/// looked for, and the one of its kind where it names none.
pub proof fn dial_shows_its_device(
    before: Runtime,
    after: Runtime,
    view: DeviceView,
    settings: AudioDeviceVolumeDialSettings,
    device: Option<AudioDeviceInfo>,
    now: u64,
)
    requires
        is_prepared(before, after, view, settings, device, now),
    ensures
        view.available <==> device is Some,
        settings.custom_title@.len() > 0 ==> view.title@ == settings.custom_title@,
        device matches Some(device) ==> {
            &&& view.kind == device.kind
            &&& text::text_of(after.last_name) == Some(device.description@)
            &&& settings.custom_title@.len() == 0 ==> view.title@ == device.description@
            &&& view.icon is Known ==> text::text_of(before.icon_target_id) == Some(
                device.stable_name@,
            )
            &&& text::text_of(before.icon_target_id) != Some(device.stable_name@)
                ==> (view.icon matches DeviceIcon::Find { name, fallback, for_device } && {
                &&& text::text_of(for_device) == Some(device.stable_name@)
                &&& device.icon_name matches Some(own) ==> name@ == own@
                &&& device.icon_name is None ==> name@ == fallback@
                &&& fallback@ == if device.kind == DeviceKind::Output {
                    "audio-speakers"@
                } else {
                    "audio-input-microphone"@
                }
            })
            &&& before.mute_prediction is None ==> view.muted == device.mute
        },
        device is None ==> {
            &&& view.kind == settings.device_kind
            &&& text::text_of(after.last_name) == text::text_of(before.last_name)
            &&& before.mute_prediction is None ==> !view.muted
            &&& settings.custom_title@.len() == 0 ==> view.title@ == match before.last_name {
                Some(name) => name@,
                None => "Select device"@,
            }
            &&& before.last_icon matches Some(last) ==> (view.icon matches DeviceIcon::Known(known)
                && known@ == last@)
        },
        device matches Some(device) ==> text::text_of(before.icon_target_id) == Some(
            device.stable_name@,
        ) && before.last_icon is Some ==> (view.icon matches DeviceIcon::Known(known) && known@
            == before.last_icon->0@),
        after.last_icon == before.last_icon,
        after.icon_target_id == before.icon_target_id,
        after.layout_initialized == before.layout_initialized,
        after.last_feedback == before.last_feedback,
        after.prediction == before.prediction,
        after.command_sequence == before.command_sequence,
        before.mute_prediction matches Some(predicted) ==> now - predicted.issued < 75_000_000
            && predicted.focus_generation == 0 ==> view.muted == predicted.mute,
{
}

/// Chooses what a dial shows of the device that its settings choose, where it
/// is there.
pub fn prepare_render(
    state: &mut Runtime,
    settings: &AudioDeviceVolumeDialSettings,
    device: Option<&AudioDeviceInfo>,
    now: u64,
) -> (res: DeviceView)
    ensures
        is_prepared(
            *old(state),
            *final(state),
            res,
            *settings,
            match device {
                Some(device) => Some(*device),
                None => None,
            },
            now,
        ),
{
    let confirmed = match device {
        Some(device) => device.mute,
        None => false,
    };
    let muted = reconcile_optimistic_mute(&mut state.mute_prediction, confirmed, 0, now);
    if let Some(device) = device {
        state.last_name = Some(device.description.clone());
    }
    let automatic = match &state.last_name {
        Some(name) => name.clone(),
        None => "Select device".to_owned(),
    };
    let title = settings.title(automatic.as_str()).to_owned();
    let kind = match device {
        Some(device) => device.kind,
        None => settings.device_kind,
    };
    let known = match device {
        Some(device) => holds(&state.icon_target_id, device.stable_name.as_str()),
        None => true,
    };
    let icon = match device {
        Some(device) if !known => {
            let name = match &device.icon_name {
                Some(name) => name.clone(),
                None => fallback_icon(device.kind).to_owned(),
            };
            DeviceIcon::Find {
                name,
                fallback: fallback_icon(device.kind),
                for_device: Some(device.stable_name.clone()),
            }
        },
        _ => match &state.last_icon {
            Some(icon) => DeviceIcon::Known(icon.clone()),
            None => DeviceIcon::Find {
                name: fallback_icon(settings.device_kind).to_owned(),
                fallback: fallback_icon(settings.device_kind),
                for_device: None,
            },
        },
    };
    DeviceView { available: device.is_some(), muted, kind, title, icon }
}

/// Whether a dial remembers this icon for a device, and else what it did
/// before.
pub open spec fn is_icon_noted(
    before: Runtime,
    after: Runtime,
    icon: Seq<char>,
    stable_name: Seq<char>,
) -> bool {
    &&& text::text_of(after.last_icon) == Some(icon)
    &&& text::text_of(after.icon_target_id) == Some(stable_name)
    &&& after.last_name == before.last_name
    &&& after.layout_initialized == before.layout_initialized
    &&& after.last_feedback == before.last_feedback
    &&& after.prediction == before.prediction
    &&& after.mute_prediction == before.mute_prediction
    &&& after.command_sequence == before.command_sequence
}

/// Notes the icon that was found for a device.
pub fn icon_resolved(state: &mut Runtime, icon: String, stable_name: String)
    ensures
        is_icon_noted(*old(state), *final(state), icon@, stable_name@),
{
    state.last_icon = Some(icon);
    state.icon_target_id = Some(stable_name);
}

/// What is seen of a dial that shows this of a device, with this icon, the
/// volume written as `shown` and so much of the bar filled.
pub open spec fn device_frame(
    view: DeviceView,
    icon: Seq<char>,
    shown: Seq<char>,
    progress: u8,
) -> Frame {
    feedback::frame_with(
        icon,
        view.title@,
        device_value(view.available, view.muted, view.kind, shown),
        progress,
        !view.available || view.muted,
    )
}

/// What a dial shows of a device.
pub fn device_feedback(view: &DeviceView, icon: String, shown: &str, progress: u8) -> (res:
    DialFeedback)
    ensures
        res@ == device_frame(*view, icon@, shown@, progress),
{
    build_feedback(
        icon,
        view.title.clone(),
        device_value_text(view.available, view.muted, view.kind, shown),
        progress,
        is_dimmed(view.available, view.muted),
    )
}

/// A dial shows the icon, the title and the part of the bar that it is given.
/// Its value is the volume while the device is there, but for a muted output;
/// it is dimmed exactly while the device is muted or not there.
pub proof fn dial_tells_the_state_of_the_device(
    view: DeviceView,
    icon: Seq<char>,
    shown: Seq<char>,
    progress: u8,
    feedback: DialFeedback,
)
    requires
        feedback@ == device_frame(view, icon, shown, progress),
    ensures
        feedback.icon.value@ == icon,
        feedback.title.value@ == view.title@,
        feedback.indicator.value == progress,
        !view.available ==> feedback.value.value@ == "Unavailable"@,
        view.available && view.muted && view.kind == DeviceKind::Output ==> feedback.value.value@
            == "Muted"@,
        view.available && (!view.muted || view.kind == DeviceKind::Input) ==> feedback.value.value@
            == shown,
        feedback.icon.dimmed <==> !(view.available && !view.muted),
        feedback.title.dimmed <==> !(view.available && !view.muted),
        feedback.value.dimmed <==> !(view.available && !view.muted),
        feedback.indicator.dimmed <==> !(view.available && !view.muted),
{
}

/// An icon that was found is remembered with the device it was found for, and
/// nothing else is forgotten or changed.
pub proof fn found_icon_belongs_to_its_device(
    before: Runtime,
    after: Runtime,
    icon: Seq<char>,
    stable_name: Seq<char>,
)
    requires
        is_icon_noted(before, after, icon, stable_name),
    ensures
        after.last_icon matches Some(noted) && noted@ == icon,
        after.icon_target_id matches Some(noted) && noted@ == stable_name,
        after == (Runtime {
            last_icon: after.last_icon,
            icon_target_id: after.icon_target_id,
            ..before
        }),
{
}

/// A dial is shown again exactly where its own device is among those of its
/// kind that changed, or everything of its kind may have changed.
pub proof fn only_own_device_concerns_a_dial(
    settings: AudioDeviceVolumeDialSettings,
    outputs: Seq<Seq<char>>,
    inputs: Seq<Seq<char>>,
    unknown: Option<Seq<Seq<char>>>,
)
    ensures
        settings.device_kind == DeviceKind::Output ==> (is_concerned(
            settings,
            Some(outputs),
            unknown,
        ) <==> outputs.contains(settings.target_id@)),
        settings.device_kind == DeviceKind::Input ==> (is_concerned(
            settings,
            unknown,
            Some(inputs),
        ) <==> inputs.contains(settings.target_id@)),
        is_concerned(settings, None, None),
{
}

/// One run through all that shows a device: what the dial remembers at the
/// start, once the view is chosen, once its icon is noted and once the volume
/// is reconciled, with the view and the volume that come of it.
pub struct DeviceRender {
    pub start: Runtime,
    pub prepared: Runtime,
    pub noted: Runtime,
    pub finished: Runtime,
    pub view: DeviceView,
    pub volume: u64,
    pub prepared_at: u64,
    pub finished_at: u64,
    pub difference: u64,
}

/// The icon that is shown, where `pictures` gives the picture of an icon by
/// its name and the other name to look for.
pub open spec fn icon_shown(
    icon: DeviceIcon,
    pictures: spec_fn(Seq<char>, Seq<char>) -> Seq<char>,
) -> Seq<char> {
    match icon {
        DeviceIcon::Known(known) => known@,
        DeviceIcon::Find { name, fallback, .. } => pictures(name@, fallback@),
    }
}

/// Whether this is a run through [`prepare_render`], [`icon_resolved`] where
/// the icon was looked for, and [`feedback::reconcile_optimistic_volume`].
pub open spec fn is_device_render(
    run: DeviceRender,
    settings: AudioDeviceVolumeDialSettings,
    device: Option<AudioDeviceInfo>,
    confirmed: u64,
    pictures: spec_fn(Seq<char>, Seq<char>) -> Seq<char>,
) -> bool {
    &&& is_prepared(run.start, run.prepared, run.view, settings, device, run.prepared_at)
    &&& match run.view.icon {
        DeviceIcon::Find { for_device: Some(name), .. } => is_icon_noted(
            run.prepared,
            run.noted,
            icon_shown(run.view.icon, pictures),
            name@,
        ),
        _ => run.noted == run.prepared,
    }
    &&& (run.finished.prediction, run.volume) == feedback::reconciled_volume(
        run.noted.prediction,
        confirmed,
        run.difference,
        0,
        run.finished_at,
    )
    &&& run.finished == (Runtime { prediction: run.finished.prediction, ..run.noted })
}

/// What is seen after a run, where `written` gives the text of a volume and
/// `filled` the part of the bar that it fills below a highest volume.
pub open spec fn frame_of_render(
    run: DeviceRender,
    settings: AudioDeviceVolumeDialSettings,
    pictures: spec_fn(Seq<char>, Seq<char>) -> Seq<char>,
    written: spec_fn(u64) -> Seq<char>,
    filled: spec_fn(u64, u16) -> u8,
) -> Frame {
    device_frame(
        run.view,
        icon_shown(run.view.icon, pictures),
        written(run.volume),
        filled(run.volume, percent::highest(settings.maximum_volume)),
    )
}

/// Once what a dial shows of a device was sent, showing it again sends
/// nothing, as long as the device, the settings and what was predicted stay
/// the same.
pub proof fn unchanged_device_is_not_sent_again(
    first: DeviceRender,
    sent: DialFeedback,
    second: DeviceRender,
    settings: AudioDeviceVolumeDialSettings,
    device: Option<AudioDeviceInfo>,
    confirmed: u64,
    pictures: spec_fn(Seq<char>, Seq<char>) -> Seq<char>,
    written: spec_fn(u64) -> Seq<char>,
    filled: spec_fn(u64, u16) -> u8,
    generation: u64,
)
    requires
        is_device_render(first, settings, device, confirmed, pictures),
        sent@ == frame_of_render(first, settings, pictures, written, filled),
        second.start == (Runtime {
            layout_initialized: true,
            last_feedback: Some(sent),
            ..first.finished
        }),
        is_device_render(second, settings, device, confirmed, pictures),
        second.finished.prediction == first.finished.prediction,
        second.finished.mute_prediction == first.finished.mute_prediction,
    ensures
        feedback::step_of(
            generation,
            generation,
            second.finished.layout_initialized,
            feedback::seen_of(second.finished.last_feedback),
            frame_of_render(second, settings, pictures, written, filled),
        ) == RenderStep::Unchanged,
{
}

/// Notes the volume that a turn wishes for, and gives the number of the order.
pub fn note_turn(
    state: &mut Runtime,
    settings: &AudioDeviceVolumeDialSettings,
    wished: u64,
    now: u64,
) -> (res: u64)
    ensures
        final(state).prediction == Some(
            VolumePrediction {
                percent_bits: percent::target_of(wished, settings.maximum_volume),
                issued: now,
                focus_generation: 0,
            },
        ),
        final(state).command_sequence == feedback::following(old(state).command_sequence),
        res == final(state).command_sequence,
        final(state).last_name == old(state).last_name,
        final(state).last_icon == old(state).last_icon,
        final(state).icon_target_id == old(state).icon_target_id,
        final(state).layout_initialized == old(state).layout_initialized,
        final(state).last_feedback == old(state).last_feedback,
        final(state).mute_prediction == old(state).mute_prediction,
{
    let target: u64 = clamp_target_percent(wished, settings.maximum_volume);
    state.prediction =
    Some(VolumePrediction { percent_bits: target, issued: now, focus_generation: 0 });
    state.command_sequence = state.command_sequence.wrapping_add(1);
    state.command_sequence
}

/// The volume to send for the order of this number, where it is still the
/// latest and still predicted.
pub fn volume_to_send(state: Option<&Runtime>, sequence: u64) -> (res: Option<u64>)
    ensures
        res == match state {
            Some(state) => if state.command_sequence == sequence {
                match state.prediction {
                    Some(predicted) => Some(predicted.percent_bits),
                    None => None,
                }
            } else {
                None
            },
            None => None,
        },
{
    match state {
        Some(state) => if state.command_sequence == sequence {
            match state.prediction {
                Some(predicted) => Some(predicted.percent_bits),
                None => None,
            }
        } else {
            None
        },
        None => None,
    }
}

/// Notes that a device is about to be muted or unmuted, and gives the state
/// to order.
pub fn note_mute(state: &mut Runtime, device: &AudioDeviceInfo, now: u64) -> (res: bool)
    ensures
        res == !device.mute,
        final(state).mute_prediction == Some(
            MutePrediction { mute: res, issued: now, focus_generation: 0 },
        ),
        final(state).last_name == old(state).last_name,
        final(state).last_icon == old(state).last_icon,
        final(state).icon_target_id == old(state).icon_target_id,
        final(state).layout_initialized == old(state).layout_initialized,
        final(state).last_feedback == old(state).last_feedback,
        final(state).prediction == old(state).prediction,
        final(state).command_sequence == old(state).command_sequence,
{
    let requested = toggled_mute(device.mute);
    state.mute_prediction =
    Some(MutePrediction { mute: requested, issued: now, focus_generation: 0 });
    requested
}

/// Whether a dial is shown again: unless it is known which devices of its
/// kind changed, and its own is not among them.
pub open spec fn is_concerned(
    settings: AudioDeviceVolumeDialSettings,
    outputs: Option<Seq<Seq<char>>>,
    inputs: Option<Seq<Seq<char>>>,
) -> bool {
    let changed = match settings.device_kind {
        DeviceKind::Output => outputs,
        DeviceKind::Input => inputs,
    };
    changed is None || changed->0.contains(settings.target_id@)
}

/// The names in a list, where there is one.
pub open spec fn names_of(list: Option<&[String]>) -> Option<Seq<Seq<char>>> {
    match list {
        Some(list) => Some(text::texts(list@)),
        None => None,
    }
}

/// Whether a dial is shown again.
pub fn is_affected(
    settings: &AudioDeviceVolumeDialSettings,
    changed_outputs: Option<&[String]>,
    changed_inputs: Option<&[String]>,
) -> (res: bool)
    ensures
        res == is_concerned(*settings, names_of(changed_outputs), names_of(changed_inputs)),
{
    let changed = match settings.device_kind {
        DeviceKind::Output => changed_outputs,
        DeviceKind::Input => changed_inputs,
    };
    match changed {
        Some(list) => contains_string(list, settings.target_id.as_str()),
        None => true,
    }
}

// ---------------------------------------------------------------------
// The devices to choose from
// ---------------------------------------------------------------------

/// A device that can be chosen.
#[derive(Debug)]
pub struct DeviceOption {
    pub id: String,
    pub name: String,
    pub kind: DeviceKind,
    pub available: bool,
}

/// The devices that can be chosen.
pub fn device_options(devices: &[AudioDeviceInfo]) -> (res: Vec<DeviceOption>)
    ensures
        res@.len() == devices@.len(),
        forall|i: int|
            0 <= i < res@.len() ==> (#[trigger] res@[i]) == (DeviceOption {
                id: devices@[i].stable_name,
                name: devices@[i].description,
                kind: devices@[i].kind,
                available: true,
            }),
{
    let mut out: Vec<DeviceOption> = Vec::new();
    let mut i: usize = 0;
    while i < devices.len()
        invariant
            i <= devices@.len(),
            out@.len() == i,
            forall|k: int|
                0 <= k < i ==> (#[trigger] out@[k]) == (DeviceOption {
                    id: devices@[k].stable_name,
                    name: devices@[k].description,
                    kind: devices@[k].kind,
                    available: true,
                }),
        decreases devices@.len() - i,
    {
        out.push(
            DeviceOption {
                id: devices[i].stable_name.clone(),
                name: devices[i].description.clone(),
                kind: devices[i].kind,
                available: true,
            },
        );
        i += 1;
    }
    out
}

} // verus!
