use volume_controller::audio::audio_system::{is_monitor_source, AudioDeviceInfo, DeviceKind};
use volume_controller::audio::AudioRegistry;
use volume_controller::device_dial::{
    device_feedback, device_options, device_value_text, devices, fallback_icon, icon_resolved, is_affected,
    note_mute, note_turn, prepare_render, select_device, selected, toggled_mute, volume_to_send,
    AudioDeviceVolumeDialSettings, DeviceIcon, Runtime,
};
use volume_controller::dial::turned_from;
use volume_controller::feedback::{render_step, RenderRuntime, RenderStep};

fn device(name: &str, kind: DeviceKind) -> AudioDeviceInfo {
    AudioDeviceInfo {
        stable_name: name.into(),
        description: name.into(),
        mute: false,
        vol_percent_bits: 50f32.to_bits(),
        icon_name: None,
        kind,
    }
}

/// The volume that a fresh dial orders after a turn. The sum is the caller's,
/// as floating-point arithmetic is; where the turn starts, the size of a step
/// and the bounds are the library's.
fn adjusted_percent(current: f64, ticks: i16, step: u8, maximum: u16) -> f64 {
    let settings = AudioDeviceVolumeDialSettings {
        volume_step: step,
        maximum_volume: maximum,
        ..Default::default()
    };
    let mut state = Runtime::default();
    let start = f64::from_bits(turned_from(&state.prediction, current.to_bits()));
    let wished = start + f64::from(ticks) * f64::from(settings.step());
    let sequence = note_turn(&mut state, &settings, wished.to_bits(), 0);
    f64::from_bits(volume_to_send(Some(&state), sequence).unwrap())
}

fn percent_text(volume: f64) -> String {
    format!("{volume:.0}%")
}

#[test]
fn device_titles_use_automatic_or_custom_value() {
    let settings = AudioDeviceVolumeDialSettings::default();
    assert_eq!(settings.title("Speakers"), "Speakers");
    let settings = AudioDeviceVolumeDialSettings {
        custom_title: "Desk audio".into(),
        ..Default::default()
    };
    assert_eq!(settings.title("Speakers"), "Desk audio");
}

#[test]
fn stable_name_does_not_depend_on_runtime_index() {
    let first = ("alsa_output.usb", 10_u32);
    let rebound = ("alsa_output.usb", 99_u32);
    assert_eq!(first.0, rebound.0);
    assert_ne!(first.1, rebound.1);
}

#[test]
fn monitor_names_are_detectable() {
    assert!(is_monitor_source(
        "alsa_output.card.monitor",
        "Monitor of Speakers"
    ));
    assert!(!is_monitor_source("alsa_input.usb", "USB microphone"));
}

#[test]
fn unavailable_device_rebinds_by_stable_name() {
    assert!(select_device(&Vec::new(), "sink.stable").is_none());
    assert_eq!(
        select_device(
            &vec![
                device("other", DeviceKind::Output),
                device("sink.stable", DeviceKind::Output)
            ],
            "sink.stable"
        )
        .unwrap()
        .stable_name,
        "sink.stable"
    );
}

#[test]
fn input_and_output_clamp_and_mute_toggle() {
    for kind in [DeviceKind::Output, DeviceKind::Input] {
        let device = device("stable", kind);
        let volume = f64::from(f32::from_bits(device.vol_percent_bits));
        assert_eq!(adjusted_percent(volume, 100, 2, 100), 100.0);
        assert_eq!(adjusted_percent(volume, 100, 2, 150), 150.0);
        assert!(toggled_mute(device.mute));
        assert!(!toggled_mute(true));
    }
}

#[test]
fn muted_input_is_dimmed_but_retains_actual_volume_text() {
    let shown = percent_text(73.0);
    assert_eq!(
        device_value_text(true, true, DeviceKind::Input, &shown),
        "73%"
    );
    assert_eq!(
        device_value_text(true, true, DeviceKind::Output, &shown),
        "Muted"
    );
    assert_eq!(
        device_value_text(false, false, DeviceKind::Output, &shown),
        "Unavailable"
    );
}

#[test]
fn devices_are_selected_from_the_registry() {
    let mut registry = AudioRegistry::default();
    let settings = AudioDeviceVolumeDialSettings {
        device_kind: DeviceKind::Input,
        target_id: "mic".into(),
        ..Default::default()
    };
    assert!(selected(&registry, &settings).is_none());
    assert_eq!(
        devices(&registry, DeviceKind::Input).unwrap_err(),
        "Audio registry is not initialized"
    );
    registry.initialized = true;
    registry.inputs = vec![device("mic", DeviceKind::Input)];
    registry.outputs = vec![device("mic", DeviceKind::Output)];
    assert_eq!(selected(&registry, &settings).unwrap().kind, DeviceKind::Input);
    assert_eq!(devices(&registry, DeviceKind::Output).unwrap().len(), 1);
    let options = device_options(&registry.inputs);
    assert_eq!(options[0].id, "mic");
    assert_eq!(options[0].kind, DeviceKind::Input);
    assert!(options[0].available);
}

#[test]
fn device_dial_shows_and_remembers_the_device() {
    let mut state = Runtime::default();
    let settings = AudioDeviceVolumeDialSettings::default();
    let view = prepare_render(&mut state, &settings, None, 0);
    assert!(!view.available && !view.muted);
    assert_eq!(view.title, "Select device");
    assert!(matches!(
        view.icon,
        DeviceIcon::Find { name, for_device: None, .. } if name == "audio-speakers"
    ));
    let speakers = device("speakers", DeviceKind::Output);
    let view = prepare_render(&mut state, &settings, Some(&speakers), 0);
    assert!(view.available);
    assert_eq!(view.title, "speakers");
    assert!(matches!(
        view.icon,
        DeviceIcon::Find { name, fallback: "audio-speakers", for_device: Some(device) }
            if name == "audio-speakers" && device == "speakers"
    ));
    icon_resolved(&mut state, "uri".into(), "speakers".into());
    let view = prepare_render(&mut state, &settings, Some(&speakers), 0);
    assert!(matches!(view.icon, DeviceIcon::Known(icon) if icon == "uri"));
    let view = prepare_render(&mut state, &settings, None, 0);
    assert_eq!(view.title, "speakers");
    assert!(matches!(view.icon, DeviceIcon::Known(icon) if icon == "uri"));
    assert_eq!(fallback_icon(DeviceKind::Input), "audio-input-microphone");
}

#[test]
fn device_turns_and_mutes_are_predicted() {
    let mut state = Runtime::default();
    let settings = AudioDeviceVolumeDialSettings {
        maximum_volume: 150,
        ..Default::default()
    };
    let first = note_turn(&mut state, &settings, 149f64.to_bits(), 1);
    let second = note_turn(&mut state, &settings, 151f64.to_bits(), 2);
    assert_eq!(volume_to_send(Some(&state), first), None);
    assert_eq!(volume_to_send(Some(&state), second), Some(150f64.to_bits()));
    assert_eq!(volume_to_send(None, second), None);
    let speakers = device("speakers", DeviceKind::Output);
    assert!(note_mute(&mut state, &speakers, 10));
    assert!(prepare_render(&mut state, &settings, Some(&speakers), 20).muted);
    assert!(!prepare_render(&mut state, &settings, Some(&speakers), 75_000_010).muted);
    assert!(state.mute_prediction.is_none());
    assert_eq!(settings.step(), 2);
    assert_eq!(settings.maximum(), 150);
}

#[test]
fn device_dials_follow_changes_of_their_kind() {
    let settings = AudioDeviceVolumeDialSettings {
        target_id: "a".into(),
        ..Default::default()
    };
    let a = ["a".to_owned()];
    let b = ["b".to_owned()];
    assert!(is_affected(&settings, Some(&a), None));
    assert!(!is_affected(&settings, Some(&b), Some(&a)));
    assert!(is_affected(&settings, None, Some(&b)));
}

#[test]
fn device_shown_again_is_not_sent_again() {
    let settings = AudioDeviceVolumeDialSettings::default();
    let speakers = device("speakers", DeviceKind::Output);
    let mut state = Runtime::default();
    let view = prepare_render(&mut state, &settings, Some(&speakers), 0);
    icon_resolved(&mut state, "uri".into(), "speakers".into());
    let feedback = device_feedback(&view, "uri".into(), "50%", 50);
    assert_eq!(feedback.icon.value, "uri");
    assert_eq!(feedback.title.value, "speakers");
    assert_eq!(feedback.value.value, "50%");
    assert_eq!(feedback.indicator.value, 50);
    assert!(!feedback.indicator.dimmed);
    state.last_feedback = Some(feedback);
    state.layout_initialized = true;
    let view = prepare_render(&mut state, &settings, Some(&speakers), 1);
    let DeviceIcon::Known(icon) = &view.icon else {
        panic!("the icon is known");
    };
    let again = device_feedback(&view, icon.clone(), "50%", 50);
    let mut runtime = RenderRuntime::default();
    let generation = runtime.begin();
    assert_eq!(
        render_step(&runtime, generation, true, &state.last_feedback, &again),
        RenderStep::Unchanged
    );
    let view = prepare_render(&mut state, &settings, None, 2);
    let gone = device_feedback(&view, "uri".into(), "50%", 50);
    assert_eq!(gone.value.value, "Unavailable");
    assert!(gone.icon.dimmed);
    assert_eq!(
        render_step(&runtime, generation, true, &state.last_feedback, &gone),
        RenderStep::Send
    );
}
