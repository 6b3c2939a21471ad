use volume_controller::application_targets::{
    application_target_inventory, is_listed_before, target_options,
};
use volume_controller::audio::audio_system::AppInfo;
use volume_controller::audio::pulse::pulse_monitor::{RefreshQueue, RefreshReason};
use volume_controller::audio::AudioRegistry;
use volume_controller::dial::{
    arbitrate_active, clamp_target_percent, dial_feedback, icon_resolved, is_latest_order,
    members_of, note_turn, prepare_render, sanitize_maximum_volume, selected, should_refresh_for, turn_action,
    turned_from, value_text, volume_to_send, ApplicationDialRuntime,
    ApplicationVolumeDialSettings, IconNeed, TurnAction,
};
use volume_controller::feedback::{
    build_feedback, is_dimmed, reconcile_optimistic_mute, reconcile_optimistic_volume,
    render_step, same_feedback, MutePrediction, RenderRuntime, RenderStep, VolumePrediction,
};
use volume_controller::icons::steam::stable_application_id;
use volume_controller::percent::{clamp_percent, is_settled};
use volume_controller::table::Table;

fn app(name: &str, sink: &str) -> AppInfo {
    AppInfo {
        uid: 1,
        app_name: name.to_owned(),
        sink_name: Some(sink.to_owned()),
        mute: false,
        vol_percent_bits: 50f32.to_bits(),
        icon_name: None,
        is_device: false,
        is_multi_sink_app: false,
        metadata: Table::new(),
    }
}

fn names(values: &[&str]) -> Vec<String> {
    values.iter().map(|value| (*value).to_owned()).collect()
}

/// The volume that a fresh dial orders after a turn. The sum is the caller's,
/// as floating-point arithmetic is; where the turn starts, the size of a step
/// and the bounds are the library's.
fn adjusted_percent(current: f64, ticks: i16, step: u8, maximum: u16) -> f64 {
    let settings = ApplicationVolumeDialSettings {
        volume_step: step,
        maximum_volume: maximum,
        ..Default::default()
    };
    let mut state = ApplicationDialRuntime::default();
    let start = f64::from_bits(turned_from(&state.prediction, current.to_bits()));
    let wished = start + f64::from(ticks) * f64::from(settings.step());
    note_turn(&mut state, &settings, wished.to_bits(), 0);
    f64::from_bits(volume_to_send(Some(&state)).unwrap())
}

#[test]
fn application_identity_is_stable_across_streams() {
    assert_eq!(
        stable_application_id(&app("spotify", "stream-a"), None),
        stable_application_id(&app("spotify", "stream-b"), None)
    );
}

#[test]
fn feedback_is_complete_and_contains_no_template_placeholders() {
    let feedback = build_feedback(
        "data:image/png;base64,abc".into(),
        "Browser".into(),
        "80%".into(),
        80,
        false,
    );
    assert_eq!(feedback.icon.value, "data:image/png;base64,abc");
    assert_eq!(feedback.title.value, "Browser");
    assert_eq!(feedback.value.value, "80%");
    assert_eq!(feedback.indicator.value, 80);
    assert_eq!(feedback.indicator.bar_bg_c, "#303030");
    assert_eq!(feedback.indicator.bar_fill_c, "#ffffff");
    assert!(!feedback.icon.dimmed && !feedback.indicator.dimmed);
    assert!(!format!("{feedback:?}").contains("{{value}}"));
}

#[test]
fn rapid_ticks_are_one_final_calculation() {
    assert_eq!(adjusted_percent(80.0, 8, 2, 100), 96.0);
    assert_eq!(
        adjusted_percent(adjusted_percent(80.0, 3, 2, 100), 5, 2, 100),
        adjusted_percent(80.0, 8, 2, 100)
    );
}

#[test]
fn unrelated_audio_identity_is_not_routed_to_dial() {
    let configured = vec!["application\u{1f}firefox".to_owned()];
    let changed = names(&["application\u{1f}spotify"]);
    assert!(!should_refresh_for(
        &configured,
        Some("application\u{1f}firefox"),
        &changed
    ));
    assert!(should_refresh_for(&configured, None, &configured));
    assert!(should_refresh_for(&[], Some("application\u{1f}spotify"), &changed));
}

#[test]
fn stale_generation_is_detected() {
    let mut runtime = RenderRuntime::default();
    let older = runtime.begin();
    let newer = runtime.begin();
    assert_ne!(older, runtime.generation);
    assert_eq!(newer, runtime.generation);
    assert!(!runtime.is_current(older));
    assert!(runtime.is_current(newer));
}

#[test]
fn volume_step_defaults_and_clamps() {
    assert_eq!(f64::from(ApplicationVolumeDialSettings::default().step()), 2.0);
    assert_eq!(
        f64::from(
            ApplicationVolumeDialSettings {
                volume_step: 99,
                ..ApplicationVolumeDialSettings::default()
            }
            .step()
        ),
        10.0
    );
    assert_eq!(
        ApplicationVolumeDialSettings {
            volume_step: 0,
            ..ApplicationVolumeDialSettings::default()
        }
        .step(),
        1
    );
}

#[test]
fn maximum_defaults_and_invalid_values_fall_back() {
    assert_eq!(ApplicationVolumeDialSettings::default().maximum(), 100);
    assert_eq!(sanitize_maximum_volume(0), 100);
    assert_eq!(sanitize_maximum_volume(125), 100);
    assert_eq!(sanitize_maximum_volume(150), 150);
}

#[test]
fn encoder_targets_clamp_to_configured_maximum() {
    assert_eq!(adjusted_percent(98.0, 1, 2, 100), 100.0);
    assert_eq!(adjusted_percent(100.0, 1, 2, 100), 100.0);
    assert_eq!(adjusted_percent(100.0, 1, 2, 150), 102.0);
    assert_eq!(adjusted_percent(148.0, 2, 2, 150), 150.0);
    assert_eq!(adjusted_percent(4.0, -3, 2, 150), 0.0);
}

#[test]
fn targets_that_are_no_numbers_become_zero() {
    for value in [f64::NAN, f64::INFINITY, f64::NEG_INFINITY] {
        assert_eq!(clamp_target_percent(value.to_bits(), 150), 0);
    }
    assert_eq!(clamp_target_percent((-0.0f64).to_bits(), 100), (-0.0f64).to_bits());
    for value in [-1e300, -1.0, -1e-320, 0.0, 1e-320, 0.5, 99.999, 100.0, 100.1, 149.9, 1e300] {
        for maximum in [100u16, 150] {
            let expected = f64::clamp(value, 0.0, f64::from(maximum));
            let bits = value.to_bits();
            assert_eq!(clamp_target_percent(bits, maximum), expected.to_bits());
            assert_eq!(clamp_percent(bits, maximum), expected.to_bits());
        }
    }
    assert!(f64::from_bits(clamp_percent(f64::NAN.to_bits(), 100)).is_nan());
    assert_eq!(f64::from_bits(clamp_percent(f64::INFINITY.to_bits(), 100)), 100.0);
    assert_eq!(f64::from_bits(clamp_percent(f64::NEG_INFINITY.to_bits(), 100)), 0.0);
}

#[test]
fn settled_differences_are_small() {
    for (difference, settled) in [
        (0.0, true),
        (0.75, true),
        (-0.75, true),
        (0.7500000000000001, false),
        (-1.0, false),
        (f64::NAN, false),
        (f64::INFINITY, false),
    ] {
        assert_eq!(is_settled(f64::to_bits(difference)), settled);
    }
}

#[test]
fn old_single_target_migrates_without_losing_limits() {
    let settings = ApplicationVolumeDialSettings {
        target_id: "application\u{1f}firefox".to_owned(),
        volume_step: 7,
        maximum_volume: 150,
        ..Default::default()
    };
    assert_eq!(
        settings.normalized_target_ids(),
        ["application\u{1f}firefox"]
    );
    assert_eq!(f64::from(settings.step()), 7.0);
    assert_eq!(settings.maximum(), 150);
    assert!(ApplicationVolumeDialSettings::default()
        .normalized_target_ids()
        .is_empty());
}

#[test]
fn duplicate_targets_are_deduplicated_in_order() {
    let settings = ApplicationVolumeDialSettings {
        target_ids: vec!["a".into(), "b".into(), "a".into(), "c".into()],
        ..Default::default()
    };
    assert_eq!(settings.normalized_target_ids(), ["a", "b", "c"]);
    let blank = ApplicationVolumeDialSettings {
        target_ids: vec!["".into(), "a".into()],
        target_id: "ignored".into(),
        ..Default::default()
    };
    assert_eq!(blank.normalized_target_ids(), ["a"]);
}

#[test]
fn sticky_arbitration_does_not_preempt_current_target() {
    let configured = vec!["firefox".to_owned(), "chromium".to_owned()];
    let available = names(&["firefox"]);
    assert_eq!(
        arbitrate_active(&configured, &available, None).as_deref(),
        Some("firefox")
    );
    let available = names(&["firefox", "chromium"]);
    assert_eq!(
        arbitrate_active(&configured, &available, Some("firefox")).as_deref(),
        Some("firefox")
    );
    let available = names(&["chromium"]);
    assert_eq!(
        arbitrate_active(&configured, &available, Some("firefox")).as_deref(),
        Some("chromium")
    );
    let available = names(&["firefox", "chromium"]);
    assert_eq!(
        arbitrate_active(&configured, &available, Some("chromium")).as_deref(),
        Some("chromium")
    );
    assert!(arbitrate_active(&configured, &[], None).is_none());
    assert_eq!(
        arbitrate_active(&["firefox".into()], &available, Some("chromium")).as_deref(),
        Some("firefox")
    );
}

#[test]
fn custom_title_is_constant_and_empty_title_is_dynamic() {
    let settings = ApplicationVolumeDialSettings::default();
    assert_eq!(settings.title("Firefox"), "Firefox");
    assert_eq!(settings.title("Chromium"), "Chromium");
    let settings = ApplicationVolumeDialSettings {
        custom_title: "Browser".into(),
        ..Default::default()
    };
    assert_eq!(settings.title("Firefox"), "Browser");
    assert_eq!(settings.title("Chromium"), "Browser");
}

#[test]
fn members_are_the_places_of_the_id() {
    let ids = names(&["a", "b", "a"]);
    assert_eq!(members_of(&ids, &Some("a".to_owned())), [0, 2]);
    assert!(members_of(&ids, &Some("c".to_owned())).is_empty());
    assert!(members_of(&ids, &None).is_empty());
}

#[test]
fn dial_shows_active_target_and_remembers_it() {
    let mut state = ApplicationDialRuntime::default();
    let settings = ApplicationVolumeDialSettings {
        target_ids: names(&["a", "b"]),
        ..Default::default()
    };
    let apps = [app("Beta", "s"), app("Beta", "t")];
    let ids = names(&["b", "b"]);
    let view = prepare_render(&mut state, &settings, &apps, &ids);
    assert!(view.available && !view.muted);
    assert_eq!(view.members, [0, 1]);
    assert_eq!(view.title, "Beta");
    assert!(matches!(view.icon, IconNeed::Resolve(0)));
    assert_eq!(state.active_target_id.as_deref(), Some("b"));
    icon_resolved(&mut state, "Beta".into(), "uri".into(), "b".into());
    let view = prepare_render(&mut state, &settings, &apps, &ids);
    assert!(matches!(view.icon, IconNeed::Known(icon) if icon == "uri"));
    let view = prepare_render(&mut state, &settings, &[], &[]);
    assert!(!view.available && view.members.is_empty());
    assert_eq!(view.title, "Beta");
    assert!(state.active_target_id.is_none());
    assert_eq!(state.last_active_target_id.as_deref(), Some("b"));
    let mut fresh = ApplicationDialRuntime::default();
    let view = prepare_render(&mut fresh, &settings, &[], &[]);
    assert_eq!(view.title, "No active app");
    assert!(matches!(view.icon, IconNeed::Fallback));
    assert!(selected(&mut fresh, &settings, &names(&["x"])).is_empty());
}

#[test]
fn dial_values_tell_what_is_missing() {
    assert_eq!(value_text(false, true, "5%"), "Unavailable");
    assert_eq!(value_text(true, true, "5%"), "Muted");
    assert_eq!(value_text(true, false, "5%"), "5%");
    assert!(is_dimmed(false, false) && is_dimmed(true, true) && !is_dimmed(true, false));
}

#[test]
fn turns_are_predicted_numbered_and_sent_once() {
    let mut state = ApplicationDialRuntime::default();
    let settings = ApplicationVolumeDialSettings::default();
    assert_eq!(turn_action(0, 3), TurnAction::Alert);
    assert_eq!(turn_action(2, 0), TurnAction::Show);
    assert_eq!(turn_action(2, -1), TurnAction::Adjust);
    assert_eq!(turned_from(&state.prediction, 40f64.to_bits()), 40f64.to_bits());
    let first = note_turn(&mut state, &settings, 98f64.to_bits(), 5);
    let second = note_turn(&mut state, &settings, 102f64.to_bits(), 6);
    assert!(!is_latest_order(Some(&state), first));
    assert!(is_latest_order(Some(&state), second));
    assert!(!is_latest_order(None, second));
    assert_eq!(turned_from(&state.prediction, 0), 100f64.to_bits());
    assert_eq!(volume_to_send(Some(&state)), Some(100f64.to_bits()));
    assert_eq!(volume_to_send(None), None);
}

#[test]
fn render_steps_go_from_layout_to_frame() {
    let mut runtime = RenderRuntime::default();
    let generation = runtime.begin();
    let frame = |text: &str| build_feedback("i".into(), "t".into(), text.into(), 5, false);
    let (f, g) = (frame("f"), frame("g"));
    assert_eq!(render_step(&runtime, generation, false, &None, &f), RenderStep::SetLayout);
    assert_eq!(render_step(&runtime, generation, true, &None, &f), RenderStep::Send);
    let last = Some(f.clone());
    assert_eq!(render_step(&runtime, generation, true, &last, &f), RenderStep::Unchanged);
    assert_eq!(render_step(&runtime, generation, true, &last, &g), RenderStep::Send);
    runtime.begin();
    assert_eq!(render_step(&runtime, generation, true, &last, &g), RenderStep::Stale);
}

#[test]
fn frames_differ_in_every_part() {
    let frame = || build_feedback("i".into(), "t".into(), "v".into(), 5, false);
    assert!(same_feedback(&frame(), &frame().clone()));
    for other in [
        build_feedback("x".into(), "t".into(), "v".into(), 5, false),
        build_feedback("i".into(), "x".into(), "v".into(), 5, false),
        build_feedback("i".into(), "t".into(), "x".into(), 5, false),
        build_feedback("i".into(), "t".into(), "v".into(), 6, false),
        build_feedback("i".into(), "t".into(), "v".into(), 5, true),
    ] {
        assert!(!same_feedback(&frame(), &other));
    }
    let mut other = frame();
    other.indicator.bar_bg_c = "#000000";
    assert!(!same_feedback(&frame(), &other));
    let mut other = frame();
    other.indicator.bar_fill_c = "#000000";
    assert!(!same_feedback(&frame(), &other));
}

#[test]
fn application_shown_again_is_not_sent_again() {
    let settings = ApplicationVolumeDialSettings {
        target_ids: names(&["a"]),
        ..Default::default()
    };
    let apps = [app("Alpha", "s")];
    let ids = names(&["a"]);
    let mut state = ApplicationDialRuntime::default();
    let view = prepare_render(&mut state, &settings, &apps, &ids);
    assert!(matches!(view.icon, IconNeed::Resolve(0)));
    icon_resolved(&mut state, "Alpha".into(), "uri".into(), "a".into());
    let feedback = dial_feedback(&view, "uri".into(), "50%", 50);
    assert_eq!(feedback.icon.value, "uri");
    assert_eq!(feedback.title.value, "Alpha");
    assert_eq!(feedback.value.value, "50%");
    assert_eq!(feedback.indicator.value, 50);
    assert!(!feedback.value.dimmed);
    let mut runtime = RenderRuntime::default();
    runtime.begin();
    state.last_feedback = Some(feedback);
    state.layout_initialized = true;
    let view = prepare_render(&mut state, &settings, &apps, &ids);
    let IconNeed::Known(icon) = &view.icon else {
        panic!("the icon is known");
    };
    let again = dial_feedback(&view, icon.clone(), "50%", 50);
    let generation = runtime.begin();
    let step = |feedback| render_step(&runtime, generation, true, &state.last_feedback, feedback);
    assert_eq!(step(&again), RenderStep::Unchanged);
    assert_eq!(step(&dial_feedback(&view, icon.clone(), "51%", 51)), RenderStep::Send);
}

#[test]
fn predictions_end_when_confirmed_or_old() {
    let ms = 1_000_000;
    let prediction = VolumePrediction {
        percent_bits: 80f64.to_bits(),
        issued: 10 * ms,
        focus_generation: 0,
    };
    let far = 5f64.to_bits();
    let confirmed = 85f64.to_bits();
    let mut held = Some(prediction);
    assert_eq!(
        reconcile_optimistic_volume(&mut held, confirmed, far, 0, 84 * ms),
        80f64.to_bits()
    );
    assert_eq!(held, Some(prediction));
    assert_eq!(reconcile_optimistic_volume(&mut held, confirmed, far, 0, 85 * ms), confirmed);
    assert_eq!(held, None);
    let mut held = Some(prediction);
    assert_eq!(
        reconcile_optimistic_volume(&mut held, confirmed, 0.5f64.to_bits(), 0, 11 * ms),
        confirmed
    );
    assert_eq!(held, None);
    let mute = MutePrediction { mute: true, issued: 10 * ms, focus_generation: 0 };
    let mut held = Some(mute);
    assert!(reconcile_optimistic_mute(&mut held, false, 0, 20 * ms));
    assert!(held.is_some());
    assert!(!reconcile_optimistic_mute(&mut held, false, 0, 90 * ms));
    assert!(held.is_none());
    let mut held = Some(mute);
    assert!(reconcile_optimistic_mute(&mut held, true, 0, 20 * ms));
    assert!(held.is_none());
}

#[test]
fn inventory_groups_and_orders_targets() {
    let mut queue = RefreshQueue::default();
    let mut registry = AudioRegistry::default();
    let (targets, error) = application_target_inventory(&mut queue, &registry, &[]);
    assert!(targets.is_empty());
    assert_eq!(error.as_deref(), Some("Audio registry is not initialized"));
    assert_eq!(queue.waiting, Some(RefreshReason::Explicit));
    let mut system = app("system", "x");
    system.is_device = true;
    let mut many = app("ALPHA", "y");
    many.is_multi_sink_app = true;
    registry.initialized = true;
    registry.applications = vec![system, app("beta", "z"), many, app("beta", "w")];
    let ids = names(&["s", "b", "a", "b"]);
    let (targets, error) = application_target_inventory(&mut queue, &registry, &ids);
    assert!(error.is_none());
    let rows: Vec<(&str, &str, &str)> = targets
        .iter()
        .map(|target| (target.id.as_str(), target.name.as_str(), target.detail.as_str()))
        .collect();
    assert_eq!(
        rows,
        [
            ("a", "ALPHA", "All active streams"),
            ("b", "beta", "z"),
            ("s", "system", "System output"),
        ]
    );
    assert!(targets.iter().all(|target| target.available));
    let columns = target_options(&registry.applications, &ids, false);
    assert_eq!(columns[0].detail, "x");
    assert!(is_listed_before("a", "z", "b", "a"));
    assert!(is_listed_before("a", "a", "a", "b"));
    assert!(!is_listed_before("a", "a", "a", "a"));
}
