use volume_controller::audio::audio_system::AppInfo;
use volume_controller::dial::{arbitrate_active, IconNeed};
use volume_controller::dynamic::{
    affected_groups, belongs_to, dial_title, dynamic_command_is_current, dynamic_feedback,
    dynamic_value_text, focus_generation, focus_identity, focus_of, focus_selector,
    focus_snapshot, focus_update, is_focused,
    load_persisted_focus, marked_title, next_focus_generation, note_mute, note_turn,
    persisted_focus, same_focus, selector_frame, selector_icon_resolved, selector_is_affected,
    selector_snapshot, selector_title, update_focus, ApplicationSelectorButtonSettings,
    DialRuntime, DynamicApplicationDialSettings, FocusTable, FocusUpdate, PersistedFocus,
    SelectorRuntime,
};
use volume_controller::feedback::{
    build_feedback, choose_title, reconcile_optimistic_volume, render_step, RenderRuntime,
    RenderStep, VolumePrediction,
};
use volume_controller::table::Table;

fn names(values: &[&str]) -> Vec<String> {
    values.iter().map(|value| (*value).to_owned()).collect()
}

fn app(uid: u32, name: &str, mute: bool) -> AppInfo {
    AppInfo {
        uid,
        app_name: name.to_owned(),
        sink_name: None,
        mute,
        vol_percent_bits: 50f32.to_bits(),
        icon_name: None,
        is_device: false,
        is_multi_sink_app: false,
        metadata: Table::new(),
    }
}

fn button(targets: &[&str], title: &str) -> ApplicationSelectorButtonSettings {
    ApplicationSelectorButtonSettings {
        target_ids: names(targets),
        custom_title: title.to_owned(),
        ..Default::default()
    }
}

#[test]
fn focus_is_isolated_by_device_and_group() {
    assert!(!same_focus(
        &focus_identity("deck-a", "main"),
        &focus_identity("deck-b", "main")
    ));
    assert!(!same_focus(
        &focus_identity("deck-a", "main"),
        &focus_identity("deck-a", "games")
    ));
    assert!(same_focus(
        &focus_identity("deck-a", " main "),
        &focus_identity("deck-a", "")
    ));
}

#[test]
fn selector_defaults_and_migration_are_stable() {
    let default = ApplicationSelectorButtonSettings::default();
    assert_eq!(default.group(), "main");
    let old = ApplicationSelectorButtonSettings {
        target_id: "firefox".into(),
        ..Default::default()
    };
    assert_eq!(old.target_ids(), ["firefox"]);
}

#[test]
fn selector_settings_preserve_order_and_other_fields() {
    let settings = ApplicationSelectorButtonSettings {
        target_ids: vec!["firefox".into(), "chromium".into(), "firefox".into()],
        custom_title: "Browser".into(),
        focus_group: "main".into(),
        ..Default::default()
    };
    assert_eq!(settings.target_ids(), ["firefox", "chromium"]);
    assert_eq!(settings.custom_title, "Browser");
    assert_eq!(settings.group(), "main");
}

#[test]
fn configured_selector_never_uses_select_apps_title() {
    let configured = ApplicationSelectorButtonSettings {
        target_ids: vec!["application\u{1f}firefox".into()],
        ..Default::default()
    };
    assert_eq!(selector_title(&configured, None), "Unavailable");
    assert_eq!(selector_title(&configured, Some("Firefox")), "Firefox");
    assert_eq!(
        selector_title(&ApplicationSelectorButtonSettings::default(), None),
        "Select apps"
    );
}

#[test]
fn title_priority_prefers_dynamic_then_selector_then_application() {
    fn title(dynamic: &str, selector: &str, application: &str) -> String {
        choose_title(dynamic, choose_title(selector, application)).to_owned()
    }
    assert_eq!(title("Dial", "Browser", "Firefox"), "Dial");
    assert_eq!(title("", "Browser", "Firefox"), "Browser");
    assert_eq!(title("", "", "Firefox"), "Firefox");
    let settings = DynamicApplicationDialSettings::default();
    assert_eq!(dial_title(&settings, "Browser"), "Browser");
}

#[test]
fn focus_generation_rejects_old_commands() {
    let old = 4_u64;
    let current = next_focus_generation(old, false);
    assert_ne!(old, current);
    assert_eq!(next_focus_generation(current, true), current);
    assert!(!dynamic_command_is_current(9, 9, current, old));
    assert!(!dynamic_command_is_current(10, 9, current, current));
    assert!(dynamic_command_is_current(9, 9, current, current));
}

#[test]
fn optimistic_reconciliation_does_not_reenter_runtime_lock() {
    let mut runtime = DialRuntime::default();
    runtime.prediction = Some(VolumePrediction {
        percent_bits: 80f64.to_bits(),
        issued: 0,
        focus_generation: 7,
    });
    let result =
        reconcile_optimistic_volume(&mut runtime.prediction, 80f64.to_bits(), 0f64.to_bits(), 7, 1);
    assert_eq!(f64::from_bits(result), 80.0);
    assert!(runtime.prediction.is_none());
}

#[test]
fn dynamic_dial_concurrency_stress() {
    let mut runtime = DialRuntime::default();
    let settings = DynamicApplicationDialSettings::default();
    let mut focus = 1_u64;
    for step in 0..1_000_u64 {
        if step % 17 == 0 {
            focus = next_focus_generation(focus, false);
        }
        let wished = f64::from((step % 101) as u32);
        let sequence = note_turn(&mut runtime, &settings, wished.to_bits(), step, focus);
        let difference = (50.0 - wished).to_bits();
        reconcile_optimistic_volume(
            &mut runtime.prediction,
            50f64.to_bits(),
            difference,
            focus,
            step,
        );
        assert!(dynamic_command_is_current(
            runtime.command_sequence,
            sequence,
            focus,
            focus
        ));
    }
    assert_eq!(runtime.command_sequence, 1_000);
}

#[test]
fn sticky_selection_uses_shared_arbitration() {
    let configured = names(&["firefox", "chromium"]);
    let available = names(&["firefox", "chromium"]);
    assert_eq!(
        arbitrate_active(&configured, &available, Some("chromium")).as_deref(),
        Some("chromium")
    );
}

#[test]
fn dynamic_feedback_is_complete_and_has_no_raw_placeholder() {
    let feedback = build_feedback(
        "data:image/png;base64,abc".into(),
        "Browser".into(),
        "80%".into(),
        80,
        false,
    );
    assert_eq!(feedback.icon.value, "data:image/png;base64,abc");
    assert_eq!(feedback.title.value, "Browser");
    assert_eq!(feedback.value.value, "80%");
    assert_eq!(feedback.indicator.value, 80);
    assert!(!format!("{feedback:?}").contains("{{value}}"));
}

#[test]
fn focused_group_persistence_round_trips_without_stream_indexes() {
    let persisted = PersistedFocus {
        identity: focus_identity("deck", "main"),
        selector_id: "selector-context".into(),
        target_ids: vec!["application\u{1f}firefox".into()],
        custom_title: "Browser".into(),
    };
    let mut focus: FocusTable = Table::new();
    load_persisted_focus(&mut focus, vec![persisted]);
    let restored = persisted_focus(&focus);
    assert_eq!(restored.len(), 1);
    assert!(same_focus(&restored[0].identity, &focus_identity("deck", "main")));
    assert_eq!(restored[0].target_ids, ["application\u{1f}firefox"]);
    assert_eq!(restored[0].selector_id, "selector-context");
    assert_eq!(restored[0].custom_title, "Browser");
}

#[test]
fn selector_button_shows_its_group() {
    let mut state = SelectorRuntime::default();
    let settings = button(&["a", "b"], "");
    let apps = [app(1, "Alpha", true), app(2, "Beta", false)];
    let ids = names(&["a", "b"]);
    let view = selector_snapshot(&mut state, &settings, &apps, &ids, true);
    assert!(view.configured && view.available && view.muted);
    assert_eq!(view.title, "Alpha");
    assert_eq!(view.focus_generation, 1);
    assert!(matches!(view.icon, IconNeed::Resolve(0)));
    selector_icon_resolved(&mut state, "uri".into(), "a".into());
    let view = selector_snapshot(&mut state, &settings, &[], &[], false);
    assert!(view.configured && !view.available && !view.muted);
    assert_eq!(view.title, "Alpha");
    assert_eq!(view.focus_generation, 0);
    assert!(matches!(view.icon, IconNeed::Known(icon) if icon == "uri"));
    assert_eq!(selector_frame("i", "t", true, false), "i:t:1:false");
    assert_eq!(selector_frame("i", "t", false, true), "i:t:0.4:true");
    assert_eq!(marked_title("t", true), "● t");
    assert_eq!(marked_title("t", false), "t");
}

#[test]
fn focus_follows_the_last_button() {
    let mut focus: FocusTable = Table::new();
    let identity = focus_identity("deck", "main");
    let other = focus_identity("deck", "games");
    assert!(!focus_selector(&mut focus, &identity, "one", &button(&[], ""), &None, "icon"));
    assert_eq!(focus.len(), 0);
    let first = button(&["a"], "First");
    assert!(focus_selector(&mut focus, &identity, "one", &first, &Some("a".into()), "icon"));
    assert_eq!(focus_generation(&focus, &identity), 1);
    assert!(focus_selector(&mut focus, &identity, "one", &first, &None, "icon"));
    assert_eq!(focus_generation(&focus, &identity), 1);
    let state = focus_of(&focus, &identity).unwrap();
    assert_eq!(state.active_target_id.as_deref(), Some("a"));
    assert!(is_focused(&focus, &identity, "one"));
    assert!(dynamic_command_is_current(5, 5, focus_generation(&focus, &identity), 1));
    let second = button(&["b"], "");
    assert!(focus_selector(&mut focus, &identity, "two", &second, &None, "icon2"));
    assert_eq!(focus_generation(&focus, &identity), 2);
    assert!(!dynamic_command_is_current(5, 5, focus_generation(&focus, &identity), 1));
    assert!(!is_focused(&focus, &identity, "one"));
    assert_eq!(focus_generation(&focus, &other), 0);
    assert!(focus_of(&focus, &other).is_none());
}

#[test]
fn focus_snapshot_and_update_respect_newer_focus() {
    let mut focus: FocusTable = Table::new();
    let identity = focus_identity("deck", "");
    let (view, name) = focus_snapshot(None, &[], &[]);
    assert!(!view.configured && !view.available);
    assert_eq!(view.title, "Select app");
    assert!(name.is_none());
    focus_selector(&mut focus, &identity, "one", &button(&["a"], ""), &None, "icon");
    let seen = focus_of(&focus, &identity).unwrap();
    let apps = [app(1, "Alpha", true)];
    let ids = names(&["a"]);
    let (view, name) = focus_snapshot(Some(&seen), &apps, &ids);
    assert!(view.available && view.muted);
    assert_eq!(view.title, "Alpha");
    assert_eq!(name.as_deref(), Some("Alpha"));
    assert_eq!(view.focus_generation, 1);
    assert!(matches!(view.icon, IconNeed::Resolve(0)));
    let news = || FocusUpdate {
        active_target_id: Some("a".into()),
        last_name: Some("Alpha".into()),
        last_icon: Some("new".into()),
        icon_target_id: Some("a".into()),
    };
    update_focus(&mut focus, &identity, &seen, news());
    let state = focus_of(&focus, &identity).unwrap();
    assert_eq!(state.last_icon.as_deref(), Some("new"));
    assert_eq!(state.generation, 1);
    focus_selector(&mut focus, &identity, "two", &button(&["b"], ""), &None, "icon2");
    update_focus(&mut focus, &identity, &seen, news());
    let state = focus_of(&focus, &identity).unwrap();
    assert_eq!(state.last_icon.as_deref(), Some("icon2"));
    let (view, _) = focus_snapshot(Some(&state), &[], &[]);
    assert_eq!(view.title, "Alpha");
    assert!(!view.available);
}

#[test]
fn refresh_reaches_the_groups_concerned() {
    let mut focus: FocusTable = Table::new();
    let main = focus_identity("deck", "main");
    let games = focus_identity("deck", "games");
    focus_selector(&mut focus, &main, "one", &button(&["a"], ""), &None, "icon");
    focus_selector(&mut focus, &games, "two", &button(&["b", "c"], ""), &None, "icon");
    let list = affected_groups(&focus, &names(&["c"]));
    assert_eq!(list.len(), 1);
    assert!(same_focus(&list[0], &games));
    assert!(belongs_to(&games, "deck", "games"));
    assert!(!belongs_to(&games, "deck", "main"));
    assert!(selector_is_affected(&button(&["a"], ""), &names(&["a"])));
    assert!(!selector_is_affected(&button(&["a"], ""), &names(&["b"])));
}

#[test]
fn dynamic_dial_values_and_predictions() {
    assert_eq!(dynamic_value_text(false, false, false, "1%"), "Select app");
    assert_eq!(dynamic_value_text(true, false, false, "1%"), "Unavailable");
    assert_eq!(dynamic_value_text(true, true, true, "1%"), "Muted");
    assert_eq!(dynamic_value_text(true, true, false, "1%"), "1%");
    let mut runtime = DialRuntime::default();
    note_mute(&mut runtime, true, 5, 3);
    assert_eq!(runtime.mute_prediction.unwrap().focus_generation, 3);
    let settings = DynamicApplicationDialSettings::default();
    assert_eq!(settings.group(), "main");
    assert_eq!(settings.step(), 2);
    assert_eq!(settings.maximum(), 100);
    note_turn(&mut runtime, &settings, 180f64.to_bits(), 5, 3);
    assert_eq!(runtime.prediction.unwrap().percent_bits, 100f64.to_bits());
    let kept = VolumePrediction {
        percent_bits: 100f64.to_bits(),
        issued: 5,
        focus_generation: 3,
    };
    let mut held = Some(kept);
    let shown = reconcile_optimistic_volume(&mut held, 20f64.to_bits(), 80f64.to_bits(), 4, 6);
    assert_eq!(shown, 20f64.to_bits());
    assert!(held.is_none());
}

#[test]
fn focus_shown_again_is_not_sent_again() {
    let mut focus: FocusTable = Table::new();
    let identity = focus_identity("deck", "");
    focus_selector(&mut focus, &identity, "one", &button(&["a"], ""), &None, "old");
    let apps = [app(1, "Alpha", false)];
    let ids = names(&["a"]);
    let settings = DynamicApplicationDialSettings::default();
    let seen = focus_of(&focus, &identity).unwrap();
    let (view, name) = focus_snapshot(Some(&seen), &apps, &ids);
    assert!(matches!(view.icon, IconNeed::Resolve(0)));
    let update = focus_update(&seen, &view, name, &ids, "uri");
    assert_eq!(update.active_target_id.as_deref(), Some("a"));
    assert_eq!(update.last_name.as_deref(), Some("Alpha"));
    assert_eq!(update.last_icon.as_deref(), Some("uri"));
    assert_eq!(update.icon_target_id.as_deref(), Some("a"));
    update_focus(&mut focus, &identity, &seen, update);
    let feedback = dynamic_feedback(&view, &settings, false, "uri".into(), "50%", 50);
    assert_eq!(feedback.icon.value, "uri");
    assert_eq!(feedback.title.value, "Alpha");
    assert_eq!(feedback.value.value, "50%");
    assert!(!feedback.title.dimmed);
    let last = Some(feedback);

    let seen = focus_of(&focus, &identity).unwrap();
    let (view, name) = focus_snapshot(Some(&seen), &apps, &ids);
    let IconNeed::Known(icon) = &view.icon else {
        panic!("the icon is known");
    };
    let update = focus_update(&seen, &view, name, &ids, "not looked for");
    assert_eq!(update.last_icon.as_deref(), Some("uri"));
    let again = dynamic_feedback(&view, &settings, false, icon.clone(), "50%", 50);
    let mut runtime = RenderRuntime::default();
    let generation = runtime.begin();
    assert_eq!(
        render_step(&runtime, generation, true, &last, &again),
        RenderStep::Unchanged
    );
    let muted = dynamic_feedback(&view, &settings, true, icon.clone(), "50%", 50);
    assert_eq!(muted.value.value, "Muted");
    assert!(muted.indicator.dimmed);
    assert_eq!(render_step(&runtime, generation, true, &last, &muted), RenderStep::Send);
}
