use volume_controller::app_column::{
    appearing_settings, column_icon_resolved, column_is_affected, column_key, column_volume,
    ensure_column, frame_key, is_complete, is_in_column, is_new_frame, load_persisted_column,
    mute_order, note_frame, persisted_columns, present_rows, same_column, snapshot,
    synchronize_settings,
    ApplicationVolumeColumnSettings, ColumnIdentity, ColumnKey, ColumnState, ColumnTable,
    PersistedColumn,
};
use volume_controller::audio::audio_system::AppInfo;
use volume_controller::dial::{
    arbitrate_active, clamp_target_percent, group_targets, toggled_group_mute, IconNeed,
};
use volume_controller::icons::{icon_attempts, resolve_app_icon, RenderedIcon};
use volume_controller::table::Table;

const BUTTON_STEP: f64 = 10.0;

fn identity(device: &str, column: u8) -> ColumnIdentity {
    ColumnIdentity { device_id: device.to_owned(), column }
}

fn names(values: &[&str]) -> Vec<String> {
    values.iter().map(|value| (*value).to_owned()).collect()
}

fn app(uid: u32, name: &str, mute: bool) -> AppInfo {
    AppInfo {
        uid,
        app_name: name.to_owned(),
        sink_name: None,
        mute,
        vol_percent_bits: 50f32.to_bits(),
        icon_name: Some("audio-x-generic".to_owned()),
        is_device: false,
        is_multi_sink_app: false,
        metadata: Table::new(),
    }
}

fn clamp(value: f64) -> f64 {
    f64::from_bits(clamp_target_percent(value.to_bits(), 100))
}

#[test]
fn column_identity_shares_rows_but_separates_columns_and_devices() {
    assert!(same_column(&identity("deck-a", 2), &identity("deck-a", 2)));
    assert!(!same_column(&identity("deck-a", 2), &identity("deck-a", 3)));
    assert!(!same_column(&identity("deck-a", 2), &identity("deck-b", 2)));
}

#[test]
fn settings_support_one_or_ordered_multiple_targets() {
    let one = ApplicationVolumeColumnSettings {
        target_ids: names(&["one"]),
        ..Default::default()
    };
    assert_eq!(one.normalized_target_ids(), ["one"]);
    let multiple = ApplicationVolumeColumnSettings {
        target_ids: names(&["one", "two", "one"]),
        ..Default::default()
    };
    assert_eq!(multiple.normalized_target_ids(), ["one", "two"]);
}

#[test]
fn completeness_requires_exact_three_rows() {
    assert!(is_complete(&[0, 1, 2]));
    assert!(!is_complete(&[0, 2]));
}

#[test]
fn column_uses_shared_sticky_arbitration() {
    let configured = names(&["firefox", "chromium"]);
    let both = names(&["firefox", "chromium"]);
    assert_eq!(
        arbitrate_active(&configured, &both, Some("chromium")).as_deref(),
        Some("chromium")
    );
    let firefox_only = names(&["firefox"]);
    assert_eq!(
        arbitrate_active(&configured, &firefox_only, Some("chromium")).as_deref(),
        Some("firefox")
    );
}

#[test]
fn group_volume_uses_correct_percentage_scale() {
    assert_eq!(clamp(90.0 + BUTTON_STEP), 100.0);
    assert_eq!(clamp(100.0 + BUTTON_STEP), 100.0);
    assert_eq!(clamp(0.0 - BUTTON_STEP), 0.0);
    assert_eq!(f64::from_bits(column_volume((50.0 + BUTTON_STEP).to_bits())), 60.0);
    assert_eq!(f64::from_bits(column_volume(140f64.to_bits())), 100.0);
}

#[test]
fn mixed_mute_state_mutes_all_and_all_muted_unmutes() {
    let mixed = [app(1, "a", true), app(2, "a", false)];
    let muted = [app(1, "a", true), app(2, "a", true)];
    assert!(toggled_group_mute(&mixed, &[0, 1]));
    assert!(!toggled_group_mute(&muted, &[0, 1]));
    assert_eq!(group_targets(&mixed, &[1, 0]), [(2, false), (1, false)]);
}

#[test]
fn column_and_dial_share_the_same_icon_resolver_output() {
    let application = app(1, "test application", false);
    let attempts = icon_attempts(&application, None, None);
    let outcome = || {
        vec![Some(RenderedIcon {
            path: "/usr/share/icons/audio-x-generic.svg".to_owned(),
            data_uri: "data:image/png;base64,abc".to_owned(),
        })]
    };
    let dial_source = resolve_app_icon(None, &attempts, &outcome(), "fallback");
    let column_source = resolve_app_icon(None, &attempts, &outcome(), "fallback");
    assert_eq!(column_source.source_path, dial_source.source_path);
    assert_eq!(
        column_source.rendered_data_uri,
        dial_source.rendered_data_uri
    );
}

#[test]
fn column_snapshot_follows_its_targets() {
    let mut state = ColumnState::default();
    state.settings.target_ids = names(&["a", "b"]);
    let apps = [app(1, "one", false), app(2, "two", true), app(3, "two", true)];
    let ids = names(&["x", "b", "b"]);
    let view = snapshot(&mut state, &apps, &ids);
    assert!(view.available && view.muted);
    assert_eq!(view.members, [1, 2]);
    assert_eq!(view.target_id.as_deref(), Some("b"));
    assert!(matches!(view.icon, IconNeed::Resolve(1)));
    column_icon_resolved(&mut state, "icon".to_owned(), "b".to_owned());
    let view = snapshot(&mut state, &apps, &ids);
    assert!(matches!(view.icon, IconNeed::Known(icon) if icon == "icon"));
    let view = snapshot(&mut state, &[], &[]);
    assert!(!view.available && !view.muted && view.target_id.is_none());
    assert!(matches!(view.icon, IconNeed::Known(icon) if icon == "icon"));
}

#[test]
fn column_keys_depend_on_row_and_completeness() {
    assert_eq!(column_key(&[0, 1, 2], 0), ColumnKey::ToggleMute);
    assert_eq!(column_key(&[2, 1, 0], 1), ColumnKey::Raise);
    assert_eq!(column_key(&[0, 1, 2], 2), ColumnKey::Lower);
    assert_eq!(column_key(&[0, 1, 2], 3), ColumnKey::Nothing);
    assert_eq!(column_key(&[0, 1], 0), ColumnKey::Nothing);
    assert_eq!(present_rows(&[2, 0]), [0, 2]);
    assert!(is_in_column(&identity("deck", 1), "deck", 1, 2));
    assert!(!is_in_column(&identity("deck", 1), "deck", 1, 3));
}

#[test]
fn column_frames_are_sent_once() {
    let mut state = ColumnState::default();
    let key = frame_key(true, "frame");
    assert_eq!(key, "true:frame");
    assert!(is_new_frame(&state, 1, &key));
    note_frame(&mut state, 1, key.clone());
    assert!(!is_new_frame(&state, 1, &key));
    assert!(is_new_frame(&state, 1, &frame_key(false, "frame")));
    assert!(is_new_frame(&state, 2, &key));
}

#[test]
fn column_settings_are_shared_and_kept_when_new() {
    let mut state = ColumnState::default();
    let settings = ApplicationVolumeColumnSettings {
        target_id: "old".to_owned(),
        target_name: "Old".to_owned(),
        ..Default::default()
    };
    let action = synchronize_settings(&mut state, settings.clone(), false);
    assert!(action.broadcast && action.persist);
    assert_eq!(state.settings.target_ids, ["old"]);
    assert_eq!(state.settings.target_id, "");
    assert_eq!(state.settings.target_name, "");
    let again = synchronize_settings(&mut state, settings.clone(), false);
    assert!(!again.broadcast && !again.persist);
    let forced = synchronize_settings(&mut state, settings.clone(), true);
    assert!(forced.broadcast && !forced.persist);
    let empty = ApplicationVolumeColumnSettings::default();
    assert!(appearing_settings(&empty, &settings).is_same(&settings));
    assert!(appearing_settings(&settings, &empty).is_same(&settings));
}

#[test]
fn column_refresh_follows_configured_and_active_targets() {
    let mut state = ColumnState::default();
    state.settings.target_ids = names(&["a"]);
    assert!(column_is_affected(&state, &names(&["b", "a"])));
    assert!(!column_is_affected(&state, &names(&["b"])));
    state.active_target_id = Some("b".to_owned());
    assert!(column_is_affected(&state, &names(&["b"])));
}

#[test]
fn kept_columns_are_ordered_and_come_back() {
    let mut columns: ColumnTable = Table::new();
    for (device, column, target) in [("b", 1, "x"), ("a", 7, "y"), ("a", 2, "z"), ("c", 0, "")] {
        let kept = PersistedColumn {
            device_id: device.to_owned(),
            column,
            settings: ApplicationVolumeColumnSettings {
                target_ids: names(&[target]),
                ..Default::default()
            },
        };
        load_persisted_column(&mut columns, kept);
    }
    ensure_column(&mut columns, &identity("d", 0));
    let kept = persisted_columns(&columns);
    let order: Vec<(String, u8, Vec<String>)> = kept
        .iter()
        .map(|item| {
            (
                item.device_id.clone(),
                item.column,
                item.settings.target_ids.clone(),
            )
        })
        .collect();
    assert_eq!(
        order,
        [
            ("a".to_owned(), 2, names(&["z"])),
            ("a".to_owned(), 7, names(&["y"])),
            ("b".to_owned(), 1, names(&["x"])),
        ]
    );
    let mut other: ColumnTable = Table::new();
    for item in kept {
        load_persisted_column(&mut other, item);
    }
    let column = other.get(&identity("a", 7)).unwrap();
    assert_eq!(column.state.settings.normalized_target_ids(), ["y"]);
    assert!(!other.contains(&identity("c", 0)));
}

#[test]
fn mute_key_orders_one_state_for_all_streams_of_the_target() {
    let mut state = ColumnState::default();
    state.settings.target_ids = names(&["a", "b"]);
    let ids = names(&["a", "b", "a"]);
    let apps = [app(1, "A", true), app(2, "B", false), app(3, "A", false)];
    let (view, order) = mute_order(&mut state, &apps, &ids);
    assert_eq!(view.members, [0, 2]);
    assert_eq!(order, Some((vec![(1, false), (3, false)], true)));
    assert_eq!(state.active_target_id.as_deref(), Some("a"));
    let muted = [app(1, "A", true), app(2, "B", false), app(3, "A", true)];
    let (_, order) = mute_order(&mut state, &muted, &ids);
    assert_eq!(order, Some((vec![(1, false), (3, false)], false)));
    let (view, order) = mute_order(&mut state, &[], &[]);
    assert!(!view.available);
    assert_eq!(order, None);
}
