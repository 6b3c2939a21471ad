use volume_controller::audio::audio_system::{
    is_monitor_source, meta_value, AppInfo, AudioDeviceInfo, DeviceKind,
};
use volume_controller::audio::{
    changed_application_ids, changed_device_ids, execute_pending, find_application,
    registry_applications, registry_devices, set_application_group_mute,
    set_application_group_volume, set_device_mute, set_device_volume, update_application_state,
    update_device_state, update_registry, AudioCommand, AudioRegistry, PendingCommands,
    RegistryChanges,
};
use volume_controller::table::Table;

fn app(uid: u32, name: &str, volume: f32, mute: bool) -> AppInfo {
    AppInfo {
        uid,
        app_name: name.to_owned(),
        sink_name: Some("stream".to_owned()),
        mute,
        vol_percent_bits: volume.to_bits(),
        icon_name: None,
        is_device: false,
        is_multi_sink_app: false,
        metadata: Table::new(),
    }
}

fn device(name: &str, volume: f32, mute: bool, kind: DeviceKind) -> AudioDeviceInfo {
    AudioDeviceInfo {
        stable_name: name.to_owned(),
        description: name.to_owned(),
        mute,
        vol_percent_bits: volume.to_bits(),
        icon_name: None,
        kind,
    }
}

fn names(values: &[&str]) -> Vec<String> {
    values.iter().map(|value| (*value).to_owned()).collect()
}

fn label(command: &AudioCommand) -> String {
    match command {
        AudioCommand::Mute { index, is_device, mute } => {
            format!("stream-mute:{index}:{mute}:{is_device}")
        }
        AudioCommand::Volume { index, is_device, percent_bits } => {
            let percent = f64::from_bits(*percent_bits);
            format!("stream-volume:{index}:{percent}:{is_device}")
        }
        AudioCommand::DeviceMute { stable_name, kind, mute } => {
            format!("device-mute:{stable_name}:{kind:?}:{mute}")
        }
        AudioCommand::DeviceVolume { stable_name, kind, percent_bits } => {
            let percent = f64::from_bits(*percent_bits);
            format!("device-volume:{stable_name}:{kind:?}:{percent}")
        }
    }
}

#[test]
fn rapid_volume_commands_keep_only_latest_value_per_target() {
    let target = vec![(7, false)];
    let mut pending = PendingCommands::default();
    for value in 0..10_000 {
        set_application_group_volume(&mut pending, target.clone(), f64::from(value).to_bits());
    }
    assert_eq!(pending.volumes.len(), 1);
    assert_eq!(pending.volumes.get(&target), Some(&9_999f64.to_bits()));
}

#[test]
fn mute_commands_preserve_order() {
    let target = vec![(7, false)];
    let mut pending = PendingCommands::default();
    set_application_group_mute(&mut pending, target.clone(), true);
    set_application_group_mute(&mut pending, target.clone(), false);
    assert_eq!(pending.mutes[0], (target.clone(), true));
    assert_eq!(pending.mutes[1], (target, false));
    assert_eq!(pending.mutes.len(), 2);
}

#[test]
fn backend_contract_enumerates_playback_streams() {
    let mut registry = AudioRegistry::default();
    assert!(registry_applications(&registry).is_none());
    update_registry(
        &mut registry,
        &[],
        vec![app(17, "browser", 42.0, false)],
        &names(&["application\u{1f}browser"]),
        Vec::new(),
        Vec::new(),
    );
    let applications = registry_applications(&registry).unwrap();
    assert_eq!(applications.len(), 1);
    assert_eq!(applications[0].uid, 17);
}

#[test]
fn backend_contract_executes_group_and_device_operations() {
    let mut pending = PendingCommands::default();
    set_application_group_volume(&mut pending, vec![(1, false), (2, false)], 88f64.to_bits());
    set_application_group_mute(&mut pending, vec![(1, false), (2, false)], true);
    set_device_volume(&mut pending, "output".to_owned(), DeviceKind::Output, 55f64.to_bits());
    set_device_volume(&mut pending, "input".to_owned(), DeviceKind::Input, 66f64.to_bits());
    set_device_mute(&mut pending, "output".to_owned(), DeviceKind::Output, true);
    set_device_mute(&mut pending, "input".to_owned(), DeviceKind::Input, true);

    let calls: Vec<String> = execute_pending(pending).iter().map(label).collect();

    assert!(calls.contains(&"stream-volume:1:88:false".into()));
    assert!(calls.contains(&"stream-volume:2:88:false".into()));
    assert!(calls.contains(&"stream-mute:1:true:false".into()));
    assert!(calls.contains(&"stream-mute:2:true:false".into()));
    assert!(calls.contains(&"device-volume:output:Output:55".into()));
    assert!(calls.contains(&"device-volume:input:Input:66".into()));
    assert!(calls.contains(&"device-mute:output:Output:true".into()));
    assert!(calls.contains(&"device-mute:input:Input:true".into()));
    assert_eq!(calls.len(), 8);
    assert_eq!(calls[0], "stream-mute:1:true:false");
    assert_eq!(calls[7], "device-volume:input:Input:66");
}

#[derive(Default)]
struct FailingBackend {
    calls: Vec<String>,
}

impl FailingBackend {
    fn perform(&mut self, command: &AudioCommand) -> Result<(), String> {
        self.calls.push(label(command));
        Err("mock backend failure".to_owned())
    }
}

/// All commands are listed before the first is carried out, so an error of one
/// has no say in the others; the caller goes on through the list.
#[test]
fn backend_command_error_does_not_stop_later_commands() {
    let mut pending = PendingCommands::default();
    set_application_group_volume(&mut pending, vec![(1, false), (2, false)], 75f64.to_bits());
    let mut backend = FailingBackend::default();
    let errors: Vec<String> = execute_pending(pending)
        .iter()
        .filter_map(|command| backend.perform(command).err())
        .collect();
    assert_eq!(backend.calls.len(), 2);
    assert_eq!(backend.calls, ["stream-volume:1:75:false", "stream-volume:2:75:false"]);
    assert_eq!(errors.len(), 2);
}

#[test]
fn latest_device_volume_replaces_earlier_ones_of_the_same_kind_only() {
    let mut pending = PendingCommands::default();
    set_device_volume(&mut pending, "x".to_owned(), DeviceKind::Output, 1f64.to_bits());
    set_device_volume(&mut pending, "x".to_owned(), DeviceKind::Input, 2f64.to_bits());
    set_device_volume(&mut pending, "x".to_owned(), DeviceKind::Output, 3f64.to_bits());
    let calls: Vec<String> = execute_pending(pending).iter().map(label).collect();
    assert_eq!(calls, ["device-volume:x:Output:3", "device-volume:x:Input:2"]);
}

#[test]
fn changed_applications_are_told_apart_from_reordered_ones() {
    let before = [app(1, "a", 50.0, false), app(2, "a", 60.0, false), app(3, "b", 1.0, true)];
    let ids = names(&["a", "a", "b"]);
    let reordered = [app(2, "a", 60.0, false), app(1, "a", 50.0, false), app(3, "b", 1.0, true)];
    assert!(changed_application_ids(&before, &ids, &reordered, &ids).is_empty());
    let changed = [app(2, "a", 60.0, false), app(1, "a", 51.0, false), app(4, "c", 1.0, true)];
    let mut list = changed_application_ids(&before, &ids, &changed, &names(&["a", "a", "c"]));
    list.sort();
    assert_eq!(list, ["a", "b", "c"]);
    assert!(changed_application_ids(&before, &ids, &before, &ids).is_empty());
}

#[test]
fn changed_devices_are_told_by_name() {
    let before = [
        device("a", 10.0, false, DeviceKind::Output),
        device("b", 20.0, false, DeviceKind::Output),
    ];
    let after = [
        device("b", 20.0, true, DeviceKind::Output),
        device("c", 20.0, true, DeviceKind::Output),
    ];
    let mut list = changed_device_ids(&before, &after);
    list.sort();
    assert_eq!(list, ["a", "b", "c"]);
    assert!(changed_device_ids(&before, &before).is_empty());
    let repeated = [
        device("a", 10.0, false, DeviceKind::Output),
        device("a", 30.0, false, DeviceKind::Output),
        device("b", 20.0, false, DeviceKind::Output),
    ];
    assert_eq!(changed_device_ids(&before, &repeated), ["a"]);
}

#[test]
fn registry_notes_states_of_known_objects_only() {
    let mut registry = AudioRegistry::default();
    assert!(registry_devices(&registry, DeviceKind::Output).is_none());
    let changes: RegistryChanges = update_registry(
        &mut registry,
        &[],
        vec![app(5, "player", 10.0, false)],
        &names(&["application\u{1f}player"]),
        vec![device("out", 10.0, false, DeviceKind::Output)],
        vec![device("in", 10.0, false, DeviceKind::Input)],
    );
    assert_eq!(changes.applications, ["application\u{1f}player"]);
    assert_eq!(changes.outputs, ["out"]);
    assert_eq!(changes.inputs, ["in"]);
    assert_eq!(
        update_application_state(&mut registry, 5, 33f32.to_bits(), true, None).as_deref(),
        Some("application\u{1f}player")
    );
    assert_eq!(registry.applications[0].vol_percent_bits, 33f32.to_bits());
    assert!(registry.applications[0].mute);
    assert!(update_application_state(&mut registry, 6, 0, true, None).is_none());
    assert!(update_device_state(&mut registry, "out", DeviceKind::Output, 44f32.to_bits(), true));
    assert!(!update_device_state(&mut registry, "out", DeviceKind::Input, 44f32.to_bits(), true));
    assert_eq!(registry.outputs[0].vol_percent_bits, 44f32.to_bits());
    assert_eq!(registry.inputs[0].vol_percent_bits, 10f32.to_bits());
    assert_eq!(find_application(&registry.applications, 5), Some(0));
    assert_eq!(find_application(&registry.applications, 9), None);
    assert_eq!(registry_devices(&registry, DeviceKind::Input).unwrap().len(), 1);
}

#[test]
fn monitor_sources_are_known_by_name_or_description() {
    assert!(is_monitor_source("x.MONITOR", ""));
    assert!(is_monitor_source("x", "Monitor of y"));
    assert!(!is_monitor_source("monitor", "a monitor"));
}

#[test]
fn metadata_is_read_by_key_and_copied() {
    let mut player = app(1, "a", 0.0, false);
    player.metadata.insert("k".to_owned(), "v".to_owned());
    assert_eq!(meta_value(&player, "k").as_deref(), Some("v"));
    assert_eq!(meta_value(&player, "other"), None);
    let copy = player.clone();
    assert_eq!(meta_value(&copy, "k").as_deref(), Some("v"));
    assert_eq!(copy.app_name, "a");
}
