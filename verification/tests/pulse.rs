use volume_controller::audio::audio_system::{AppInfo, DeviceKind};
use volume_controller::audio::pulse::backend::{
    assemble_applications, average_channel_volume, device_mute_api, list_applications,
    list_devices, pulse_raw_to_percent, DeviceMuteApi,
};
use volume_controller::audio::pulse::client::{
    client_property_keys, selected_properties, stream_property_keys, wait_success, Device,
    OperationError, PlaybackStream,
};
use volume_controller::audio::pulse::pulse_monitor::{
    classify_subscription_event, coalesce, next_reconnect_backoff, next_sequence,
    process_changed_device, process_changed_stream, request_explicit_refresh, request_topology_refresh,
    route_subscription_event, ChangedObject, EventAction, Facility, Operation, PendingChanges,
    RefreshQueue, RefreshReason, SubscriptionRoute,
};
use volume_controller::audio::AudioRegistry;
use volume_controller::device_dial::{is_affected, AudioDeviceVolumeDialSettings};
use volume_controller::table::Table;
use volume_controller::utils::SystemMixer;

const SHOWN: SystemMixer = SystemMixer { shown: true };

fn properties(values: &[(&str, &str)]) -> Table<String, String> {
    let mut table = Table::new();
    for (key, value) in values {
        table.insert((*key).to_owned(), (*value).to_owned());
    }
    table
}

fn stream(index: u32, values: &[(&str, &str)]) -> PlaybackStream {
    PlaybackStream {
        index,
        name: Some(format!("stream {index}")),
        client: Some(9),
        vol_percent_bits: 25f32.to_bits(),
        mute: false,
        properties: properties(values),
    }
}

fn device(name: &str, description: Option<&str>, monitor_of_sink: Option<u32>) -> Device {
    Device {
        index: 4,
        name: name.to_owned(),
        description: description.map(str::to_owned),
        vol_percent_bits: 75f32.to_bits(),
        mute: true,
        icon_name: None,
        monitor_of_sink,
    }
}

#[test]
fn pulse_raw_converts_against_normal_volume() {
    assert_eq!(f64::from_bits(pulse_raw_to_percent(32_768)), 50.0);
    assert_eq!(f64::from_bits(pulse_raw_to_percent(65_536)), 100.0);
    assert_eq!(f64::from_bits(pulse_raw_to_percent(98_304)), 150.0);
}

#[test]
fn every_raw_volume_has_the_percentage_of_the_division() {
    for raw in [0, 1, 2, 3, 77, 655, 656, 12_345, 65_535, 65_537, 1_000_003, u32::MAX] {
        let expected = f64::from(raw) / 65_536.0 * 100.0;
        assert_eq!(pulse_raw_to_percent(raw), expected.to_bits());
    }
}

#[test]
fn device_mute_dispatches_outputs_to_sinks_and_inputs_to_sources() {
    assert_eq!(device_mute_api(DeviceKind::Output), DeviceMuteApi::Sink);
    assert_eq!(device_mute_api(DeviceKind::Input), DeviceMuteApi::Source);
    assert_ne!(device_mute_api(DeviceKind::Input), DeviceMuteApi::Sink);
}

#[test]
fn channel_volumes_are_averaged_and_rounded() {
    assert_eq!(average_channel_volume(&[]), 0);
    assert_eq!(average_channel_volume(&[10, 11]), 11);
    assert_eq!(average_channel_volume(&[10, 10, 11]), 10);
    assert_eq!(average_channel_volume(&[65_536, 65_536]), 65_536);
    assert_eq!(average_channel_volume(&[u32::MAX; 32]), u32::MAX);
}

#[test]
fn monitors_are_not_listed_as_inputs() {
    let sources = [
        device("alsa_input.usb", Some("USB microphone"), None),
        device("alsa_output.card.monitor", None, None),
        device("x", Some("Monitor of Speakers"), None),
        device("y", Some("Plain"), Some(1)),
        device("z", None, None),
    ];
    let inputs = list_devices(&sources, DeviceKind::Input);
    let names: Vec<&str> = inputs.iter().map(|item| item.stable_name.as_str()).collect();
    assert_eq!(names, ["alsa_input.usb", "z"]);
    assert_eq!(inputs[1].description, "Audio input");
    assert_eq!(inputs[0].kind, DeviceKind::Input);
    let outputs = list_devices(&sources, DeviceKind::Output);
    assert_eq!(outputs.len(), 5);
    assert_eq!(outputs[1].description, "Audio output");
    assert!(outputs[1].mute);
    assert_eq!(outputs[1].vol_percent_bits, 75f32.to_bits());
}

#[test]
fn applications_are_named_counted_and_completed_from_their_clients() {
    let streams = [
        stream(1, &[("application.name", "FIREFOX"), ("application.icon_name", "firefox")]),
        stream(2, &[("application.name", "Firefox")]),
        stream(3, &[]),
    ];
    let mut clients: Table<u32, Table<String, String>> = Table::new();
    clients.insert(
        9,
        properties(&[("application.name", "client"), ("pipewire.sec.pid", "77")]),
    );
    let system = device("sink", None, None);
    let apps: Vec<AppInfo> = list_applications(&streams, &clients, &SHOWN, Some(&system));
    assert_eq!(apps.len(), 4);
    assert_eq!(apps[0].app_name, "System Audio");
    assert_eq!(apps[0].sink_name.as_deref(), Some("System Audio"));
    assert_eq!(apps[0].icon_name.as_deref(), Some("audio-card"));
    assert!(apps[0].is_device && !apps[0].is_multi_sink_app);
    assert_eq!(apps[1].app_name, "firefox");
    assert!(apps[1].is_multi_sink_app && apps[2].is_multi_sink_app);
    assert_eq!(apps[1].icon_name.as_deref(), Some("firefox"));
    assert_eq!(apps[3].app_name, "app_stream");
    assert!(!apps[3].is_multi_sink_app);
    let key = "application.process.id".to_owned();
    assert_eq!(apps[1].metadata.get(&key), Some(&"77".to_owned()));
    let name = "application.name".to_owned();
    assert_eq!(apps[1].metadata.get(&name), Some(&"FIREFOX".to_owned()));
    assert_eq!(apps[3].metadata.get(&name), Some(&"client".to_owned()));
    let without = list_applications(&streams, &Table::new(), &SHOWN, None);
    let hidden = list_applications(
        &streams,
        &Table::new(),
        &SystemMixer { shown: false },
        Some(&system),
    );
    assert_eq!(hidden.len(), without.len());
    assert!(hidden.iter().all(|app| !app.is_device));
    assert_eq!(without.len(), 3);
    assert!(without[0].metadata.get(&key).is_none());
}

#[test]
fn names_map_to_lower_case_beyond_ascii() {
    let streams = [stream(1, &[("application.name", "ÄÖ Player")])];
    let apps = list_applications(&streams, &Table::new(), &SHOWN, None);
    assert_eq!(apps[0].app_name, "äö player");
    let given = assemble_applications(&streams, &["other".to_owned()], &Table::new(), None);
    assert_eq!(given[0].app_name, "other");
}

#[test]
fn system_sink_name_counts_among_the_names() {
    let streams = [stream(1, &[("application.name", "speakers")])];
    let system = device("sink", Some("speakers"), None);
    let apps = list_applications(&streams, &Table::new(), &SHOWN, Some(&system));
    assert_eq!(apps[0].app_name, "speakers");
    assert!(apps[1].is_multi_sink_app);
}

#[test]
fn only_properties_with_a_value_are_kept() {
    let keys = client_property_keys();
    let values = vec![None, Some("12".to_owned()), None, Some("name".to_owned())];
    let table = selected_properties(&keys, values);
    assert_eq!(table.len(), 2);
    assert_eq!(table.get(&"application.process.id".to_owned()), Some(&"12".to_owned()));
    assert_eq!(table.get(&"application.name".to_owned()), Some(&"name".to_owned()));
    assert_eq!(stream_property_keys().len(), 18);
    assert_eq!(stream_property_keys()[17], "STEAM_COMPAT_APP_ID");
}

#[test]
fn operations_succeed_only_when_the_server_says_so() {
    assert_eq!(wait_success(Some(true)), Ok(()));
    assert_eq!(wait_success(Some(false)), Err(OperationError::Rejected));
    assert_eq!(wait_success(None), Err(OperationError::NoResult));
}

#[test]
fn change_events_do_not_enter_topology_queue() {
    for _ in 0..500 {
        assert_eq!(
            classify_subscription_event(
                Some(Facility::SinkInput),
                Some(Operation::Changed),
                42,
            ),
            SubscriptionRoute::Change(ChangedObject::Application(42))
        );
    }
}

#[test]
fn sink_and_source_changes_are_targeted() {
    assert_eq!(
        classify_subscription_event(Some(Facility::Sink), Some(Operation::Changed), 7),
        SubscriptionRoute::Change(ChangedObject::Output(7))
    );
    assert_eq!(
        classify_subscription_event(Some(Facility::Source), Some(Operation::Changed), 8),
        SubscriptionRoute::Change(ChangedObject::Input(8))
    );
}

#[test]
fn new_and_removed_objects_request_topology_refresh() {
    for facility in [Facility::SinkInput, Facility::Sink, Facility::Source] {
        for operation in [Operation::New, Operation::Removed] {
            assert_eq!(
                classify_subscription_event(Some(facility), Some(operation), 3),
                SubscriptionRoute::Topology
            );
        }
    }
}

#[test]
fn other_events_are_ignored() {
    for operation in [Operation::New, Operation::Changed, Operation::Removed] {
        assert_eq!(
            classify_subscription_event(Some(Facility::Other), Some(operation), 3),
            SubscriptionRoute::Ignore
        );
        assert_eq!(
            classify_subscription_event(None, Some(operation), 3),
            SubscriptionRoute::Ignore
        );
    }
    assert_eq!(
        classify_subscription_event(Some(Facility::Sink), None, 3),
        SubscriptionRoute::Ignore
    );
}

#[test]
fn reconnect_backoff_is_bounded() {
    let mut backoff = std::time::Duration::from_millis(100);
    for _ in 0..20 {
        let millis = u64::try_from(backoff.as_millis()).unwrap();
        backoff = std::time::Duration::from_millis(next_reconnect_backoff(millis));
    }
    assert_eq!(backoff, std::time::Duration::from_secs(5));
    assert_eq!(next_reconnect_backoff(100), 200);
    assert_eq!(next_reconnect_backoff(u64::MAX), 5000);
}

#[test]
fn latest_change_per_object_is_bounded() {
    let mut pending = PendingChanges::default();
    for _ in 0..10_000 {
        pending.insert(ChangedObject::Application(42));
    }
    assert_eq!(pending.len(), 1);
    pending.insert(ChangedObject::Output(42));
    assert_eq!(
        pending.drain(),
        [ChangedObject::Application(42), ChangedObject::Output(42)]
    );
    assert_eq!(pending.len(), 0);
}

#[test]
fn events_lead_to_actions() {
    let mut pending = PendingChanges::default();
    let changed = Some(Operation::Changed);
    assert_eq!(
        route_subscription_event(&mut pending, Some(Facility::Sink), changed, 1),
        EventAction::LookAtChanges
    );
    assert_eq!(pending.len(), 1);
    assert_eq!(
        route_subscription_event(&mut pending, Some(Facility::Sink), Some(Operation::New), 2),
        EventAction::Refresh(RefreshReason::Topology)
    );
    assert_eq!(
        route_subscription_event(&mut pending, None, changed, 3),
        EventAction::Nothing
    );
    assert_eq!(pending.len(), 1);
}

#[test]
fn refresh_requests_are_bounded_and_coalesced() {
    let mut queue = RefreshQueue::default();
    request_topology_refresh(&mut queue, RefreshReason::Initial);
    request_explicit_refresh(&mut queue);
    assert_eq!(queue.waiting, Some(RefreshReason::Initial));
    assert_eq!(coalesce(RefreshReason::Initial, &[]), RefreshReason::Initial);
    assert_eq!(
        coalesce(RefreshReason::Initial, &[RefreshReason::Topology, RefreshReason::Reconnect]),
        RefreshReason::Reconnect
    );
    let labels: Vec<&str> = [
        RefreshReason::Initial,
        RefreshReason::Topology,
        RefreshReason::Explicit,
        RefreshReason::Reconnect,
    ]
    .into_iter()
    .map(RefreshReason::label)
    .collect();
    assert_eq!(labels, ["initial", "topology", "explicit", "reconnect"]);
    assert_eq!(next_sequence(4), 5);
    assert_eq!(next_sequence(u64::MAX), 0);
}

#[test]
fn changed_stream_updates_registry_or_asks_for_everything() {
    let mut registry = AudioRegistry::default();
    registry.initialized = true;
    registry.applications = list_applications(
        &[stream(1, &[("application.name", "Player")])],
        &Table::new(),
        &SHOWN,
        None,
    );
    let mut channels = Vec::new();
    let id = process_changed_stream(&mut registry, &mut channels, 1, 5f32.to_bits(), true, None);
    assert_eq!(id.as_deref(), Some("application\u{1f}player"));
    assert!(registry.applications[0].mute);
    assert!(process_changed_stream(&mut registry, &mut channels, 2, 0, true, None).is_none());
}

#[test]
fn changed_device_reaches_its_own_dials_alone() {
    let mut registry = AudioRegistry::default();
    registry.outputs = list_devices(&[device("x", None, None)], DeviceKind::Output);
    registry.inputs = list_devices(&[device("x", None, None)], DeviceKind::Input);
    assert_eq!((registry.outputs.len(), registry.inputs.len()), (1, 1));
    let dial = |kind, name: &str| AudioDeviceVolumeDialSettings {
        device_kind: kind,
        target_id: name.to_owned(),
        ..Default::default()
    };
    for kind in [DeviceKind::Output, DeviceKind::Input] {
        let other = match kind {
            DeviceKind::Output => DeviceKind::Input,
            DeviceKind::Input => DeviceKind::Output,
        };
        let (outputs, inputs) =
            process_changed_device(&mut registry, "x", kind, 5f32.to_bits(), false).unwrap();
        assert_eq!(outputs.len() + inputs.len(), 1);
        let affected = |settings| is_affected(&settings, Some(&outputs), Some(&inputs));
        assert!(affected(dial(kind, "x")));
        assert!(!affected(dial(kind, "y")));
        assert!(!affected(dial(other, "x")));
    }
    assert_eq!(registry.outputs[0].vol_percent_bits, 5f32.to_bits());
    assert!(!registry.inputs[0].mute);
    assert!(process_changed_device(&mut registry, "y", DeviceKind::Output, 0, true).is_none());
}
