use volume_controller::audio::audio_system::AppInfo;
use volume_controller::mixer::{
    channel_needs_icon, create_mixer_channels, update_channel_state, update_mixer_channels,
    visible_applications, AppIcon, MixerChannel,
};
use volume_controller::plugin::{
    channel_for_column, channel_of_column, forget_column, global_settings, ignore_application,
    ignores_application, key_press, key_released, receive_ignored_apps, receive_show_sys_mixer, release_key,
    set_channel_volume, toggle_channel_mute, unmute_channel, ColumnMap, KeyPress,
    VolumeControllerSettings,
};
use volume_controller::table::Table;
use volume_controller::utils::{
    add_grayscale_filter_to_svg, app_icon_uris, checked_uri, choose_icon_path,
    get_device_row_count, header_icon, header_title, icon_uris, key_face, mime_type, muted_uri,
    set_show_system_mixer, shorten_title, should_show_system_mixer, update_stream_deck_button,
    update_stream_deck_button_for, ButtonPressControl, KeyFace, KeyUpdate, SystemMixer,
};

fn app(uid: u32, name: &str) -> AppInfo {
    AppInfo {
        uid,
        app_name: name.to_owned(),
        sink_name: Some(format!("{name} stream")),
        mute: false,
        vol_percent_bits: 50f32.to_bits(),
        icon_name: None,
        is_device: false,
        is_multi_sink_app: false,
        metadata: Table::new(),
    }
}

fn icon(name: &str) -> Option<AppIcon> {
    Some(AppIcon {
        normal: format!("{name}-normal"),
        muted: format!("{name}-muted"),
        uses_default: true,
    })
}

fn channels() -> Vec<MixerChannel> {
    create_mixer_channels(
        &[app(1, "a"), app(2, "b")],
        &[],
        &[icon("a"), icon("b")],
    )
}

#[test]
fn ignored_applications_have_no_channel() {
    let apps = [app(1, "a"), app(2, "b"), app(3, "c")];
    let ignored = ["b".to_owned()];
    assert_eq!(visible_applications(&apps, &ignored), [0, 2]);
    let made = create_mixer_channels(&apps, &ignored, &[icon("a"), icon("c")]);
    let uids: Vec<u32> = made.iter().map(|channel| channel.uid).collect();
    assert_eq!(uids, [1, 3]);
    assert_eq!(made[1].icon_uri, "c-normal");
    assert_eq!(made[1].icon_uri_mute, "c-muted");
    assert!(made[1].header_id.is_none());
}

#[test]
fn channels_keep_icons_of_the_same_stream_and_their_keys() {
    let mut previous = channels();
    previous[0].header_id = Some("h0".to_owned());
    previous[1].header_id = Some("h1".to_owned());
    let apps = [app(1, "a"), app(9, "z"), app(10, "y")];
    assert!(!channel_needs_icon(&previous, 0, &apps[0]));
    assert!(channel_needs_icon(&previous, 1, &apps[1]));
    assert!(channel_needs_icon(&previous, 2, &apps[2]));
    let made = update_mixer_channels(&previous, &apps, &[], &[None, icon("z"), icon("y")]);
    assert_eq!(made[0].icon_uri, "a-normal");
    assert_eq!(made[1].icon_uri, "z-normal");
    assert_eq!(made[1].header_id.as_deref(), Some("h1"));
    assert_eq!(made[1].sink_name.as_deref(), Some("z stream"));
    assert!(made[2].header_id.is_none());
}

#[test]
fn channel_states_follow_their_stream() {
    let mut list = channels();
    list.push(list[0].clone());
    update_channel_state(&mut list, 1, 7f32.to_bits(), true);
    assert!(list[0].mute && !list[1].mute && list[2].mute);
    assert_eq!(list[2].vol_percent_bits, 7f32.to_bits());
    assert_eq!(list[1].vol_percent_bits, 50f32.to_bits());
}

#[test]
fn columns_get_the_next_channel() {
    let mut columns: ColumnMap = Table::new();
    assert_eq!(channel_for_column(&mut columns, 4), 0);
    assert_eq!(channel_for_column(&mut columns, 2), 1);
    assert_eq!(channel_for_column(&mut columns, 4), 0);
    let list = channels();
    assert_eq!(channel_of_column(&columns, &list, 2), Some(1));
    assert_eq!(channel_of_column(&columns, &list, 3), None);
    assert_eq!(channel_of_column(&columns, &list[..1], 2), None);
    forget_column(&mut columns, 4);
    assert_eq!(channel_of_column(&columns, &list, 4), None);
    assert_eq!(channel_for_column(&mut columns, 7), 1);
}

#[test]
fn keys_mute_and_set_channels() {
    assert_eq!(key_press(0), KeyPress::ToggleMute);
    assert_eq!(key_press(1), KeyPress::Raise);
    assert_eq!(key_press(2), KeyPress::Lower);
    assert_eq!(key_press(3), KeyPress::Nothing);
    let mut list = channels();
    assert_eq!(toggle_channel_mute(&mut list, 1), ((2, false), true));
    assert!(list[1].mute && !list[0].mute);
    assert_eq!(set_channel_volume(&mut list, 0, 1f32.to_bits()), (1, false));
    assert_eq!(list[0].vol_percent_bits, 1f32.to_bits());
    assert_eq!(unmute_channel(&mut list, 1), ("b".to_owned(), (2, false)));
    assert!(!list[1].mute);
}

#[test]
fn long_presses_of_the_top_key_ignore() {
    assert!(ignores_application(1001, 0));
    assert!(!ignores_application(1000, 0));
    assert!(!ignores_application(5000, 1));
    let mut settings = VolumeControllerSettings::default();
    ignore_application(&mut settings, "a");
    ignore_application(&mut settings, "a");
    ignore_application(&mut settings, "b");
    assert_eq!(settings.ignored_apps_list, ["a", "b"]);
    assert!(!receive_ignored_apps(&mut settings, vec!["a".into(), "b".into()]));
    assert!(receive_ignored_apps(&mut settings, vec!["b".into()]));
    assert_eq!(settings.ignored_apps_list, ["b"]);
    assert!(receive_show_sys_mixer(&mut settings, true));
    assert!(!receive_show_sys_mixer(&mut settings, true));
    let global = global_settings(&settings, Vec::new(), Vec::new());
    assert_eq!(global.ignored_apps_list, ["b"]);
}

#[test]
fn release_times_belong_to_the_pressed_key() {
    let mut press = ButtonPressControl::new();
    assert_eq!(press.get_release_time(9), None);
    press.set_press_time("key".to_owned(), 1_000);
    assert_eq!(release_key(&mut press, "other", 2_000), None);
    assert_eq!(press.action_id.as_deref(), Some("key"));
    assert_eq!(release_key(&mut press, "key", 2_500), Some(1_500));
    assert!(press.action_id.is_none());
    assert_eq!(release_key(&mut press, "key", 3_000), None);
    press.set_press_time("key".to_owned(), 4_000);
    assert_eq!(press.get_release_time(4_000), Some(0));
}

#[test]
fn releases_lead_to_ignored_applications() {
    let mut columns: ColumnMap = Table::new();
    channel_for_column(&mut columns, 4);
    channel_for_column(&mut columns, 5);
    let mut list = channels();
    list[1].mute = true;
    let mut press = ButtonPressControl::new();
    let mut release = |place, held: u128, list: &mut Vec<_>| {
        press.set_press_time("key".to_owned(), 10);
        let res = key_released(&mut press, "key", place, &columns, list, 10 + held);
        assert!(press.action_id.is_none());
        res
    };
    assert_eq!(release(Some((5, 0)), 1_000, &mut list), None);
    assert_eq!(release(Some((5, 1)), 1_001, &mut list), None);
    assert_eq!(release(Some((6, 0)), 1_001, &mut list), None);
    assert_eq!(release(None, 1_001, &mut list), None);
    assert!(list[1].mute);
    assert_eq!(
        release(Some((5, 0)), 1_001, &mut list),
        Some(("b".to_owned(), (2, false)))
    );
    assert!(!list[1].mute);
    press.set_press_time("key".to_owned(), 5_000);
    assert_eq!(
        key_released(&mut press, "other", Some((5, 0)), &columns, &mut list, 0),
        None
    );
    assert_eq!(press.action_id.as_deref(), Some("key"));
}

#[test]
fn system_mixer_flag_is_kept() {
    let mut mixer = SystemMixer::default();
    assert!(!should_show_system_mixer(&mixer));
    set_show_system_mixer(&mut mixer, true);
    assert!(should_show_system_mixer(&mixer));
}

#[test]
fn rows_are_counted_from_the_last_one() {
    assert_eq!(get_device_row_count(&[]), None);
    assert_eq!(get_device_row_count(&[None]), None);
    assert_eq!(get_device_row_count(&[Some(0), None, Some(2), Some(1)]), Some(3));
}

#[test]
fn keys_show_clear_or_keep() {
    let mut columns: ColumnMap = Table::new();
    channel_for_column(&mut columns, 0);
    channel_for_column(&mut columns, 1);
    channel_for_column(&mut columns, 2);
    let list = channels();
    assert_eq!(update_stream_deck_button(&columns, &list, 1, Some(3)), KeyUpdate::Show(1));
    assert_eq!(update_stream_deck_button(&columns, &list, 2, Some(3)), KeyUpdate::Clear);
    assert_eq!(update_stream_deck_button(&columns, &list, 2, Some(2)), KeyUpdate::Keep);
    assert_eq!(update_stream_deck_button(&columns, &list, 1, None), KeyUpdate::Keep);
    assert_eq!(update_stream_deck_button(&columns, &list, 9, Some(3)), KeyUpdate::Keep);
    assert_eq!(update_stream_deck_button_for(&columns, &list, 1, &[2]), Some(1));
    assert_eq!(update_stream_deck_button_for(&columns, &list, 1, &[1]), None);
    assert_eq!(update_stream_deck_button_for(&columns, &list, 2, &[1, 2]), None);
    let faces: Vec<KeyFace> = [0, 1, 2, 3].into_iter().map(key_face).collect();
    assert_eq!(
        faces,
        [KeyFace::Header, KeyFace::UpperBar, KeyFace::LowerBar, KeyFace::Nothing]
    );
}

#[test]
fn headers_show_stream_name_or_nothing() {
    let mut channel = channels().remove(0);
    assert_eq!(header_icon(&channel), "a-normal");
    channel.mute = true;
    assert_eq!(header_icon(&channel), "a-muted");
    assert_eq!(header_title(&channel).as_deref(), Some("a"));
    channel.uses_default_icon = false;
    assert_eq!(header_title(&channel).as_deref(), Some(""));
    channel.is_multi_sink_app = true;
    channel.sink_name = Some("long stream name".to_owned());
    assert_eq!(header_title(&channel).as_deref(), Some("long str..."));
    channel.sink_name = None;
    assert_eq!(header_title(&channel), None);
    assert_eq!(shorten_title("12345678"), "12345678");
    assert_eq!(shorten_title("ääääää"), "ääääää...");
}

#[test]
fn icon_files_fall_back_to_the_default() {
    let some = |path: &str| Some(path.to_owned());
    assert_eq!(choose_icon_path(true, some("n"), some("f")), ("n".to_owned(), false));
    assert_eq!(choose_icon_path(true, None, some("f")), ("f".to_owned(), false));
    assert_eq!(
        choose_icon_path(true, None, None),
        ("img/wave-sound.png".to_owned(), false)
    );
    assert_eq!(
        choose_icon_path(false, None, None),
        ("img/wave-sound.png".to_owned(), true)
    );
    for (named, fallback) in [(None, some("f")), (some("n"), some("f"))] {
        assert_eq!(
            choose_icon_path(false, named, fallback),
            ("img/wave-sound.png".to_owned(), true)
        );
    }
}

#[test]
fn drawings_are_faded_once() {
    assert_eq!(
        add_grayscale_filter_to_svg("<svg width=\"1\"><g/></svg>".to_owned()),
        "<svg opacity=\"0.4\" width=\"1\"><g/></svg>"
    );
    let done = "<svg opacity=\"1\"><g/></svg>";
    assert_eq!(add_grayscale_filter_to_svg(done.to_owned()), done);
    assert_eq!(add_grayscale_filter_to_svg("plain".to_owned()), "plain");
    assert_eq!(
        add_grayscale_filter_to_svg("<?xml?><svg>".to_owned()),
        "<?xml?><svg>"
    );
    for svg in ["<svg width=\"1\"><g/></svg>", "<svg><svg>", "<a><svg>", "plain", "<svg"] {
        let once = add_grayscale_filter_to_svg(svg.to_owned());
        assert_eq!(add_grayscale_filter_to_svg(once.clone()), once);
    }
}

#[test]
fn picture_types_follow_the_extension() {
    assert_eq!(mime_type("/a/b.svg"), "image/svg+xml");
    assert_eq!(mime_type("b.xpm"), "image/x-xpm");
    assert_eq!(mime_type("b.png"), "image/png");
    assert_eq!(mime_type("b"), "image/png");
    assert_eq!(checked_uri("image/png", b"Man").as_deref(), Some("data:image/png;base64,TWFu"));
}

#[test]
fn muted_pictures_are_gray_or_faded() {
    let (normal, muted) = app_icon_uris("x.svg", b"<svg>").unwrap();
    assert_eq!(normal, "data:image/svg+xml;base64,PHN2Zz4=");
    assert_eq!(
        Some(muted),
        checked_uri("image/svg+xml", b"<svg opacity=\"0.4\">")
    );
    let (normal, muted) = app_icon_uris("x.svg", &[0xff]).unwrap();
    assert_eq!(normal, muted);
    let (normal, muted) = app_icon_uris("x.png", b"no picture").unwrap();
    assert_eq!(normal, muted);
    assert_eq!(
        muted_uri("image/x-xpm", b"a", &Some(b"Man".to_vec())).as_deref(),
        Some("data:image/png;base64,TWFu")
    );
    assert_eq!(
        icon_uris("image/x-xpm", b"Man", &Some(b"M".to_vec())),
        Some((
            "data:image/x-xpm;base64,TWFu".to_owned(),
            "data:image/png;base64,TQ==".to_owned()
        ))
    );
}

#[test]
fn colored_pictures_become_gray() {
    let mut picture = image::RgbaImage::new(2, 1);
    picture.put_pixel(0, 0, image::Rgba([255, 0, 0, 255]));
    let mut bytes = std::io::Cursor::new(Vec::new());
    image::DynamicImage::ImageRgba8(picture)
        .write_to(&mut bytes, image::ImageFormat::Png)
        .unwrap();
    let bytes = bytes.into_inner();
    let (normal, muted) = app_icon_uris("x.png", &bytes).unwrap();
    assert!(normal.starts_with("data:image/png;base64,"));
    assert!(muted.starts_with("data:image/png;base64,"));
    assert_eq!(Some(&normal), checked_uri("image/png", &bytes).as_ref());
    assert_ne!(normal, muted);
}
