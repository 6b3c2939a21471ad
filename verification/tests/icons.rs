use volume_controller::audio::audio_system::AppInfo;
use volume_controller::icons::artwork::{
    artwork_roots, best_steam_cache_icon, classify_steam_candidate, is_picture_file, CacheImage,
    SteamArtworkRole,
};
use volume_controller::icons::cache::{cache_key, IconStores};
use volume_controller::icons::desktop_entries::DesktopEntry;
use volume_controller::icons::steam::{
    library_lists, parent_process, parse_steam_id, process_to_ask, stable_application_id,
    steam_app_id, steam_id_from_environment, steam_id_from_executable, steam_library_paths,
    ProcessWalk, SteamManifest,
};
use volume_controller::icons::{
    fallback_data_uri, find_entry, icon_attempts, is_generic_game_icon, keep_rendered, metadata,
    normalize_icon_name, png_data_uri, render_key, resolve_app_icon, IconSourceKind, RenderedIcon,
    SourceCache,
};
use volume_controller::table::Table;

fn app(name: &str) -> AppInfo {
    AppInfo {
        uid: 1,
        app_name: name.to_owned(),
        sink_name: None,
        mute: false,
        vol_percent_bits: 50f32.to_bits(),
        icon_name: Some("applications-games".to_owned()),
        is_device: false,
        is_multi_sink_app: false,
        metadata: Table::new(),
    }
}

fn with(mut app: AppInfo, key: &str, value: &str) -> AppInfo {
    app.metadata.insert(key.to_owned(), value.to_owned());
    app
}

fn image(path: &str, width: u32, height: u32) -> CacheImage {
    CacheImage { path: path.to_owned(), dimensions: Some((width, height)) }
}

fn role(path: &str, width: u32, height: u32) -> SteamArtworkRole {
    let roots = ["/cache/730".to_owned()];
    classify_steam_candidate(path, Some((width, height)), &roots)
        .unwrap()
        .role
}

#[test]
fn key_changes_with_theme() {
    assert_ne!(
        cache_key("app", "breeze", "icon", 128, 0),
        cache_key("app", "hicolor", "icon", 128, 0)
    );
    assert_eq!(
        cache_key("app", "breeze", "icon", 128, 42),
        "steam-semantic-v3:app:breeze:icon:128:42"
    );
}

#[test]
fn key_changes_with_each_part() {
    let key = cache_key("app", "breeze", "icon", 128, 1);
    assert_ne!(key, cache_key("other", "breeze", "icon", 128, 1));
    assert_ne!(key, cache_key("app", "breeze", "other", 128, 1));
    assert_ne!(key, cache_key("app", "breeze", "icon", 64, 1));
    assert_ne!(key, cache_key("app", "breeze", "icon", 128, 2));
}

#[test]
fn stable_ids_differ_between_applications() {
    let game = with(app("game"), "SteamAppId", "730");
    let other = with(app("game"), "SteamAppId", "731");
    assert_ne!(stable_application_id(&game, None), stable_application_id(&other, None));
    assert_ne!(
        stable_application_id(&app("one"), None),
        stable_application_id(&app("two"), None)
    );
    assert_ne!(stable_application_id(&app("game"), None), stable_application_id(&game, None));
}

#[test]
fn icon_cache_gives_back_the_latest_icon() {
    let mut stores = IconStores::default();
    let cache = stores.open();
    assert_eq!(cache.get(&stores, "k"), None);
    cache.insert(&mut stores, "k".to_owned(), "one".to_owned());
    cache.insert(&mut stores, "k".to_owned(), "two".to_owned());
    assert_eq!(cache.get(&stores, "k").as_deref(), Some("two"));
    assert_eq!(cache.get(&stores, "other"), None);
}

#[test]
fn clones_of_an_icon_cache_share_its_store() {
    let mut stores = IconStores::default();
    let cache = stores.open();
    let unrelated = stores.open();
    let clone = cache.clone();
    cache.insert(&mut stores, "k".to_owned(), "one".to_owned());
    clone.insert(&mut stores, "k".to_owned(), "two".to_owned());
    clone.insert(&mut stores, "l".to_owned(), "three".to_owned());
    assert_eq!(cache.get(&stores, "k").as_deref(), Some("two"));
    assert_eq!(clone.get(&stores, "k").as_deref(), Some("two"));
    assert_eq!(cache.get(&stores, "l").as_deref(), Some("three"));
    assert_eq!(unrelated.get(&stores, "k"), None);
    let empty = IconStores::default();
    assert_eq!(cache.get(&empty, "k"), None);
}

#[test]
fn missing_icon_fallback_is_png() {
    let picture = [0x89, b'P', b'N', b'G'];
    assert!(fallback_data_uri(&picture).starts_with("data:image/png;base64,"));
    assert_eq!(fallback_data_uri(&picture), "data:image/png;base64,iVBORw==");
}

#[test]
fn data_uris_hold_base64() {
    assert_eq!(png_data_uri(b""), "data:image/png;base64,");
    assert_eq!(png_data_uri(b"Man"), "data:image/png;base64,TWFu");
    assert_eq!(png_data_uri(b"Ma"), "data:image/png;base64,TWE=");
    assert_eq!(png_data_uri(b"M"), "data:image/png;base64,TQ==");
    assert_eq!(png_data_uri(&[0xfb, 0xff, 0xfe]), "data:image/png;base64,+//+");
}

#[test]
fn other_variables_of_the_environment_have_no_say() {
    let plain = b"SteamAppId=42\0SteamGameId=7";
    let among = b"PATH=/bin\0NotSteamAppId=9\0SteamAppId=42\0HOME=/\0SteamGameId=7\0\xff=1";
    assert_eq!(steam_id_from_environment(plain).as_deref(), Some("42"));
    assert_eq!(steam_id_from_environment(among).as_deref(), Some("42"));
}

#[test]
fn steam_environment_is_filtered_and_stable() {
    let environment = b"SECRET=nope\0SteamAppId=730\0OTHER=value\0";
    assert_eq!(
        steam_id_from_environment(environment).as_deref(),
        Some("730")
    );
    let game = with(app("game"), "SteamAppId", "730");
    assert_eq!(stable_application_id(&game, None), "steam-app:730");
}

#[test]
fn environments_without_an_id_give_none() {
    assert_eq!(steam_id_from_environment(b""), None);
    assert_eq!(steam_id_from_environment(b"SteamAppId=abc\0\xff\xfe=1\0SteamAppId"), None);
    assert_eq!(
        steam_id_from_environment(b"\xff\0SteamCompatAppId= 12 ").as_deref(),
        Some("12")
    );
}

#[test]
fn steam_ids_come_from_metadata_before_the_process() {
    let plain = app("game");
    assert_eq!(steam_app_id(&plain, Some("5")), None);
    assert_eq!(process_to_ask(&plain), None);
    assert_eq!(stable_application_id(&plain, None), "application\u{1f}game");
    let process = with(app("game"), "application.process.id", "99");
    assert_eq!(process_to_ask(&process), Some(99));
    assert_eq!(steam_app_id(&process, Some("5")).as_deref(), Some("5"));
    assert_eq!(steam_app_id(&process, None), None);
    let both = with(process, "SteamGameId", " 7 ");
    assert_eq!(process_to_ask(&both), None);
    assert_eq!(steam_app_id(&both, Some("5")).as_deref(), Some("7"));
    let first = with(both, "steam.app.id", "6");
    assert_eq!(steam_app_id(&first, None).as_deref(), Some("6"));
    assert_eq!(parse_steam_id(""), None);
    assert_eq!(parse_steam_id("12a"), None);
}

#[test]
fn process_walk_follows_parents_up_to_the_limit() {
    let status = "Name:\tgame\nPPid:\t41\n";
    assert_eq!(parent_process(status), Some(41));
    assert_eq!(parent_process("PPid: x"), None);
    assert_eq!(parent_process("Name: y"), None);
    let mut walk = ProcessWalk::start(42);
    assert_eq!(walk.next(), Some(42));
    assert_eq!(walk.step(None, Some(status)), None);
    assert_eq!(walk.next(), Some(41));
    assert_eq!(
        walk.step(Some(b"SteamAppId=3".as_slice()), None).as_deref(),
        Some("3")
    );
    assert_eq!(walk.next(), None);
    let mut walk = ProcessWalk::start(1);
    let mut steps = 0;
    while walk.next().is_some() {
        assert_eq!(walk.step(None, Some(status)), None);
        steps += 1;
    }
    assert_eq!(steps, 8);
    let mut walk = ProcessWalk::start(1);
    assert_eq!(walk.step(None, Some("PPid:\t0\n")), None);
    assert_eq!(walk.next(), None);
}

#[test]
fn steam_libraries_are_ordered_and_distinct() {
    assert!(steam_library_paths(None, &[]).is_empty());
    let list = "\"0\"\n{\n\t\"path\"\t\t\"/games//Steam\"\n\t\"path\"\t\"/home/u/.steam/steam/\"\n\
                \"path\" \"C:\\\\\\\\x\"\n\"path\"\n}";
    let paths = steam_library_paths(Some("/home/u"), &[Some(list.to_owned()), None]);
    assert_eq!(paths.len(), 5);
    assert_eq!(paths[0], "/games//Steam");
    assert_eq!(paths[1], "/home/u/.local/share/Steam");
    assert_eq!(paths[2], "/home/u/.steam/steam");
    assert_eq!(paths[3], "/home/u/.var/app/com.valvesoftware.Steam/data/Steam");
    assert_eq!(paths[4], "C:\\\\x");
    assert_eq!(
        library_lists("/home/u")[0],
        "/home/u/.local/share/Steam/steamapps/libraryfolders.vdf"
    );
}

#[test]
fn steam_manifest_matches_executable_install_directory() {
    let manifest = |name: &str, contents: Option<&str>| SteamManifest {
        library: "/tmp/library".to_owned(),
        name: name.to_owned(),
        contents: contents.map(str::to_owned),
    };
    let contents = "\"AppState\"\n{\n\"appid\" \"730\"\n\"installdir\" \"Example Game\"\n}\n";
    let manifests = [
        manifest("appmanifest_1.acf", None),
        manifest("readme.txt", Some(contents)),
        manifest("appmanifest_730.acf", Some(contents)),
    ];
    let executable = "/tmp/library/steamapps/common/Example Game/bin/game";
    assert_eq!(
        steam_id_from_executable(executable, &manifests).as_deref(),
        Some("730")
    );
    assert_eq!(
        steam_id_from_executable("/tmp/library/steamapps/common/Example Games/x", &manifests),
        None
    );
}

#[test]
fn high_resolution_steam_cache_icon_wins() {
    let roots = ["/cache/730".to_owned()];
    let images = [
        image("/cache/730/aaaaaaaaaaaaaaaa.png", 32, 32),
        image("/cache/730/bbbbbbbbbbbbbbbb.png", 256, 256),
    ];
    assert_eq!(
        best_steam_cache_icon(&images, &roots).as_deref(),
        Some("/cache/730/bbbbbbbbbbbbbbbb.png")
    );
}

#[test]
fn generic_game_icons_are_normalized() {
    for icon in [
        "applications-games",
        "input_gaming-symbolic.svg",
        "GAMEPAD.PNG",
        "preferences-desktop-gaming",
    ] {
        assert!(is_generic_game_icon(icon), "{icon}");
    }
    assert!(!is_generic_game_icon("steam-game-specific"));
    assert_eq!(normalize_icon_name("/a/Input_Gaming-symbolic.svg"), "input-gaming");
}

#[test]
fn square_steam_icon_beats_wide_banner() {
    let roots = ["/cache/730".to_owned()];
    let square = "/cache/730/8dbc71957312bbd3baea65848b545be9eae2a355.jpg";
    let images = [image("/cache/730/logo.png", 639, 360), image(square, 32, 32)];
    assert_eq!(
        best_steam_cache_icon(&images, &roots).as_deref(),
        Some(square)
    );
}

#[test]
fn steam_cache_roles_use_semantics_and_exact_directory() {
    assert_eq!(
        role("/cache/730/1234567890abcdef1234567890abcdef12345678.jpg", 32, 32),
        SteamArtworkRole::AppIcon
    );
    assert_eq!(role("/cache/730/logo.png", 639, 360), SteamArtworkRole::Logo);
    assert_ne!(
        role("/elsewhere/1234567890abcdef1234567890abcdef12345678.png", 256, 256),
        SteamArtworkRole::AppIcon
    );
}

#[test]
fn steam_cache_roles_cover_all_kinds() {
    assert_eq!(role("/cache/730/library_HEADER.jpg", 10, 10), SteamArtworkRole::Header);
    assert_eq!(role("/cache/730/capsule.jpg", 10, 10), SteamArtworkRole::Header);
    assert_eq!(role("/cache/730/library_hero.jpg", 10, 10), SteamArtworkRole::Hero);
    assert_eq!(role("/cache/730/cover.jpg", 8, 10), SteamArtworkRole::SquareArtwork);
    assert_eq!(role("/cache/730/cover.jpg", 125, 100), SteamArtworkRole::SquareArtwork);
    assert_eq!(role("/cache/730/cover.jpg", 126, 100), SteamArtworkRole::Unknown);
    assert_eq!(role("/cache/730/cover.jpg", 79, 100), SteamArtworkRole::Unknown);
    let roots = ["/cache/730".to_owned()];
    assert!(classify_steam_candidate("/cache/730/x.png", None, &roots).is_none());
    assert!(classify_steam_candidate("/cache/730/x.png", Some((1, 0)), &roots).is_none());
    assert_eq!(SteamArtworkRole::AppIcon.as_str(), "app-icon");
    assert_eq!(SteamArtworkRole::SquareArtwork.rank(), 5);
    assert!(is_picture_file("a.jpeg") && !is_picture_file("a.PNG"));
    assert_eq!(
        artwork_roots("/home/u", "730")[1],
        "/home/u/.steam/steam/appcache/librarycache/730"
    );
}

#[test]
fn newly_available_app_icon_replaces_logo_selection() {
    let roots = ["/cache/730".to_owned()];
    let logo = "/cache/730/logo.png";
    let app_icon = "/cache/730/abcdefabcdefabcdefabcdefabcdefabcdefabcd.jpg";
    assert_eq!(
        best_steam_cache_icon(&[image(logo, 639, 360)], &roots).as_deref(),
        Some(logo)
    );
    assert_eq!(
        best_steam_cache_icon(&[image(logo, 639, 360), image(app_icon, 32, 32)], &roots)
            .as_deref(),
        Some(app_icon)
    );
    assert_eq!(best_steam_cache_icon(&[], &roots), None);
}

#[test]
fn icons_are_tried_from_specific_to_generic() {
    let game = with(
        with(app("game"), "application.icon_name", "my-game"),
        "media.icon_name",
        "input-gaming",
    );
    let attempts = icon_attempts(&game, Some("entry-icon"), Some("730"));
    let keys: Vec<(&str, IconSourceKind, bool)> = attempts
        .iter()
        .map(|attempt| {
            (
                attempt.icon_key.as_str(),
                attempt.source_kind,
                attempt.in_steam_cache,
            )
        })
        .collect();
    assert_eq!(
        keys,
        [
            ("entry-icon", IconSourceKind::DesktopEntry, false),
            ("steam-app:730", IconSourceKind::DesktopEntry, true),
            ("my-game", IconSourceKind::ApplicationMetadata, false),
            ("input-gaming", IconSourceKind::Fallback, false),
            ("applications-games", IconSourceKind::Fallback, false),
        ]
    );
    assert_eq!(attempts[1].name, "730");
    assert_eq!(icon_attempts(&app("x"), Some("  "), None).len(), 1);
}

#[test]
fn first_rendered_attempt_is_the_icon() {
    let attempts = icon_attempts(&app("game"), Some("entry-icon"), None);
    let entry = DesktopEntry {
        id: "game.desktop".to_owned(),
        path: "/usr/share/applications/game.desktop".to_owned(),
        ..Default::default()
    };
    let icon = RenderedIcon { path: "/i.png".to_owned(), data_uri: "uri".to_owned() };
    let found = resolve_app_icon(Some(&entry), &attempts, &[None, Some(icon)], "fallback");
    assert_eq!(found.desktop_file_id.as_deref(), Some("game.desktop"));
    assert_eq!(
        found.desktop_file_path.as_deref(),
        Some("/usr/share/applications/game.desktop")
    );
    assert_eq!(found.icon_key.as_deref(), Some("applications-games"));
    assert_eq!(found.source_path.as_deref(), Some("/i.png"));
    assert_eq!(found.rendered_data_uri, "uri");
    assert_eq!(found.source_kind, IconSourceKind::Fallback);
    let none = resolve_app_icon(None, &attempts, &[None, None], "fallback");
    assert_eq!(none.rendered_data_uri, "fallback");
    assert!(none.icon_key.is_none() && none.source_path.is_none());
}

#[test]
fn entries_are_found_by_steam_id_then_by_metadata() {
    let entries = [
        DesktopEntry {
            id: "game.desktop".to_owned(),
            name: "Game".to_owned(),
            ..Default::default()
        },
        DesktopEntry {
            id: "steam_app_730.desktop".to_owned(),
            ..Default::default()
        },
    ];
    let game = app("game");
    let by_steam = find_entry(&entries, &game, Some("730"), None).unwrap();
    assert_eq!(by_steam.entry.id, "steam_app_730.desktop");
    assert_eq!(by_steam.reason, "steam-desktop-id");
    let by_name = find_entry(&entries, &game, Some("731"), None).unwrap();
    assert_eq!(by_name.entry.id, "game.desktop");
    assert_eq!(by_name.reason, "application-name");
    let known = metadata(
        &with(with(game, "window.x11.instance", "wm"), "application.flatpak.id", "org.x"),
        Some("9"),
    );
    assert_eq!(known.desktop.as_deref(), Some("steam_app_9.desktop"));
    assert_eq!(known.startup_wm_class.as_deref(), Some("wm"));
    assert_eq!(known.flatpak_id.as_deref(), Some("org.x"));
    assert_eq!(known.process_id, None);
}

#[test]
fn found_sources_and_rendered_icons_are_kept() {
    let mut sources = SourceCache::default();
    assert_eq!(sources.get("breeze", "x"), None);
    sources.insert("breeze", "x", None);
    assert_eq!(sources.get("breeze", "x"), Some(None));
    sources.insert("breeze", "x", Some("/x.svg".to_owned()));
    assert_eq!(sources.get("breeze", "x"), Some(Some("/x.svg".to_owned())));
    let key = render_key("app", "breeze", "x", "/x.svg", 7);
    assert_eq!(key, "steam-semantic-v3:app:breeze:x:/x.svg:128:7");
    let mut stores = IconStores::default();
    let icons = stores.open();
    let uri = keep_rendered(&icons, &mut stores, key.clone(), b"Man");
    assert_eq!(uri, "data:image/png;base64,TWFu");
    assert_eq!(icons.get(&stores, &key), Some(uri));
}
