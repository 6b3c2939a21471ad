use volume_controller::icons::desktop_entries::{
    application_dirs, deduplicate, executable_basename, load_entries, normalize_desktop_id,
    parse_entry, select_entry, select_steam_entry, AppMetadata, DesktopEntry, DesktopFile,
};
use volume_controller::sort::sort;

fn entry(id: &str, name: &str, command: &str) -> DesktopEntry {
    DesktopEntry {
        id: id.into(),
        name: name.into(),
        command: command.into(),
        ..DesktopEntry::default()
    }
}

fn file(name: &str, contents: Option<&str>) -> DesktopFile {
    DesktopFile {
        name: name.to_owned(),
        path: format!("/apps/{name}"),
        contents: contents.map(str::to_owned),
    }
}

#[test]
fn desktop_suffix_normalization() {
    assert_eq!(normalize_desktop_id("Firefox"), "firefox.desktop");
    assert_eq!(normalize_desktop_id("Firefox.desktop"), "firefox.desktop");
}

#[test]
fn normalized_desktop_ids_stay_as_they_are() {
    for value in ["", " ", "Firefox", "  A B.Desktop\t", "x.desktop.desktop", "\u{a0}Ä"] {
        let id = normalize_desktop_id(value);
        assert_eq!(normalize_desktop_id(&id), id);
    }
}

#[test]
fn selection_is_the_same_in_any_order() {
    let metadata = AppMetadata {
        application_name: "Player".into(),
        ..Default::default()
    };
    let all = [
        entry("b.desktop", "Player", "b"),
        entry("a.desktop", "player", "a"),
        entry("c.desktop", "Other", "c"),
    ];
    for order in [[0, 1, 2], [0, 2, 1], [1, 0, 2], [1, 2, 0], [2, 0, 1], [2, 1, 0]] {
        let entries: Vec<DesktopEntry> = order.iter().map(|i| all[*i].clone()).collect();
        let matched = select_entry(&entries, &metadata, None).unwrap();
        assert_eq!(matched.entry.id, "a.desktop");
        assert_eq!((matched.score, matched.reason), (100, "application-name"));
    }
}

#[test]
fn exact_desktop_flatpak_binary_and_wmclass_matching() {
    let mut flatpak = entry("org.test.App.desktop", "Test", "/app/bin/test %U");
    flatpak.flatpak_id = "org.test.App".into();
    flatpak.startup_wm_class = "test-window".into();
    let entries = [flatpak];
    for (metadata, reason) in [
        (
            AppMetadata {
                desktop: Some("org.test.App".into()),
                ..Default::default()
            },
            "application.desktop",
        ),
        (
            AppMetadata {
                flatpak_id: Some("org.test.App".into()),
                ..Default::default()
            },
            "flatpak-id",
        ),
        (
            AppMetadata {
                process_binary: Some("test".into()),
                ..Default::default()
            },
            "process-binary",
        ),
        (
            AppMetadata {
                startup_wm_class: Some("test-window".into()),
                ..Default::default()
            },
            "startup-wm-class",
        ),
    ] {
        assert_eq!(
            select_entry(&entries, &metadata, None).unwrap().reason,
            reason
        );
    }
}

#[test]
fn other_matches_have_their_own_scores() {
    let mut found = entry("a.desktop", "The App!", "run");
    found.flatpak_id = "org.a".into();
    found.try_exec = "/opt/tool".into();
    found.startup_wm_class = "wm".into();
    let entries = [found];
    let score = |metadata: &AppMetadata, executable| {
        let matched = select_entry(&entries, metadata, executable).unwrap();
        (matched.score, matched.reason)
    };
    let id = AppMetadata { application_id: Some("ORG.A".into()), ..Default::default() };
    assert_eq!(score(&id, None), (900, "application-id"));
    let none = AppMetadata::default();
    assert_eq!(score(&none, Some("/x/Tool")), (750, "process-exe"));
    let class = AppMetadata { application_name: "WM".into(), ..Default::default() };
    assert_eq!(score(&class, None), (650, "startup-wm-class"));
    let name = AppMetadata { application_name: "the app".into(), ..Default::default() };
    assert_eq!(score(&name, None), (100, "application-name"));
}

#[test]
fn exec_field_codes_are_ignored() {
    for code in ["%U", "%u", "%F", "%f"] {
        assert_eq!(
            executable_basename(&format!("/usr/bin/browser {code}")).as_deref(),
            Some("browser")
        );
    }
    assert_eq!(executable_basename("LANG=C %u /opt/App").as_deref(), Some("app"));
    assert_eq!(executable_basename(""), None);
}

#[test]
fn substring_is_not_a_match() {
    let entries = [entry("music.desktop", "Super Spotify Player", "music")];
    assert!(select_entry(
        &entries,
        &AppMetadata {
            application_name: "Spotify".into(),
            ..Default::default()
        },
        None
    )
    .is_none());
}

#[test]
fn exact_steam_desktop_id_is_preferred() {
    let entries = [
        entry("applications-games.desktop", "Games", "games"),
        entry("steam_app_730.desktop", "Example Game", "game"),
    ];
    let matched = select_entry(
        &entries,
        &AppMetadata {
            desktop: Some("steam_app_730".into()),
            application_name: "game".into(),
            ..Default::default()
        },
        None,
    )
    .unwrap();
    assert_eq!(matched.entry.id, "steam_app_730.desktop");
    assert_eq!(matched.reason, "application.desktop");
}

#[test]
fn steam_rungameid_shortcut_is_matched_exactly() {
    let entries = [
        entry("shortcut.desktop", "Example", "steam steam://rungameid/730"),
        entry("other.desktop", "Other", "steam steam://rungameid/7300"),
    ];
    let matched = select_steam_entry(&entries, "730").unwrap();
    assert_eq!(matched.entry.id, "shortcut.desktop");
    assert_eq!(matched.reason, "steam-rungameid");
    let quoted = [entry("q.desktop", "Q", "steam 'steam://rungameid/1'")];
    assert_eq!(select_steam_entry(&quoted, "1").unwrap().score, 1150);
    assert!(select_steam_entry(&quoted, "2").is_none());
}

#[test]
fn hidden_entries_need_to_be_requested() {
    let mut hidden = entry("a.desktop", "App", "app");
    hidden.hidden = true;
    let entries = [hidden];
    let name = AppMetadata { application_name: "App".into(), ..Default::default() };
    assert!(select_entry(&entries, &name, None).is_none());
    let asked = AppMetadata { desktop: Some("a".into()), ..Default::default() };
    assert_eq!(select_entry(&entries, &asked, None).unwrap().score, 1000);
}

#[test]
fn equal_matches_go_to_the_first_id() {
    let entries = [entry("b.desktop", "App", "x"), entry("a.desktop", "App", "y")];
    let name = AppMetadata { application_name: "app".into(), ..Default::default() };
    assert_eq!(select_entry(&entries, &name, None).unwrap().entry.id, "a.desktop");
}

#[test]
fn entries_are_parsed_from_their_section() {
    let contents = "[Other]\nName=No\n[Desktop Entry]\n# comment\nType=Application\n\
                    Name=Player\nIcon=player\nExec=/usr/bin/player %U\nHidden=TRUE\n\
                    X-Flatpak=org.player\nStartupWMClass=Player\n[Desktop Action x]\nName=Action\n";
    let parsed = parse_entry("/apps/player.desktop", contents).unwrap();
    assert_eq!(parsed.id, "player.desktop");
    assert_eq!(parsed.path, "/apps/player.desktop");
    assert_eq!(parsed.name, "Player");
    assert_eq!(parsed.icon, "player");
    assert_eq!(parsed.command, "/usr/bin/player %U");
    assert_eq!(parsed.flatpak_id, "org.player");
    assert!(parsed.hidden && !parsed.no_display);
}

#[test]
fn files_are_loaded_once_by_name() {
    let entry = "[Desktop Entry]\nType=Application\nName=One\n";
    let other = "[Desktop Entry]\nType=Application\nName=Two\n";
    let files = sort(vec![
        file("b.desktop", Some(entry)),
        file("a.txt", Some(entry)),
        file("A.desktop", None),
    ]);
    assert_eq!(files[0].name, "A.desktop");
    let mut all = files;
    all.push(file("a.desktop", Some(entry)));
    all.push(file("B.desktop", Some(other)));
    all.push(file("c.desktop", Some(other)));
    let loaded = load_entries(&all);
    let names: Vec<(&str, &str)> = loaded
        .iter()
        .map(|entry| (entry.id.as_str(), entry.name.as_str()))
        .collect();
    assert_eq!(names, [("b.desktop", "One"), ("c.desktop", "Two")]);
}

#[test]
fn application_directories_are_listed_once() {
    let dirs = application_dirs(Some("/home/u/.local/share"), Some("/usr/share:/opt"), Some("/home/u"));
    assert_eq!(
        dirs,
        [
            "/home/u/.local/share/applications",
            "/usr/share/applications",
            "/opt/applications",
            "/home/u/.local/share/flatpak/exports/share/applications",
            "/usr/local/share/applications",
            "/var/lib/flatpak/exports/share/applications",
        ]
    );
    assert_eq!(application_dirs(None, None, None).len(), 3);
    assert_eq!(
        deduplicate(vec!["/a/b".into(), "/a//b/".into(), "/a".into()]),
        ["/a/b", "/a"]
    );
}
