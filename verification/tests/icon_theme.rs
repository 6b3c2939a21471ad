use volume_controller::icons::icon_theme::{
    active_theme, base_icon_name, candidate_rank, config_files, directory_size, icon_roots,
    first_inherits, is_absolute, is_icon_file, next_unread, parse_inherits, parse_kde_theme, resolve_icon,
    source_size, theme_order, IconFile,
};
use volume_controller::table::Table;

fn files(paths: &[&str]) -> Vec<IconFile> {
    paths
        .iter()
        .map(|path| IconFile { path: (*path).to_owned(), dimensions: None })
        .collect()
}

fn parents(values: &[(&str, &[&str])]) -> Table<String, Vec<String>> {
    let mut table = Table::new();
    for (theme, list) in values {
        let list: Vec<String> = list.iter().map(|name| (*name).to_owned()).collect();
        table.insert((*theme).to_owned(), list);
    }
    table
}

#[test]
fn active_theme_parser() {
    assert_eq!(
        parse_kde_theme("[Icons]\nTheme=MyTheme\n").as_deref(),
        Some("MyTheme")
    );
    assert_eq!(parse_kde_theme("Theme=x\n[Other]\nTheme=y\n"), None);
    assert_eq!(parse_kde_theme("[Icons]\nTheme= \nTheme= z \n").as_deref(), Some("z"));
    assert_eq!(active_theme(&[]), "breeze");
    assert_eq!(
        active_theme(&[None, Some("[Icons]\nTheme=a".to_owned()), Some("[Icons]\nTheme=b".to_owned())]),
        "a"
    );
}

#[test]
fn inheritance_and_hicolor_fallback() {
    let inherits = parse_inherits("[Icon Theme]\nInherits=parent\n").unwrap();
    assert_eq!(inherits, ["parent"]);
    let mut table = Table::new();
    table.insert("child".to_owned(), inherits);
    let order = theme_order("child", &table);
    assert_eq!(order, ["child", "parent", "breeze", "hicolor"]);
    let inherited = "/icons/parent/128x128/apps/app.png";
    let themes = vec![Vec::new(), files(&[inherited]), Vec::new(), Vec::new()];
    assert_eq!(
        resolve_icon("app", false, &themes).as_deref(),
        Some(inherited)
    );
    assert_eq!(
        theme_order("missing", &Table::new()),
        ["missing", "breeze", "hicolor"]
    );
    let fallback = "/icons/hicolor/128x128/apps/other.png";
    let themes = vec![Vec::new(), Vec::new(), files(&[fallback])];
    assert_eq!(
        resolve_icon("other", false, &themes).as_deref(),
        Some(fallback)
    );
}

#[test]
fn scalable_and_large_sources_win() {
    let small = "/icons/theme/32x32/apps/app.png";
    let large = "/icons/theme/256x256/apps/app.png";
    assert_eq!(
        resolve_icon("app", false, &[files(&[small, large])]).as_deref(),
        Some(large)
    );
    let svg = "/icons/theme/scalable/apps/app.svg";
    assert_eq!(
        resolve_icon("app", false, &[files(&[svg, small, large])]).as_deref(),
        Some(svg)
    );
    let exact = "/icons/theme/128x128/apps/app.png";
    let larger = "/icons/theme/512x512/apps/app.png";
    assert_eq!(
        resolve_icon("app", false, &[files(&[large, exact, larger])]).as_deref(),
        Some(exact)
    );
    assert_eq!(
        resolve_icon("app", false, &[files(&[larger, large])]).as_deref(),
        Some(large)
    );
}

#[test]
fn absolute_path_and_largest_png() {
    let direct = "/icons/theme/64x64/apps/direct.png";
    assert_eq!(resolve_icon(direct, true, &[]).as_deref(), Some(direct));
    assert_eq!(resolve_icon(direct, false, &[files(&[direct])]), None);
    let small = "/icons/theme/24x24/apps/small.png";
    let biggest = "/icons/theme/96x96/apps/small.png";
    assert_eq!(
        resolve_icon("small", false, &[files(&[small, biggest])]).as_deref(),
        Some(biggest)
    );
}

#[test]
fn inheritance_goes_deep_first_and_ends_on_cycles() {
    let table = parents(&[
        ("a", &["b", "c"]),
        ("b", &["d", "a"]),
        ("breeze", &["hicolor"]),
    ]);
    assert_eq!(
        theme_order("a", &table),
        ["a", "b", "d", "c", "breeze", "hicolor"]
    );
    assert_eq!(parse_inherits("Inherits= x , ,y\n").unwrap(), ["x", "y"]);
    assert_eq!(parse_inherits("[Icon Theme]\n"), None);
    let named = |text: &str| Some(text.to_owned());
    assert_eq!(
        first_inherits(&[None, named("[Icon Theme]\n"), named("Inherits=x"), named("Inherits=y")])
            .unwrap(),
        ["x"]
    );
    assert_eq!(first_inherits(&[None, named("")]), None);
    assert_eq!(first_inherits(&[]), None);
    let mut known: Table<String, bool> = Table::new();
    let order = theme_order("a", &table);
    assert_eq!(next_unread(&order, &known).as_deref(), Some("a"));
    for theme in &order {
        known.insert(theme.clone(), true);
    }
    assert_eq!(next_unread(&order, &known), None);
}

#[test]
fn sizes_come_from_the_directory_or_the_picture() {
    assert_eq!(directory_size("/t/48x48/apps/a.png"), Some(48));
    assert_eq!(directory_size("/t/scalable/apps/a.png"), None);
    assert_eq!(source_size("/t/scalable/apps/a.png", Some((20, 30))), Some(30));
    assert_eq!(source_size("/t/48x48/apps/a.png", Some((20, 30))), Some(48));
    assert_eq!(source_size("/a.png", Some((20, 30))), None);
    let file = IconFile { path: "/t/x/apps/a.png".to_owned(), dimensions: Some((130, 4)) };
    assert_eq!(candidate_rank(&file), (2, u32::MAX - 2));
    assert!(is_icon_file("/t/48x48/apps/a.png", "a"));
    assert!(!is_icon_file("/t/48x48/apps/a.xpm", "a"));
    assert_eq!(base_icon_name("a.svg.png"), "a");
    assert!(is_absolute("/a") && !is_absolute("a"));
}

#[test]
fn icon_directories_are_listed_once() {
    assert_eq!(
        icon_roots(Some("/h"), Some("/h/.local/share"), Some("/usr/share")),
        [
            "/h/.icons",
            "/h/.local/share/icons",
            "/h/.local/share/flatpak/exports/share/icons",
            "/usr/share/icons",
            "/usr/local/share/icons",
            "/var/lib/flatpak/exports/share/icons",
        ]
    );
    assert_eq!(
        config_files(Some("/c"), Some("/h")),
        ["/c/kdeglobals", "/h/.config/kdeglobals"]
    );
}
