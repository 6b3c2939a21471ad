//! Icons of applications.

pub mod artwork;
pub mod cache;
pub mod desktop_entries;
pub mod icon_theme;
pub mod steam;

use base64::engine::general_purpose::STANDARD;
use base64::Engine;
use vstd::prelude::*;

use crate::audio::audio_system;
use crate::audio::audio_system::{meta_value, AppInfo};
use crate::path;
use crate::path::stem_of;
use crate::table::Table;
use crate::text;
use crate::text::{
    before_suffix, characters, copy_option, from_characters, join, lower_text, parse_u32, replace,
    same, trim_text,
};

use crate::icons::cache::{cache_key, IconCache, IconStores};
use crate::icons::desktop_entries::{
    select_entry, select_steam_entry, AppMetadata, DesktopEntry, DesktopMatch,
};
use crate::icons::icon_theme::TARGET_SIZE;

verus! {

/// Where an icon came from.
#[derive(Clone, Copy, Debug, PartialEq, Eq, Structural)]
pub enum IconSourceKind {
    DesktopEntry,
    ApplicationMetadata,
    MediaMetadata,
    Fallback,
}

/// The icon of an application, and where it came from.
#[derive(Debug)]
pub struct ResolvedAppIcon {
    pub desktop_file_id: Option<String>,
    pub desktop_file_path: Option<String>,
    pub icon_key: Option<String>,
    pub source_path: Option<String>,
    pub rendered_data_uri: String,
    pub source_kind: IconSourceKind,
}

// ---------------------------------------------------------------------
// Data URIs
// ---------------------------------------------------------------------

/// The digit of base64 for a number below 64.
pub open spec fn base64_digit(n: int) -> char {
    if n < 26 {
        ('A' as int + n) as char
    } else if n < 52 {
        ('a' as int + n - 26) as char
    } else if n < 62 {
        ('0' as int + n - 52) as char
    } else if n == 62 {
        '+'
    } else {
        '/'
    }
}

/// Bytes in base64 with the standard alphabet and padding: four digits for
/// each three bytes.
pub open spec fn base64_text(bytes: Seq<u8>) -> Seq<char>
    decreases bytes.len(),
{
    if bytes.len() == 0 {
        Seq::empty()
    } else {
        let a = bytes[0] as int;
        let b = if bytes.len() > 1 {
            bytes[1] as int
        } else {
            0
        };
        let c = if bytes.len() > 2 {
            bytes[2] as int
        } else {
            0
        };
        seq![
            base64_digit(a / 4),
            base64_digit(a % 4 * 16 + b / 16),
            if bytes.len() > 1 {
                base64_digit(b % 16 * 4 + c / 64)
            } else {
                '='
            },
            if bytes.len() > 2 {
                base64_digit(c % 64)
            } else {
                '='
            },
        ] + base64_text(
            bytes.skip(
                if bytes.len() > 2 {
                    3
                } else {
                    bytes.len() as int
                },
            ),
        )
    }
}

/// Whether the base64 text of so many bytes fits into memory.
pub open spec fn fits_as_base64(len: nat) -> bool {
    (len + 2) / 3 * 4 <= isize::MAX
}

/// Encodes bytes with `STANDARD.encode` of the crate `base64`, which writes
/// base64 with the standard alphabet and padding.
#[verifier::external_body]
pub(crate) fn encode_base64(bytes: &[u8]) -> (res: String)
    requires
        fits_as_base64(bytes@.len()),
    ensures
        res@ == base64_text(bytes@),
{
    STANDARD.encode(bytes)
}

/// What a data URI of a PNG picture reads.
pub open spec fn png_uri(bytes: Seq<u8>) -> Seq<char> {
    "data:image/png;base64,"@ + base64_text(bytes)
}

/// The data URI of a PNG picture.
pub fn png_data_uri(bytes: &[u8]) -> (res: String)
    requires
        fits_as_base64(bytes@.len()),
    ensures
        res@ == png_uri(bytes@),
{
    join("data:image/png;base64,", encode_base64(bytes).as_str())
}

/// The data URI of the picture that stands for applications without an icon.
pub fn fallback_data_uri(picture: &[u8]) -> (res: String)
    requires
        fits_as_base64(picture@.len()),
    ensures
        res@ == png_uri(picture@),
{
    png_data_uri(picture)
}

// ---------------------------------------------------------------------
// Names of icons
// ---------------------------------------------------------------------

/// The name of an icon in lower case, with hyphens, without a directory, an
/// extension and the ending `-symbolic`.
pub open spec fn plain_icon_name(value: Seq<char>) -> Seq<char> {
    let stem = match path::file_stem(value) {
        Some(stem) => stem,
        None => value,
    };
    let name = text::replaced(text::lowered(stem), seq!['_'], seq!['-']);
    if text::ends(name, "-symbolic"@) {
        name.take(name.len() - "-symbolic"@.len())
    } else {
        name
    }
}

/// A plain icon name is the file's stem, character by character, with small
/// letters for capitals and hyphens for underscores; only the ending
/// `-symbolic` is taken away, once.
pub proof fn plain_icon_names_follow_the_stem(value: Seq<char>, i: int)
    ensures
        ({
            let stem = match path::file_stem(value) {
                Some(stem) => stem,
                None => value,
            };
            let name = plain_icon_name(value);
            &&& name.len() == stem.len() || name.len() + 9 == stem.len()
            &&& 0 <= i < name.len() ==> name[i] == if stem[i] == '_' {
                '-'
            } else {
                text::lowered_char(stem[i])
            }
            &&& name.len() + 9 == stem.len() <==> stem.len() >= 9 && (text::ends(
                text::replaced(text::lowered(stem), seq!['_'], seq!['-']),
                "-symbolic"@,
            ))
        }),
{
    let stem = match path::file_stem(value) {
        Some(stem) => stem,
        None => value,
    };
    reveal_strlit("-symbolic");
    text::replacing_changes_the_occurrences(text::lowered(stem), seq!['_'], seq!['-']);
    let name = text::replaced(text::lowered(stem), seq!['_'], seq!['-']);
    if 0 <= i < stem.len() {
        assert(text::lowered(stem)[i] == text::lowered_char(stem[i]));
        assert(name[i] == if text::lowered(stem)[i] == '_' {
            '-'
        } else {
            text::lowered(stem)[i]
        });
    }
}

/// Whether an icon stands for games in general.
pub open spec fn is_generic(value: Seq<char>) -> bool {
    let name = plain_icon_name(value);
    name == "applications-games"@ || name == "input-gaming"@ || name == "game"@ || name
        == "games"@ || name == "gaming"@ || name == "controller"@ || name == "gamepad"@ || name
        == "preferences-desktop-gaming"@
}

/// Icons for games in general go by eight plain names, and by no other.
pub proof fn generic_icons_have_known_names(value: Seq<char>)
    ensures
        is_generic(value) <==> seq![
            "applications-games"@,
            "controller"@,
            "game"@,
            "gamepad"@,
            "games"@,
            "gaming"@,
            "input-gaming"@,
            "preferences-desktop-gaming"@,
        ].contains(plain_icon_name(value)),
{
    let known = seq![
        "applications-games"@,
        "controller"@,
        "game"@,
        "gamepad"@,
        "games"@,
        "gaming"@,
        "input-gaming"@,
        "preferences-desktop-gaming"@,
    ];
    let name = plain_icon_name(value);
    assert(known[0] == "applications-games"@ && known[1] == "controller"@ && known[2] == "game"@
        && known[3] == "gamepad"@ && known[4] == "games"@ && known[5] == "gaming"@ && known[6]
        == "input-gaming"@ && known[7] == "preferences-desktop-gaming"@);
    if known.contains(name) {
        let k = choose|k: int| 0 <= k < known.len() && known[k] == name;
    }
}

/// The name of an icon in lower case, with hyphens, without a directory, an
/// extension and the ending `-symbolic`.
pub fn normalize_icon_name(value: &str) -> (res: String)
    ensures
        res@ == plain_icon_name(value@),
{
    let chars = characters(value);
    let stem = match stem_of(chars.as_slice()) {
        Some(stem) => from_characters(stem.as_slice()),
        None => value.to_owned(),
    };
    let low = characters(lower_text(stem.as_str()).as_str());
    let from: [char; 1] = ['_'];
    let to: [char; 1] = ['-'];
    assert(from@ =~= seq!['_']);
    assert(to@ =~= seq!['-']);
    let name = replace(low.as_slice(), from.as_slice(), to.as_slice());
    match before_suffix(name.as_slice(), "-symbolic") {
        Some(rest) => from_characters(rest),
        None => from_characters(name.as_slice()),
    }
}

/// Whether an icon stands for games in general.
pub fn is_generic_game_icon(value: &str) -> (res: bool)
    ensures
        res == is_generic(value@),
{
    let name = normalize_icon_name(value);
    same(name.as_str(), "applications-games") || same(name.as_str(), "input-gaming") || same(
        name.as_str(),
        "game",
    ) || same(name.as_str(), "games") || same(name.as_str(), "gaming") || same(
        name.as_str(),
        "controller",
    ) || same(name.as_str(), "gamepad") || same(name.as_str(), "preferences-desktop-gaming")
}

// ---------------------------------------------------------------------
// The desktop entry of an application
// ---------------------------------------------------------------------

/// The first of two values that is there.
pub open spec fn either(first: Option<Seq<char>>, second: Option<Seq<char>>) -> Option<Seq<char>> {
    match first {
        Some(value) => Some(value),
        None => second,
    }
}

/// What the entry of an application is looked for by. The id of a Steam
/// application takes the place of the desktop file that the sound server
/// names.
pub open spec fn describes_app(
    metadata: AppMetadata,
    app: AppInfo,
    steam_id: Option<Seq<char>>,
) -> bool {
    &&& text::text_of(metadata.desktop) == match steam_id {
        Some(id) => Some("steam_app_"@ + id + ".desktop"@),
        None => audio_system::meta(app, "application.desktop"@),
    }
    &&& text::text_of(metadata.application_id) == audio_system::meta(app, "application.id"@)
    &&& metadata.application_name@ == app.app_name@
    &&& text::text_of(metadata.process_binary) == audio_system::meta(
        app,
        "application.process.binary"@,
    )
    &&& metadata.process_id == steam::process_of(app)
    &&& text::text_of(metadata.startup_wm_class) == either(
        audio_system::meta(app, "window.x11.class"@),
        either(
            audio_system::meta(app, "window.x11.instance"@),
            audio_system::meta(app, "application.wmclass"@),
        ),
    )
    &&& text::text_of(metadata.flatpak_id) == either(
        audio_system::meta(app, "flatpak.app-id"@),
        audio_system::meta(app, "application.flatpak.id"@),
    )
}

/// Of the places that may hold the window class or the Flatpak id, the first
/// with a value counts; a Steam application is looked for by its own desktop
/// file alone.
pub proof fn metadata_is_taken_from_the_first_place(
    metadata: AppMetadata,
    app: AppInfo,
    steam_id: Option<Seq<char>>,
    value: Seq<char>,
)
    requires
        describes_app(metadata, app, steam_id),
    ensures
        steam_id matches Some(id) ==> text::text_of(metadata.desktop) == Some(
            "steam_app_"@ + id + ".desktop"@,
        ),
        steam_id is None ==> text::text_of(metadata.desktop) == audio_system::meta(
            app,
            "application.desktop"@,
        ),
        metadata.application_name@ == app.app_name@,
        metadata.process_id == steam::process_of(app),
        audio_system::meta(app, "application.id"@) == Some(value) ==> text::text_of(
            metadata.application_id,
        ) == Some(value),
        audio_system::meta(app, "application.process.binary"@) == Some(value) ==> text::text_of(
            metadata.process_binary,
        ) == Some(value),
        audio_system::meta(app, "window.x11.class"@) == Some(value) ==> text::text_of(
            metadata.startup_wm_class,
        ) == Some(value),
        audio_system::meta(app, "window.x11.class"@) is None && audio_system::meta(
            app,
            "window.x11.instance"@,
        ) == Some(value) ==> text::text_of(metadata.startup_wm_class) == Some(value),
        audio_system::meta(app, "window.x11.class"@) is None && audio_system::meta(
            app,
            "window.x11.instance"@,
        ) is None ==> text::text_of(metadata.startup_wm_class) == audio_system::meta(
            app,
            "application.wmclass"@,
        ),
        audio_system::meta(app, "flatpak.app-id"@) == Some(value) ==> text::text_of(
            metadata.flatpak_id,
        ) == Some(value),
        audio_system::meta(app, "flatpak.app-id"@) is None ==> text::text_of(metadata.flatpak_id)
            == audio_system::meta(app, "application.flatpak.id"@),
{
}

fn first_given(first: Option<String>, second: Option<String>) -> (res: Option<String>)
    ensures
        text::text_of(res) == either(text::text_of(first), text::text_of(second)),
{
    match first {
        Some(value) => Some(value),
        None => second,
    }
}

/// What the entry of an application is looked for by.
pub fn metadata(app: &AppInfo, steam_id: Option<&str>) -> (res: AppMetadata)
    ensures
        describes_app(res, *app, text::str_of(steam_id)),
{
    let desktop = match steam_id {
        Some(id) => Some(join(join("steam_app_", id).as_str(), ".desktop")),
        None => meta_value(app, "application.desktop"),
    };
    let process_id: Option<u32> = match meta_value(app, "application.process.id") {
        Some(value) => parse_u32(characters(value.as_str()).as_slice()),
        None => None,
    };
    let other_class = first_given(
        meta_value(app, "window.x11.instance"),
        meta_value(app, "application.wmclass"),
    );
    AppMetadata {
        desktop,
        application_id: meta_value(app, "application.id"),
        application_name: app.app_name.clone(),
        process_binary: meta_value(app, "application.process.binary"),
        process_id,
        startup_wm_class: first_given(meta_value(app, "window.x11.class"), other_class),
        flatpak_id: first_given(
            meta_value(app, "flatpak.app-id"),
            meta_value(app, "application.flatpak.id"),
        ),
    }
}

/// Whether some entry matches the Steam application.
pub open spec fn has_steam_entry(entries: Seq<DesktopEntry>, app_id: Seq<char>) -> bool {
    exists|i: int|
        0 <= i < entries.len() && desktop_entries::steam_match_of(
            #[trigger] entries[i],
            app_id,
        ) is Some
}

/// Whether this is the entry of the application: the one of the Steam
/// application, where there is one, else the one that its metadata match
/// best.
pub open spec fn is_entry_of_app(
    entries: Seq<DesktopEntry>,
    app: AppInfo,
    steam_id: Option<Seq<char>>,
    executable: Option<Seq<char>>,
    selected: Option<DesktopMatch>,
) -> bool {
    if steam_id is Some && has_steam_entry(entries, steam_id->0) {
        desktop_entries::is_steam_selection(entries, steam_id->0, selected)
    } else {
        exists|metadata: AppMetadata|
            {
                &&& #[trigger] describes_app(metadata, app, steam_id)
                &&& desktop_entries::is_selection(entries, metadata, executable, selected)
            }
    }
}

/// An entry that is that of the Steam application goes before every other; an
/// application without one gets what its metadata select.
pub proof fn steam_entry_goes_first(
    entries: Seq<DesktopEntry>,
    app: AppInfo,
    steam_id: Seq<char>,
    executable: Option<Seq<char>>,
    selected: Option<DesktopMatch>,
    i: int,
)
    requires
        is_entry_of_app(entries, app, Some(steam_id), executable, selected),
        0 <= i < entries.len(),
        desktop_entries::desktop_id(entries[i].id@) == desktop_entries::desktop_id(
            "steam_app_"@ + steam_id,
        ) || desktop_entries::starts_game(entries[i].command@, steam_id),
    ensures
        selected matches Some(found) && (desktop_entries::desktop_id(found.entry.id@)
            == desktop_entries::desktop_id("steam_app_"@ + steam_id)
            || desktop_entries::starts_game(found.entry.command@, steam_id)),
{
    assert(desktop_entries::steam_match_of(entries[i], steam_id) is Some);
    assert(has_steam_entry(entries, steam_id));
}

/// Where no entry is that of the Steam application, or it is none, what the
/// metadata of the application select counts.
pub proof fn metadata_select_the_entry_else(
    entries: Seq<DesktopEntry>,
    app: AppInfo,
    steam_id: Option<Seq<char>>,
    executable: Option<Seq<char>>,
    selected: Option<DesktopMatch>,
)
    requires
        is_entry_of_app(entries, app, steam_id, executable, selected),
        steam_id matches Some(id) ==> forall|i: int|
            0 <= i < entries.len() ==> desktop_entries::desktop_id((#[trigger] entries[i]).id@)
                != desktop_entries::desktop_id("steam_app_"@ + id) && !desktop_entries::starts_game(
                entries[i].command@,
                id,
            ),
    ensures
        exists|metadata: AppMetadata|
            {
                &&& #[trigger] describes_app(metadata, app, steam_id)
                &&& desktop_entries::is_selection(entries, metadata, executable, selected)
            },
{
    if let Some(id) = steam_id {
        if has_steam_entry(entries, id) {
            let i = choose|i: int|
                0 <= i < entries.len() && desktop_entries::steam_match_of(
                    #[trigger] entries[i],
                    id,
                ) is Some;
            assert(desktop_entries::desktop_id(entries[i].id@) != desktop_entries::desktop_id(
                "steam_app_"@ + id,
            ));
        }
    }
}

/// Finds the desktop entry of an application. `executable` is the program
/// that its process runs, where it could be read.
pub fn find_entry(
    entries: &[DesktopEntry],
    app: &AppInfo,
    steam_id: Option<&str>,
    executable: Option<&str>,
) -> (res: Option<DesktopMatch>)
    ensures
        is_entry_of_app(entries@, *app, text::str_of(steam_id), text::str_of(executable), res),
{
    if let Some(id) = steam_id {
        if let Some(found) = select_steam_entry(entries, id) {
            return Some(found);
        }
    }
    let known = metadata(app, steam_id);
    let res = select_entry(entries, &known, executable);
    assert(describes_app(known, *app, text::str_of(steam_id)));
    res
}

// ---------------------------------------------------------------------
// The icon of an application
// ---------------------------------------------------------------------

/// Something to try as the icon of an application: an icon of the theme, or
/// the pictures that Steam keeps of the application.
#[derive(Debug)]
pub struct IconAttempt {
    pub in_steam_cache: bool,
    pub name: String,
    pub icon_key: String,
    pub source_kind: IconSourceKind,
}

/// An attempt, with the texts that its fields read.
pub ghost struct Attempt {
    pub in_steam_cache: bool,
    pub name: Seq<char>,
    pub icon_key: Seq<char>,
    pub source_kind: IconSourceKind,
}

/// What an attempt stands for.
pub open spec fn attempt_of(attempt: IconAttempt) -> Attempt {
    Attempt {
        in_steam_cache: attempt.in_steam_cache,
        name: attempt.name@,
        icon_key: attempt.icon_key@,
        source_kind: attempt.source_kind,
    }
}

/// What the attempts of a list stand for.
pub open spec fn attempts_in(list: Seq<IconAttempt>) -> Seq<Attempt> {
    list.map_values(|attempt: IconAttempt| attempt_of(attempt))
}

/// The attempt at an icon of the theme.
pub open spec fn theme_attempt(icon: Seq<char>, source_kind: IconSourceKind) -> Attempt {
    Attempt { in_steam_cache: false, name: icon, icon_key: icon, source_kind }
}

/// The attempt at a named icon, where there is a name, it is not blank, and
/// it does not stand for games in general.
pub open spec fn specific(icon: Option<Seq<char>>, source_kind: IconSourceKind) -> Seq<Attempt> {
    match icon {
        Some(name) => if text::trimmed(name).len() == 0 || is_generic(name) {
            Seq::empty()
        } else {
            seq![theme_attempt(name, source_kind)]
        },
        None => Seq::empty(),
    }
}

/// The attempt at a named icon that stands for games in general.
pub open spec fn generic(icon: Option<Seq<char>>) -> Seq<Attempt> {
    match icon {
        Some(name) => if is_generic(name) {
            seq![theme_attempt(name, IconSourceKind::Fallback)]
        } else {
            Seq::empty()
        },
        None => Seq::empty(),
    }
}

/// The attempts that come before the icons for games in general: the icon of
/// the desktop entry, Steam's pictures, and the icons that the sound server
/// names.
pub open spec fn own_attempts(
    app: AppInfo,
    entry_icon: Option<Seq<char>>,
    steam_id: Option<Seq<char>>,
) -> Seq<Attempt> {
    let from_entry = match entry_icon {
        Some(icon) => if text::trimmed(icon).len() == 0 {
            Seq::empty()
        } else {
            seq![theme_attempt(icon, IconSourceKind::DesktopEntry)]
        },
        None => Seq::empty(),
    };
    let from_steam = match steam_id {
        Some(id) => seq![
            Attempt {
                in_steam_cache: true,
                name: id,
                icon_key: "steam-app:"@ + id,
                source_kind: IconSourceKind::DesktopEntry,
            },
        ],
        None => Seq::empty(),
    };
    from_entry + from_steam + specific(
        audio_system::meta(app, "application.icon_name"@),
        IconSourceKind::ApplicationMetadata,
    ) + specific(
        audio_system::meta(app, "media.icon_name"@),
        IconSourceKind::MediaMetadata,
    ) + specific(text::text_of(app.icon_name), IconSourceKind::ApplicationMetadata)
}

/// The attempts at icons for games in general.
pub open spec fn last_attempts(app: AppInfo) -> Seq<Attempt> {
    generic(audio_system::meta(app, "application.icon_name"@)) + generic(
        audio_system::meta(app, "media.icon_name"@),
    ) + generic(text::text_of(app.icon_name))
}

fn push_theme(list: &mut Vec<IconAttempt>, icon: &str, source_kind: IconSourceKind)
    ensures
        attempts_in(final(list)@) == attempts_in(old(list)@) + seq![
            theme_attempt(icon@, source_kind),
        ],
{
    let ghost before = attempts_in(list@);
    list.push(
        IconAttempt {
            in_steam_cache: false,
            name: icon.to_owned(),
            icon_key: icon.to_owned(),
            source_kind,
        },
    );
    assert(attempts_in(list@) =~= before + seq![theme_attempt(icon@, source_kind)]);
}

fn push_specific(list: &mut Vec<IconAttempt>, icon: &Option<String>, source_kind: IconSourceKind)
    ensures
        attempts_in(final(list)@) == attempts_in(old(list)@) + specific(
            text::text_of(*icon),
            source_kind,
        ),
{
    let ghost before = attempts_in(list@);
    assert(before + Seq::empty() =~= before);
    if let Some(name) = icon {
        let shown = characters(trim_text(name.as_str()).as_str());
        if shown.len() > 0 && !is_generic_game_icon(name.as_str()) {
            push_theme(list, name.as_str(), source_kind);
        }
    }
}

fn push_generic(list: &mut Vec<IconAttempt>, icon: &Option<String>)
    ensures
        attempts_in(final(list)@) == attempts_in(old(list)@) + generic(text::text_of(*icon)),
{
    let ghost before = attempts_in(list@);
    assert(before + Seq::empty() =~= before);
    if let Some(name) = icon {
        if is_generic_game_icon(name.as_str()) {
            push_theme(list, name.as_str(), IconSourceKind::Fallback);
        }
    }
}

/// What to try as the icon of an application, in order. `entry_icon` is the
/// icon of its desktop entry.
pub fn icon_attempts(app: &AppInfo, entry_icon: Option<&str>, steam_id: Option<&str>) -> (res: Vec<
    IconAttempt,
>)
    ensures
        attempts_in(res@) == own_attempts(
            *app,
            text::str_of(entry_icon),
            text::str_of(steam_id),
        ) + last_attempts(*app),
{
    let mut list: Vec<IconAttempt> = Vec::new();
    assert(attempts_in(list@) =~= Seq::<Attempt>::empty());
    if let Some(icon) = entry_icon {
        let shown = characters(trim_text(icon).as_str());
        if shown.len() > 0 {
            push_theme(&mut list, icon, IconSourceKind::DesktopEntry);
        }
    }
    let ghost first = attempts_in(list@);
    if let Some(id) = steam_id {
        list.push(
            IconAttempt {
                in_steam_cache: true,
                name: id.to_owned(),
                icon_key: join("steam-app:", id),
                source_kind: IconSourceKind::DesktopEntry,
            },
        );
        assert(attempts_in(list@) =~= first + seq![
            Attempt {
                in_steam_cache: true,
                name: id@,
                icon_key: "steam-app:"@ + id@,
                source_kind: IconSourceKind::DesktopEntry,
            },
        ]);
    }
    let of_application = meta_value(app, "application.icon_name");
    let of_media = meta_value(app, "media.icon_name");
    push_specific(&mut list, &of_application, IconSourceKind::ApplicationMetadata);
    push_specific(&mut list, &of_media, IconSourceKind::MediaMetadata);
    push_specific(&mut list, &app.icon_name, IconSourceKind::ApplicationMetadata);
    assert(attempts_in(list@) =~= own_attempts(
        *app,
        text::str_of(entry_icon),
        text::str_of(steam_id),
    ));
    let ghost own = attempts_in(list@);
    push_generic(&mut list, &of_application);
    push_generic(&mut list, &of_media);
    push_generic(&mut list, &app.icon_name);
    assert(attempts_in(list@) =~= own + last_attempts(*app));
    list
}

/// An icon that stands for games in general is tried only after everything
/// else, and everything else is recorded under another kind.
pub proof fn generic_icons_come_last(
    app: AppInfo,
    entry_icon: Option<Seq<char>>,
    steam_id: Option<Seq<char>>,
    i: int,
)
    ensures
        0 <= i < own_attempts(app, entry_icon, steam_id).len() ==> own_attempts(
            app,
            entry_icon,
            steam_id,
        )[i].source_kind != IconSourceKind::Fallback,
        0 <= i < last_attempts(app).len() ==> last_attempts(app)[i].source_kind
            == IconSourceKind::Fallback && is_generic(last_attempts(app)[i].name),
{
}

/// Whether there is something to try: a name that is not blank and does not
/// stand for games in general.
pub open spec fn names_own_icon(icon: Option<Seq<char>>) -> bool {
    icon matches Some(name) && text::trimmed(name).len() > 0 && !is_generic(name)
}

/// The icon of the desktop entry is tried first, then Steam's pictures, then
/// the icon that the application names, then that of what it plays, then the
/// one of its stream; each exactly where it is there, and nothing else.
pub proof fn attempts_follow_their_order(
    app: AppInfo,
    entry_icon: Option<Seq<char>>,
    steam_id: Option<Seq<char>>,
)
    ensures
        ({
            let own = own_attempts(app, entry_icon, steam_id);
            let named = audio_system::meta(app, "application.icon_name"@);
            let media = audio_system::meta(app, "media.icon_name"@);
            let stream = text::text_of(app.icon_name);
            let a: int = if entry_icon is Some && text::trimmed(entry_icon->0).len() > 0 {
                1
            } else {
                0
            };
            let b: int = if steam_id is Some {
                a + 1
            } else {
                a
            };
            let c: int = if names_own_icon(named) {
                b + 1
            } else {
                b
            };
            let d: int = if names_own_icon(media) {
                c + 1
            } else {
                c
            };
            let e: int = if names_own_icon(stream) {
                d + 1
            } else {
                d
            };
            &&& own.len() == e
            &&& a == 1 ==> own[0].name == entry_icon->0 && !own[0].in_steam_cache
                && own[0].source_kind == IconSourceKind::DesktopEntry
            &&& b > a ==> own[a].in_steam_cache && own[a].name == steam_id->0 && own[a].icon_key
                == "steam-app:"@ + steam_id->0
            &&& c > b ==> own[b].name == named->0 && !own[b].in_steam_cache && own[b].source_kind
                == IconSourceKind::ApplicationMetadata
            &&& d > c ==> own[c].name == media->0 && !own[c].in_steam_cache && own[c].source_kind
                == IconSourceKind::MediaMetadata
            &&& e > d ==> own[d].name == stream->0 && !own[d].in_steam_cache && own[d].source_kind
                == IconSourceKind::ApplicationMetadata
        }),
{
}

/// Every icon that stands for games in general is still tried in the end.
pub proof fn generic_icons_are_tried(app: AppInfo, name: Seq<char>)
    requires
        is_generic(name),
    ensures
        audio_system::meta(app, "application.icon_name"@) == Some(name) || audio_system::meta(
            app,
            "media.icon_name"@,
        ) == Some(name) || text::text_of(app.icon_name) == Some(name) ==> exists|i: int|
            0 <= i < last_attempts(app).len() && (#[trigger] last_attempts(app)[i]).name == name,
{
    let first = generic(audio_system::meta(app, "application.icon_name"@));
    let second = generic(audio_system::meta(app, "media.icon_name"@));
    let third = generic(text::text_of(app.icon_name));
    let all = last_attempts(app);
    if audio_system::meta(app, "application.icon_name"@) == Some(name) {
        assert(all[0] == first[0]);
    } else if audio_system::meta(app, "media.icon_name"@) == Some(name) {
        assert(all[first.len() as int] == second[0]);
    } else if text::text_of(app.icon_name) == Some(name) {
        assert(all[(first + second).len() as int] == third[0]);
    }
}

/// The file and the rendered picture that an attempt gave.
#[derive(Debug)]
pub struct RenderedIcon {
    pub path: String,
    pub data_uri: String,
}

/// The number of the first outcome that gave a picture, or how many outcomes
/// there are.
pub open spec fn first_rendered(outcomes: Seq<Option<RenderedIcon>>) -> int
    decreases outcomes.len(),
{
    if outcomes.len() == 0 {
        0
    } else if outcomes[0] is Some {
        0
    } else {
        1 + first_rendered(outcomes.skip(1))
    }
}

proof fn lemma_first_rendered(outcomes: Seq<Option<RenderedIcon>>)
    ensures
        0 <= first_rendered(outcomes) <= outcomes.len(),
        first_rendered(outcomes) < outcomes.len() ==> outcomes[first_rendered(outcomes)] is Some,
        forall|i: int| 0 <= i < first_rendered(outcomes) ==> (#[trigger] outcomes[i]) is None,
    decreases outcomes.len(),
{
    if outcomes.len() > 0 && outcomes[0] is None {
        let rest = outcomes.skip(1);
        lemma_first_rendered(rest);
        assert forall|i: int| 0 <= i < first_rendered(outcomes) implies (
        #[trigger] outcomes[i]) is None by {
            if i > 0 {
                assert(rest[i - 1] == outcomes[i]);
            }
        }
    }
}

/// Whether this is the icon of an application, with where it came from.
pub open spec fn is_icon_of(
    icon: ResolvedAppIcon,
    entry: Option<DesktopEntry>,
    attempts: Seq<IconAttempt>,
    outcomes: Seq<Option<RenderedIcon>>,
    fallback: Seq<char>,
) -> bool {
    &&& text::text_of(icon.desktop_file_id) == match entry {
        Some(entry) => Some(entry.id@),
        None => None,
    }
    &&& text::text_of(icon.desktop_file_path) == match entry {
        Some(entry) => Some(entry.path@),
        None => None,
    }
    &&& ({
        let i = first_rendered(outcomes);
        if 0 <= i < outcomes.len() {
            &&& text::text_of(icon.icon_key) == Some(attempts[i].icon_key@)
            &&& text::text_of(icon.source_path) == Some(outcomes[i]->0.path@)
            &&& icon.rendered_data_uri@ == outcomes[i]->0.data_uri@
            &&& icon.source_kind == attempts[i].source_kind
        } else {
            &&& icon.icon_key is None
            &&& icon.source_path is None
            &&& icon.rendered_data_uri@ == fallback
            &&& icon.source_kind == IconSourceKind::Fallback
        }
    })
}

/// The first attempt that gave a picture gives the icon, its key and its kind,
/// and no later one does; without any picture the fallback is shown, and that
/// only then.
pub proof fn first_picture_is_taken(
    icon: ResolvedAppIcon,
    entry: Option<DesktopEntry>,
    attempts: Seq<IconAttempt>,
    outcomes: Seq<Option<RenderedIcon>>,
    fallback: Seq<char>,
    i: int,
)
    requires
        is_icon_of(icon, entry, attempts, outcomes, fallback),
        0 <= i < outcomes.len(),
    ensures
        outcomes[i] is Some && (forall|j: int| 0 <= j < i ==> (#[trigger] outcomes[j]) is None)
            ==> {
            &&& icon.rendered_data_uri@ == outcomes[i]->0.data_uri@
            &&& text::text_of(icon.source_path) == Some(outcomes[i]->0.path@)
            &&& text::text_of(icon.icon_key) == Some(attempts[i].icon_key@)
            &&& icon.source_kind == attempts[i].source_kind
        },
        (forall|j: int| 0 <= j < outcomes.len() ==> (#[trigger] outcomes[j]) is None)
            ==> icon.rendered_data_uri@ == fallback && icon.icon_key is None
            && icon.source_path is None && icon.source_kind == IconSourceKind::Fallback,
        outcomes[i] is Some ==> icon.icon_key is Some,
        entry matches Some(entry) ==> text::text_of(icon.desktop_file_id) == Some(entry.id@)
            && text::text_of(icon.desktop_file_path) == Some(entry.path@),
{
    lemma_first_rendered(outcomes);
    let first = first_rendered(outcomes);
    if first < outcomes.len() {
        assert(outcomes[first] is Some);
    }
}

/// The icon of an application: the first attempt that gave a picture, or the
/// fallback. `outcomes` holds what the attempts gave, in order, as far as
/// they were made.
pub fn resolve_app_icon(
    entry: Option<&DesktopEntry>,
    attempts: &[IconAttempt],
    outcomes: &[Option<RenderedIcon>],
    fallback: &str,
) -> (res: ResolvedAppIcon)
    requires
        outcomes@.len() <= attempts@.len(),
    ensures
        is_icon_of(
            res,
            match entry {
                Some(entry) => Some(*entry),
                None => None,
            },
            attempts@,
            outcomes@,
            fallback@,
        ),
{
    let desktop_file_id = match entry {
        Some(entry) => Some(entry.id.clone()),
        None => None,
    };
    let desktop_file_path = match entry {
        Some(entry) => Some(entry.path.clone()),
        None => None,
    };
    let mut i: usize = 0;
    assert(outcomes@.skip(0) =~= outcomes@);
    while i < outcomes.len()
        invariant
            i <= outcomes@.len(),
            outcomes@.len() <= attempts@.len(),
            text::text_of(desktop_file_id) == match entry {
                Some(entry) => Some(entry.id@),
                None => None,
            },
            text::text_of(desktop_file_path) == match entry {
                Some(entry) => Some(entry.path@),
                None => None,
            },
            first_rendered(outcomes@) == i + first_rendered(outcomes@.skip(i as int)),
        decreases outcomes@.len() - i,
    {
        assert(outcomes@.skip(i as int)[0] == outcomes@[i as int]);
        assert(outcomes@.skip(i as int).skip(1) =~= outcomes@.skip(i + 1));
        if let Some(icon) = &outcomes[i] {
            return ResolvedAppIcon {
                desktop_file_id,
                desktop_file_path,
                icon_key: Some(attempts[i].icon_key.clone()),
                source_path: Some(icon.path.clone()),
                rendered_data_uri: icon.data_uri.clone(),
                source_kind: attempts[i].source_kind,
            };
        }
        i += 1;
    }
    ResolvedAppIcon {
        desktop_file_id,
        desktop_file_path,
        icon_key: None,
        source_path: None,
        rendered_data_uri: fallback.to_owned(),
        source_kind: IconSourceKind::Fallback,
    }
}

// ---------------------------------------------------------------------
// What has been found and rendered before
// ---------------------------------------------------------------------

/// The files that have been found for icons, and the icons that have none.
pub struct SourceCache {
    sources: Table<String, Option<String>>,
}

/// The key of an icon of a theme.
pub open spec fn source_key(theme: Seq<char>, icon: Seq<char>) -> Seq<char> {
    theme + ":"@ + icon
}

/// Icons of one theme have keys of their own, and so has one icon in different
/// themes.
pub proof fn source_keys_differ(
    theme: Seq<char>,
    icon: Seq<char>,
    other_theme: Seq<char>,
    other_icon: Seq<char>,
)
    ensures
        source_key(theme, icon) == source_key(theme, other_icon) ==> icon == other_icon,
        source_key(theme, icon) == source_key(other_theme, icon) ==> theme == other_theme,
{
    let key = source_key(theme, icon);
    let a = source_key(theme, other_icon);
    let b = source_key(other_theme, icon);
    reveal_strlit(":");
    assert(key.skip(theme.len() as int + 1) =~= icon);
    assert(a.skip(theme.len() as int + 1) =~= other_icon);
    assert(key.take(key.len() - icon.len() - 1) =~= theme);
    assert(b.take(b.len() - icon.len() - 1) =~= other_theme);
}

impl View for SourceCache {
    type V = Map<Seq<char>, Option<String>>;

    closed spec fn view(&self) -> Map<Seq<char>, Option<String>> {
        self.sources@
    }
}

impl Default for SourceCache {
    fn default() -> (res: Self)
        ensures
            res@ == Map::<Seq<char>, Option<String>>::empty(),
    {
        SourceCache { sources: Table::new() }
    }
}

impl SourceCache {
    /// What is known of an icon of a theme: its file, or that it has none.
    pub fn get(&self, theme: &str, icon: &str) -> (res: Option<Option<String>>)
        ensures
            match res {
                Some(source) => self@.contains_key(source_key(theme@, icon@)) && source
                    == self@[source_key(theme@, icon@)],
                None => !self@.contains_key(source_key(theme@, icon@)),
            },
    {
        let key = join(join(theme, ":").as_str(), icon);
        match self.sources.get(&key) {
            Some(source) => Some(copy_option(source)),
            None => None,
        }
    }

    /// Keeps what was found of an icon of a theme.
    pub fn insert(&mut self, theme: &str, icon: &str, source: Option<String>)
        ensures
            final(self)@ == old(self)@.insert(source_key(theme@, icon@), source),
    {
        let key = join(join(theme, ":").as_str(), icon);
        self.sources.insert(key, source);
    }
}

/// The key under which a rendered icon is kept: the file it came from is part
/// of it.
pub fn render_key(identity: &str, theme: &str, icon: &str, file: &str, modified: u64) -> (res:
    String)
    ensures
        res@ == cache::key_text(
            identity@,
            theme@,
            icon@ + ":"@ + file@,
            TARGET_SIZE,
            modified,
        ),
{
    let source = join(join(icon, ":").as_str(), file);
    cache_key(identity, theme, source.as_str(), TARGET_SIZE, modified)
}

/// Keeps a rendered icon in a cache, and gives its data URI.
pub fn keep_rendered(cache: &IconCache, stores: &mut IconStores, key: String, bytes: &[u8]) -> (res:
    String)
    requires
        fits_as_base64(bytes@.len()),
    ensures
        res@ == png_uri(bytes@),
        final(stores)@ == cache::with_icon(old(stores)@, cache.store(), key@, res),
{
    let value = png_data_uri(bytes);
    cache.insert(stores, key, value.clone());
    value
}

} // verus!
