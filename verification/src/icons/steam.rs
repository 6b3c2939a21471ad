//! Which Steam application, if any, plays a sound.

use vstd::prelude::*;
#[allow(unused_imports)]
use vstd::utf8;

use crate::audio::audio_system;
use crate::audio::audio_system::{meta_value, AppInfo};
use crate::icons::desktop_entries;
use crate::icons::desktop_entries::deduplicate;
use crate::path;
use crate::path::{is_path_before, is_under, join_path};
use crate::sort;
use crate::sort::Sortable;
use crate::text;
use crate::text::{
    after_prefix, before_suffix, characters, find_after, from_characters, join, only_digits,
    parse_u32, replace, same, same_ignoring_case, split, split_at_white, split_lines, split_once,
    strip, trim, utf8_text,
};

verus! {

/// The id that a value holds: decimal digits, with white space around them.
pub open spec fn id_in(value: Seq<char>) -> Option<Seq<char>> {
    let id = text::trimmed(value);
    if id.len() > 0 && text::all_digits(id) {
        Some(id)
    } else {
        None
    }
}

/// An id is a row of decimal digits that is not empty, and white space around
/// it does not count.
pub proof fn ids_are_digits(value: Seq<char>, id: Seq<char>, other: Seq<char>)
    ensures
        id_in(value) == Some(id) ==> id.len() > 0 && text::trimmed(value) == id,
        id_in(value) == Some(id) ==> forall|i: int| 0 <= i < id.len() ==> '0' <= #[trigger] id[i] <= '9',
        id_in(value) is None ==> text::trimmed(value).len() == 0 || exists|i: int|
            0 <= i < text::trimmed(value).len() && !('0' <= #[trigger] text::trimmed(value)[i]
                <= '9'),
        text::trimmed(value) == text::trimmed(other) ==> id_in(value) == id_in(other),
{
    let trimmed = text::trimmed(value);
    if id_in(value) == Some(id) {
        assert forall|i: int| 0 <= i < id.len() implies '0' <= #[trigger] id[i] <= '9' by {
            assert(text::is_digit(id[i]));
        }
    }
    if id_in(value) is None && trimmed.len() > 0 {
        let i = choose|i: int| 0 <= i < trimmed.len() && !text::is_digit(#[trigger] trimmed[i]);
        assert(!('0' <= trimmed[i] <= '9'));
    }
}

/// Reads the id of a Steam application.
pub fn parse_steam_id(value: &str) -> (res: Option<String>)
    ensures
        text::text_of(res) == id_in(value@),
{
    let chars = characters(value);
    let id = trim(chars.as_slice());
    if id.len() > 0 && only_digits(id) {
        Some(from_characters(id))
    } else {
        None
    }
}

// ---------------------------------------------------------------------
// Metadata
// ---------------------------------------------------------------------

/// The keys of the metadata that may hold the id, in order.
pub open spec fn metadata_keys() -> Seq<&'static str> {
    seq![
        "steam.app.id",
        "SteamAppId",
        "SteamGameId",
        "SteamOverlayGameId",
        "STEAM_COMPAT_APP_ID",
    ]
}

/// The id under the first of the keys that holds one.
pub open spec fn id_under(app: AppInfo, keys: Seq<&'static str>) -> Option<Seq<char>>
    decreases keys.len(),
{
    if keys.len() == 0 {
        None
    } else {
        match audio_system::meta(app, keys[0]@) {
            Some(value) => match id_in(value) {
                Some(id) => Some(id),
                None => id_under(app, keys.skip(1)),
            },
            None => id_under(app, keys.skip(1)),
        }
    }
}

/// The first of the keys that holds an id decides; without one there is none.
pub proof fn first_key_with_an_id_decides(app: AppInfo, keys: Seq<&'static str>, i: int)
    requires
        0 <= i <= keys.len(),
        forall|j: int|
            0 <= j < i ==> (audio_system::meta(app, (#[trigger] keys[j])@) matches Some(value)
                ==> id_in(value) is None),
    ensures
        i < keys.len() ==> (audio_system::meta(app, keys[i]@) matches Some(value) ==> id_in(
            value,
        ) is Some ==> id_under(app, keys) == id_in(value)),
        i == keys.len() ==> id_under(app, keys) is None,
    decreases i,
{
    if i > 0 {
        let rest = keys.skip(1);
        let first = keys[0];
        assert forall|j: int| 0 <= j < i - 1 implies (audio_system::meta(
            app,
            (#[trigger] rest[j])@,
        ) matches Some(value) ==> id_in(value) is None) by {
            assert(rest[j] == keys[j + 1]);
        }
        if i < keys.len() {
            assert(rest[i - 1] == keys[i]);
        }
        first_key_with_an_id_decides(app, rest, i - 1);
    }
}

/// The process that plays the sound.
pub open spec fn process_of(app: AppInfo) -> Option<u32> {
    match audio_system::meta(app, "application.process.id"@) {
        Some(value) => text::parsed_u32(value),
        None => None,
    }
}

/// The id of the application, where its metadata or its process gives one.
pub open spec fn steam_id_of(app: AppInfo, from_process: Option<Seq<char>>) -> Option<Seq<char>> {
    match id_under(app, metadata_keys()) {
        Some(id) => Some(id),
        None => if process_of(app) is Some {
            from_process
        } else {
            None
        },
    }
}

fn metadata_id(app: &AppInfo) -> (res: Option<String>)
    ensures
        text::text_of(res) == id_under(*app, metadata_keys()),
{
    let keys: [&'static str; 5] = [
        "steam.app.id",
        "SteamAppId",
        "SteamGameId",
        "SteamOverlayGameId",
        "STEAM_COMPAT_APP_ID",
    ];
    let ghost all = metadata_keys();
    assert(keys@ =~= all);
    let mut i: usize = 0;
    assert(all.skip(0) =~= all);
    while i < 5
        invariant
            i <= 5,
            keys@ == all,
            all.len() == 5,
            all == metadata_keys(),
            id_under(*app, all) == id_under(*app, all.skip(i as int)),
        decreases 5 - i,
    {
        assert(all.skip(i as int)[0] == keys@[i as int]);
        assert(all.skip(i as int).skip(1) =~= all.skip(i + 1));
        if let Some(value) = meta_value(app, keys[i]) {
            if let Some(id) = parse_steam_id(value.as_str()) {
                return Some(id);
            }
        }
        i += 1;
    }
    None
}

fn process_id(app: &AppInfo) -> (res: Option<u32>)
    ensures
        res == process_of(*app),
{
    match meta_value(app, "application.process.id") {
        Some(value) => parse_u32(characters(value.as_str()).as_slice()),
        None => None,
    }
}

/// The process to ask for the id, where the metadata does not hold it.
pub fn process_to_ask(app: &AppInfo) -> (res: Option<u32>)
    ensures
        res == if id_under(*app, metadata_keys()) is Some {
            None
        } else {
            process_of(*app)
        },
{
    if metadata_id(app).is_some() {
        None
    } else {
        process_id(app)
    }
}

/// The id of the Steam application that plays the sound. `from_process` is
/// the id that its process gave, where it was asked.
pub fn steam_app_id(app: &AppInfo, from_process: Option<&str>) -> (res: Option<String>)
    ensures
        text::text_of(res) == steam_id_of(*app, text::str_of(from_process)),
{
    if let Some(id) = metadata_id(app) {
        return Some(id);
    }
    match from_process {
        Some(id) => if process_id(app).is_some() {
            Some(id.to_owned())
        } else {
            None
        },
        None => None,
    }
}

/// The name by which an application is known while it runs and after.
pub open spec fn stable_id(app: AppInfo, from_process: Option<Seq<char>>) -> Seq<char> {
    match steam_id_of(app, from_process) {
        Some(id) => "steam-app:"@ + id,
        None => "application\u{1f}"@ + app.app_name@,
    }
}

/// The name by which an application is known while it runs and after.
pub fn stable_application_id(app: &AppInfo, from_process: Option<&str>) -> (res: String)
    ensures
        res@ == stable_id(*app, text::str_of(from_process)),
{
    match steam_app_id(app, from_process) {
        Some(id) => join("steam-app:", id.as_str()),
        None => join("application\u{1f}", app.app_name.as_str()),
    }
}

/// What the metadata say of the id goes before what the process says, and a
/// process has a say only where it is known. Streams of one Steam application
/// share its stable name whatever they are called, and so do other streams of
/// the same name.
pub proof fn metadata_goes_before_the_process(
    a: AppInfo,
    b: AppInfo,
    from_process: Option<Seq<char>>,
    other: Option<Seq<char>>,
)
    ensures
        id_under(a, metadata_keys()) is Some ==> steam_id_of(a, from_process) == id_under(
            a,
            metadata_keys(),
        ),
        id_under(a, metadata_keys()) is None && process_of(a) is Some ==> steam_id_of(
            a,
            from_process,
        ) == from_process,
        id_under(a, metadata_keys()) is None && process_of(a) is None ==> steam_id_of(
            a,
            from_process,
        ) is None,
        steam_id_of(a, from_process) is Some && steam_id_of(a, from_process) == steam_id_of(
            b,
            other,
        ) ==> stable_id(a, from_process) == stable_id(b, other),
        steam_id_of(a, from_process) is None && steam_id_of(b, other) is None && a.app_name@
            == b.app_name@ ==> stable_id(a, from_process) == stable_id(b, other),
{
}

/// Two applications with the same stable name are the same Steam application,
/// or neither is one and they have the same name.
pub proof fn stable_ids_tell_applications_apart(
    a: AppInfo,
    process_a: Option<Seq<char>>,
    b: AppInfo,
    process_b: Option<Seq<char>>,
)
    requires
        stable_id(a, process_a) == stable_id(b, process_b),
    ensures
        steam_id_of(a, process_a) == steam_id_of(b, process_b),
        steam_id_of(a, process_a) is None ==> a.app_name@ == b.app_name@,
{
    reveal_strlit("steam-app:");
    reveal_strlit("application\u{1f}");
    let left = stable_id(a, process_a);
    let right = stable_id(b, process_b);
    assert(left[0] == right[0]);
    match steam_id_of(a, process_a) {
        Some(id) => {
            assert(left.skip("steam-app:"@.len() as int) =~= id);
            match steam_id_of(b, process_b) {
                Some(other) => {
                    assert(right.skip("steam-app:"@.len() as int) =~= other);
                },
                None => {},
            }
        },
        None => {
            assert(left.skip("application\u{1f}"@.len() as int) =~= a.app_name@);
            match steam_id_of(b, process_b) {
                Some(_) => {},
                None => {
                    assert(right.skip("application\u{1f}"@.len() as int) =~= b.app_name@);
                },
            }
        },
    }
}

// ---------------------------------------------------------------------
// Processes
// ---------------------------------------------------------------------

/// The parts of a row of bytes between the zeros.
pub open spec fn between_zeros(bytes: Seq<u8>) -> Seq<Seq<u8>>
    decreases bytes.len(),
{
    if bytes.len() == 0 {
        seq![Seq::empty()]
    } else {
        let parts = between_zeros(bytes.drop_last());
        if bytes.last() == 0 {
            parts.push(Seq::empty())
        } else {
            parts.drop_last().push(parts.last().push(bytes.last()))
        }
    }
}

/// The rows with a zero between them.
pub open spec fn with_zeros(parts: Seq<Seq<u8>>) -> Seq<u8>
    decreases parts.len(),
{
    if parts.len() == 0 {
        Seq::empty()
    } else if parts.len() == 1 {
        parts[0]
    } else {
        with_zeros(parts.drop_last()).push(0) + parts.last()
    }
}

/// The rows between the zeros, with a zero between them, are all the bytes, and
/// no row holds a zero.
pub proof fn rows_end_at_zeros(bytes: Seq<u8>)
    ensures
        between_zeros(bytes).len() > 0,
        with_zeros(between_zeros(bytes)) == bytes,
        forall|i: int|
            0 <= i < between_zeros(bytes).len() ==> !(#[trigger] between_zeros(bytes)[i]).contains(
                0,
            ),
    decreases bytes.len(),
{
    let all = between_zeros(bytes);
    if bytes.len() == 0 {
        assert(bytes =~= Seq::empty());
    } else {
        let before = bytes.drop_last();
        let parts = between_zeros(before);
        rows_end_at_zeros(before);
        assert(before.push(bytes.last()) =~= bytes);
        if bytes.last() == 0 {
            assert(all.drop_last() =~= parts);
            assert(with_zeros(parts).push(0) + all.last() =~= bytes);
        } else {
            let head = parts.drop_last();
            let row = parts.last().push(bytes.last());
            assert(all.drop_last() =~= head);
            assert(all.last() == row);
            if parts.len() > 1 {
                assert(with_zeros(all) =~= with_zeros(parts).push(bytes.last()));
            }
            assert forall|i: int| 0 <= i < all.len() implies !(#[trigger] all[i]).contains(0) by {
                if i < head.len() {
                    assert(all[i] == parts[i]);
                } else {
                    assert(!parts[parts.len() - 1].contains(0));
                    if row.contains(0) {
                        let k = choose|k: int| 0 <= k < row.len() && row[k] == 0;
                        assert(k < parts.last().len() ==> parts.last()[k] == 0);
                    }
                }
            }
        }
    }
}

/// Whether an environment variable of this name may hold the id.
pub open spec fn is_id_variable(name: Seq<char>) -> bool {
    name == "SteamAppId"@ || name == "SteamGameId"@ || name == "SteamOverlayGameId"@ || name
        == "STEAM_COMPAT_APP_ID"@ || name == "SteamCompatAppId"@
}

/// The id that a variable, written `NAME=value`, holds.
pub open spec fn id_in_variable(bytes: Seq<u8>) -> Option<Seq<char>> {
    if utf8::valid_utf8(bytes) {
        match text::divided(utf8::decode_utf8(bytes), '=') {
            Some((name, value)) => if is_id_variable(name) {
                id_in(value)
            } else {
                None
            },
            None => None,
        }
    } else {
        None
    }
}

/// The id that the first of the variables with one holds.
pub open spec fn id_in_variables(list: Seq<Seq<u8>>) -> Option<Seq<char>>
    decreases list.len(),
{
    if list.len() == 0 {
        None
    } else {
        match id_in_variable(list[0]) {
            Some(id) => Some(id),
            None => id_in_variables(list.skip(1)),
        }
    }
}

/// The first variable that holds an id decides; without one there is none.
pub proof fn first_variable_with_an_id_decides(list: Seq<Seq<u8>>, i: int)
    requires
        0 <= i <= list.len(),
        forall|j: int| 0 <= j < i ==> id_in_variable(#[trigger] list[j]) is None,
    ensures
        i < list.len() && id_in_variable(list[i]) is Some ==> id_in_variables(list)
            == id_in_variable(list[i]),
        i == list.len() ==> id_in_variables(list) is None,
    decreases i,
{
    if i > 0 {
        let rest = list.skip(1);
        assert(id_in_variable(list[0]) is None);
        assert forall|j: int| 0 <= j < i - 1 implies id_in_variable(#[trigger] rest[j]) is None by {
            assert(rest[j] == list[j + 1]);
        }
        if i < list.len() {
            assert(rest[i - 1] == list[i]);
        }
        first_variable_with_an_id_decides(rest, i - 1);
    }
}

/// A variable holds an id exactly where it has one of the five names that Steam
/// uses and the value is an id.
pub proof fn only_steam_variables_hold_ids(bytes: Seq<u8>, name: Seq<char>, value: Seq<char>)
    requires
        utf8::valid_utf8(bytes),
        !name.contains('='),
        utf8::decode_utf8(bytes) == name.push('=') + value,
    ensures
        seq![
            "STEAM_COMPAT_APP_ID"@,
            "SteamAppId"@,
            "SteamCompatAppId"@,
            "SteamGameId"@,
            "SteamOverlayGameId"@,
        ].contains(name) ==> id_in_variable(bytes) == id_in(value),
        !seq![
            "STEAM_COMPAT_APP_ID"@,
            "SteamAppId"@,
            "SteamCompatAppId"@,
            "SteamGameId"@,
            "SteamOverlayGameId"@,
        ].contains(name) ==> id_in_variable(bytes) is None,
{
    let known = seq![
        "STEAM_COMPAT_APP_ID"@,
        "SteamAppId"@,
        "SteamCompatAppId"@,
        "SteamGameId"@,
        "SteamOverlayGameId"@,
    ];
    assert(known[0] == "STEAM_COMPAT_APP_ID"@ && known[1] == "SteamAppId"@ && known[2]
        == "SteamCompatAppId"@ && known[3] == "SteamGameId"@ && known[4] == "SteamOverlayGameId"@);
    if known.contains(name) {
        let k = choose|k: int| 0 <= k < known.len() && known[k] == name;
    }
    let s = utf8::decode_utf8(bytes);
    text::lemma_first_index(s, '=');
    assert(s[name.len() as int] == '=');
    assert(s.contains('='));
    let i = text::first_index(s, '=');
    assert(i == name.len()) by {
        if i < name.len() {
            assert(name[i] == '=');
        }
    }
    assert(s.take(i) =~= name);
    assert(s.skip(i + 1) =~= value);
}

/// Whether a variable, written `NAME=value`, has a name under which the id is
/// looked for.
pub open spec fn may_hold_id(bytes: Seq<u8>) -> bool {
    utf8::valid_utf8(bytes) && match text::divided(utf8::decode_utf8(bytes), '=') {
        Some((name, value)) => is_id_variable(name),
        None => false,
    }
}

/// Those of the variables that have such a name, in their order.
pub open spec fn id_variables(list: Seq<Seq<u8>>) -> Seq<Seq<u8>>
    decreases list.len(),
{
    if list.len() == 0 {
        list
    } else if may_hold_id(list[0]) {
        seq![list[0]] + id_variables(list.skip(1))
    } else {
        id_variables(list.skip(1))
    }
}

proof fn lemma_id_variables(list: Seq<Seq<u8>>)
    ensures
        id_in_variables(id_variables(list)) == id_in_variables(list),
    decreases list.len(),
{
    if list.len() > 0 {
        lemma_id_variables(list.skip(1));
        if may_hold_id(list[0]) {
            let rest = id_variables(list.skip(1));
            assert((seq![list[0]] + rest).skip(1) =~= rest);
        }
    }
}

/// Variables of other names have no say: environments with the same variables
/// of those names, in the same order, give the same id.
pub proof fn other_variables_have_no_say(environment: Seq<u8>, other: Seq<u8>)
    requires
        id_variables(between_zeros(environment)) == id_variables(between_zeros(other)),
    ensures
        id_in_variables(between_zeros(environment)) == id_in_variables(between_zeros(other)),
{
    lemma_id_variables(between_zeros(environment));
    lemma_id_variables(between_zeros(other));
}

/// What the rows of bytes in a list hold.
pub open spec fn rows(list: Seq<Vec<u8>>) -> Seq<Seq<u8>> {
    list.map_values(|row: Vec<u8>| row@)
}

fn split_zeros(bytes: &[u8]) -> (res: Vec<Vec<u8>>)
    ensures
        rows(res@) == between_zeros(bytes@),
{
    let mut done: Vec<Vec<u8>> = Vec::new();
    let mut current: Vec<u8> = Vec::new();
    let mut i: usize = 0;
    assert(rows(done@).push(current@) =~= between_zeros(bytes@.take(0)));
    while i < bytes.len()
        invariant
            i <= bytes@.len(),
            rows(done@).push(current@) == between_zeros(bytes@.take(i as int)),
        decreases bytes@.len() - i,
    {
        let ghost parts = rows(done@).push(current@);
        let ghost before = rows(done@);
        assert(bytes@.take(i + 1).drop_last() =~= bytes@.take(i as int));
        assert(parts.drop_last() =~= before);
        if bytes[i] == 0 {
            let ghost row = current@;
            done.push(current);
            current = Vec::new();
            assert(rows(done@) =~= before.push(row));
            assert(rows(done@).push(current@) =~= parts.push(Seq::empty()));
        } else {
            current.push(bytes[i]);
        }
        i += 1;
    }
    assert(bytes@.take(i as int) =~= bytes@);
    let ghost before = rows(done@);
    let ghost row = current@;
    done.push(current);
    assert(rows(done@) =~= before.push(row));
    done
}

fn variable_id(bytes: &[u8]) -> (res: Option<String>)
    ensures
        text::text_of(res) == id_in_variable(bytes@),
{
    let variable = match utf8_text(bytes) {
        Some(variable) => variable,
        None => return None,
    };
    let chars = characters(variable.as_str());
    match split_once(chars.as_slice(), '=') {
        Some((name, value)) => {
            let name = from_characters(name);
            let is_variable = same(name.as_str(), "SteamAppId") || same(
                name.as_str(),
                "SteamGameId",
            ) || same(name.as_str(), "SteamOverlayGameId") || same(
                name.as_str(),
                "STEAM_COMPAT_APP_ID",
            ) || same(name.as_str(), "SteamCompatAppId");
            if is_variable {
                parse_steam_id(from_characters(value).as_str())
            } else {
                None
            }
        },
        None => None,
    }
}

/// Reads the id from the environment of a process.
pub fn steam_id_from_environment(environment: &[u8]) -> (res: Option<String>)
    ensures
        text::text_of(res) == id_in_variables(between_zeros(environment@)),
{
    let list = split_zeros(environment);
    let ghost all = between_zeros(environment@);
    let mut i: usize = 0;
    assert(all.skip(0) =~= all);
    while i < list.len()
        invariant
            i <= list@.len(),
            all == rows(list@),
            all == between_zeros(environment@),
            id_in_variables(all) == id_in_variables(all.skip(i as int)),
        decreases list@.len() - i,
    {
        assert(all.skip(i as int)[0] == list@[i as int]@);
        assert(all.skip(i as int).skip(1) =~= all.skip(i + 1));
        if let Some(id) = variable_id(list[i].as_slice()) {
            return Some(id);
        }
        i += 1;
    }
    None
}

/// The parent process that the lines of a process status name.
pub open spec fn parent_in(list: Seq<Seq<char>>) -> Option<u32>
    decreases list.len(),
{
    if list.len() == 0 {
        None
    } else if text::starts(list[0], "PPid:"@) {
        text::parsed_u32(text::trimmed(list[0].skip("PPid:"@.len() as int)))
    } else {
        parent_in(list.skip(1))
    }
}

/// The first line that begins with `PPid:` names the parent process.
pub proof fn first_parent_line_counts(list: Seq<Seq<char>>, i: int)
    requires
        0 <= i <= list.len(),
        forall|j: int| 0 <= j < i ==> !text::starts(#[trigger] list[j], "PPid:"@),
    ensures
        i < list.len() && text::starts(list[i], "PPid:"@) ==> parent_in(list) == text::parsed_u32(
            text::trimmed(list[i].skip(5)),
        ),
        i == list.len() ==> parent_in(list) is None,
    decreases i,
{
    reveal_strlit("PPid:");
    assert("PPid:"@.len() == 5);
    if i > 0 {
        let rest = list.skip(1);
        assert(!text::starts(list[0], "PPid:"@));
        assert forall|j: int| 0 <= j < i - 1 implies !text::starts(
            #[trigger] rest[j],
            "PPid:"@,
        ) by {
            assert(rest[j] == list[j + 1]);
        }
        if i < list.len() {
            assert(rest[i - 1] == list[i]);
        }
        first_parent_line_counts(rest, i - 1);
    }
}

/// Reads the parent process from the status of a process.
pub fn parent_process(status: &str) -> (res: Option<u32>)
    ensures
        res == parent_in(text::lines(status@)),
{
    let list = split_lines(characters(status).as_slice());
    let ghost all = text::lines(status@);
    let mut i: usize = 0;
    assert(all.skip(0) =~= all);
    while i < list.len()
        invariant
            i <= list@.len(),
            all == text::pieces(list@),
            all == text::lines(status@),
            parent_in(all) == parent_in(all.skip(i as int)),
        decreases list@.len() - i,
    {
        assert(all.skip(i as int)[0] == list@[i as int]@);
        assert(all.skip(i as int).skip(1) =~= all.skip(i + 1));
        if let Some(value) = after_prefix(list[i].as_slice(), "PPid:") {
            return parse_u32(trim(value));
        }
        i += 1;
    }
    None
}

/// How many processes of a chain of parents are asked.
pub const PROCESS_LIMIT: u8 = 8;

/// A walk from a process to its parents.
#[derive(Clone, Copy, Debug, PartialEq, Eq, Structural)]
pub struct ProcessWalk {
    pub pid: u32,
    pub left: u8,
}

/// What a step of the walk gives, and where the walk stands after it.
pub open spec fn walked(
    walk: ProcessWalk,
    environment: Option<Seq<u8>>,
    status: Option<Seq<char>>,
) -> (Option<Seq<char>>, ProcessWalk) {
    let found = match environment {
        Some(bytes) => id_in_variables(between_zeros(bytes)),
        None => None,
    };
    let parent = match status {
        Some(status) => parent_in(text::lines(status)),
        None => None,
    };
    let end = ProcessWalk { pid: walk.pid, left: 0 };
    match found {
        Some(id) => (Some(id), end),
        None => match parent {
            Some(pid) => if pid == 0 {
                (None, end)
            } else {
                (None, ProcessWalk { pid, left: (walk.left - 1) as u8 })
            },
            None => (None, end),
        },
    }
}

/// The walk gives an id exactly where the environment holds one, and then it is
/// over. Without one it goes on to the parent, with one process fewer left to
/// ask, and it is over where no parent but the process zero is named.
pub proof fn walk_goes_on_to_the_parent(
    walk: ProcessWalk,
    environment: Option<Seq<u8>>,
    status: Seq<char>,
    pid: u32,
)
    requires
        walk.left > 0,
    ensures
        environment matches Some(bytes) ==> walked(walk, environment, Some(status)).0
            == id_in_variables(between_zeros(bytes)),
        environment is None ==> walked(walk, environment, Some(status)).0 is None,
        walked(walk, environment, Some(status)).0 is Some ==> walked(
            walk,
            environment,
            Some(status),
        ).1.left == 0,
        walked(walk, environment, Some(status)).0 is None && parent_in(text::lines(status))
            == Some(pid) && pid != 0 ==> {
            &&& walked(walk, environment, Some(status)).1.pid == pid
            &&& walked(walk, environment, Some(status)).1.left + 1 == walk.left
        },
        parent_in(text::lines(status)) is None || parent_in(text::lines(status)) == Some(0u32)
            ==> walked(walk, environment, Some(status)).1.left == 0,
        walked(walk, environment, None).1.left == 0,
{
}

impl ProcessWalk {
    /// Starts at a process.
    pub fn start(pid: u32) -> (res: Self)
        ensures
            res == (ProcessWalk { pid, left: PROCESS_LIMIT }),
    {
        ProcessWalk { pid, left: PROCESS_LIMIT }
    }

    /// The process to ask next, until the walk has ended.
    pub fn next(&self) -> (res: Option<u32>)
        ensures
            res == if self.left > 0 {
                Some(self.pid)
            } else {
                None
            },
    {
        if self.left > 0 {
            Some(self.pid)
        } else {
            None
        }
    }

    /// Takes what the process said: its environment and its status, where
    /// they could be read. Gives the id where the environment holds one;
    /// else the walk goes on to the parent, or ends.
    pub fn step(&mut self, environment: Option<&[u8]>, status: Option<&str>) -> (res: Option<
        String,
    >)
        requires
            old(self).left > 0,
        ensures
            text::text_of(res) == walked(
                *old(self),
                match environment {
                    Some(bytes) => Some(bytes@),
                    None => None,
                },
                text::str_of(status),
            ).0,
            *final(self) == walked(
                *old(self),
                match environment {
                    Some(bytes) => Some(bytes@),
                    None => None,
                },
                text::str_of(status),
            ).1,
            final(self).left < old(self).left,
    {
        let left: u8 = self.left - 1;
        self.left = 0;
        if let Some(bytes) = environment {
            if let Some(id) = steam_id_from_environment(bytes) {
                return Some(id);
            }
        }
        if let Some(status) = status {
            if let Some(pid) = parent_process(status) {
                if pid != 0 {
                    self.pid = pid;
                    self.left = left;
                }
            }
        }
        None
    }
}

// ---------------------------------------------------------------------
// Libraries
// ---------------------------------------------------------------------

/// The library that a line of a library list names.
pub open spec fn library_in(line: Seq<char>) -> Option<Seq<char>> {
    match text::after_first(line, "\"path\""@) {
        Some(value) => if text::split_at_char(value, '"').len() > 1 {
            Some(text::replaced(text::split_at_char(value, '"')[1], "\\\\"@, "\\"@))
        } else {
            None
        },
        None => None,
    }
}

/// A line names the library that stands in quotation marks behind `"path"`,
/// with single backslashes for double ones; a line without `"path"`, or without
/// such a value, names none.
pub proof fn libraries_stand_in_quotation_marks(
    line: Seq<char>,
    between: Seq<char>,
    library: Seq<char>,
    rest: Seq<char>,
)
    requires
        !between.contains('"'),
        !library.contains('"'),
    ensures
        !text::occurs(line, "\"path\""@) ==> library_in(line) is None,
        text::after_first(line, "\"path\""@) == Some(between) ==> library_in(line) is None,
        text::after_first(line, "\"path\""@) == Some(
            between.push('"') + (library.push('"') + rest),
        ) ==> library_in(line) == Some(text::replaced(library, "\\\\"@, "\\"@)),
{
    text::rest_follows_the_first_occurrence(line, "\"path\""@);
    text::lemma_first_index(between, '"');
    text::lemma_first_index(library, '"');
    let value = between.push('"') + (library.push('"') + rest);
    text::lemma_split_of_two(between, '"', library.push('"') + rest);
    text::lemma_split_of_two(library, '"', rest);
    assert(text::split_at_char(between, '"') =~= seq![between]);
    assert(text::split_at_char(library, '"') =~= seq![library]);
    text::split_text_can_be_rejoined(rest, '"');
    assert(text::split_at_char(value, '"')[1] == library);
}

/// The libraries that the lines of a library list name.
pub open spec fn libraries_in(list: Seq<Seq<char>>) -> Seq<Seq<char>>
    decreases list.len(),
{
    if list.len() == 0 {
        Seq::empty()
    } else {
        let rest = libraries_in(list.drop_last());
        match library_in(list.last()) {
            Some(library) => rest.push(library),
            None => rest,
        }
    }
}

/// The libraries that the lists name. A list that could not be read names
/// none.
pub open spec fn listed_libraries(lists: Seq<Option<String>>) -> Seq<Seq<char>>
    decreases lists.len(),
{
    if lists.len() == 0 {
        Seq::empty()
    } else {
        let rest = listed_libraries(lists.drop_last());
        match lists.last() {
            Some(contents) => rest + libraries_in(text::lines(contents@)),
            None => rest,
        }
    }
}

/// The libraries of a list are those that its lines name, and no other.
pub proof fn all_named_libraries_are_listed(list: Seq<Seq<char>>, library: Seq<char>)
    ensures
        libraries_in(list).contains(library) <==> exists|i: int|
            0 <= i < list.len() && library_in(#[trigger] list[i]) == Some(library),
    decreases list.len(),
{
    if list.len() > 0 {
        let before = list.drop_last();
        let rest = libraries_in(before);
        let all = libraries_in(list);
        let last = list.len() - 1;
        all_named_libraries_are_listed(before, library);
        assert(list[last] == list.last());
        assert(forall|k: int| 0 <= k < last ==> before[k] == list[k]);
        if rest.contains(library) {
            let k = choose|k: int| 0 <= k < rest.len() && rest[k] == library;
            assert(all[k] == library);
            let i = choose|i: int|
                0 <= i < before.len() && library_in(#[trigger] before[i]) == Some(library);
            assert(library_in(list[i]) == Some(library));
        }
        if library_in(list.last()) == Some(library) {
            assert(all[rest.len() as int] == library);
        }
        if all.contains(library) {
            let k = choose|k: int| 0 <= k < all.len() && all[k] == library;
            if k < rest.len() {
                assert(rest[k] == library);
            }
        }
        if exists|i: int|
            0 <= i < list.len() && library_in(#[trigger] list[i]) == Some(library) {
            let i = choose|i: int|
                0 <= i < list.len() && library_in(#[trigger] list[i]) == Some(library);
            if i < last {
                assert(library_in(before[i]) == Some(library));
                assert(rest.contains(library));
            }
        }
    }
}

/// Every list that could be read adds the libraries that it names.
pub proof fn every_list_counts(lists: Seq<Option<String>>, library: Seq<char>)
    ensures
        listed_libraries(lists).contains(library) <==> exists|i: int|
            0 <= i < lists.len() && ((#[trigger] lists[i]) matches Some(contents) && libraries_in(
                text::lines(contents@),
            ).contains(library)),
    decreases lists.len(),
{
    if lists.len() > 0 {
        let before = lists.drop_last();
        let rest = listed_libraries(before);
        let all = listed_libraries(lists);
        let last = lists.len() - 1;
        every_list_counts(before, library);
        assert(lists[last] == lists.last());
        assert(forall|k: int| 0 <= k < last ==> before[k] == lists[k]);
        if rest.contains(library) {
            let k = choose|k: int| 0 <= k < rest.len() && rest[k] == library;
            assert(all[k] == library);
            let i = choose|i: int|
                0 <= i < before.len() && ((#[trigger] before[i]) matches Some(contents)
                    && libraries_in(text::lines(contents@)).contains(library));
            assert(lists[i] == before[i]);
        }
        if let Some(contents) = lists.last() {
            let more = libraries_in(text::lines(contents@));
            if more.contains(library) {
                let k = choose|k: int| 0 <= k < more.len() && more[k] == library;
                assert(all[rest.len() + k] == library);
            }
            if all.contains(library) {
                let k = choose|k: int| 0 <= k < all.len() && all[k] == library;
                if k < rest.len() {
                    assert(rest[k] == library);
                } else {
                    assert(more[k - rest.len()] == library);
                    assert(more.contains(library));
                }
            }
        }
        if exists|i: int|
            0 <= i < lists.len() && ((#[trigger] lists[i]) matches Some(contents) && libraries_in(
                text::lines(contents@),
            ).contains(library)) {
            let i = choose|i: int|
                0 <= i < lists.len() && ((#[trigger] lists[i]) matches Some(contents)
                    && libraries_in(text::lines(contents@)).contains(library));
            if i < last {
                assert(before[i] == lists[i]);
                assert(rest.contains(library));
            }
        }
    }
}

/// All places that may hold a Steam library.
pub open spec fn library_places(home: Seq<char>, lists: Seq<Option<String>>) -> Seq<Seq<char>> {
    seq![
        path::joined(home, ".local/share/Steam"@),
        path::joined(home, ".steam/steam"@),
        path::joined(home, ".var/app/com.valvesoftware.Steam/data/Steam"@),
    ] + listed_libraries(lists)
}

/// Whether each path is ordered before those behind it.
pub open spec fn is_ascending(list: Seq<Seq<char>>) -> bool {
    forall|i: int, j: int|
        #![trigger list[i], list[j]]
        0 <= i < j < list.len() ==> path::row_precedes(
            path::components(list[i]),
            path::components(list[j]),
        )
}

proof fn lemma_distinct(list: Seq<Seq<char>>)
    ensures
        forall|i: int, j: int|
            #![trigger desktop_entries::distinct_paths(list)[i], desktop_entries::distinct_paths(
                list,
            )[j]]
            0 <= i < j < desktop_entries::distinct_paths(list).len() ==> path::components(
                desktop_entries::distinct_paths(list)[i],
            ) != path::components(desktop_entries::distinct_paths(list)[j]),
    decreases list.len(),
{
    if list.len() > 0 {
        lemma_distinct(list.drop_last());
        let kept = desktop_entries::distinct_paths(list.drop_last());
        let now = desktop_entries::distinct_paths(list);
        assert forall|i: int, j: int| #![trigger now[i], now[j]]
            0 <= i < j < now.len() implies path::components(now[i]) != path::components(
            now[j],
        ) by {
            assert(now[i] == kept[i]);
            if j < kept.len() {
                assert(now[j] == kept[j]);
            }
        }
    }
}

/// A path, ordered by its components.
#[derive(Debug)]
pub struct OrderedPath {
    pub path: String,
}

impl Sortable for OrderedPath {
    open spec fn goes_before(&self, other: &Self) -> bool {
        path::row_precedes(path::components(self.path@), path::components(other.path@))
    }

    fn is_before(&self, other: &Self) -> (res: bool) {
        is_path_before(self.path.as_str(), other.path.as_str())
    }

    proof fn asymmetric(a: &Self, b: &Self) {
        let x = path::components(a.path@);
        let y = path::components(b.path@);
        if path::row_precedes(y, x) {
            path::lemma_row_transitive(x, y, x);
            path::lemma_row_irreflexive(x);
        }
    }

    proof fn negatively_transitive(a: &Self, b: &Self, c: &Self) {
        let x = path::components(a.path@);
        let y = path::components(b.path@);
        let z = path::components(c.path@);
        path::lemma_row_total(x, y);
        path::lemma_row_total(y, z);
        if path::row_precedes(x, z) {
            if path::row_precedes(z, y) && path::row_precedes(y, x) {
                path::lemma_row_transitive(z, y, x);
            }
            if path::row_precedes(z, x) {
                path::lemma_row_transitive(x, z, x);
            }
            path::lemma_row_irreflexive(x);
        }
    }
}

fn read_library(line: &[char]) -> (res: Option<String>)
    ensures
        text::text_of(res) == library_in(line@),
{
    match find_after(line, "\"path\"") {
        Some(value) => {
            let parts = split(value, '"');
            assert(text::pieces(parts@).len() == parts@.len());
            if parts.len() > 1 {
                assert(text::pieces(parts@)[1] == parts@[1]@);
                let from = characters("\\\\");
                proof {
                    reveal_strlit("\\\\");
                }
                let to = characters("\\");
                let library = replace(parts[1].as_slice(), from.as_slice(), to.as_slice());
                Some(from_characters(library.as_slice()))
            } else {
                None
            }
        },
        None => None,
    }
}

fn add_libraries(paths: &mut Vec<String>, contents: &str)
    ensures
        text::texts(final(paths)@) == text::texts(old(paths)@) + libraries_in(
            text::lines(contents@),
        ),
{
    let list = split_lines(characters(contents).as_slice());
    let ghost all = text::lines(contents@);
    let ghost start = text::texts(paths@);
    let mut i: usize = 0;
    assert(start + libraries_in(all.take(0)) =~= start);
    while i < list.len()
        invariant
            i <= list@.len(),
            all == text::pieces(list@),
            text::texts(paths@) == start + libraries_in(all.take(i as int)),
        decreases list@.len() - i,
    {
        let ghost before = text::texts(paths@);
        assert(all.take(i + 1).drop_last() =~= all.take(i as int));
        assert(all[i as int] == list@[i as int]@);
        if let Some(library) = read_library(list[i].as_slice()) {
            paths.push(library);
            assert(text::texts(paths@) =~= before.push(library@));
        }
        i += 1;
        assert(text::texts(paths@) =~= start + libraries_in(all.take(i as int)));
    }
    assert(all.take(i as int) =~= all);
}

/// Sorts paths that differ in their components.
fn sort_paths(paths: Vec<String>) -> (res: Vec<String>)
    requires
        forall|i: int, j: int|
            #![trigger paths@[i], paths@[j]]
            0 <= i < j < paths@.len() ==> path::components(paths@[i]@) != path::components(
                paths@[j]@,
            ),
    ensures
        is_ascending(text::texts(res@)),
        text::texts(res@).to_set() == text::texts(paths@).to_set(),
{
    let mut items: Vec<OrderedPath> = Vec::new();
    let mut i: usize = 0;
    while i < paths.len()
        invariant
            i <= paths@.len(),
            items@.len() == i,
            forall|k: int| 0 <= k < i ==> (#[trigger] items@[k]).path@ == paths@[k]@,
        decreases paths@.len() - i,
    {
        items.push(OrderedPath { path: paths[i].clone() });
        i += 1;
    }
    let ghost unsorted = items@;
    let sorted = sort::sort(items);
    proof {
        assert(unsorted.no_duplicates()) by {
            assert forall|a: int, b: int|
                0 <= a < unsorted.len() && 0 <= b < unsorted.len() && a
                    != b implies unsorted[a] != unsorted[b] by {
                assert(unsorted[a].path@ == paths@[a]@ && unsorted[b].path@ == paths@[b]@);
            }
        }
        unsorted.lemma_multiset_has_no_duplicates();
        sorted@.lemma_multiset_has_no_duplicates_conv();
    }
    let mut out: Vec<String> = Vec::new();
    let mut k: usize = 0;
    while k < sorted.len()
        invariant
            k <= sorted@.len(),
            out@.len() == k,
            forall|n: int| 0 <= n < k ==> (#[trigger] out@[n])@ == sorted@[n].path@,
        decreases sorted@.len() - k,
    {
        out.push(sorted[k].path.clone());
        k += 1;
    }
    proof {
        let before = text::texts(paths@);
        let after = text::texts(out@);
        assert forall|n: int| 0 <= n < after.len() implies unsorted.contains(
            sorted@[n],
        ) && before.contains(#[trigger] after[n]) by {
            broadcast use vstd::seq_lib::group_to_multiset_ensures;

            assert(out@[n]@ == sorted@[n].path@);
            assert(sorted@.contains(sorted@[n]));
            assert(sorted@.to_multiset().count(sorted@[n]) > 0);
            assert(unsorted.contains(sorted@[n]));
            let q = choose|q: int| 0 <= q < unsorted.len() && unsorted[q] == sorted@[n];
            assert(before[q] == unsorted[q].path@);
        }
        assert forall|n: int| 0 <= n < before.len() implies after.contains(
            #[trigger] before[n],
        ) by {
            broadcast use vstd::seq_lib::group_to_multiset_ensures;

            assert(before[n] == unsorted[n].path@);
            assert(unsorted.contains(unsorted[n]));
            assert(unsorted.to_multiset().count(unsorted[n]) > 0);
            assert(sorted@.contains(unsorted[n]));
            let q = choose|q: int| 0 <= q < sorted@.len() && sorted@[q] == unsorted[n];
            assert(after[q] == out@[q]@);
        }
        assert(after.to_set() =~= before.to_set());
        assert forall|a: int, b: int|
            #![trigger after[a], after[b]]
            0 <= a < b < after.len() implies path::row_precedes(
            path::components(after[a]),
            path::components(after[b]),
        ) by {
            assert(after[a] == sorted@[a].path@ && after[b] == sorted@[b].path@);
            assert(!sorted@[b].goes_before(&sorted@[a]));
            let p = choose|p: int| 0 <= p < unsorted.len() && unsorted[p] == sorted@[a];
            let q = choose|q: int| 0 <= q < unsorted.len() && unsorted[q] == sorted@[b];
            assert(p != q);
            assert(unsorted[p].path@ == paths@[p]@ && unsorted[q].path@ == paths@[q]@);
            path::lemma_row_total(path::components(after[a]), path::components(after[b]));
        }
    }
    out
}

/// The files that list Steam libraries.
pub fn library_lists(home: &str) -> (res: Vec<String>)
    ensures
        text::texts(res@) == seq![
            path::joined(home@, ".local/share/Steam/steamapps/libraryfolders.vdf"@),
            path::joined(home@, ".local/share/Steam/config/libraryfolders.vdf"@),
        ],
{
    let mut lists: Vec<String> = Vec::new();
    lists.push(join_path(home, ".local/share/Steam/steamapps/libraryfolders.vdf"));
    lists.push(join_path(home, ".local/share/Steam/config/libraryfolders.vdf"));
    assert(text::texts(lists@) =~= seq![
        path::joined(home@, ".local/share/Steam/steamapps/libraryfolders.vdf"@),
        path::joined(home@, ".local/share/Steam/config/libraryfolders.vdf"@),
    ]);
    lists
}

/// The Steam libraries of a user, in order and each once; of several spellings
/// of a path the first is taken. `lists` holds the contents of
/// [`library_lists`], where they could be read.
pub fn steam_library_paths(home: Option<&str>, lists: &[Option<String>]) -> (res: Vec<String>)
    ensures
        match home {
            Some(home) => {
                &&& is_ascending(text::texts(res@))
                &&& text::texts(res@).to_set() == desktop_entries::distinct_paths(
                    library_places(home@, lists@),
                ).to_set()
            },
            None => res@.len() == 0,
        },
{
    let home = match home {
        Some(home) => home,
        None => return Vec::new(),
    };
    let ghost first = seq![
        path::joined(home@, ".local/share/Steam"@),
        path::joined(home@, ".steam/steam"@),
        path::joined(home@, ".var/app/com.valvesoftware.Steam/data/Steam"@),
    ];
    let mut paths: Vec<String> = Vec::new();
    paths.push(join_path(home, ".local/share/Steam"));
    paths.push(join_path(home, ".steam/steam"));
    paths.push(join_path(home, ".var/app/com.valvesoftware.Steam/data/Steam"));
    assert(text::texts(paths@) =~= first);
    let mut i: usize = 0;
    assert(first + listed_libraries(lists@.take(0)) =~= first);
    while i < lists.len()
        invariant
            i <= lists@.len(),
            text::texts(paths@) == first + listed_libraries(lists@.take(i as int)),
        decreases lists@.len() - i,
    {
        assert(lists@.take(i + 1).drop_last() =~= lists@.take(i as int));
        if let Some(contents) = &lists[i] {
            add_libraries(&mut paths, contents.as_str());
        }
        i += 1;
        assert(text::texts(paths@) =~= first + listed_libraries(lists@.take(i as int)));
    }
    assert(lists@.take(i as int) =~= lists@);
    let ghost places = library_places(home@, lists@);
    assert(text::texts(paths@) == places);
    let distinct = deduplicate(paths);
    proof {
        lemma_distinct(places);
        let kept = desktop_entries::distinct_paths(places);
        assert forall|a: int, b: int|
            #![trigger distinct@[a], distinct@[b]]
            0 <= a < b < distinct@.len() implies path::components(distinct@[a]@)
            != path::components(distinct@[b]@) by {
            assert(kept[a] == distinct@[a]@ && kept[b] == distinct@[b]@);
        }
    }
    sort_paths(distinct)
}

// ---------------------------------------------------------------------
// Manifests
// ---------------------------------------------------------------------

/// A file in the directory `steamapps` of a library. `contents` is its text,
/// where it could be read.
#[derive(Debug)]
pub struct SteamManifest {
    pub library: String,
    pub name: String,
    pub contents: Option<String>,
}

/// The id in the name of a manifest, `appmanifest_ID.acf`.
pub open spec fn id_in_name(name: Seq<char>) -> Option<Seq<char>> {
    if text::starts(name, "appmanifest_"@) && text::ends(
        name.skip("appmanifest_"@.len() as int),
        ".acf"@,
    ) {
        let rest = name.skip("appmanifest_"@.len() as int);
        Some(rest.take(rest.len() - ".acf"@.len()))
    } else {
        None
    }
}

/// The name of a manifest is `appmanifest_`, the id and `.acf`, and nothing
/// else is one.
pub proof fn manifests_are_named_by_their_id(name: Seq<char>, id: Seq<char>)
    ensures
        id_in_name("appmanifest_"@ + id + ".acf"@) == Some(id),
        id_in_name(name) == Some(id) ==> name == "appmanifest_"@ + id + ".acf"@,
{
    let head = "appmanifest_"@;
    let tail = ".acf"@;
    let n = head.len() as int;
    let whole = head + id + tail;
    assert(whole.take(n) =~= head);
    let rest = whole.skip(n);
    assert(rest =~= id + tail);
    assert(rest.skip(rest.len() - tail.len()) =~= tail);
    assert(rest.take(rest.len() - tail.len()) =~= id);
    if id_in_name(name) == Some(id) {
        let behind = name.skip(n);
        assert(behind =~= behind.take(behind.len() - tail.len()) + behind.skip(
            behind.len() - tail.len(),
        ));
        assert(name =~= name.take(n) + behind);
        assert(name =~= head + id + tail);
    }
}

/// The directory that the lines of a manifest name as the place of the
/// application.
pub open spec fn install_dir(list: Seq<Seq<char>>) -> Option<Seq<char>>
    decreases list.len(),
{
    if list.len() == 0 {
        None
    } else {
        match text::divided_at_white(text::trimmed(list[0])) {
            Some((key, rest)) => if text::lowered(text::stripped(key, seq!['"']))
                == text::lowered("installdir"@) {
                Some(text::stripped(text::trimmed(rest), seq!['"']))
            } else {
                install_dir(list.skip(1))
            },
            None => install_dir(list.skip(1)),
        }
    }
}

/// Whether the manifest is that of an application whose directory holds the
/// program.
pub open spec fn describes(manifest: SteamManifest, executable: Seq<char>) -> bool {
    match (id_in_name(manifest.name@), manifest.contents) {
        (Some(_), Some(contents)) => match install_dir(text::lines(contents@)) {
            Some(directory) => path::lies_under(
                executable,
                path::joined(
                    path::joined(manifest.library@, "steamapps/common"@),
                    directory,
                ),
            ),
            None => false,
        },
        _ => false,
    }
}

/// The id of the application whose manifest is the first to describe the
/// program.
pub open spec fn id_in_manifests(list: Seq<SteamManifest>, executable: Seq<char>) -> Option<
    Seq<char>,
>
    decreases list.len(),
{
    if list.len() == 0 {
        None
    } else if describes(list[0], executable) {
        match id_in_name(list[0].name@) {
            Some(id) => id_in(id),
            None => None,
        }
    } else {
        id_in_manifests(list.skip(1), executable)
    }
}

/// Whether a line of a manifest names the directory of the application, by the
/// key `installdir` in letters of either case.
pub open spec fn names_directory(line: Seq<char>) -> bool {
    text::divided_at_white(text::trimmed(line)) matches Some((key, rest)) && text::lowered(
        text::stripped(key, seq!['"']),
    ) == text::lowered("installdir"@)
}

/// The first line that names the directory decides; without one there is none.
pub proof fn first_directory_counts(list: Seq<Seq<char>>, i: int)
    requires
        0 <= i <= list.len(),
        forall|j: int| 0 <= j < i ==> !names_directory(#[trigger] list[j]),
    ensures
        i < list.len() && names_directory(list[i]) ==> install_dir(list) == Some(
            text::stripped(
                text::trimmed((text::divided_at_white(text::trimmed(list[i]))->0).1),
                seq!['"'],
            ),
        ),
        i == list.len() ==> install_dir(list) is None,
    decreases i,
{
    if i > 0 {
        let rest = list.skip(1);
        assert(!names_directory(list[0]));
        assert forall|j: int| 0 <= j < i - 1 implies !names_directory(#[trigger] rest[j]) by {
            assert(rest[j] == list[j + 1]);
        }
        if i < list.len() {
            assert(rest[i - 1] == list[i]);
        }
        first_directory_counts(rest, i - 1);
    }
}

/// The first manifest whose application holds the program decides, and its id
/// is the one in its name; without such a manifest there is none. A program
/// outside the directory of an application does not belong to it.
pub proof fn first_manifest_that_holds_the_program_decides(
    list: Seq<SteamManifest>,
    executable: Seq<char>,
    i: int,
    id: Seq<char>,
)
    requires
        0 <= i <= list.len(),
        forall|j: int| 0 <= j < i ==> !describes(#[trigger] list[j], executable),
    ensures
        i < list.len() && describes(list[i], executable) && id_in_name(list[i].name@) == Some(id)
            ==> id_in_manifests(list, executable) == id_in(id),
        i == list.len() ==> id_in_manifests(list, executable) is None,
        i < list.len() && describes(list[i], executable) ==> (list[i].contents matches Some(
            contents,
        ) && (install_dir(text::lines(contents@)) matches Some(directory) && path::lies_under(
            executable,
            path::joined(path::joined(list[i].library@, "steamapps/common"@), directory),
        ))),
    decreases i,
{
    if i > 0 {
        let rest = list.skip(1);
        assert(!describes(list[0], executable));
        assert forall|j: int| 0 <= j < i - 1 implies !describes(
            #[trigger] rest[j],
            executable,
        ) by {
            assert(rest[j] == list[j + 1]);
        }
        if i < list.len() {
            assert(rest[i - 1] == list[i]);
        }
        first_manifest_that_holds_the_program_decides(rest, executable, i - 1, id);
    }
}

fn read_install_dir(contents: &str) -> (res: Option<String>)
    ensures
        text::text_of(res) == install_dir(text::lines(contents@)),
{
    let list = split_lines(characters(contents).as_slice());
    let quote: [char; 1] = ['"'];
    assert(quote@ =~= seq!['"']);
    let ghost all = text::lines(contents@);
    let mut i: usize = 0;
    assert(all.skip(0) =~= all);
    while i < list.len()
        invariant
            i <= list@.len(),
            quote@ == seq!['"'],
            all == text::pieces(list@),
            all == text::lines(contents@),
            install_dir(all) == install_dir(all.skip(i as int)),
        decreases list@.len() - i,
    {
        assert(all.skip(i as int)[0] == list@[i as int]@);
        assert(all.skip(i as int).skip(1) =~= all.skip(i + 1));
        if let Some((key, rest)) = split_at_white(trim(list[i].as_slice())) {
            let key = from_characters(strip(key, quote.as_slice()));
            if same_ignoring_case(key.as_str(), "installdir") {
                return Some(from_characters(strip(trim(rest), quote.as_slice())));
            }
        }
        i += 1;
    }
    None
}

fn name_id(name: &str) -> (res: Option<String>)
    ensures
        text::text_of(res) == id_in_name(name@),
{
    let chars = characters(name);
    match after_prefix(chars.as_slice(), "appmanifest_") {
        Some(rest) => match before_suffix(rest, ".acf") {
            Some(id) => Some(from_characters(id)),
            None => None,
        },
        None => None,
    }
}

fn is_described(manifest: &SteamManifest, executable: &str) -> (res: bool)
    ensures
        res == describes(*manifest, executable@),
{
    if name_id(manifest.name.as_str()).is_none() {
        return false;
    }
    match &manifest.contents {
        Some(contents) => match read_install_dir(contents.as_str()) {
            Some(directory) => {
                let common = join_path(manifest.library.as_str(), "steamapps/common");
                let place = join_path(common.as_str(), directory.as_str());
                is_under(executable, place.as_str())
            },
            None => false,
        },
        None => false,
    }
}

/// The id of the Steam application that a program belongs to. `manifests`
/// holds the files of the libraries, in the order of the libraries.
pub fn steam_id_from_executable(executable: &str, manifests: &[SteamManifest]) -> (res: Option<
    String,
>)
    ensures
        text::text_of(res) == id_in_manifests(manifests@, executable@),
{
    let mut i: usize = 0;
    assert(manifests@.skip(0) =~= manifests@);
    while i < manifests.len()
        invariant
            i <= manifests@.len(),
            id_in_manifests(manifests@, executable@) == id_in_manifests(
                manifests@.skip(i as int),
                executable@,
            ),
        decreases manifests@.len() - i,
    {
        assert(manifests@.skip(i as int)[0] == manifests@[i as int]);
        assert(manifests@.skip(i as int).skip(1) =~= manifests@.skip(i + 1));
        if is_described(&manifests[i], executable) {
            return match name_id(manifests[i].name.as_str()) {
                Some(id) => parse_steam_id(id.as_str()),
                None => None,
            };
        }
        i += 1;
    }
    None
}

} // verus!
