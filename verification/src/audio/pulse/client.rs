//! What PulseAudio tells of streams and devices.

use vstd::prelude::*;

use crate::table::Table;

verus! {

/// A stream that an application plays. `vol_percent_bits` is the bit pattern
/// of its volume, a 32-bit floating-point percentage.
#[derive(Debug)]
pub struct PlaybackStream {
    pub index: u32,
    pub name: Option<String>,
    pub client: Option<u32>,
    pub vol_percent_bits: u32,
    pub mute: bool,
    pub properties: Table<String, String>,
}

/// A sink or a source. `vol_percent_bits` is the bit pattern of its volume, a
/// 32-bit floating-point percentage.
#[derive(Debug)]
pub struct Device {
    pub index: u32,
    pub name: String,
    pub description: Option<String>,
    pub vol_percent_bits: u32,
    pub mute: bool,
    pub icon_name: Option<String>,
    pub monitor_of_sink: Option<u32>,
}

/// The properties of a stream that are read.
pub fn stream_property_keys() -> (res: [&'static str; 18])
    ensures
        res@ == seq![
            "application.desktop",
            "application.id",
            "application.name",
            "application.process.binary",
            "application.process.id",
            "application.icon_name",
            "media.icon_name",
            "media.name",
            "flatpak.app-id",
            "application.flatpak.id",
            "snap.name",
            "application.snap.name",
            "window.x11.display",
            "steam.app.id",
            "SteamAppId",
            "SteamGameId",
            "SteamOverlayGameId",
            "STEAM_COMPAT_APP_ID",
        ],
{
    [
        "application.desktop",
        "application.id",
        "application.name",
        "application.process.binary",
        "application.process.id",
        "application.icon_name",
        "media.icon_name",
        "media.name",
        "flatpak.app-id",
        "application.flatpak.id",
        "snap.name",
        "application.snap.name",
        "window.x11.display",
        "steam.app.id",
        "SteamAppId",
        "SteamGameId",
        "SteamOverlayGameId",
        "STEAM_COMPAT_APP_ID",
    ]
}

/// The properties of a client that are read.
pub fn client_property_keys() -> (res: [&'static str; 4])
    ensures
        res@ == seq![
            "application.process.binary",
            "application.process.id",
            "pipewire.sec.pid",
            "application.name",
        ],
{
    [
        "application.process.binary",
        "application.process.id",
        "pipewire.sec.pid",
        "application.name",
    ]
}

/// The properties that have a value, of the keys asked for.
pub open spec fn given_properties(keys: Seq<&'static str>, values: Seq<Option<String>>) -> Map<
    Seq<char>,
    String,
>
    decreases keys.len(),
{
    if keys.len() == 0 {
        Map::empty()
    } else {
        let rest = given_properties(keys.drop_last(), values);
        match values[keys.len() - 1] {
            Some(value) => rest.insert(keys.last()@, value),
            None => rest,
        }
    }
}

/// A property is kept exactly where it is asked for and has a value, and then
/// with that value.
pub proof fn given_values_are_kept(
    keys: Seq<&'static str>,
    values: Seq<Option<String>>,
    key: Seq<char>,
    i: int,
)
    requires
        keys.len() == values.len(),
        forall|a: int, b: int|
            0 <= a < b < keys.len() ==> (#[trigger] keys[a])@ != (#[trigger] keys[b])@,
        0 <= i < keys.len(),
    ensures
        given_properties(keys, values).contains_key(keys[i]@) <==> values[i] is Some,
        values[i] matches Some(value) ==> given_properties(keys, values)[keys[i]@] == value,
        given_properties(keys, values).contains_key(key) ==> exists|k: int|
            0 <= k < keys.len() && (#[trigger] keys[k])@ == key,
{
    lemma_given(keys, values, key, i);
}

proof fn lemma_given(
    keys: Seq<&'static str>,
    values: Seq<Option<String>>,
    key: Seq<char>,
    i: int,
)
    requires
        keys.len() <= values.len(),
        forall|a: int, b: int|
            0 <= a < b < keys.len() ==> (#[trigger] keys[a])@ != (#[trigger] keys[b])@,
    ensures
        0 <= i < keys.len() ==> (given_properties(keys, values).contains_key(keys[i]@)
            <==> values[i] is Some),
        0 <= i < keys.len() ==> (values[i] matches Some(value) ==> given_properties(
            keys,
            values,
        )[keys[i]@] == value),
        given_properties(keys, values).contains_key(key) ==> exists|k: int|
            0 <= k < keys.len() && (#[trigger] keys[k])@ == key,
    decreases keys.len(),
{
    if keys.len() > 0 {
        let before = keys.drop_last();
        let last = keys.len() - 1;
        assert(keys.last() == keys[last]);
        assert(forall|k: int| 0 <= k < before.len() ==> before[k] == keys[k]);
        lemma_given(before, values, key, i);
        lemma_given(before, values, keys[last]@, i);
        if given_properties(before, values).contains_key(key) {
            let k = choose|k: int| 0 <= k < before.len() && (#[trigger] before[k])@ == key;
            assert(keys[k]@ == key);
        }
        if given_properties(before, values).contains_key(keys[last]@) {
            let k = choose|k: int| 0 <= k < before.len() && (#[trigger] before[k])@ == keys[last]@;
            assert(keys[k]@ == keys[last]@);
        }
        if 0 <= i < last {
            assert(keys[i]@ != keys[last]@);
        }
    }
}

/// Keeps the properties that have a value. `values` holds what stands under
/// each of the keys.
pub fn selected_properties(keys: &[&'static str], values: Vec<Option<String>>) -> (res: Table<
    String,
    String,
>)
    requires
        keys@.len() == values@.len(),
    ensures
        res@ == given_properties(keys@, values@),
{
    let mut out: Table<String, String> = Table::new();
    let mut i: usize = 0;
    assert(keys@.take(0) =~= Seq::empty());
    while i < keys.len()
        invariant
            i <= keys@.len(),
            keys@.len() == values@.len(),
            out@ == given_properties(keys@.take(i as int), values@),
        decreases keys@.len() - i,
    {
        assert(keys@.take(i + 1).drop_last() =~= keys@.take(i as int));
        if let Some(value) = &values[i] {
            out.insert(keys[i].to_owned(), value.clone());
        }
        i += 1;
    }
    assert(keys@.take(i as int) =~= keys@);
    out
}

/// What became of an order to the sound server.
#[derive(Clone, Copy, Debug, PartialEq, Eq, Structural)]
pub enum OperationError {
    Rejected,
    NoResult,
}

/// Whether an order succeeded, by what the server answered when it was done.
pub fn wait_success(answer: Option<bool>) -> (res: Result<(), OperationError>)
    ensures
        res == match answer {
            Some(true) => Ok(()),
            Some(false) => Err(OperationError::Rejected),
            None => Err(OperationError::NoResult),
        },
{
    match answer {
        Some(true) => Ok(()),
        Some(false) => Err(OperationError::Rejected),
        None => Err(OperationError::NoResult),
    }
}

} // verus!
