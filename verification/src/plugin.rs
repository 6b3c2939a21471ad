//! The keys of the mixer, and what is shared by all of them.

use vstd::prelude::*;

use crate::app_column::PersistedColumn;
use crate::dynamic::PersistedFocus;
use crate::mixer;
use crate::mixer::MixerChannel;
use crate::table::Table;
use crate::text;
use crate::text::{contains_string, copy_strings, same_strings};
use crate::utils::ButtonPressControl;

verus! {

// ---------------------------------------------------------------------
// Settings
// ---------------------------------------------------------------------

/// The settings that all keys of the mixer share.
#[derive(Debug)]
pub struct VolumeControllerSettings {
    pub show_sys_mixer: bool,
    pub ignored_apps_list: Vec<String>,
}

impl Default for VolumeControllerSettings {
    fn default() -> (res: Self)
        ensures
            !res.show_sys_mixer,
            res.ignored_apps_list@.len() == 0,
    {
        VolumeControllerSettings { show_sys_mixer: false, ignored_apps_list: Vec::new() }
    }
}

impl Clone for VolumeControllerSettings {
    fn clone(&self) -> (res: Self)
        ensures
            res.show_sys_mixer == self.show_sys_mixer,
            text::texts(res.ignored_apps_list@) == text::texts(self.ignored_apps_list@),
    {
        VolumeControllerSettings {
            show_sys_mixer: self.show_sys_mixer,
            ignored_apps_list: copy_strings(self.ignored_apps_list.as_slice()),
        }
    }
}

/// All that is kept while the program does not run.
#[derive(Debug)]
pub struct GlobalPluginSettings {
    pub ignored_apps_list: Vec<String>,
    pub application_columns: Vec<PersistedColumn>,
    pub dynamic_focus: Vec<PersistedFocus>,
}

impl Default for GlobalPluginSettings {
    fn default() -> (res: Self)
        ensures
            res.ignored_apps_list@.len() == 0,
            res.application_columns@.len() == 0,
            res.dynamic_focus@.len() == 0,
    {
        GlobalPluginSettings {
            ignored_apps_list: Vec::new(),
            application_columns: Vec::new(),
            dynamic_focus: Vec::new(),
        }
    }
}

/// All that is to be kept.
pub fn global_settings(
    settings: &VolumeControllerSettings,
    application_columns: Vec<PersistedColumn>,
    dynamic_focus: Vec<PersistedFocus>,
) -> (res: GlobalPluginSettings)
    ensures
        text::texts(res.ignored_apps_list@) == text::texts(settings.ignored_apps_list@),
        res.application_columns == application_columns,
        res.dynamic_focus == dynamic_focus,
{
    GlobalPluginSettings {
        ignored_apps_list: copy_strings(settings.ignored_apps_list.as_slice()),
        application_columns,
        dynamic_focus,
    }
}

/// Takes the list of ignored applications that was kept. Tells whether it is
/// another one, so that all keys have to learn of it.
pub fn receive_ignored_apps(settings: &mut VolumeControllerSettings, list: Vec<String>) -> (res:
    bool)
    ensures
        res == (text::texts(old(settings).ignored_apps_list@) != text::texts(list@)),
        text::texts(final(settings).ignored_apps_list@) == text::texts(list@),
        final(settings).show_sys_mixer == old(settings).show_sys_mixer,
{
    if same_strings(settings.ignored_apps_list.as_slice(), list.as_slice()) {
        false
    } else {
        settings.ignored_apps_list = list;
        true
    }
}

/// Takes whether the device that all play on is shown. Tells whether this is
/// new, so that all other keys have to learn of it.
pub fn receive_show_sys_mixer(settings: &mut VolumeControllerSettings, value: bool) -> (res: bool)
    ensures
        res == (old(settings).show_sys_mixer != value),
        final(settings).show_sys_mixer == value,
        final(settings).ignored_apps_list == old(settings).ignored_apps_list,
{
    let changed = settings.show_sys_mixer != value;
    settings.show_sys_mixer = value;
    changed
}

/// The names of the ignored applications, with one more.
pub open spec fn ignored_with(ignored: Seq<Seq<char>>, app_name: Seq<char>) -> Seq<Seq<char>> {
    if ignored.contains(app_name) {
        ignored
    } else {
        ignored.push(app_name)
    }
}

/// Ignoring an application adds its name to the list and no other; what was
/// listed stays in its order, and nothing is listed twice.
pub proof fn ignoring_adds_one_name(ignored: Seq<Seq<char>>, app_name: Seq<char>, other: Seq<char>)
    ensures
        ignored_with(ignored, app_name).contains(other) <==> ignored.contains(other) || other
            == app_name,
        ignored.is_prefix_of(ignored_with(ignored, app_name)),
        ignored.no_duplicates() ==> ignored_with(ignored, app_name).no_duplicates(),
{
    let after = ignored_with(ignored, app_name);
    if !ignored.contains(app_name) {
        assert(after[ignored.len() as int] == app_name);
        if ignored.contains(other) {
            let i = choose|i: int| 0 <= i < ignored.len() && ignored[i] == other;
            assert(after[i] == other);
        }
        if after.contains(other) {
            let i = choose|i: int| 0 <= i < after.len() && after[i] == other;
            assert(i < ignored.len() ==> ignored[i] == other);
        }
    }
    assert(ignored =~= after.take(ignored.len() as int));
}

/// Adds an application to those that are ignored, where it is not among them.
pub fn ignore_application(settings: &mut VolumeControllerSettings, app_name: &str)
    ensures
        text::texts(final(settings).ignored_apps_list@) == ignored_with(
            text::texts(old(settings).ignored_apps_list@),
            app_name@,
        ),
        final(settings).show_sys_mixer == old(settings).show_sys_mixer,
{
    let ghost before = text::texts(settings.ignored_apps_list@);
    if !contains_string(settings.ignored_apps_list.as_slice(), app_name) {
        let name = app_name.to_owned();
        settings.ignored_apps_list.push(name);
        assert(text::texts(settings.ignored_apps_list@) =~= before.push(name@));
    }
}

/// An application that was ignored is not shown in any channel from then on.
pub proof fn ignored_application_is_gone(
    apps: Seq<crate::audio::audio_system::AppInfo>,
    ignored: Seq<Seq<char>>,
    app_name: Seq<char>,
    k: int,
)
    requires
        apps.len() <= usize::MAX,
        ignored.contains(app_name),
        0 <= k < mixer::visible_places(apps, ignored).len(),
    ensures
        mixer::visible_places(apps, ignored)[k] < apps.len(),
        apps[mixer::visible_places(apps, ignored)[k] as int].app_name@ != app_name,
{
    mixer::ignored_applications_are_not_shown(apps, ignored, k);
}

// ---------------------------------------------------------------------
// Columns
// ---------------------------------------------------------------------

/// The channel of each column.
pub type ColumnMap = Table<u8, u8>;

/// The channel of a column that appears: the one it has, or else the next
/// one, by the number of columns that have one.
pub open spec fn channel_to_take(columns: Map<u8, u8>, column: u8) -> u8 {
    if columns.contains_key(column) {
        columns[column]
    } else {
        columns.dom().len() as u8
    }
}

/// While one column has no channel, the number of those that have one fits
/// into a byte.
pub proof fn lemma_next_channel_fits(columns: Map<u8, u8>, column: u8)
    requires
        columns.dom().finite(),
        !columns.contains_key(column),
    ensures
        columns.dom().len() <= 255,
{
    let number = |c: u8| c as int;
    let numbers = columns.dom().map(number);
    vstd::set_lib::lemma_map_size(columns.dom(), numbers, number);
    vstd::set_lib::lemma_int_range(0, 256);
    let others = vstd::set_lib::set_int_range(0, 256).remove(column as int);
    assert(!numbers.contains(column as int)) by {
        if numbers.contains(column as int) {
            let c = choose|c: u8| columns.dom().contains(c) && number(c) == column as int;
            assert(c == column);
        }
    }
    assert(numbers.subset_of(others));
    vstd::set_lib::lemma_len_subset(numbers, others);
}

/// Gives a column that appears its channel.
pub fn channel_for_column(columns: &mut ColumnMap, column: u8) -> (res: u8)
    ensures
        res == channel_to_take(old(columns)@, column),
        final(columns)@ == old(columns)@.insert(column, res),
{
    let held: Option<u8> = match columns.get(&column) {
        Some(channel) => Some(*channel),
        None => None,
    };
    match held {
        Some(channel) => {
            assert(columns@ =~= columns@.insert(column, channel));
            channel
        },
        None => {
            proof {
                columns.lemma_finite();
                lemma_next_channel_fits(columns@, column);
            }
            let next: u8 = columns.len() as u8;
            columns.insert(column, next);
            next
        },
    }
}

/// Takes the channel of a column away.
pub fn forget_column(columns: &mut ColumnMap, column: u8)
    ensures
        final(columns)@ == old(columns)@.remove(column),
{
    columns.remove(&column);
}

/// Whether the columns have the first channels, each one of its own.
pub open spec fn is_compact(columns: Map<u8, u8>) -> bool {
    &&& columns.dom().finite()
    &&& forall|c: u8| #[trigger] columns.contains_key(c) ==> columns[c] < columns.dom().len()
    &&& forall|a: u8, b: u8|
        #![trigger columns[a], columns[b]]
        columns.contains_key(a) && columns.contains_key(b) && columns[a] == columns[b] ==> a == b
}

/// As long as columns only appear, each has a channel of its own.
pub proof fn appearing_columns_get_their_own_channels(columns: Map<u8, u8>, column: u8)
    requires
        is_compact(columns),
    ensures
        is_compact(columns.insert(column, channel_to_take(columns, column))),
{
    let after = columns.insert(column, channel_to_take(columns, column));
    if columns.contains_key(column) {
        assert(after =~= columns);
    } else {
        lemma_next_channel_fits(columns, column);
        assert(after.dom() =~= columns.dom().insert(column));
        assert forall|a: u8, b: u8|
            #![trigger after[a], after[b]]
            after.contains_key(a) && after.contains_key(b) && after[a] == after[b] implies a
            == b by {
            if a != column {
                assert(columns.contains_key(a) && after[a] == columns[a]);
            }
            if b != column {
                assert(columns.contains_key(b) && after[b] == columns[b]);
            }
        }
        assert forall|c: u8| #[trigger] after.contains_key(c) implies after[c]
            < after.dom().len() by {
            if c != column {
                assert(columns.contains_key(c));
            }
        }
    }
}

/// The place of the channel that a column shows, where it shows one.
pub open spec fn shown_channel(columns: Map<u8, u8>, channels: nat, column: u8) -> Option<u8> {
    if columns.contains_key(column) && columns[column] < channels {
        Some(columns[column])
    } else {
        None
    }
}

/// A column keeps the channel it has, and one that appears gets a channel that
/// no other column has, as long as columns only appear. It shows the channel
/// as soon as there are so many.
pub proof fn columns_keep_their_channels(
    columns: Map<u8, u8>,
    column: u8,
    other: u8,
    channels: nat,
)
    requires
        is_compact(columns),
        other != column,
    ensures
        ({
            let taken = channel_to_take(columns, column);
            let after = columns.insert(column, taken);
            &&& columns.contains_key(column) ==> taken == columns[column]
            &&& columns.contains_key(other) ==> columns[other] != taken
            &&& shown_channel(after, channels, column) == Some(taken) <==> taken < channels
            &&& shown_channel(after, channels, column) is None <==> taken >= channels
            &&& shown_channel(after, channels, other) == shown_channel(columns, channels, other)
            &&& !columns.contains_key(other) ==> shown_channel(columns, channels, other) is None
        }),
{
    if !columns.contains_key(column) {
        lemma_next_channel_fits(columns, column);
    }
}

/// The place of the channel that a column shows, where it shows one.
pub fn channel_of_column(columns: &ColumnMap, channels: &[MixerChannel], column: u8) -> (res: Option<
    u8,
>)
    ensures
        res == shown_channel(columns@, channels@.len(), column),
{
    match columns.get(&column) {
        Some(channel) => if (*channel as usize) < channels.len() {
            Some(*channel)
        } else {
            None
        },
        None => None,
    }
}

// ---------------------------------------------------------------------
// Presses
// ---------------------------------------------------------------------

/// What a key of the mixer does when it is pressed.
#[derive(Clone, Copy, Debug, PartialEq, Eq, Structural)]
pub enum KeyPress {
    ToggleMute,
    Raise,
    Lower,
    Nothing,
}

/// What a key in this row does when it is pressed.
pub fn key_press(row: u8) -> (res: KeyPress)
    ensures
        res == if row == 0 {
            KeyPress::ToggleMute
        } else if row == 1 {
            KeyPress::Raise
        } else if row == 2 {
            KeyPress::Lower
        } else {
            KeyPress::Nothing
        },
{
    match row {
        0 => KeyPress::ToggleMute,
        1 => KeyPress::Raise,
        2 => KeyPress::Lower,
        _ => KeyPress::Nothing,
    }
}

/// Mutes or unmutes a channel, and gives the target of the order and the mute
/// state.
pub fn toggle_channel_mute(channels: &mut Vec<MixerChannel>, channel: u8) -> (res: (
    (u32, bool),
    bool,
))
    requires
        channel < old(channels)@.len(),
    ensures
        ({
            let before = old(channels)@[channel as int];
            &&& res == ((before.uid, before.is_device), !before.mute)
            &&& final(channels)@ == old(channels)@.update(
                channel as int,
                mixer::with_state(before, before.vol_percent_bits, !before.mute),
            )
        }),
{
    let i: usize = channel as usize;
    let mut changed = channels[i].clone();
    changed.mute = !changed.mute;
    let order: ((u32, bool), bool) = ((changed.uid, changed.is_device), changed.mute);
    channels.set(i, changed);
    order
}

/// Notes the volume that was ordered for a channel, and gives the target of
/// the order.
pub fn set_channel_volume(
    channels: &mut Vec<MixerChannel>,
    channel: u8,
    vol_percent_bits: u32,
) -> (res: (u32, bool))
    requires
        channel < old(channels)@.len(),
    ensures
        ({
            let before = old(channels)@[channel as int];
            &&& res == (before.uid, before.is_device)
            &&& final(channels)@ == old(channels)@.update(
                channel as int,
                mixer::with_state(before, vol_percent_bits, before.mute),
            )
        }),
{
    let i: usize = channel as usize;
    let mut changed = channels[i].clone();
    changed.vol_percent_bits = vol_percent_bits;
    let target: (u32, bool) = (changed.uid, changed.is_device);
    channels.set(i, changed);
    target
}

/// How long a key has to be held to ignore its application, in milliseconds.
pub const LONG_PRESS_MS: u128 = 1000;

/// Whether this is the key that is held.
pub open spec fn is_held_key(press: ButtonPressControl, instance_id: Seq<char>) -> bool {
    press.action_id is Some && press.action_id->0@ == instance_id
}

/// How long a key was held that is released now.
pub open spec fn held_for(press: ButtonPressControl, instance_id: Seq<char>, now_ms: u128) -> Option<
    u128,
> {
    if is_held_key(press, instance_id) && press.time_ms is Some {
        Some((now_ms - press.time_ms->0) as u128)
    } else {
        None
    }
}

/// Whether no key is held after a release, unless it was that of another key.
pub open spec fn is_released(
    before: ButtonPressControl,
    after: ButtonPressControl,
    instance_id: Seq<char>,
) -> bool {
    if is_held_key(before, instance_id) {
        after.action_id is None && after.time_ms is None
    } else {
        after == before
    }
}

/// A release counts for the key that is held alone: it gives the time since
/// the press, and no key is held from then on. That of another key gives
/// nothing and leaves the held one held.
pub proof fn release_counts_for_the_held_key(
    before: ButtonPressControl,
    after: ButtonPressControl,
    held: String,
    pressed_ms: u128,
    instance_id: Seq<char>,
    now_ms: u128,
)
    requires
        before.action_id == Some(held),
        before.time_ms == Some(pressed_ms),
        pressed_ms <= now_ms,
        is_released(before, after, instance_id),
    ensures
        held@ == instance_id ==> held_for(before, instance_id, now_ms) is Some && pressed_ms
            + held_for(before, instance_id, now_ms)->0 == now_ms,
        held@ == instance_id ==> after.action_id is None && after.time_ms is None,
        held@ == instance_id ==> held_for(after, instance_id, now_ms) is None,
        held@ != instance_id ==> held_for(before, instance_id, now_ms) is None && after == before,
{
}

/// Notes that a key is released, and gives how long it was held. The release
/// of another key than the one held is not noted.
pub fn release_key(press: &mut ButtonPressControl, instance_id: &str, now_ms: u128) -> (res: Option<
    u128,
>)
    requires
        is_held_key(*old(press), instance_id@) && old(press).time_ms is Some ==> old(
            press,
        ).time_ms->0 <= now_ms,
    ensures
        res == held_for(*old(press), instance_id@, now_ms),
        is_released(*old(press), *final(press), instance_id@),
{
    let is_other = match &press.action_id {
        Some(id) => !text::same(id.as_str(), instance_id),
        None => false,
    };
    if is_other {
        return None;
    }
    press.get_release_time(now_ms)
}

/// Whether a key in this row, held for so long, has its application ignored.
pub fn ignores_application(duration_ms: u128, row: u8) -> (res: bool)
    ensures
        res == (duration_ms > LONG_PRESS_MS && row == 0),
{
    duration_ms > LONG_PRESS_MS && row == 0
}

/// Unmutes the channel of an application that is about to be ignored, and
/// gives the application's name and the target of the order.
pub fn unmute_channel(channels: &mut Vec<MixerChannel>, channel: u8) -> (res: (String, (u32, bool)))
    requires
        channel < old(channels)@.len(),
    ensures
        ({
            let before = old(channels)@[channel as int];
            &&& res.0@ == before.app_name@
            &&& res.1 == (before.uid, before.is_device)
            &&& final(channels)@ == old(channels)@.update(
                channel as int,
                mixer::with_state(before, before.vol_percent_bits, false),
            )
        }),
{
    let i: usize = channel as usize;
    let mut changed = channels[i].clone();
    changed.mute = false;
    let name = changed.app_name.clone();
    let target: (u32, bool) = (changed.uid, changed.is_device);
    channels.set(i, changed);
    (name, target)
}

/// What follows from the release of the key in this column and row, where it
/// has a place, that was held for so long.
pub open spec fn follows_from_release(
    duration: Option<u128>,
    place: Option<(u8, u8)>,
    columns: Map<u8, u8>,
    before: Seq<MixerChannel>,
    after: Seq<MixerChannel>,
    res: Option<(String, (u32, bool))>,
) -> bool {
    let shown = match place {
        Some((column, row)) => if row == 0 {
            shown_channel(columns, before.len(), column)
        } else {
            None
        },
        None => None,
    };
    if duration is Some && duration->0 > LONG_PRESS_MS && shown is Some {
        let channel = before[shown->0 as int];
        &&& res matches Some((name, target)) && name@ == channel.app_name@ && target == (
            channel.uid,
            channel.is_device,
        )
        &&& after == before.update(
            shown->0 as int,
            mixer::with_state(channel, channel.vol_percent_bits, false),
        )
    } else {
        res is None && after == before
    }
}

/// Only a long press of a top key has an application ignored: that of the
/// channel that its column shows. This channel is unmuted at its volume, and
/// no other changes. After any other press nothing changes.
pub proof fn long_presses_ignore_the_shown_application(
    held_ms: u128,
    column: u8,
    row: u8,
    columns: Map<u8, u8>,
    before: Seq<MixerChannel>,
    after: Seq<MixerChannel>,
    res: Option<(String, (u32, bool))>,
    i: int,
)
    requires
        follows_from_release(Some(held_ms), Some((column, row)), columns, before, after, res),
        0 <= i < before.len(),
    ensures
        after.len() == before.len(),
        res is Some <==> held_ms > 1000 && row == 0 && columns.contains_key(column)
            && columns[column] < before.len(),
        res matches Some((name, target)) ==> name@ == before[columns[column] as int].app_name@
            && target.0 == before[columns[column] as int].uid && target.1
            == before[columns[column] as int].is_device,
        res is Some && columns[column] == i ==> !after[i].mute && after[i].vol_percent_bits
            == before[i].vol_percent_bits && after[i].uid == before[i].uid,
        res is None || columns[column] != i ==> after[i] == before[i],
{
}

/// Takes the release of the key in this column and row, where it has a place.
/// After a long press of a top key, the channel that its column shows is
/// unmuted, and the name of the application to ignore and the target to unmute
/// are given. Else nothing follows.
pub fn key_released(
    press: &mut ButtonPressControl,
    instance_id: &str,
    place: Option<(u8, u8)>,
    columns: &ColumnMap,
    channels: &mut Vec<MixerChannel>,
    now_ms: u128,
) -> (res: Option<(String, (u32, bool))>)
    requires
        is_held_key(*old(press), instance_id@) && old(press).time_ms is Some ==> old(
            press,
        ).time_ms->0 <= now_ms,
    ensures
        is_released(*old(press), *final(press), instance_id@),
        follows_from_release(
            held_for(*old(press), instance_id@, now_ms),
            place,
            columns@,
            old(channels)@,
            final(channels)@,
            res,
        ),
        res is None ==> *final(channels) == *old(channels),
{
    let duration = match release_key(press, instance_id, now_ms) {
        Some(duration) => duration,
        None => return None,
    };
    let (column, row) = match place {
        Some(place) => place,
        None => return None,
    };
    if !ignores_application(duration, row) {
        return None;
    }
    match channel_of_column(columns, channels.as_slice(), column) {
        Some(channel) => Some(unmute_channel(channels, channel)),
        None => None,
    }
}

} // verus!
