//! Columns of three keys that mute an application, raise its volume and lower
//! it.

use vstd::prelude::*;

use crate::audio::audio_system::AppInfo;
use crate::dial;
use crate::dial::{
    arbitrate_active, clamp_target_percent, group_targets, is_all_muted, members_of,
    normalized_ids, should_refresh_for, toggled_group_mute, IconNeed,
};
use crate::dynamic;
use crate::dynamic::group_icon;
use crate::feedback::RenderRuntime;
use crate::percent;
use crate::sort;
use crate::sort::Sortable;
use crate::table::{Key, Table};
use crate::text;
use crate::text::{copy_option, copy_strings, is_before, join, same, same_strings};

verus! {

/// A column of keys of a device.
#[derive(Debug)]
pub struct ColumnIdentity {
    pub device_id: String,
    pub column: u8,
}

impl View for ColumnIdentity {
    type V = (Seq<char>, u8);

    open spec fn view(&self) -> (Seq<char>, u8) {
        (self.device_id@, self.column)
    }
}

impl Key for ColumnIdentity {
    fn same_key(&self, other: &Self) -> (res: bool) {
        self.column == other.column && same(self.device_id.as_str(), other.device_id.as_str())
    }
}

impl Clone for ColumnIdentity {
    fn clone(&self) -> (res: Self)
        ensures
            res == *self,
    {
        ColumnIdentity { device_id: self.device_id.clone(), column: self.column }
    }
}

/// Whether two columns are the same: on the same device, whatever the row.
pub fn same_column(a: &ColumnIdentity, b: &ColumnIdentity) -> (res: bool)
    ensures
        res == (a@ == b@),
{
    a.same_key(b)
}

// ---------------------------------------------------------------------
// Settings
// ---------------------------------------------------------------------

/// The settings of a column.
#[derive(Debug)]
pub struct ApplicationVolumeColumnSettings {
    pub target_ids: Vec<String>,
    pub target_id: String,
    pub target_name: String,
}

/// What the settings of a column read.
pub ghost struct ColumnSettings {
    pub target_ids: Seq<Seq<char>>,
    pub target_id: Seq<char>,
    pub target_name: Seq<char>,
}

impl View for ApplicationVolumeColumnSettings {
    type V = ColumnSettings;

    open spec fn view(&self) -> ColumnSettings {
        ColumnSettings {
            target_ids: text::texts(self.target_ids@),
            target_id: self.target_id@,
            target_name: self.target_name@,
        }
    }
}

/// The targets that the user chose, each once and in order.
pub open spec fn targets_of(settings: ColumnSettings) -> Seq<Seq<char>> {
    dial::chosen_ids(settings.target_ids, settings.target_id)
}

/// The settings with the targets that the user chose in the list alone.
pub open spec fn normalized_settings(settings: ColumnSettings) -> ColumnSettings {
    ColumnSettings {
        target_ids: targets_of(settings),
        target_id: Seq::empty(),
        target_name: Seq::empty(),
    }
}

impl Default for ApplicationVolumeColumnSettings {
    fn default() -> (res: Self)
        ensures
            res@ == (ColumnSettings {
                target_ids: Seq::empty(),
                target_id: Seq::empty(),
                target_name: Seq::empty(),
            }),
    {
        let res = ApplicationVolumeColumnSettings {
            target_ids: Vec::new(),
            target_id: String::new(),
            target_name: String::new(),
        };
        assert(res@.target_ids =~= Seq::empty());
        assert(res@.target_id =~= Seq::empty());
        assert(res@.target_name =~= Seq::empty());
        res
    }
}

impl Clone for ApplicationVolumeColumnSettings {
    fn clone(&self) -> (res: Self)
        ensures
            res@ == self@,
    {
        ApplicationVolumeColumnSettings {
            target_ids: copy_strings(self.target_ids.as_slice()),
            target_id: self.target_id.clone(),
            target_name: self.target_name.clone(),
        }
    }
}

impl ApplicationVolumeColumnSettings {
    /// The targets that the user chose, each once and in order.
    pub fn normalized_target_ids(&self) -> (res: Vec<String>)
        ensures
            text::texts(res@) == targets_of(self@),
    {
        normalized_ids(self.target_ids.as_slice(), self.target_id.as_str())
    }

    /// The settings with the targets that the user chose in the list alone.
    pub fn normalized(self) -> (res: Self)
        ensures
            res@ == normalized_settings(self@),
    {
        let target_ids = self.normalized_target_ids();
        let res = ApplicationVolumeColumnSettings {
            target_ids,
            target_id: String::new(),
            target_name: String::new(),
        };
        assert(res@.target_id =~= Seq::empty());
        assert(res@.target_name =~= Seq::empty());
        res
    }

    /// Whether two settings read the same.
    pub fn is_same(&self, other: &Self) -> (res: bool)
        ensures
            res == (self@ == other@),
    {
        same_strings(self.target_ids.as_slice(), other.target_ids.as_slice()) && same(
            self.target_id.as_str(),
            other.target_id.as_str(),
        ) && same(self.target_name.as_str(), other.target_name.as_str())
    }
}

/// Normalizing settings keeps the targets that the user chose, and doing so
/// again changes nothing.
pub proof fn normalizing_keeps_the_targets(settings: ColumnSettings)
    ensures
        targets_of(normalized_settings(settings)) == targets_of(settings),
        normalized_settings(normalized_settings(settings)) == normalized_settings(settings),
{
    dial::chosen_ids_are_distinct(settings.target_ids);
    dial::chosen_ids_are_distinct(seq![settings.target_id]);
}

// ---------------------------------------------------------------------
// The state of a column
// ---------------------------------------------------------------------

/// What a column remembers. `last_frames` holds what its rows show.
#[derive(Debug)]
pub struct ColumnState {
    pub settings: ApplicationVolumeColumnSettings,
    pub active_target_id: Option<String>,
    pub last_icon: Option<String>,
    pub icon_target_id: Option<String>,
    pub last_frames: Table<u8, String>,
}

impl Default for ColumnState {
    fn default() -> (res: Self)
        ensures
            res.settings@ == (ColumnSettings {
                target_ids: Seq::empty(),
                target_id: Seq::empty(),
                target_name: Seq::empty(),
            }),
            res.active_target_id is None,
            res.last_icon is None,
            res.icon_target_id is None,
            res.last_frames@ == Map::<u8, String>::empty(),
    {
        ColumnState {
            settings: ApplicationVolumeColumnSettings::default(),
            active_target_id: None,
            last_icon: None,
            icon_target_id: None,
            last_frames: Table::new(),
        }
    }
}

/// A column, with the count of the attempts to show it.
#[derive(Debug)]
pub struct ColumnRuntime {
    pub render: RenderRuntime,
    pub state: ColumnState,
}

impl Default for ColumnRuntime {
    fn default() -> (res: Self)
        ensures
            res.render.generation == 0,
            res.state.settings@ == (ColumnSettings {
                target_ids: Seq::empty(),
                target_id: Seq::empty(),
                target_name: Seq::empty(),
            }),
            res.state.active_target_id is None,
            res.state.last_icon is None,
            res.state.icon_target_id is None,
            res.state.last_frames@ == Map::<u8, String>::empty(),
    {
        ColumnRuntime { render: RenderRuntime { generation: 0 }, state: ColumnState::default() }
    }
}

/// What is shown of a column, but for its volume.
#[derive(Debug)]
pub struct ColumnView {
    pub available: bool,
    pub target_id: Option<String>,
    pub members: Vec<usize>,
    pub muted: bool,
    pub icon: IconNeed,
}

/// Whether this is what a column shows, and what it remembers then.
pub open spec fn is_snapshot(
    before: ColumnState,
    after: ColumnState,
    view: ColumnView,
    apps: Seq<AppInfo>,
    ids: Seq<String>,
) -> bool {
    let target = dial::active_of(
        targets_of(before.settings@),
        text::texts(ids),
        text::text_of(before.active_target_id),
    );
    &&& text::text_of(after.active_target_id) == target
    &&& text::text_of(view.target_id) == target
    &&& view.members@ == dial::member_places(ids, target)
    &&& dynamic::is_group_icon(
        view.icon,
        view.members@,
        target,
        text::text_of(before.last_icon),
        text::text_of(before.icon_target_id),
    )
    &&& forall|k: int|
        0 <= k < view.members@.len() ==> (#[trigger] view.members@[k]) < apps.len()
    &&& view.available == (view.members@.len() > 0)
    &&& view.muted == (view.members@.len() > 0 && dial::all_muted(apps, view.members@))
    &&& after.settings == before.settings
    &&& after.last_icon == before.last_icon
    &&& after.icon_target_id == before.icon_target_id
    &&& after.last_frames == before.last_frames
}

/// What a column shows is of one application, its active target: this is a
/// configured target that plays, there is one as soon as any of them plays,
/// and it stays while it plays. All of its streams are shown, and no other;
/// they are muted together; and the icon is its own.
pub proof fn column_shows_one_active_target(
    before: ColumnState,
    after: ColumnState,
    view: ColumnView,
    apps: Seq<AppInfo>,
    ids: Seq<String>,
    i: int,
)
    requires
        apps.len() == ids.len() <= usize::MAX,
        0 <= i < ids.len(),
        is_snapshot(before, after, view, apps, ids),
    ensures
        text::text_of(after.active_target_id) == text::text_of(view.target_id),
        view.target_id matches Some(id) ==> targets_of(before.settings@).contains(id@)
            && text::texts(ids).contains(id@),
        view.available <==> view.target_id is Some,
        targets_of(before.settings@).contains(ids[i]@) ==> view.available,
        text::text_of(before.active_target_id) == Some(ids[i]@) && targets_of(
            before.settings@,
        ).contains(ids[i]@) ==> text::text_of(view.target_id) == Some(ids[i]@),
        view.members@.contains(i as usize) <==> text::text_of(view.target_id) == Some(ids[i]@),
        view.muted ==> view.available,
        text::text_of(view.target_id) == Some(ids[i]@) && !apps[i].mute ==> !view.muted,
        (view.available && forall|k: int|
            0 <= k < ids.len() && text::text_of(view.target_id) == Some((#[trigger] ids[k])@)
                ==> apps[k].mute) ==> view.muted,
        (text::text_of(view.target_id) == Some(ids[i]@) && (forall|k: int|
            0 <= k < i ==> (#[trigger] ids[k])@ != ids[i]@) && text::text_of(
            before.icon_target_id,
        ) != Some(ids[i]@)) ==> view.icon == IconNeed::Resolve(i as usize),
        view.icon is Known && text::text_of(view.target_id) == Some(ids[i]@) ==> text::text_of(
            before.icon_target_id,
        ) == Some(ids[i]@),
        after == (ColumnState { active_target_id: after.active_target_id, ..before }),
{
    dial::lemma_active_streams(
        targets_of(before.settings@),
        text::text_of(before.active_target_id),
        apps,
        ids,
        i,
    );
}

/// Chooses what a column shows.
pub fn snapshot(state: &mut ColumnState, apps: &[AppInfo], ids: &[String]) -> (res: ColumnView)
    requires
        apps@.len() == ids@.len(),
    ensures
        is_snapshot(*old(state), *final(state), res, apps@, ids@),
{
    let configured = state.settings.normalized_target_ids();
    let current: Option<&str> = match &state.active_target_id {
        Some(id) => Some(id.as_str()),
        None => None,
    };
    let active = arbitrate_active(configured.as_slice(), ids, current);
    let members = members_of(ids, &active);
    let muted = members.len() > 0 && is_all_muted(apps, members.as_slice());
    proof {
        if members@.len() > 0 {
            assert(members@[0] < ids@.len());
        }
    }
    let icon = group_icon(members.as_slice(), &active, &state.last_icon, &state.icon_target_id);
    state.active_target_id = copy_option(&active);
    ColumnView { available: members.len() > 0, target_id: active, members, muted, icon }
}

/// Notes the icon that was found for a column.
pub fn column_icon_resolved(state: &mut ColumnState, icon: String, target_id: String)
    ensures
        final(state).last_icon == Some(icon),
        final(state).icon_target_id == Some(target_id),
        final(state).settings == old(state).settings,
        final(state).active_target_id == old(state).active_target_id,
        final(state).last_frames == old(state).last_frames,
{
    state.last_icon = Some(icon);
    state.icon_target_id = Some(target_id);
}

/// Takes a press of the top key of a column: gives what the column shows, and
/// the streams to order another mute state for and that state, unless none
/// plays. They are muted unless all of them are.
pub fn mute_order(state: &mut ColumnState, apps: &[AppInfo], ids: &[String]) -> (res: (
    ColumnView,
    Option<(Vec<(u32, bool)>, bool)>,
))
    requires
        apps@.len() == ids@.len(),
    ensures
        is_snapshot(*old(state), *final(state), res.0, apps@, ids@),
        match res.1 {
            Some((targets, mute)) => {
                &&& res.0.members@.len() > 0
                &&& targets@ == dial::targets_of(apps@, res.0.members@)
                &&& mute == !dial::all_muted(apps@, res.0.members@)
            },
            None => res.0.members@.len() == 0,
        },
{
    let view = snapshot(state, apps, ids);
    if !view.available {
        return (view, None);
    }
    let targets = group_targets(apps, view.members.as_slice());
    let mute = toggled_group_mute(apps, view.members.as_slice());
    (view, Some((targets, mute)))
}

// ---------------------------------------------------------------------
// Keys
// ---------------------------------------------------------------------

/// Whether a column has the keys of all three rows.
pub open spec fn has_all_rows(rows: Seq<u8>) -> bool {
    rows.contains(0) && rows.contains(1) && rows.contains(2)
}

fn has_row(rows: &[u8], row: u8) -> (res: bool)
    ensures
        res == rows@.contains(row),
{
    let mut i: usize = 0;
    while i < rows.len()
        invariant
            i <= rows@.len(),
            forall|k: int| 0 <= k < i ==> #[trigger] rows@[k] != row,
        decreases rows@.len() - i,
    {
        if rows[i] == row {
            assert(rows@[i as int] == row);
            return true;
        }
        i += 1;
    }
    false
}

/// Whether a column has the keys of all three rows.
pub fn is_complete(rows: &[u8]) -> (res: bool)
    ensures
        res == has_all_rows(rows@),
{
    has_row(rows, 0) && has_row(rows, 1) && has_row(rows, 2)
}

/// Whether a key at this place is one of the column's.
pub fn is_in_column(identity: &ColumnIdentity, device_id: &str, column: u8, row: u8) -> (res: bool)
    ensures
        res == (device_id@ == identity.device_id@ && column == identity.column && row <= 2),
{
    column == identity.column && row <= 2 && same(device_id, identity.device_id.as_str())
}

/// The rows of a column that are there, in order.
pub open spec fn rows_present(rows: Seq<u8>) -> Seq<u8> {
    (if rows.contains(0) {
        seq![0u8]
    } else {
        Seq::empty()
    }) + (if rows.contains(1) {
        seq![1u8]
    } else {
        Seq::empty()
    }) + (if rows.contains(2) {
        seq![2u8]
    } else {
        Seq::empty()
    })
}

/// A column has its rows exactly where each of the three is among those given;
/// those that are there are listed once and in order.
pub proof fn rows_are_told_by_their_number(rows: Seq<u8>, row: u8)
    ensures
        rows_present(rows).contains(row) <==> row < 3 && rows.contains(row),
        has_all_rows(rows) <==> rows_present(rows) == seq![0u8, 1u8, 2u8],
        forall|i: int, j: int|
            0 <= i < j < rows_present(rows).len() ==> #[trigger] rows_present(rows)[i]
                < #[trigger] rows_present(rows)[j],
{
    let present = rows_present(rows);
    let a: Seq<u8> = if rows.contains(0) {
        seq![0u8]
    } else {
        Seq::empty()
    };
    let b: Seq<u8> = if rows.contains(1) {
        seq![1u8]
    } else {
        Seq::empty()
    };
    if rows.contains(0) {
        assert(present[0] == 0);
    }
    if rows.contains(1) {
        assert(present[a.len() as int] == 1);
    }
    if rows.contains(2) {
        assert(present[(a + b).len() as int] == 2);
    }
    if present.contains(row) {
        let k = choose|k: int| 0 <= k < present.len() && present[k] == row;
    }
    if has_all_rows(rows) {
        assert(present =~= seq![0u8, 1u8, 2u8]);
    }
    if present == seq![0u8, 1u8, 2u8] {
        assert(present.len() == 3);
    }
}

/// The rows of a column that are there, in order.
pub fn present_rows(rows: &[u8]) -> (res: Vec<u8>)
    ensures
        res@ == rows_present(rows@),
{
    let mut out: Vec<u8> = Vec::new();
    if has_row(rows, 0) {
        out.push(0);
    }
    if has_row(rows, 1) {
        out.push(1);
    }
    if has_row(rows, 2) {
        out.push(2);
    }
    assert(out@ =~= rows_present(rows@));
    out
}

/// What a key of a column does.
#[derive(Clone, Copy, Debug, PartialEq, Eq, Structural)]
pub enum ColumnKey {
    Nothing,
    ToggleMute,
    Raise,
    Lower,
}

/// What a key in this row does: the keys of an incomplete column do nothing.
pub open spec fn key_of_row(rows: Seq<u8>, row: u8) -> ColumnKey {
    if !has_all_rows(rows) {
        ColumnKey::Nothing
    } else if row == 0 {
        ColumnKey::ToggleMute
    } else if row == 1 {
        ColumnKey::Raise
    } else if row == 2 {
        ColumnKey::Lower
    } else {
        ColumnKey::Nothing
    }
}

/// The keys of a column do something exactly where all three are there: the
/// top one mutes, the middle one raises the volume, the lowest one lowers it.
pub proof fn keys_work_in_complete_columns(rows: Seq<u8>, row: u8)
    ensures
        !(rows.contains(0) && rows.contains(1) && rows.contains(2)) ==> key_of_row(rows, row)
            == ColumnKey::Nothing,
        rows.contains(0) && rows.contains(1) && rows.contains(2) ==> {
            &&& key_of_row(rows, row) == ColumnKey::ToggleMute <==> row == 0
            &&& key_of_row(rows, row) == ColumnKey::Raise <==> row == 1
            &&& key_of_row(rows, row) == ColumnKey::Lower <==> row == 2
        },
{
}

/// What a key in this row does: the keys of an incomplete column do nothing.
pub fn column_key(rows: &[u8], row: u8) -> (res: ColumnKey)
    ensures
        res == key_of_row(rows@, row),
{
    if !is_complete(rows) {
        return ColumnKey::Nothing;
    }
    match row {
        0 => ColumnKey::ToggleMute,
        1 => ColumnKey::Raise,
        2 => ColumnKey::Lower,
        _ => ColumnKey::Nothing,
    }
}

/// The volume to order for a column: from zero to one hundred percent.
pub fn column_volume(wished: u64) -> (res: u64)
    ensures
        res == percent::target_of(wished, 100),
{
    clamp_target_percent(wished, 100)
}

// ---------------------------------------------------------------------
// Frames
// ---------------------------------------------------------------------

/// A text for what a row shows.
pub open spec fn frame_text(complete: bool, frame: Seq<char>) -> Seq<char> {
    (if complete {
        "true"@
    } else {
        "false"@
    }) + ":"@ + frame
}

/// Rows that look different have different texts.
pub proof fn row_texts_tell_frames_apart(
    complete: bool,
    frame: Seq<char>,
    other_complete: bool,
    other: Seq<char>,
)
    ensures
        frame_text(complete, frame) == frame_text(other_complete, other) ==> complete
            == other_complete && frame == other,
{
    reveal_strlit("true");
    reveal_strlit("false");
    reveal_strlit(":");
    let a = frame_text(complete, frame);
    let b = frame_text(other_complete, other);
    if a == b {
        assert(a[0] == (if complete {
            't'
        } else {
            'f'
        }));
        assert(b[0] == (if other_complete {
            't'
        } else {
            'f'
        }));
        let n: int = if complete {
            5
        } else {
            6
        };
        assert(a.skip(n) =~= frame);
        assert(b.skip(n) =~= other);
    }
}

/// A text for what a row shows, to tell whether it shows it already.
pub fn frame_key(complete: bool, frame: &str) -> (res: String)
    ensures
        res@ == frame_text(complete, frame@),
{
    let flag = if complete {
        "true"
    } else {
        "false"
    };
    join(join(flag, ":").as_str(), frame)
}

/// Whether a row shows something else.
pub fn is_new_frame(state: &ColumnState, row: u8, key: &str) -> (res: bool)
    ensures
        res == !(state.last_frames@.contains_key(row) && state.last_frames@[row]@ == key@),
{
    match state.last_frames.get(&row) {
        Some(last) => !same(last.as_str(), key),
        None => true,
    }
}

/// Notes what a row shows.
pub fn note_frame(state: &mut ColumnState, row: u8, key: String)
    ensures
        final(state).last_frames@ == old(state).last_frames@.insert(row, key),
        final(state).settings == old(state).settings,
        final(state).active_target_id == old(state).active_target_id,
        final(state).last_icon == old(state).last_icon,
        final(state).icon_target_id == old(state).icon_target_id,
{
    state.last_frames.insert(row, key);
}

// ---------------------------------------------------------------------
// Sharing settings among the keys of a column
// ---------------------------------------------------------------------

/// What follows from settings that came for a column.
#[derive(Clone, Copy, Debug, PartialEq, Eq, Structural)]
pub struct SyncAction {
    pub broadcast: bool,
    pub persist: bool,
}

/// Takes settings that came for a column. They are sent to all its keys where
/// they are new or `force_broadcast` says so, and kept where they are new.
pub fn synchronize_settings(
    state: &mut ColumnState,
    settings: ApplicationVolumeColumnSettings,
    force_broadcast: bool,
) -> (res: SyncAction)
    ensures
        final(state).settings@ == normalized_settings(settings@),
        res.persist == (old(state).settings@ != normalized_settings(settings@)),
        res.broadcast == (res.persist || force_broadcast),
        final(state).active_target_id == old(state).active_target_id,
        final(state).last_icon == old(state).last_icon,
        final(state).icon_target_id == old(state).icon_target_id,
        final(state).last_frames == old(state).last_frames,
{
    let settings = settings.normalized();
    let changed = !state.settings.is_same(&settings);
    if changed {
        state.settings = settings;
    }
    SyncAction { broadcast: changed || force_broadcast, persist: changed }
}

/// The settings of a key that appears: its own where it has targets, else
/// those of its column.
pub fn appearing_settings(
    own: &ApplicationVolumeColumnSettings,
    shared: &ApplicationVolumeColumnSettings,
) -> (res: ApplicationVolumeColumnSettings)
    ensures
        res@ == if targets_of(own@).len() > 0 {
            own@
        } else {
            shared@
        },
{
    let targets = own.normalized_target_ids();
    assert(text::texts(targets@).len() == targets@.len());
    if targets.len() > 0 {
        own.clone()
    } else {
        shared.clone()
    }
}

/// Whether a change of one of these applications concerns a column.
pub fn column_is_affected(state: &ColumnState, changed: &[String]) -> (res: bool)
    ensures
        res == dial::is_concerned(
            targets_of(state.settings@),
            text::text_of(state.active_target_id),
            text::texts(changed@),
        ),
{
    let configured = state.settings.normalized_target_ids();
    let active: Option<&str> = match &state.active_target_id {
        Some(id) => Some(id.as_str()),
        None => None,
    };
    should_refresh_for(configured.as_slice(), active, changed)
}

// ---------------------------------------------------------------------
// All columns
// ---------------------------------------------------------------------

/// The columns of all devices.
pub type ColumnTable = Table<ColumnIdentity, ColumnRuntime>;

/// Whether a column is as it is before anything is known of it, but for its
/// settings.
pub open spec fn is_fresh(column: ColumnRuntime) -> bool {
    &&& column.render.generation == 0
    &&& column.state.active_target_id is None
    &&& column.state.last_icon is None
    &&& column.state.icon_target_id is None
    &&& column.state.last_frames@ == Map::<u8, String>::empty()
}

/// Makes sure that a column is known.
pub fn ensure_column(columns: &mut ColumnTable, identity: &ColumnIdentity)
    ensures
        old(columns)@.contains_key(identity@) ==> final(columns)@ == old(columns)@,
        !old(columns)@.contains_key(identity@) ==> {
            &&& final(columns)@.contains_key(identity@)
            &&& final(columns)@ == old(columns)@.insert(identity@, final(columns)@[identity@])
            &&& is_fresh(final(columns)@[identity@])
            &&& targets_of(final(columns)@[identity@].state.settings@).len() == 0
        },
{
    if !columns.contains(identity) {
        columns.insert(identity.clone(), ColumnRuntime::default());
    }
}

/// What is kept of a column while the program does not run.
#[derive(Debug)]
pub struct PersistedColumn {
    pub device_id: String,
    pub column: u8,
    pub settings: ApplicationVolumeColumnSettings,
}

/// The column that was kept.
pub open spec fn column_key_of(kept: PersistedColumn) -> (Seq<char>, u8) {
    (kept.device_id@, kept.column)
}

/// Whether a column is listed before another: by device, then by column.
pub open spec fn column_precedes(a: (Seq<char>, u8), b: (Seq<char>, u8)) -> bool {
    text::precedes(a.0, b.0) || (a.0 == b.0 && a.1 < b.1)
}

impl Sortable for PersistedColumn {
    open spec fn goes_before(&self, other: &Self) -> bool {
        column_precedes(column_key_of(*self), column_key_of(*other))
    }

    fn is_before(&self, other: &Self) -> (res: bool) {
        is_before(self.device_id.as_str(), other.device_id.as_str()) || (same(
            self.device_id.as_str(),
            other.device_id.as_str(),
        ) && self.column < other.column)
    }

    proof fn asymmetric(a: &Self, b: &Self) {
        text::lemma_precedes_irreflexive(a.device_id@);
        if text::precedes(a.device_id@, b.device_id@) && text::precedes(
            b.device_id@,
            a.device_id@,
        ) {
            text::lemma_precedes_transitive(a.device_id@, b.device_id@, a.device_id@);
        }
    }

    proof fn negatively_transitive(a: &Self, b: &Self, c: &Self) {
        let x = a.device_id@;
        let y = b.device_id@;
        let z = c.device_id@;
        text::lemma_precedes_total(x, y);
        text::lemma_precedes_total(y, z);
        text::lemma_precedes_irreflexive(x);
        if text::precedes(z, y) && text::precedes(y, x) {
            text::lemma_precedes_transitive(z, y, x);
        }
        if text::precedes(x, z) && text::precedes(z, x) {
            text::lemma_precedes_transitive(x, z, x);
        }
    }
}

/// Whether these are the columns to keep, in order: those with targets, each
/// once, with its settings.
pub open spec fn are_kept_columns(
    kept: Seq<PersistedColumn>,
    columns: Map<(Seq<char>, u8), ColumnRuntime>,
) -> bool {
    &&& forall|i: int, j: int|
        #![trigger kept[i], kept[j]]
        0 <= i < j < kept.len() ==> column_precedes(
            column_key_of(kept[i]),
            column_key_of(kept[j]),
        )
    &&& forall|i: int| 0 <= i < kept.len() ==> is_kept_column(#[trigger] kept[i], columns)
    &&& forall|key: (Seq<char>, u8)| #[trigger]
        columns.contains_key(key) && targets_of(columns[key].state.settings@).len() > 0
            ==> exists|i: int| 0 <= i < kept.len() && column_key_of(#[trigger] kept[i]) == key
}

/// Whether this is what is kept of a column with targets.
pub open spec fn is_kept_column(
    kept: PersistedColumn,
    columns: Map<(Seq<char>, u8), ColumnRuntime>,
) -> bool {
    let key = column_key_of(kept);
    &&& columns.contains_key(key)
    &&& kept.settings@ == columns[key].state.settings@
    &&& targets_of(kept.settings@).len() > 0
}

/// The columns to keep, ordered by device and then by column.
pub fn persisted_columns(columns: &ColumnTable) -> (res: Vec<PersistedColumn>)
    ensures
        are_kept_columns(res@, columns@),
{
    let n: usize = columns.len();
    let ghost order = columns.order();
    let mut out: Vec<PersistedColumn> = Vec::new();
    let mut i: usize = 0;
    while i < n
        invariant
            i <= n,
            n == order.len(),
            order == columns.order(),
            order.no_duplicates(),
            forall|k: (Seq<char>, u8)| columns@.contains_key(k) <==> #[trigger] order.contains(k),
            forall|k: int| 0 <= k < out@.len() ==> is_kept_column(#[trigger] out@[k], columns@),
            forall|k: int|
                0 <= k < out@.len() ==> order.take(i as int).contains(
                    column_key_of(#[trigger] out@[k]),
                ),
            forall|j: int|
                0 <= j < i && targets_of(columns@[#[trigger] order[j]].state.settings@).len() > 0
                    ==> exists|k: int|
                    0 <= k < out@.len() && column_key_of(#[trigger] out@[k]) == order[j],
            forall|a: int, b: int|
                #![trigger out@[a], out@[b]]
                0 <= a < b < out@.len() ==> column_key_of(out@[a]) != column_key_of(out@[b]),
        decreases n - i,
    {
        let ghost before = out@;
        let identity = columns.key_at(i);
        let column = columns.value_at(i);
        let targets = column.state.settings.normalized_target_ids();
        assert(text::texts(targets@).len() == targets@.len());
        if targets.len() > 0 {
            out.push(
                PersistedColumn {
                    device_id: identity.device_id.clone(),
                    column: identity.column,
                    settings: column.state.settings.clone(),
                },
            );
            assert(column_key_of(out@[before.len() as int]) == order[i as int]);
        }
        proof {
            let done = order.take(i as int);
            let more = order.take(i + 1);
            assert forall|k: int| 0 <= k < out@.len() implies more.contains(
                column_key_of(#[trigger] out@[k]),
            ) by {
                if k < before.len() {
                    assert(out@[k] == before[k]);
                    assert(done.contains(column_key_of(before[k])));
                    let q = choose|q: int|
                        0 <= q < done.len() && done[q] == column_key_of(before[k]);
                    assert(more[q] == done[q]);
                } else {
                    assert(more[i as int] == order[i as int]);
                }
            }
            assert forall|j: int|
                0 <= j < i + 1 && targets_of(
                    columns@[#[trigger] order[j]].state.settings@,
                ).len() > 0 implies exists|k: int|
                0 <= k < out@.len() && column_key_of(#[trigger] out@[k]) == order[j] by {
                if j < i {
                    let k = choose|k: int|
                        0 <= k < before.len() && column_key_of(#[trigger] before[k]) == order[j];
                    assert(out@[k] == before[k]);
                }
            }
            assert forall|a: int, b: int|
                #![trigger out@[a], out@[b]]
                0 <= a < b < out@.len() implies column_key_of(out@[a]) != column_key_of(
                out@[b],
            ) by {
                if b < before.len() {
                    assert(out@[a] == before[a] && out@[b] == before[b]);
                } else {
                    assert(out@[a] == before[a]);
                    assert(done.contains(column_key_of(before[a])));
                    let q = choose|q: int|
                        0 <= q < done.len() && done[q] == column_key_of(before[a]);
                    assert(order[q] == done[q]);
                }
            }
        }
        i += 1;
    }
    let ghost unsorted = out@;
    let sorted = sort::sort(out);
    proof {
        lemma_sorted_columns(unsorted, sorted@);
        assert forall|key: (Seq<char>, u8)| #[trigger]
            columns@.contains_key(key) && targets_of(columns@[key].state.settings@).len()
                > 0 implies exists|i: int|
            0 <= i < sorted@.len() && column_key_of(#[trigger] sorted@[i]) == key by {
            assert(order.contains(key));
            let j = choose|j: int| 0 <= j < order.len() && order[j] == key;
            let k = choose|k: int|
                0 <= k < unsorted.len() && column_key_of(#[trigger] unsorted[k]) == order[j];
            assert(sorted@.contains(unsorted[k]));
            let q = choose|q: int| 0 <= q < sorted@.len() && sorted@[q] == unsorted[k];
            assert(column_key_of(sorted@[q]) == key);
        }
        assert forall|i: int| 0 <= i < sorted@.len() implies is_kept_column(
            #[trigger] sorted@[i],
            columns@,
        ) by {
            assert(unsorted.contains(sorted@[i]));
            let k = choose|k: int| 0 <= k < unsorted.len() && unsorted[k] == sorted@[i];
            assert(is_kept_column(unsorted[k], columns@));
        }
    }
    sorted
}

proof fn lemma_sorted_columns(unsorted: Seq<PersistedColumn>, sorted: Seq<PersistedColumn>)
    requires
        sort::is_sorted(sorted),
        sorted.to_multiset() == unsorted.to_multiset(),
        forall|a: int, b: int|
            #![trigger unsorted[a], unsorted[b]]
            0 <= a < b < unsorted.len() ==> column_key_of(unsorted[a]) != column_key_of(
                unsorted[b],
            ),
    ensures
        forall|k: int| 0 <= k < unsorted.len() ==> sorted.contains(#[trigger] unsorted[k]),
        forall|k: int| 0 <= k < sorted.len() ==> unsorted.contains(#[trigger] sorted[k]),
        forall|i: int, j: int|
            #![trigger sorted[i], sorted[j]]
            0 <= i < j < sorted.len() ==> column_precedes(
                column_key_of(sorted[i]),
                column_key_of(sorted[j]),
            ),
{
    broadcast use vstd::seq_lib::group_to_multiset_ensures;

    assert forall|k: int| 0 <= k < unsorted.len() implies sorted.contains(
        #[trigger] unsorted[k],
    ) by {
        assert(unsorted.contains(unsorted[k]));
        assert(unsorted.to_multiset().count(unsorted[k]) > 0);
    }
    assert forall|k: int| 0 <= k < sorted.len() implies unsorted.contains(
        #[trigger] sorted[k],
    ) by {
        assert(sorted.contains(sorted[k]));
        assert(sorted.to_multiset().count(sorted[k]) > 0);
    }
    assert(unsorted.no_duplicates());
    unsorted.lemma_multiset_has_no_duplicates();
    sorted.lemma_multiset_has_no_duplicates_conv();
    assert forall|i: int, j: int|
        #![trigger sorted[i], sorted[j]]
        0 <= i < j < sorted.len() implies column_precedes(
        column_key_of(sorted[i]),
        column_key_of(sorted[j]),
    ) by {
        assert(!sorted[j].goes_before(&sorted[i]));
        let a = choose|a: int| 0 <= a < unsorted.len() && unsorted[a] == sorted[i];
        let b = choose|b: int| 0 <= b < unsorted.len() && unsorted[b] == sorted[j];
        assert(unsorted.contains(sorted[i]) && unsorted.contains(sorted[j]));
        assert(sorted[i] != sorted[j]);
        assert(a != b);
        assert(column_key_of(unsorted[a]) != column_key_of(unsorted[b]));
        text::lemma_precedes_total(sorted[i].device_id@, sorted[j].device_id@);
    }
}

/// Gives a column the settings that were kept of it, and gives them back for
/// its keys.
pub fn load_persisted_column(columns: &mut ColumnTable, kept: PersistedColumn) -> (res:
    ApplicationVolumeColumnSettings)
    ensures
        res@ == normalized_settings(kept.settings@),
        ({
            let key = column_key_of(kept);
            let column = final(columns)@[key];
            &&& final(columns)@.contains_key(key)
            &&& final(columns)@ == old(columns)@.insert(key, column)
            &&& column.state.settings@ == normalized_settings(kept.settings@)
            &&& if old(columns)@.contains_key(key) {
                let before = old(columns)@[key];
                &&& column.render == before.render
                &&& column.state.active_target_id == before.state.active_target_id
                &&& column.state.last_icon == before.state.last_icon
                &&& column.state.icon_target_id == before.state.icon_target_id
                &&& column.state.last_frames == before.state.last_frames
            } else {
                is_fresh(column)
            }
        }),
{
    let identity = ColumnIdentity { device_id: kept.device_id, column: kept.column };
    let settings = kept.settings.normalized();
    let mut column = match columns.remove(&identity) {
        Some(column) => column,
        None => ColumnRuntime::default(),
    };
    column.state.settings = settings.clone();
    columns.insert(identity, column);
    assert(columns@ =~= old(columns)@.insert(identity@, column));
    settings
}

/// Exactly the columns with targets are kept, each once and with its settings,
/// in the order of their devices and places.
pub proof fn configured_columns_are_kept(
    kept: Seq<PersistedColumn>,
    columns: Map<(Seq<char>, u8), ColumnRuntime>,
    key: (Seq<char>, u8),
    i: int,
    j: int,
)
    requires
        are_kept_columns(kept, columns),
        0 <= i < j < kept.len(),
    ensures
        columns.contains_key(key) && targets_of(columns[key].state.settings@).len() > 0
            <==> exists|k: int| 0 <= k < kept.len() && column_key_of(#[trigger] kept[k]) == key,
        columns.contains_key(column_key_of(kept[i])),
        kept[i].settings@ == columns[column_key_of(kept[i])].state.settings@,
        column_key_of(kept[i]) != column_key_of(kept[j]),
        column_key_of(kept[i]).0 == column_key_of(kept[j]).0 ==> column_key_of(kept[i]).1
            < column_key_of(kept[j]).1,
        column_key_of(kept[i]).0 != column_key_of(kept[j]).0 ==> text::precedes(
            column_key_of(kept[i]).0,
            column_key_of(kept[j]).0,
        ),
{
    assert(is_kept_column(kept[i], columns));
    let first = kept[i];
    let second = kept[j];
    text::lemma_precedes_irreflexive(column_key_of(first).0);
    if exists|k: int| 0 <= k < kept.len() && column_key_of(#[trigger] kept[k]) == key {
        let k = choose|k: int| 0 <= k < kept.len() && column_key_of(#[trigger] kept[k]) == key;
        assert(is_kept_column(kept[k], columns));
    }
}

/// A column that is new remembers nothing: no target is active, no icon was
/// found, no row shows anything, and nothing was rendered for it.
pub proof fn new_columns_remember_nothing(column: ColumnRuntime, row: u8)
    requires
        is_fresh(column),
    ensures
        column.render.generation == 0,
        column.state.active_target_id is None,
        column.state.last_icon is None,
        column.state.icon_target_id is None,
        !column.state.last_frames@.contains_key(row),
{
}

/// What was kept of a column comes back when it is loaded: its targets, in
/// order.
pub proof fn kept_targets_come_back(
    columns: Map<(Seq<char>, u8), ColumnRuntime>,
    kept: PersistedColumn,
)
    requires
        is_kept_column(kept, columns),
    ensures
        targets_of(normalized_settings(kept.settings@)) == targets_of(
            columns[column_key_of(kept)].state.settings@,
        ),
{
    normalizing_keeps_the_targets(kept.settings@);
}

} // verus!
