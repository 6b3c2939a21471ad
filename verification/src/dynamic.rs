//! Buttons that put a group of applications into focus, and dials that set
//! the volume of what is in focus.

use vstd::prelude::*;

use crate::audio::audio_system::AppInfo;
use crate::dial;
use crate::dial::{
    arbitrate_active, clamp_step, clamp_target_percent, is_all_muted, is_blank, members_of,
    normalized_ids, sanitize_maximum_volume, shares_id, IconNeed,
};
use crate::feedback;
use crate::feedback::{
    build_feedback, choose_title, is_dimmed, DialFeedback, Frame, MutePrediction, RenderRuntime,
    RenderStep, VolumePrediction,
};
use crate::percent;
use crate::table::{Key, Table};
use crate::text;
use crate::text::{
    characters, copy_option, copy_strings, from_characters, holds, join, same, same_strings, trim,
};

verus! {

// ---------------------------------------------------------------------
// Focus groups
// ---------------------------------------------------------------------

/// The name of a focus group: `main` where none is given.
pub open spec fn group_name(value: Seq<char>) -> Seq<char> {
    if text::trimmed(value).len() == 0 {
        "main"@
    } else {
        text::trimmed(value)
    }
}

/// A focus group always has a name; white space around it does not count, and
/// a name of nothing else is that of the main group.
pub proof fn group_names_ignore_white_space(value: Seq<char>, other: Seq<char>)
    ensures
        group_name(value).len() > 0,
        text::trimmed(value) == text::trimmed(other) ==> group_name(value) == group_name(other),
        text::trimmed(value).len() > 0 ==> group_name(value) == text::trimmed(value),
        text::trimmed(value).len() == 0 ==> group_name(value) == "main"@,
{
    reveal_strlit("main");
}

/// The name of a focus group: `main` where none is given.
pub fn focus_group_name(value: &str) -> (res: String)
    ensures
        res@ == group_name(value@),
{
    let chars = characters(value);
    let name = trim(chars.as_slice());
    if name.len() == 0 {
        "main".to_owned()
    } else {
        from_characters(name)
    }
}

/// A focus group of a device.
#[derive(Debug)]
pub struct FocusIdentity {
    pub device_id: String,
    pub focus_group: String,
}

impl View for FocusIdentity {
    type V = (Seq<char>, Seq<char>);

    open spec fn view(&self) -> (Seq<char>, Seq<char>) {
        (self.device_id@, self.focus_group@)
    }
}

impl Key for FocusIdentity {
    fn same_key(&self, other: &Self) -> (res: bool) {
        same(self.device_id.as_str(), other.device_id.as_str()) && same(
            self.focus_group.as_str(),
            other.focus_group.as_str(),
        )
    }
}

impl Clone for FocusIdentity {
    fn clone(&self) -> (res: Self)
        ensures
            res == *self,
    {
        FocusIdentity { device_id: self.device_id.clone(), focus_group: self.focus_group.clone() }
    }
}

/// The focus group of a device.
pub fn focus_identity(device_id: &str, group: &str) -> (res: FocusIdentity)
    ensures
        res@ == (device_id@, group_name(group@)),
{
    FocusIdentity { device_id: device_id.to_owned(), focus_group: focus_group_name(group) }
}

/// Whether two focus groups are the same.
pub fn same_focus(a: &FocusIdentity, b: &FocusIdentity) -> (res: bool)
    ensures
        res == (a@ == b@),
{
    a.same_key(b)
}

/// What is in focus in a group.
#[derive(Debug)]
pub struct FocusState {
    pub selector_id: String,
    pub target_ids: Vec<String>,
    pub custom_title: String,
    pub active_target_id: Option<String>,
    pub last_name: Option<String>,
    pub last_icon: Option<String>,
    pub icon_target_id: Option<String>,
    pub generation: u64,
}

/// Whether two records of what is in focus hold the same.
pub open spec fn same_state(a: FocusState, b: FocusState) -> bool {
    &&& a.selector_id == b.selector_id
    &&& text::texts(a.target_ids@) == text::texts(b.target_ids@)
    &&& a.custom_title == b.custom_title
    &&& a.active_target_id == b.active_target_id
    &&& a.last_name == b.last_name
    &&& a.last_icon == b.last_icon
    &&& a.icon_target_id == b.icon_target_id
    &&& a.generation == b.generation
}

impl Clone for FocusState {
    fn clone(&self) -> (res: Self)
        ensures
            same_state(res, *self),
    {
        FocusState {
            selector_id: self.selector_id.clone(),
            target_ids: copy_strings(self.target_ids.as_slice()),
            custom_title: self.custom_title.clone(),
            active_target_id: copy_option(&self.active_target_id),
            last_name: copy_option(&self.last_name),
            last_icon: copy_option(&self.last_icon),
            icon_target_id: copy_option(&self.icon_target_id),
            generation: self.generation,
        }
    }
}

/// The number of what is in focus next: another one only where something else
/// comes into focus.
pub fn next_focus_generation(previous: u64, same_selection: bool) -> (res: u64)
    ensures
        res == if same_selection {
            previous
        } else {
            feedback::following(previous)
        },
{
    if same_selection {
        previous
    } else {
        previous.wrapping_add(1)
    }
}

/// Whether an order still stands: no other was given for the dial, and
/// nothing else came into focus.
pub open spec fn order_stands(
    current_sequence: u64,
    command_sequence: u64,
    current_focus_generation: u64,
    command_focus_generation: u64,
) -> bool {
    current_sequence == command_sequence && current_focus_generation == command_focus_generation
}

/// Only the latest order stands: one that was followed by another for the
/// dial does not, nor does one that was given for something else than what is
/// in focus.
pub proof fn only_the_latest_order_stands(
    sequence: u64,
    later: nat,
    focus_generation: u64,
    changes: nat,
)
    requires
        later <= u64::MAX,
        changes <= u64::MAX,
    ensures
        order_stands(
            feedback::following_by(sequence, later),
            sequence,
            feedback::following_by(focus_generation, changes),
            focus_generation,
        ) <==> later == 0 && changes == 0,
{
    feedback::lemma_following_by(sequence, later);
    feedback::lemma_following_by(focus_generation, changes);
}

/// Whether an order still stands: no other was given for the dial, and
/// nothing else came into focus.
pub fn dynamic_command_is_current(
    current_sequence: u64,
    command_sequence: u64,
    current_focus_generation: u64,
    command_focus_generation: u64,
) -> (res: bool)
    ensures
        res == order_stands(
            current_sequence,
            command_sequence,
            current_focus_generation,
            command_focus_generation,
        ),
{
    current_sequence == command_sequence && current_focus_generation == command_focus_generation
}

// ---------------------------------------------------------------------
// Settings
// ---------------------------------------------------------------------

/// The settings of a button that puts applications into focus.
#[derive(Debug)]
pub struct ApplicationSelectorButtonSettings {
    pub target_ids: Vec<String>,
    pub target_id: String,
    pub target_name: String,
    pub custom_title: String,
    pub focus_group: String,
}

impl Default for ApplicationSelectorButtonSettings {
    fn default() -> (res: Self)
        ensures
            res.target_ids@.len() == 0,
            res.target_id@.len() == 0,
            res.target_name@.len() == 0,
            res.custom_title@.len() == 0,
            res.focus_group@.len() == 0,
    {
        ApplicationSelectorButtonSettings {
            target_ids: Vec::new(),
            target_id: String::new(),
            target_name: String::new(),
            custom_title: String::new(),
            focus_group: String::new(),
        }
    }
}

impl Clone for ApplicationSelectorButtonSettings {
    fn clone(&self) -> (res: Self)
        ensures
            text::texts(res.target_ids@) == text::texts(self.target_ids@),
            res.target_id == self.target_id,
            res.target_name == self.target_name,
            res.custom_title == self.custom_title,
            res.focus_group == self.focus_group,
    {
        ApplicationSelectorButtonSettings {
            target_ids: copy_strings(self.target_ids.as_slice()),
            target_id: self.target_id.clone(),
            target_name: self.target_name.clone(),
            custom_title: self.custom_title.clone(),
            focus_group: self.focus_group.clone(),
        }
    }
}

impl ApplicationSelectorButtonSettings {
    /// The targets that the user chose, each once and in order.
    pub open spec fn targets(&self) -> Seq<Seq<char>> {
        dial::chosen_ids(text::texts(self.target_ids@), self.target_id@)
    }

    /// The targets that the user chose, each once and in order.
    pub fn target_ids(&self) -> (res: Vec<String>)
        ensures
            text::texts(res@) == self.targets(),
    {
        normalized_ids(self.target_ids.as_slice(), self.target_id.as_str())
    }

    /// The focus group of the button.
    pub fn group(&self) -> (res: String)
        ensures
            res@ == group_name(self.focus_group@),
    {
        focus_group_name(self.focus_group.as_str())
    }
}

/// The settings of a dial for what is in focus.
#[derive(Debug)]
pub struct DynamicApplicationDialSettings {
    pub focus_group: String,
    pub custom_title: String,
    pub volume_step: u8,
    pub maximum_volume: u16,
}

impl Default for DynamicApplicationDialSettings {
    fn default() -> (res: Self)
        ensures
            res.focus_group@ == "main"@,
            res.custom_title@.len() == 0,
            res.volume_step == 2,
            res.maximum_volume == 100,
    {
        DynamicApplicationDialSettings {
            focus_group: "main".to_owned(),
            custom_title: String::new(),
            volume_step: 2,
            maximum_volume: 100,
        }
    }
}

impl Clone for DynamicApplicationDialSettings {
    fn clone(&self) -> (res: Self)
        ensures
            res == *self,
    {
        DynamicApplicationDialSettings {
            focus_group: self.focus_group.clone(),
            custom_title: self.custom_title.clone(),
            volume_step: self.volume_step,
            maximum_volume: self.maximum_volume,
        }
    }
}

impl DynamicApplicationDialSettings {
    /// The focus group of the dial.
    pub fn group(&self) -> (res: String)
        ensures
            res@ == group_name(self.focus_group@),
    {
        focus_group_name(self.focus_group.as_str())
    }

    /// The percentage of one tick.
    pub fn step(&self) -> (res: u8)
        ensures
            res == dial::step_size(self.volume_step),
            1 <= res <= 10,
    {
        clamp_step(self.volume_step)
    }

    /// The highest volume.
    pub fn maximum(&self) -> (res: u16)
        ensures
            res == percent::highest(self.maximum_volume),
    {
        sanitize_maximum_volume(self.maximum_volume)
    }
}

// ---------------------------------------------------------------------
// Groups of applications
// ---------------------------------------------------------------------

/// What is shown of a group of applications, but for its volume.
#[derive(Debug)]
pub struct GroupView {
    pub configured: bool,
    pub available: bool,
    pub target_id: Option<String>,
    pub title: String,
    pub members: Vec<usize>,
    pub muted: bool,
    pub icon: IconNeed,
    pub focus_generation: u64,
}

/// Whether this is where the icon of a group comes from: the icon shown last
/// stays while it is that of the active target, or while there is no active
/// target.
pub open spec fn is_group_icon(
    need: IconNeed,
    members: Seq<usize>,
    target: Option<Seq<char>>,
    last_icon: Option<Seq<char>>,
    icon_target: Option<Seq<char>>,
) -> bool {
    if members.len() > 0 && icon_target != target {
        need == IconNeed::Resolve(members[0])
    } else {
        match last_icon {
            Some(icon) => need matches IconNeed::Known(known) && known@ == icon,
            None => need == IconNeed::Fallback,
        }
    }
}

/// Where the icon of a group comes from.
pub fn group_icon(
    members: &[usize],
    target: &Option<String>,
    last_icon: &Option<String>,
    icon_target: &Option<String>,
) -> (res: IconNeed)
    requires
        members@.len() > 0 ==> *target is Some,
    ensures
        is_group_icon(
            res,
            members@,
            text::text_of(*target),
            text::text_of(*last_icon),
            text::text_of(*icon_target),
        ),
{
    if members.len() > 0 {
        let same_target = match target {
            Some(id) => holds(icon_target, id.as_str()),
            None => false,
        };
        if !same_target {
            return IconNeed::Resolve(members[0]);
        }
    }
    match last_icon {
        Some(icon) => IconNeed::Known(icon.clone()),
        None => IconNeed::Fallback,
    }
}

/// The name shown for a group: that of its first application, else the last
/// one shown.
pub open spec fn shown_name(
    apps: Seq<AppInfo>,
    members: Seq<usize>,
    last: Option<Seq<char>>,
) -> Option<Seq<char>> {
    if members.len() > 0 {
        Some(apps[members[0] as int].app_name@)
    } else {
        last
    }
}

fn name_to_show(apps: &[AppInfo], members: &[usize], last: &Option<String>) -> (res: Option<String>)
    requires
        forall|k: int| 0 <= k < members@.len() ==> (#[trigger] members@[k]) < apps@.len(),
    ensures
        text::text_of(res) == shown_name(apps@, members@, text::text_of(*last)),
{
    if members.len() > 0 {
        Some(apps[members[0]].app_name.clone())
    } else {
        copy_option(last)
    }
}

/// Whether this is what is shown of a group: `target` is its active target,
/// and `last_icon` and `icon_target` are the icon shown last and whose it is.
pub open spec fn is_group_view(
    view: GroupView,
    apps: Seq<AppInfo>,
    ids: Seq<String>,
    targets: Seq<Seq<char>>,
    target: Option<Seq<char>>,
    last_icon: Option<Seq<char>>,
    icon_target: Option<Seq<char>>,
) -> bool {
    &&& view.configured == (targets.len() > 0)
    &&& text::text_of(view.target_id) == target
    &&& view.members@ == dial::member_places(ids, target)
    &&& forall|k: int|
        0 <= k < view.members@.len() ==> (#[trigger] view.members@[k]) < apps.len()
    &&& view.available == (view.members@.len() > 0)
    &&& view.muted == (view.members@.len() > 0 && dial::all_muted(apps, view.members@))
    &&& is_group_icon(view.icon, view.members@, target, last_icon, icon_target)
}

/// What is shown of a group is of one application, its active target: this is
/// one of the group's targets that plays, there is one as soon as any of them
/// plays, and it stays while it plays. All of its streams are shown, and no
/// other; they are muted together. The icon is its own: the one shown last
/// stays only where it was found for it.
pub proof fn group_shows_one_active_target(
    view: GroupView,
    apps: Seq<AppInfo>,
    ids: Seq<String>,
    targets: Seq<Seq<char>>,
    current: Option<Seq<char>>,
    last_icon: Option<Seq<char>>,
    icon_target: Option<Seq<char>>,
    i: int,
)
    requires
        apps.len() == ids.len() <= usize::MAX,
        0 <= i < ids.len(),
        is_group_view(
            view,
            apps,
            ids,
            targets,
            dial::active_of(targets, text::texts(ids), current),
            last_icon,
            icon_target,
        ),
    ensures
        view.configured <==> targets.len() > 0,
        view.target_id matches Some(id) ==> targets.contains(id@) && text::texts(ids).contains(id@),
        view.available <==> view.target_id is Some,
        targets.contains(ids[i]@) ==> view.available,
        current == Some(ids[i]@) && targets.contains(ids[i]@) ==> text::text_of(view.target_id)
            == Some(ids[i]@),
        view.members@.contains(i as usize) <==> text::text_of(view.target_id) == Some(ids[i]@),
        view.muted ==> view.available,
        text::text_of(view.target_id) == Some(ids[i]@) && !apps[i].mute ==> !view.muted,
        (view.available && forall|k: int|
            0 <= k < ids.len() && text::text_of(view.target_id) == Some((#[trigger] ids[k])@)
                ==> apps[k].mute) ==> view.muted,
        (text::text_of(view.target_id) == Some(ids[i]@) && forall|k: int|
            0 <= k < i ==> (#[trigger] ids[k])@ != ids[i]@) ==> if icon_target == Some(ids[i]@) {
            match last_icon {
                Some(icon) => view.icon matches IconNeed::Known(known) && known@ == icon,
                None => view.icon is Fallback,
            }
        } else {
            view.icon == IconNeed::Resolve(i as usize)
        },
        view.target_id is None ==> match last_icon {
            Some(icon) => view.icon matches IconNeed::Known(known) && known@ == icon,
            None => view.icon is Fallback,
        },
{
    dial::lemma_active_streams(targets, current, apps, ids, i);
}

/// The name shown for a group is that of an application that plays while one
/// does, and the one shown last else.
pub proof fn group_is_named_after_what_plays(
    apps: Seq<AppInfo>,
    members: Seq<usize>,
    last: Option<Seq<char>>,
)
    ensures
        members.len() > 0 ==> shown_name(apps, members, last) == Some(
            apps[members[0] as int].app_name@,
        ),
        members.len() == 0 ==> shown_name(apps, members, last) == last,
{
}

// ---------------------------------------------------------------------
// Selector buttons
// ---------------------------------------------------------------------

/// What a button remembers.
#[derive(Debug)]
pub struct SelectorRuntime {
    pub active_target_id: Option<String>,
    pub last_name: Option<String>,
    pub last_icon: Option<String>,
    pub icon_target_id: Option<String>,
    pub last_frame: Option<String>,
}

impl Default for SelectorRuntime {
    fn default() -> (res: Self)
        ensures
            res.active_target_id is None,
            res.last_name is None,
            res.last_icon is None,
            res.icon_target_id is None,
            res.last_frame is None,
    {
        SelectorRuntime {
            active_target_id: None,
            last_name: None,
            last_icon: None,
            icon_target_id: None,
            last_frame: None,
        }
    }
}

/// The title of a button: the user's own, else the name of the application,
/// else what is missing.
pub open spec fn button_title(
    settings: ApplicationSelectorButtonSettings,
    name: Option<Seq<char>>,
) -> Seq<char> {
    if settings.custom_title@.len() > 0 {
        settings.custom_title@
    } else {
        match name {
            Some(name) => name,
            None => if settings.targets().len() == 0 {
                "Select apps"@
            } else {
                "Unavailable"@
            },
        }
    }
}

/// The title of a button.
pub fn selector_title(settings: &ApplicationSelectorButtonSettings, automatic_name: Option<&str>) -> (
res: String)
    ensures
        res@ == button_title(*settings, text::str_of(automatic_name)),
{
    if !is_blank(settings.custom_title.as_str()) {
        return settings.custom_title.clone();
    }
    match automatic_name {
        Some(name) => name.to_owned(),
        None => {
            let targets = settings.target_ids();
            assert(text::texts(targets@).len() == targets@.len());
            if targets.len() == 0 {
                "Select apps".to_owned()
            } else {
                "Unavailable".to_owned()
            }
        },
    }
}

/// The title of a button is the user's own wherever there is one, else the
/// name of its application; without either it tells whether targets are
/// missing or only do not play.
pub proof fn button_title_tells_what_is_missing(
    settings: ApplicationSelectorButtonSettings,
    name: Option<Seq<char>>,
)
    ensures
        settings.custom_title@.len() > 0 ==> button_title(settings, name)
            == settings.custom_title@,
        settings.custom_title@.len() == 0 && name is Some ==> button_title(settings, name)
            == name->0,
        settings.custom_title@.len() == 0 && name is None && settings.targets().len() == 0
            ==> button_title(settings, name) == "Select apps"@,
        settings.custom_title@.len() == 0 && name is None && settings.targets().len() > 0
            ==> button_title(settings, name) == "Unavailable"@,
{
}

/// A button with targets never asks for some.
pub proof fn configured_button_does_not_ask(
    settings: ApplicationSelectorButtonSettings,
    name: Option<Seq<char>>,
)
    requires
        settings.targets().len() > 0,
        settings.custom_title@ != "Select apps"@,
        name != Some("Select apps"@),
    ensures
        button_title(settings, name) != "Select apps"@,
{
    reveal_strlit("Select apps");
    reveal_strlit("Unavailable");
    assert("Unavailable"@[0] == 'U' && "Select apps"@[0] == 'S');
}

/// What is in focus, by group.
pub type FocusTable = Table<FocusIdentity, FocusState>;

/// Whether the button is the one whose applications are in focus.
pub open spec fn is_in_focus(
    focus: Map<(Seq<char>, Seq<char>), FocusState>,
    identity: (Seq<char>, Seq<char>),
    selector: Seq<char>,
) -> bool {
    focus.contains_key(identity) && focus[identity].selector_id@ == selector
}

/// Whether the button is the one whose applications are in focus.
pub fn is_focused(focus: &FocusTable, identity: &FocusIdentity, selector: &str) -> (res: bool)
    ensures
        res == is_in_focus(focus@, identity@, selector@),
{
    match focus.get(identity) {
        Some(state) => same(state.selector_id.as_str(), selector),
        None => false,
    }
}

/// Whether this is what a button shows, and what it remembers then.
pub open spec fn is_selector_snapshot(
    before: SelectorRuntime,
    after: SelectorRuntime,
    view: GroupView,
    settings: ApplicationSelectorButtonSettings,
    apps: Seq<AppInfo>,
    ids: Seq<String>,
    focused: bool,
) -> bool {
    let target = dial::active_of(
        settings.targets(),
        text::texts(ids),
        text::text_of(before.active_target_id),
    );
    &&& text::text_of(after.active_target_id) == target
    &&& is_group_view(
        view,
        apps,
        ids,
        settings.targets(),
        target,
        text::text_of(before.last_icon),
        text::text_of(before.icon_target_id),
    )
    &&& text::text_of(after.last_name) == shown_name(
        apps,
        view.members@,
        text::text_of(before.last_name),
    )
    &&& view.title@ == button_title(settings, text::text_of(after.last_name))
    &&& view.focus_generation == if focused {
        1u64
    } else {
        0u64
    }
    &&& after.last_icon == before.last_icon
    &&& after.icon_target_id == before.icon_target_id
    &&& after.last_frame == before.last_frame
}

/// A button shows the name of its application and remembers it; it is marked
/// exactly where its applications are in focus; and it follows its target as a
/// dial does.
pub proof fn button_shows_its_application(
    before: SelectorRuntime,
    after: SelectorRuntime,
    view: GroupView,
    settings: ApplicationSelectorButtonSettings,
    apps: Seq<AppInfo>,
    ids: Seq<String>,
    focused: bool,
    i: int,
)
    requires
        apps.len() == ids.len() <= usize::MAX,
        0 <= i < ids.len(),
        is_selector_snapshot(before, after, view, settings, apps, ids, focused),
    ensures
        view.focus_generation == 1 <==> focused,
        view.available <==> view.target_id is Some,
        text::text_of(after.active_target_id) == text::text_of(view.target_id),
        view.members@.contains(i as usize) <==> text::text_of(view.target_id) == Some(ids[i]@),
        (text::text_of(view.target_id) == Some(ids[i]@) && (forall|k: int|
            0 <= k < i ==> (#[trigger] ids[k])@ != ids[i]@) && settings.custom_title@.len() == 0)
            ==> view.title@ == apps[i].app_name@ && text::text_of(after.last_name) == Some(
            apps[i].app_name@,
        ),
        settings.custom_title@.len() > 0 ==> view.title@ == settings.custom_title@,
        view.target_id is None ==> text::text_of(after.last_name) == text::text_of(
            before.last_name,
        ),
        after.last_icon == before.last_icon,
        after.icon_target_id == before.icon_target_id,
        after.last_frame == before.last_frame,
{
    let current = text::text_of(before.active_target_id);
    group_shows_one_active_target(
        view,
        apps,
        ids,
        settings.targets(),
        current,
        text::text_of(before.last_icon),
        text::text_of(before.icon_target_id),
        i,
    );
    dial::lemma_active_streams(settings.targets(), current, apps, ids, i);
}

/// Chooses what a button shows. Its number is one where its applications are
/// in focus, else zero.
pub fn selector_snapshot(
    state: &mut SelectorRuntime,
    settings: &ApplicationSelectorButtonSettings,
    apps: &[AppInfo],
    ids: &[String],
    focused: bool,
) -> (res: GroupView)
    requires
        apps@.len() == ids@.len(),
    ensures
        is_selector_snapshot(*old(state), *final(state), res, *settings, apps@, ids@, focused),
{
    let targets = settings.target_ids();
    assert(text::texts(targets@).len() == targets@.len());
    let current: Option<&str> = match &state.active_target_id {
        Some(id) => Some(id.as_str()),
        None => None,
    };
    let target_id = arbitrate_active(targets.as_slice(), ids, current);
    let members = members_of(ids, &target_id);
    let last_name = name_to_show(apps, members.as_slice(), &state.last_name);
    let name: Option<&str> = match &last_name {
        Some(name) => Some(name.as_str()),
        None => None,
    };
    let title = selector_title(settings, name);
    let muted = members.len() > 0 && is_all_muted(apps, members.as_slice());
    proof {
        if members@.len() > 0 {
            assert(members@[0] < ids@.len());
        }
    }
    let icon = group_icon(
        members.as_slice(),
        &target_id,
        &state.last_icon,
        &state.icon_target_id,
    );
    state.active_target_id = copy_option(&target_id);
    state.last_name = last_name;
    GroupView {
        configured: targets.len() > 0,
        available: members.len() > 0,
        target_id,
        title,
        members,
        muted,
        icon,
        focus_generation: if focused {
            1
        } else {
            0
        },
    }
}

/// Notes the icon that was found for a button.
pub fn selector_icon_resolved(state: &mut SelectorRuntime, icon: String, target_id: String)
    ensures
        final(state).last_icon == Some(icon),
        final(state).icon_target_id == Some(target_id),
        final(state).active_target_id == old(state).active_target_id,
        final(state).last_name == old(state).last_name,
        final(state).last_frame == old(state).last_frame,
{
    state.last_icon = Some(icon);
    state.icon_target_id = Some(target_id);
}

/// A text for all that a button shows: its icon, its title, whether it is
/// dimmed, and whether it is in focus.
pub open spec fn frame_text(icon: Seq<char>, title: Seq<char>, available: bool, focused: bool) -> Seq<
    char,
> {
    icon + ":"@ + title + ":"@ + (if available {
        "1"@
    } else {
        "0.4"@
    }) + ":"@ + (if focused {
        "true"@
    } else {
        "false"@
    })
}

/// Buttons that look different have different texts: where the icon and the
/// title are the same, the text tells whether the button is dimmed and whether
/// it is in focus; and where all else is the same, it tells the icons and the
/// titles apart.
pub proof fn button_texts_tell_states_apart(
    icon: Seq<char>,
    title: Seq<char>,
    available: bool,
    focused: bool,
    other_icon: Seq<char>,
    other_title: Seq<char>,
    other_available: bool,
    other_focused: bool,
)
    ensures
        frame_text(icon, title, available, focused) == frame_text(
            icon,
            title,
            other_available,
            other_focused,
        ) ==> available == other_available && focused == other_focused,
        frame_text(icon, title, available, focused) == frame_text(
            icon,
            other_title,
            available,
            focused,
        ) ==> title == other_title,
        frame_text(icon, title, available, focused) == frame_text(
            other_icon,
            title,
            available,
            focused,
        ) ==> icon == other_icon,
{
    reveal_strlit("1");
    reveal_strlit("0.4");
    reveal_strlit("true");
    reveal_strlit("false");
    reveal_strlit(":");
    let a = frame_text(icon, title, available, focused);
    let b = frame_text(icon, title, other_available, other_focused);
    if a == b {
        let n = icon.len() + title.len() + 2;
        assert(a.last() == 'e' && b.last() == 'e');
        assert(a[n as int] == (if available {
            '1'
        } else {
            '0'
        }));
        assert(b[n as int] == (if other_available {
            '1'
        } else {
            '0'
        }));
        assert(a.len() == b.len());
    }
    let c = frame_text(icon, other_title, available, focused);
    if a == c {
        let n = icon.len() as int + 1;
        assert(a.len() == c.len());
        assert(a.subrange(n, n + title.len()) =~= title);
        assert(c.subrange(n, n + other_title.len()) =~= other_title);
    }
    let d = frame_text(other_icon, title, available, focused);
    if a == d {
        assert(a.len() == d.len());
        assert(a.subrange(0, icon.len() as int) =~= icon);
        assert(d.subrange(0, other_icon.len() as int) =~= other_icon);
    }
}

/// A text for all that a button shows, to tell whether it shows it already.
pub fn selector_frame(icon: &str, title: &str, available: bool, focused: bool) -> (res: String)
    ensures
        res@ == frame_text(icon@, title@, available, focused),
{
    let mut frame = join(icon, ":");
    frame = join(frame.as_str(), title);
    frame = join(frame.as_str(), ":");
    frame = join(
        frame.as_str(),
        if available {
            "1"
        } else {
            "0.4"
        },
    );
    frame = join(frame.as_str(), ":");
    join(
        frame.as_str(),
        if focused {
            "true"
        } else {
            "false"
        },
    )
}

/// The title as a button shows it: with a dot before it where it is in focus.
pub fn marked_title(title: &str, focused: bool) -> (res: String)
    ensures
        res@ == if focused {
            "\u{25cf} "@ + title@
        } else {
            title@
        },
{
    if focused {
        join("\u{25cf} ", title)
    } else {
        title.to_owned()
    }
}

// ---------------------------------------------------------------------
// What is in focus
// ---------------------------------------------------------------------

/// What is in focus in a group, where something is.
pub fn focus_of(focus: &FocusTable, identity: &FocusIdentity) -> (res: Option<FocusState>)
    ensures
        match res {
            Some(state) => focus@.contains_key(identity@) && same_state(state, focus@[identity@]),
            None => !focus@.contains_key(identity@),
        },
{
    match focus.get(identity) {
        Some(state) => Some(state.clone()),
        None => None,
    }
}

/// The number of what is in focus in a group, or zero.
pub fn focus_generation(focus: &FocusTable, identity: &FocusIdentity) -> (res: u64)
    ensures
        res == if focus@.contains_key(identity@) {
            focus@[identity@].generation
        } else {
            0
        },
{
    match focus.get(identity) {
        Some(state) => state.generation,
        None => 0,
    }
}

/// Whether this is what is shown of a group in which `seen` is in focus, or
/// nothing, and the name to remember.
pub open spec fn is_focus_snapshot(
    view: GroupView,
    last_name: Option<String>,
    seen: Option<FocusState>,
    apps: Seq<AppInfo>,
    ids: Seq<String>,
) -> bool {
    match seen {
        Some(state) => {
            let targets = text::texts(state.target_ids@);
            let target = dial::active_of(
                targets,
                text::texts(ids),
                text::text_of(state.active_target_id),
            );
            &&& is_group_view(
                view,
                apps,
                ids,
                targets,
                target,
                text::text_of(state.last_icon),
                text::text_of(state.icon_target_id),
            )
            &&& text::text_of(last_name) == shown_name(
                apps,
                view.members@,
                text::text_of(state.last_name),
            )
            &&& view.title@ == feedback::title_of(
                state.custom_title@,
                match text::text_of(last_name) {
                    Some(name) => name,
                    None => "Unavailable"@,
                },
            )
            &&& view.focus_generation == state.generation
        },
        None => {
            &&& !view.configured
            &&& !view.available
            &&& !view.muted
            &&& view.target_id is None
            &&& view.members@.len() == 0
            &&& view.title@ == "Select app"@
            &&& view.icon == IconNeed::Fallback
            &&& view.focus_generation == 0
            &&& last_name is None
        },
    }
}

/// What is shown of what is in focus follows its active target as a dial does,
/// under the button's own title wherever it has one, and else under the name
/// of what plays. Where nothing is in focus, the user is asked to choose.
pub proof fn focus_is_shown(
    view: GroupView,
    last_name: Option<String>,
    seen: Option<FocusState>,
    apps: Seq<AppInfo>,
    ids: Seq<String>,
    i: int,
)
    requires
        apps.len() == ids.len() <= usize::MAX,
        0 <= i < ids.len(),
        is_focus_snapshot(view, last_name, seen, apps, ids),
    ensures
        seen is None ==> !view.available && !view.muted && !view.configured && view.title@
            == "Select app"@ && view.members@.len() == 0 && view.focus_generation == 0
            && view.target_id is None && view.icon is Fallback && last_name is None,
        seen matches Some(state) ==> {
            &&& view.focus_generation == state.generation
            &&& view.available <==> view.target_id is Some
            &&& view.target_id matches Some(id) ==> text::texts(state.target_ids@).contains(id@)
                && text::texts(ids).contains(id@)
            &&& text::texts(state.target_ids@).contains(ids[i]@) ==> view.available
            &&& view.members@.contains(i as usize) <==> text::text_of(view.target_id) == Some(
                ids[i]@,
            )
            &&& text::text_of(view.target_id) == Some(ids[i]@) && !apps[i].mute ==> !view.muted
            &&& (text::text_of(view.target_id) == Some(ids[i]@) && forall|k: int|
                0 <= k < i ==> (#[trigger] ids[k])@ != ids[i]@) ==> {
                &&& text::text_of(last_name) == Some(apps[i].app_name@)
                &&& state.custom_title@.len() == 0 ==> view.title@ == apps[i].app_name@
                &&& text::text_of(state.icon_target_id) != Some(ids[i]@) ==> view.icon
                    == IconNeed::Resolve(i as usize)
            }
            &&& state.custom_title@.len() > 0 ==> view.title@ == state.custom_title@
            &&& view.target_id is None ==> text::text_of(last_name) == text::text_of(
                state.last_name,
            )
            &&& view.target_id is None && state.custom_title@.len() == 0 ==> view.title@
                == match state.last_name {
                Some(name) => name@,
                None => "Unavailable"@,
            }
        },
{
    if let Some(state) = seen {
        let targets = text::texts(state.target_ids@);
        let current = text::text_of(state.active_target_id);
        group_shows_one_active_target(
            view,
            apps,
            ids,
            targets,
            current,
            text::text_of(state.last_icon),
            text::text_of(state.icon_target_id),
            i,
        );
        dial::lemma_active_streams(targets, current, apps, ids, i);
    }
}

/// Chooses what is shown of a group in which `seen` is in focus, or nothing.
/// Gives also the name to remember.
pub fn focus_snapshot(seen: Option<&FocusState>, apps: &[AppInfo], ids: &[String]) -> (res: (
    GroupView,
    Option<String>,
))
    requires
        apps@.len() == ids@.len(),
    ensures
        is_focus_snapshot(
            res.0,
            res.1,
            match seen {
                Some(state) => Some(*state),
                None => None,
            },
            apps@,
            ids@,
        ),
{
    let state = match seen {
        Some(state) => state,
        None => {
            return (
                GroupView {
                    configured: false,
                    available: false,
                    target_id: None,
                    title: "Select app".to_owned(),
                    members: Vec::new(),
                    muted: false,
                    icon: IconNeed::Fallback,
                    focus_generation: 0,
                },
                None,
            );
        },
    };
    assert(text::texts(state.target_ids@).len() == state.target_ids@.len());
    let current: Option<&str> = match &state.active_target_id {
        Some(id) => Some(id.as_str()),
        None => None,
    };
    let target_id = arbitrate_active(state.target_ids.as_slice(), ids, current);
    let members = members_of(ids, &target_id);
    let last_name = name_to_show(apps, members.as_slice(), &state.last_name);
    let automatic = match &last_name {
        Some(name) => name.clone(),
        None => "Unavailable".to_owned(),
    };
    let title = choose_title(state.custom_title.as_str(), automatic.as_str()).to_owned();
    let muted = members.len() > 0 && is_all_muted(apps, members.as_slice());
    proof {
        if members@.len() > 0 {
            assert(members@[0] < ids@.len());
        }
    }
    let icon = group_icon(
        members.as_slice(),
        &target_id,
        &state.last_icon,
        &state.icon_target_id,
    );
    (
        GroupView {
            configured: state.target_ids.len() > 0,
            available: members.len() > 0,
            target_id,
            title,
            members,
            muted,
            icon,
            focus_generation: state.generation,
        },
        last_name,
    )
}

/// What was learnt of the applications in focus.
#[derive(Debug)]
pub struct FocusUpdate {
    pub active_target_id: Option<String>,
    pub last_name: Option<String>,
    pub last_icon: Option<String>,
    pub icon_target_id: Option<String>,
}

/// Whether this is learnt from what is shown of the applications in focus:
/// their active target and name, and their icon where it was looked for.
pub open spec fn is_learnt(
    update: FocusUpdate,
    seen: FocusState,
    view: GroupView,
    last_name: Option<Seq<char>>,
    ids: Seq<String>,
    icon: Seq<char>,
) -> bool {
    &&& text::text_of(update.active_target_id) == text::text_of(view.target_id)
    &&& text::text_of(update.last_name) == last_name
    &&& match view.icon {
        IconNeed::Resolve(place) => {
            &&& text::text_of(update.last_icon) == Some(icon)
            &&& text::text_of(update.icon_target_id) == Some(ids[place as int]@)
        },
        _ => {
            &&& text::text_of(update.last_icon) == text::text_of(seen.last_icon)
            &&& text::text_of(update.icon_target_id) == text::text_of(seen.icon_target_id)
        },
    }
}

/// What is learnt from what is shown of the applications in focus.
pub fn focus_update(
    seen: &FocusState,
    view: &GroupView,
    last_name: Option<String>,
    ids: &[String],
    icon: &str,
) -> (res: FocusUpdate)
    requires
        view.icon matches IconNeed::Resolve(place) ==> place < ids@.len(),
    ensures
        is_learnt(res, *seen, *view, text::text_of(last_name), ids@, icon@),
{
    let (last_icon, icon_target_id) = match &view.icon {
        IconNeed::Resolve(place) => (Some(icon.to_owned()), Some(ids[*place].clone())),
        _ => (copy_option(&seen.last_icon), copy_option(&seen.icon_target_id)),
    };
    FocusUpdate {
        active_target_id: copy_option(&view.target_id),
        last_name,
        last_icon,
        icon_target_id,
    }
}

/// Whether an update says something else than what was seen.
pub open spec fn is_news(seen: FocusState, update: FocusUpdate) -> bool {
    text::text_of(seen.active_target_id) != text::text_of(update.active_target_id)
        || text::text_of(seen.last_name) != text::text_of(update.last_name) || text::text_of(
        seen.last_icon,
    ) != text::text_of(update.last_icon) || text::text_of(seen.icon_target_id) != text::text_of(
        update.icon_target_id,
    )
}

/// The state with what was learnt of it.
pub open spec fn updated(state: FocusState, update: FocusUpdate) -> FocusState {
    FocusState {
        active_target_id: update.active_target_id,
        last_name: update.last_name,
        last_icon: update.last_icon,
        icon_target_id: update.icon_target_id,
        ..state
    }
}

fn same_option(a: &Option<String>, b: &Option<String>) -> (res: bool)
    ensures
        res == (text::text_of(*a) == text::text_of(*b)),
{
    match (a, b) {
        (Some(x), Some(y)) => same(x.as_str(), y.as_str()),
        (None, None) => true,
        _ => false,
    }
}

/// What is in focus once it is noted what was learnt of what was seen there.
pub open spec fn focus_with(
    focus: Map<(Seq<char>, Seq<char>), FocusState>,
    identity: (Seq<char>, Seq<char>),
    seen: FocusState,
    update: FocusUpdate,
) -> Map<(Seq<char>, Seq<char>), FocusState> {
    if is_news(seen, update) && focus.contains_key(identity) && focus[identity].generation
        == seen.generation && focus[identity].selector_id@ == seen.selector_id@ {
        focus.insert(identity, updated(focus[identity], update))
    } else {
        focus
    }
}

/// What was learnt is noted for what it was learnt of, and for nothing else:
/// not where something else came into focus since, and in no other group. What
/// the user chose stays as it is.
pub proof fn learning_does_not_touch_a_newer_focus(
    focus: Map<(Seq<char>, Seq<char>), FocusState>,
    identity: (Seq<char>, Seq<char>),
    other: (Seq<char>, Seq<char>),
    seen: FocusState,
    update: FocusUpdate,
)
    requires
        focus.contains_key(identity),
        other != identity,
    ensures
        ({
            let after = focus_with(focus, identity, seen, update);
            let now = after[identity];
            let was = focus[identity];
            &&& after.contains_key(identity)
            &&& was.generation != seen.generation || was.selector_id@ != seen.selector_id@ ==> now
                == was
            &&& same_state(seen, was) ==> {
                &&& text::text_of(now.active_target_id) == text::text_of(update.active_target_id)
                &&& text::text_of(now.last_name) == text::text_of(update.last_name)
                &&& text::text_of(now.last_icon) == text::text_of(update.last_icon)
                &&& text::text_of(now.icon_target_id) == text::text_of(update.icon_target_id)
            }
            &&& now.generation == was.generation
            &&& now.selector_id == was.selector_id
            &&& now.target_ids == was.target_ids
            &&& now.custom_title == was.custom_title
            &&& after.contains_key(other) == focus.contains_key(other)
            &&& focus.contains_key(other) ==> after[other] == focus[other]
        }),
{
}

/// An icon that was looked for is remembered for the application it was found
/// for, and one that was not looked for stays with its own.
pub proof fn learnt_icon_belongs_to_its_application(
    update: FocusUpdate,
    seen: FocusState,
    view: GroupView,
    last_name: Option<Seq<char>>,
    ids: Seq<String>,
    icon: Seq<char>,
)
    requires
        is_learnt(update, seen, view, last_name, ids, icon),
    ensures
        view.icon matches IconNeed::Resolve(place) ==> text::text_of(update.last_icon) == Some(icon)
            && text::text_of(update.icon_target_id) == Some(ids[place as int]@),
        !(view.icon is Resolve) ==> text::text_of(update.last_icon) == text::text_of(seen.last_icon)
            && text::text_of(update.icon_target_id) == text::text_of(seen.icon_target_id),
        text::text_of(update.active_target_id) == text::text_of(view.target_id),
        text::text_of(update.last_name) == last_name,
{
}

/// Notes what was learnt of the applications that were seen in focus, unless
/// something else has come into focus since.
pub fn update_focus(
    focus: &mut FocusTable,
    identity: &FocusIdentity,
    seen: &FocusState,
    update: FocusUpdate,
)
    ensures
        final(focus)@ == focus_with(old(focus)@, identity@, *seen, update),
{
    let known = same_option(&seen.active_target_id, &update.active_target_id) && same_option(
        &seen.last_name,
        &update.last_name,
    ) && same_option(&seen.last_icon, &update.last_icon) && same_option(
        &seen.icon_target_id,
        &update.icon_target_id,
    );
    if known {
        return;
    }
    let current = match focus.get(identity) {
        Some(state) => state.generation == seen.generation && same(
            state.selector_id.as_str(),
            seen.selector_id.as_str(),
        ),
        None => false,
    };
    if current {
        if let Some(mut state) = focus.remove(identity) {
            state.active_target_id = update.active_target_id;
            state.last_name = update.last_name;
            state.last_icon = update.last_icon;
            state.icon_target_id = update.icon_target_id;
            focus.insert(identity.clone(), state);
        }
        assert(focus@ =~= old(focus)@.insert(
            identity@,
            updated(old(focus)@[identity@], update),
        ));
    }
}

/// Whether the button and its settings are the ones in focus already.
pub open spec fn is_same_selection(
    state: FocusState,
    selector: Seq<char>,
    settings: ApplicationSelectorButtonSettings,
) -> bool {
    state.selector_id@ == selector && text::texts(state.target_ids@) == settings.targets()
        && state.custom_title@ == settings.custom_title@
}

/// Whether this is the state after a button put its applications into focus
/// in a group, where `previous` was in focus before.
pub open spec fn is_focused_state(
    state: FocusState,
    previous: Option<FocusState>,
    selector: Seq<char>,
    settings: ApplicationSelectorButtonSettings,
    target: Option<Seq<char>>,
    icon: Seq<char>,
) -> bool {
    &&& state.selector_id@ == selector
    &&& text::texts(state.target_ids@) == settings.targets()
    &&& state.custom_title@ == settings.custom_title@
    &&& text::text_of(state.active_target_id) == if target is Some {
        target
    } else {
        match previous {
            Some(before) => text::text_of(before.active_target_id),
            None => None,
        }
    }
    &&& text::text_of(state.last_name) == match previous {
        Some(before) => text::text_of(before.last_name),
        None => None,
    }
    &&& text::text_of(state.last_icon) == Some(icon)
    &&& text::text_of(state.icon_target_id) == match previous {
        Some(before) => text::text_of(before.icon_target_id),
        None => None,
    }
    &&& state.generation == match previous {
        Some(before) => if is_same_selection(before, selector, settings) {
            before.generation
        } else {
            feedback::following(before.generation)
        },
        None => 1u64,
    }
}

/// Puts the applications of a button into focus in its group. `target` and
/// `icon` are what the button shows. A button without targets puts nothing
/// into focus. Tells whether it did.
pub fn focus_selector(
    focus: &mut FocusTable,
    identity: &FocusIdentity,
    selector: &str,
    settings: &ApplicationSelectorButtonSettings,
    target: &Option<String>,
    icon: &str,
) -> (res: bool)
    ensures
        res == (settings.targets().len() > 0),
        !res ==> final(focus)@ == old(focus)@,
        res ==> {
            &&& final(focus)@.contains_key(identity@)
            &&& final(focus)@ == old(focus)@.insert(identity@, final(focus)@[identity@])
            &&& is_focused_state(
                final(focus)@[identity@],
                if old(focus)@.contains_key(identity@) {
                    Some(old(focus)@[identity@])
                } else {
                    None
                },
                selector@,
                *settings,
                text::text_of(*target),
                icon@,
            )
        },
{
    let targets = settings.target_ids();
    assert(text::texts(targets@).len() == targets@.len());
    if targets.len() == 0 {
        return false;
    }
    let previous = focus.remove(identity);
    let same_selector = match &previous {
        Some(state) => same(state.selector_id.as_str(), selector) && same_strings(
            state.target_ids.as_slice(),
            targets.as_slice(),
        ) && same(state.custom_title.as_str(), settings.custom_title.as_str()),
        None => false,
    };
    let (generation, before_target, last_name, icon_target_id): (
        u64,
        Option<String>,
        Option<String>,
        Option<String>,
    ) = match previous {
        Some(state) => (
            state.generation,
            state.active_target_id,
            state.last_name,
            state.icon_target_id,
        ),
        None => (0, None, None, None),
    };
    let active_target_id = match target {
        Some(id) => Some(id.clone()),
        None => before_target,
    };
    let state = FocusState {
        selector_id: selector.to_owned(),
        target_ids: targets,
        custom_title: settings.custom_title.clone(),
        active_target_id,
        last_name,
        last_icon: Some(icon.to_owned()),
        icon_target_id,
        generation: next_focus_generation(generation, same_selector),
    };
    focus.insert(identity.clone(), state);
    assert(focus@ =~= old(focus)@.insert(identity@, state));
    true
}

/// An order given before something else came into focus no longer stands, and
/// one given before the same button was pressed again does.
pub proof fn refocusing_rejects_older_orders(
    previous: FocusState,
    state: FocusState,
    selector: Seq<char>,
    settings: ApplicationSelectorButtonSettings,
    target: Option<Seq<char>>,
    icon: Seq<char>,
    sequence: u64,
)
    requires
        is_focused_state(state, Some(previous), selector, settings, target, icon),
    ensures
        order_stands(sequence, sequence, state.generation, previous.generation)
            == is_same_selection(previous, selector, settings),
{
    feedback::lemma_following_by(previous.generation, 1);
}

/// A button that is pressed puts its own applications into focus, under its own
/// title and with the icon that it shows; what it shows as active is active,
/// and what was active stays only where it shows nothing. The first focus of a
/// group has the number one; the same button again keeps the number, and
/// anything else gets another.
pub proof fn pressed_button_is_in_focus(
    state: FocusState,
    previous: Option<FocusState>,
    selector: Seq<char>,
    settings: ApplicationSelectorButtonSettings,
    target: Option<Seq<char>>,
    icon: Seq<char>,
)
    requires
        is_focused_state(state, previous, selector, settings, target, icon),
    ensures
        state.selector_id@ == selector,
        text::texts(state.target_ids@) == settings.targets(),
        state.custom_title@ == settings.custom_title@,
        text::text_of(state.last_icon) == Some(icon),
        target is Some ==> text::text_of(state.active_target_id) == target,
        target is None && previous is None ==> state.active_target_id is None,
        previous is None ==> state.last_name is None && state.icon_target_id is None,
        previous matches Some(before) ==> text::text_of(state.last_name) == text::text_of(
            before.last_name,
        ) && text::text_of(state.icon_target_id) == text::text_of(before.icon_target_id),
        target is None && previous is Some ==> text::text_of(state.active_target_id)
            == text::text_of(previous->0.active_target_id),
        previous is None ==> state.generation == 1,
        previous matches Some(before) ==> (state.generation == before.generation
            <==> before.selector_id@ == selector && text::texts(before.target_ids@)
            == settings.targets() && before.custom_title@ == settings.custom_title@),
{
}

/// Putting something into focus in one group of one device leaves all other
/// groups, and all other devices, as they are.
pub proof fn focus_is_isolated(
    before: Map<(Seq<char>, Seq<char>), FocusState>,
    state: FocusState,
    device: Seq<char>,
    group: Seq<char>,
    other_device: Seq<char>,
    other_group: Seq<char>,
)
    requires
        device != other_device || group_name(group) != group_name(other_group),
    ensures
        ({
            let after = before.insert((device, group_name(group)), state);
            let other = (other_device, group_name(other_group));
            &&& after.contains_key(other) == before.contains_key(other)
            &&& before.contains_key(other) ==> after[other] == before[other]
        }),
{
}

// ---------------------------------------------------------------------
// Keeping what is in focus
// ---------------------------------------------------------------------

/// What is kept of a focus group while the program does not run.
#[derive(Debug)]
pub struct PersistedFocus {
    pub identity: FocusIdentity,
    pub selector_id: String,
    pub target_ids: Vec<String>,
    pub custom_title: String,
}

/// Whether this is what is kept of a group.
pub open spec fn is_kept_focus(
    kept: PersistedFocus,
    identity: (Seq<char>, Seq<char>),
    state: FocusState,
) -> bool {
    &&& kept.identity@ == identity
    &&& kept.selector_id@ == state.selector_id@
    &&& text::texts(kept.target_ids@) == text::texts(state.target_ids@)
    &&& kept.custom_title@ == state.custom_title@
}

/// What is kept of all focus groups, one after the other.
pub fn persisted_focus(focus: &FocusTable) -> (res: Vec<PersistedFocus>)
    ensures
        res@.len() == focus.order().len(),
        focus.order().no_duplicates(),
        forall|k: (Seq<char>, Seq<char>)|
            focus@.contains_key(k) <==> #[trigger] focus.order().contains(k),
        forall|i: int|
            0 <= i < res@.len() ==> is_kept_focus(
                #[trigger] res@[i],
                focus.order()[i],
                focus@[focus.order()[i]],
            ),
{
    let n: usize = focus.len();
    let mut out: Vec<PersistedFocus> = Vec::new();
    let mut i: usize = 0;
    while i < n
        invariant
            i <= n,
            n == focus.order().len(),
            out@.len() == i,
            forall|k: int|
                0 <= k < i ==> is_kept_focus(
                    #[trigger] out@[k],
                    focus.order()[k],
                    focus@[focus.order()[k]],
                ),
        decreases n - i,
    {
        let state = focus.value_at(i);
        out.push(
            PersistedFocus {
                identity: focus.key_at(i).clone(),
                selector_id: state.selector_id.clone(),
                target_ids: copy_strings(state.target_ids.as_slice()),
                custom_title: state.custom_title.clone(),
            },
        );
        i += 1;
    }
    out
}

/// The state of a group from what was kept of it.
pub open spec fn restored(kept: PersistedFocus) -> FocusState {
    FocusState {
        selector_id: kept.selector_id,
        target_ids: kept.target_ids,
        custom_title: kept.custom_title,
        active_target_id: None,
        last_name: None,
        last_icon: None,
        icon_target_id: None,
        generation: 0,
    }
}

/// What is in focus after all that was kept has been loaded.
pub open spec fn loaded(
    focus: Map<(Seq<char>, Seq<char>), FocusState>,
    values: Seq<PersistedFocus>,
) -> Map<(Seq<char>, Seq<char>), FocusState>
    decreases values.len(),
{
    if values.len() == 0 {
        focus
    } else {
        loaded(focus, values.drop_last()).insert(
            values.last().identity@,
            restored(values.last()),
        )
    }
}

/// Puts into focus what was kept.
pub fn load_persisted_focus(focus: &mut FocusTable, values: Vec<PersistedFocus>)
    ensures
        final(focus)@ == loaded(old(focus)@, values@),
{
    let ghost all = values@;
    let ghost start = focus@;
    let mut rest = values;
    let ghost mut done: int = 0;
    assert(all.take(0) =~= Seq::empty());
    assert(all.skip(0) =~= all);
    while rest.len() > 0
        invariant
            0 <= done <= all.len(),
            rest@ == all.skip(done),
            focus@ == loaded(start, all.take(done)),
        decreases rest@.len(),
    {
        let value = rest.remove(0);
        proof {
            assert(value == all[done]);
            assert(all.take(done + 1).drop_last() =~= all.take(done));
            assert(all.skip(done).remove(0) =~= all.skip(done + 1));
        }
        focus.insert(
            value.identity,
            FocusState {
                selector_id: value.selector_id,
                target_ids: value.target_ids,
                custom_title: value.custom_title,
                active_target_id: None,
                last_name: None,
                last_icon: None,
                icon_target_id: None,
                generation: 0,
            },
        );
        proof {
            done = done + 1;
        }
    }
    assert(all.take(done) =~= all);
}

proof fn lemma_loaded(
    focus: Map<(Seq<char>, Seq<char>), FocusState>,
    values: Seq<PersistedFocus>,
    i: int,
)
    requires
        0 <= i < values.len(),
        forall|a: int, b: int|
            #![trigger values[a], values[b]]
            0 <= a < b < values.len() ==> values[a].identity@ != values[b].identity@,
    ensures
        loaded(focus, values).contains_key(values[i].identity@),
        loaded(focus, values)[values[i].identity@] == restored(values[i]),
    decreases values.len(),
{
    if i < values.len() - 1 {
        let shorter = values.drop_last();
        assert forall|a: int, b: int|
            #![trigger shorter[a], shorter[b]]
            0 <= a < b < shorter.len() implies shorter[a].identity@ != shorter[b].identity@ by {
            assert(values[a].identity@ != values[b].identity@);
        }
        lemma_loaded(focus, shorter, i);
        assert(shorter[i] == values[i]);
        assert(values[i].identity@ != values[values.len() - 1].identity@);
    }
}

/// What was kept of a group comes back when it is loaded: the button, its
/// targets in order, and its title.
pub proof fn kept_focus_comes_back(
    focus: Map<(Seq<char>, Seq<char>), FocusState>,
    order: Seq<(Seq<char>, Seq<char>)>,
    values: Seq<PersistedFocus>,
    empty: Map<(Seq<char>, Seq<char>), FocusState>,
    i: int,
)
    requires
        values.len() == order.len(),
        order.no_duplicates(),
        forall|k: int|
            0 <= k < values.len() ==> is_kept_focus(
                #[trigger] values[k],
                order[k],
                focus[order[k]],
            ),
        0 <= i < order.len(),
    ensures
        loaded(empty, values).contains_key(order[i]),
        ({
            let back = loaded(empty, values)[order[i]];
            &&& back.selector_id@ == focus[order[i]].selector_id@
            &&& text::texts(back.target_ids@) == text::texts(focus[order[i]].target_ids@)
            &&& back.custom_title@ == focus[order[i]].custom_title@
        }),
{
    assert forall|a: int, b: int|
        #![trigger values[a], values[b]]
        0 <= a < b < values.len() implies values[a].identity@ != values[b].identity@ by {
        assert(is_kept_focus(values[a], order[a], focus[order[a]]));
        assert(is_kept_focus(values[b], order[b], focus[order[b]]));
    }
    lemma_loaded(empty, values, i);
    assert(is_kept_focus(values[i], order[i], focus[order[i]]));
}

/// What comes back of a group is what the user chose, and nothing that was
/// learnt since; groups of which nothing was kept stay as they are.
pub proof fn loading_forgets_what_was_learnt(
    focus: Map<(Seq<char>, Seq<char>), FocusState>,
    kept: PersistedFocus,
    other: (Seq<char>, Seq<char>),
)
    requires
        other != kept.identity@,
    ensures
        ({
            let after = loaded(focus, seq![kept]);
            let back = after[kept.identity@];
            &&& after.contains_key(kept.identity@)
            &&& back.selector_id@ == kept.selector_id@
            &&& back.target_ids@ == kept.target_ids@
            &&& back.custom_title@ == kept.custom_title@
            &&& back.active_target_id is None
            &&& back.last_name is None
            &&& back.last_icon is None
            &&& back.icon_target_id is None
            &&& back.generation == 0
            &&& after.contains_key(other) <==> focus.contains_key(other)
            &&& focus.contains_key(other) ==> after[other] == focus[other]
        }),
{
    let one = seq![kept];
    assert(one.drop_last() =~= Seq::empty());
    assert(one.last() == kept);
    assert(loaded(focus, one.drop_last()) == focus);
}

/// A button is in focus exactly where it was the last one pressed in its group.
pub proof fn last_pressed_button_is_in_focus(
    focus: Map<(Seq<char>, Seq<char>), FocusState>,
    identity: (Seq<char>, Seq<char>),
    state: FocusState,
    other_identity: (Seq<char>, Seq<char>),
    selector: Seq<char>,
)
    requires
        other_identity != identity,
    ensures
        is_in_focus(focus.insert(identity, state), identity, selector) <==> state.selector_id@
            == selector,
        is_in_focus(focus.insert(identity, state), other_identity, selector) == is_in_focus(
            focus,
            other_identity,
            selector,
        ),
        !focus.contains_key(identity) ==> !is_in_focus(focus, identity, selector),
{
}

// ---------------------------------------------------------------------
// Which buttons and dials are shown again
// ---------------------------------------------------------------------

/// Whether a button or dial of this device and group belongs to the focus
/// group.
pub fn belongs_to(identity: &FocusIdentity, device_id: &str, group: &str) -> (res: bool)
    ensures
        res == (device_id@ == identity.device_id@ && group@ == identity.focus_group@),
{
    same(device_id, identity.device_id.as_str()) && same(group, identity.focus_group.as_str())
}

/// Whether a change of one of these applications concerns a button.
pub fn selector_is_affected(settings: &ApplicationSelectorButtonSettings, changed: &[String]) -> (
res: bool)
    ensures
        res == exists|i: int|
            0 <= i < settings.targets().len() && text::texts(changed@).contains(
                #[trigger] settings.targets()[i],
            ),
{
    let targets = settings.target_ids();
    shares_id(targets.as_slice(), changed)
}

/// Whether a change of one of these applications concerns what is in focus.
pub open spec fn focus_is_affected(state: FocusState, changed: Seq<Seq<char>>) -> bool {
    exists|i: int|
        0 <= i < text::texts(state.target_ids@).len() && changed.contains(
            #[trigger] text::texts(state.target_ids@)[i],
        )
}

/// Those of the focus groups that a change of these applications concerns.
pub open spec fn affected_among(
    order: Seq<(Seq<char>, Seq<char>)>,
    focus: Map<(Seq<char>, Seq<char>), FocusState>,
    changed: Seq<Seq<char>>,
) -> Seq<(Seq<char>, Seq<char>)>
    decreases order.len(),
{
    if order.len() == 0 {
        Seq::empty()
    } else {
        let rest = affected_among(order.drop_last(), focus, changed);
        if focus_is_affected(focus[order.last()], changed) {
            rest.push(order.last())
        } else {
            rest
        }
    }
}

/// A focus group is shown again exactly where one of its targets changed.
pub proof fn only_concerned_groups_are_shown_again(
    order: Seq<(Seq<char>, Seq<char>)>,
    focus: Map<(Seq<char>, Seq<char>), FocusState>,
    changed: Seq<Seq<char>>,
    group: (Seq<char>, Seq<char>),
)
    ensures
        affected_among(order, focus, changed).contains(group) <==> order.contains(group) && exists|
            id: Seq<char>,
        | #[trigger]
            changed.contains(id) && text::texts(focus[group].target_ids@).contains(id),
    decreases order.len(),
{
    let all = affected_among(order, focus, changed);
    if order.len() > 0 {
        let before = order.drop_last();
        let last = order.last();
        let rest = affected_among(before, focus, changed);
        only_concerned_groups_are_shown_again(before, focus, changed, group);
        let targets = text::texts(focus[last].target_ids@);
        if focus_is_affected(focus[last], changed) {
            let i = choose|i: int| 0 <= i < targets.len() && changed.contains(#[trigger] targets[i]);
            assert(targets.contains(targets[i]));
            assert(all.last() == last);
            assert(all[all.len() - 1] == last);
        }
        if all.contains(group) {
            let k = choose|k: int| 0 <= k < all.len() && all[k] == group;
            if k < rest.len() {
                assert(rest[k] == group);
                assert(rest.contains(group));
                let m = choose|m: int| 0 <= m < before.len() && before[m] == group;
                assert(order[m] == group);
            } else {
                assert(order[order.len() - 1] == group);
            }
        }
        if order.contains(group) && exists|id: Seq<char>| #[trigger]
            changed.contains(id) && text::texts(focus[group].target_ids@).contains(id) {
            let id = choose|id: Seq<char>| #[trigger]
                changed.contains(id) && text::texts(focus[group].target_ids@).contains(id);
            let m = choose|m: int| 0 <= m < order.len() && order[m] == group;
            if m < before.len() {
                assert(before[m] == group);
                assert(rest.contains(group));
                let k = choose|k: int| 0 <= k < rest.len() && rest[k] == group;
                assert(all[k] == group);
            } else {
                let own = text::texts(focus[group].target_ids@);
                let i = choose|i: int| 0 <= i < own.len() && own[i] == id;
                assert(changed.contains(targets[i]));
                assert(focus_is_affected(focus[last], changed));
            }
        }
    }
}

/// What the focus groups of a list are.
pub open spec fn identities(list: Seq<FocusIdentity>) -> Seq<(Seq<char>, Seq<char>)> {
    list.map_values(|identity: FocusIdentity| identity@)
}

/// The focus groups that a change of these applications concerns.
pub fn affected_groups(focus: &FocusTable, changed: &[String]) -> (res: Vec<FocusIdentity>)
    ensures
        identities(res@) == affected_among(focus.order(), focus@, text::texts(changed@)),
{
    let n: usize = focus.len();
    let ghost order = focus.order();
    let mut out: Vec<FocusIdentity> = Vec::new();
    let mut i: usize = 0;
    assert(identities(out@) =~= affected_among(order.take(0), focus@, text::texts(changed@)));
    while i < n
        invariant
            i <= n,
            n == order.len(),
            order == focus.order(),
            identities(out@) == affected_among(
                order.take(i as int),
                focus@,
                text::texts(changed@),
            ),
        decreases n - i,
    {
        let ghost before = identities(out@);
        assert(order.take(i + 1).drop_last() =~= order.take(i as int));
        let state = focus.value_at(i);
        if shares_id(state.target_ids.as_slice(), changed) {
            let identity = focus.key_at(i).clone();
            out.push(identity);
            assert(identities(out@) =~= before.push(identity@));
        }
        i += 1;
    }
    assert(order.take(i as int) =~= order);
    out
}

// ---------------------------------------------------------------------
// Dials
// ---------------------------------------------------------------------

/// What a dial remembers.
#[derive(Debug)]
pub struct DialRuntime {
    pub render: RenderRuntime,
    pub layout_initialized: bool,
    pub last_feedback: Option<DialFeedback>,
    pub prediction: Option<VolumePrediction>,
    pub mute_prediction: Option<MutePrediction>,
    pub command_sequence: u64,
}

impl Default for DialRuntime {
    fn default() -> (res: Self)
        ensures
            res.render.generation == 0,
            !res.layout_initialized,
            res.last_feedback is None,
            res.prediction is None,
            res.mute_prediction is None,
            res.command_sequence == 0,
    {
        DialRuntime {
            render: RenderRuntime { generation: 0 },
            layout_initialized: false,
            last_feedback: None,
            prediction: None,
            mute_prediction: None,
            command_sequence: 0,
        }
    }
}

/// The title that a dial shows: its own, else that of the group in focus.
pub fn dial_title(settings: &DynamicApplicationDialSettings, group_title: &str) -> (res: String)
    ensures
        res@ == feedback::title_of(settings.custom_title@, group_title@),
{
    choose_title(settings.custom_title.as_str(), group_title).to_owned()
}

/// The value that a dial shows: that nothing is in focus, that what is in
/// focus is not there or muted, or else its volume, written as `shown`.
pub open spec fn dynamic_value(
    configured: bool,
    available: bool,
    muted: bool,
    shown: Seq<char>,
) -> Seq<char> {
    if !configured {
        "Select app"@
    } else {
        dial::value_of(available, muted, shown)
    }
}

/// The value that a dial shows.
pub fn dynamic_value_text(configured: bool, available: bool, muted: bool, shown: &str) -> (res:
    String)
    ensures
        res@ == dynamic_value(configured, available, muted, shown@),
{
    if !configured {
        "Select app".to_owned()
    } else if !available {
        "Unavailable".to_owned()
    } else if muted {
        "Muted".to_owned()
    } else {
        shown.to_owned()
    }
}

/// What is seen of a dial that shows this of what is in focus, muted or not,
/// with this icon, the volume written as `shown` and so much of the bar
/// filled.
pub open spec fn dynamic_frame(
    view: GroupView,
    settings: DynamicApplicationDialSettings,
    muted: bool,
    icon: Seq<char>,
    shown: Seq<char>,
    progress: u8,
) -> Frame {
    feedback::frame_with(
        icon,
        feedback::title_of(settings.custom_title@, view.title@),
        dynamic_value(view.configured, view.available, muted, shown),
        progress,
        !view.available || muted,
    )
}

/// What a dial shows of what is in focus.
pub fn dynamic_feedback(
    view: &GroupView,
    settings: &DynamicApplicationDialSettings,
    muted: bool,
    icon: String,
    shown: &str,
    progress: u8,
) -> (res: DialFeedback)
    ensures
        res@ == dynamic_frame(*view, *settings, muted, icon@, shown@, progress),
{
    build_feedback(
        icon,
        dial_title(settings, view.title.as_str()),
        dynamic_value_text(view.configured, view.available, muted, shown),
        progress,
        is_dimmed(view.available, muted),
    )
}

/// A dial shows the icon and the part of the bar that it is given, and its own
/// title wherever it has one. Its value is the volume while something in focus
/// plays unmuted, and only then is nothing dimmed; else it tells what is
/// missing.
pub proof fn dial_tells_the_state_of_the_focus(
    view: GroupView,
    settings: DynamicApplicationDialSettings,
    muted: bool,
    icon: Seq<char>,
    shown: Seq<char>,
    progress: u8,
    feedback: DialFeedback,
)
    requires
        feedback@ == dynamic_frame(view, settings, muted, icon, shown, progress),
    ensures
        feedback.icon.value@ == icon,
        feedback.title.value@ == if settings.custom_title@.len() > 0 {
            settings.custom_title@
        } else {
            view.title@
        },
        feedback.indicator.value == progress,
        !view.configured ==> feedback.value.value@ == "Select app"@,
        view.configured && !view.available ==> feedback.value.value@ == "Unavailable"@,
        view.configured && view.available && muted ==> feedback.value.value@ == "Muted"@,
        view.configured && view.available && !muted ==> feedback.value.value@ == shown,
        feedback.icon.dimmed <==> !(view.available && !muted),
        feedback.title.dimmed <==> !(view.available && !muted),
        feedback.value.dimmed <==> !(view.available && !muted),
        feedback.indicator.dimmed <==> !(view.available && !muted),
{
}

/// One run through all that shows what is in focus: what is in focus before it
/// and after it, what the dial remembers before it and after it, and the view,
/// the volume and the mute state that come of it.
pub struct DynamicRender {
    pub seen: Option<FocusState>,
    pub view: GroupView,
    pub last_name: Option<String>,
    pub update: FocusUpdate,
    pub kept: Option<FocusState>,
    pub start: DialRuntime,
    pub finished: DialRuntime,
    pub volume: u64,
    pub muted: bool,
    pub difference: u64,
    pub volume_at: u64,
    pub mute_at: u64,
}

/// Whether this is a run through [`focus_snapshot`], [`focus_update`] and
/// [`update_focus`] where something is in focus, and the two functions that
/// reconcile what was predicted.
pub open spec fn is_dynamic_render(
    run: DynamicRender,
    apps: Seq<AppInfo>,
    ids: Seq<String>,
    confirmed: u64,
    pictures: spec_fn(AppInfo) -> Seq<char>,
    fallback: Seq<char>,
) -> bool {
    &&& is_focus_snapshot(run.view, run.last_name, run.seen, apps, ids)
    &&& match run.seen {
        Some(seen) => {
            &&& is_learnt(
                run.update,
                seen,
                run.view,
                text::text_of(run.last_name),
                ids,
                dial::icon_shown(run.view.icon, apps, pictures, fallback),
            )
            &&& run.kept == Some(
                if is_news(seen, run.update) {
                    updated(seen, run.update)
                } else {
                    seen
                },
            )
        },
        None => run.kept is None,
    }
    &&& (run.finished.prediction, run.volume) == feedback::reconciled_volume(
        run.start.prediction,
        confirmed,
        run.difference,
        run.view.focus_generation,
        run.volume_at,
    )
    &&& (run.finished.mute_prediction, run.muted) == feedback::reconciled_mute(
        run.start.mute_prediction,
        run.view.muted,
        run.view.focus_generation,
        run.mute_at,
    )
    &&& run.finished == (DialRuntime {
        prediction: run.finished.prediction,
        mute_prediction: run.finished.mute_prediction,
        ..run.start
    })
}

/// What is seen after a run, where `written` gives the text of a volume and
/// `filled` the part of the bar that it fills below a highest volume.
pub open spec fn frame_of_render(
    run: DynamicRender,
    settings: DynamicApplicationDialSettings,
    apps: Seq<AppInfo>,
    pictures: spec_fn(AppInfo) -> Seq<char>,
    fallback: Seq<char>,
    written: spec_fn(u64) -> Seq<char>,
    filled: spec_fn(u64, u16) -> u8,
) -> Frame {
    dynamic_frame(
        run.view,
        settings,
        run.muted,
        dial::icon_shown(run.view.icon, apps, pictures, fallback),
        written(run.volume),
        filled(run.volume, percent::highest(settings.maximum_volume)),
    )
}

/// Whether the same is in focus, or nothing both times.
pub open spec fn same_in_focus(a: Option<FocusState>, b: Option<FocusState>) -> bool {
    match (a, b) {
        (Some(a), Some(b)) => same_state(a, b),
        (None, None) => true,
        _ => false,
    }
}

/// Once what a dial shows of what is in focus was sent, showing it again sends
/// nothing, as long as the focus, the applications, the settings and what was
/// predicted stay the same.
pub proof fn unchanged_focus_is_not_sent_again(
    first: DynamicRender,
    sent: DialFeedback,
    second: DynamicRender,
    settings: DynamicApplicationDialSettings,
    apps: Seq<AppInfo>,
    ids: Seq<String>,
    confirmed: u64,
    pictures: spec_fn(AppInfo) -> Seq<char>,
    fallback: Seq<char>,
    written: spec_fn(u64) -> Seq<char>,
    filled: spec_fn(u64, u16) -> u8,
    generation: u64,
)
    requires
        apps.len() == ids.len() <= usize::MAX,
        is_dynamic_render(first, apps, ids, confirmed, pictures, fallback),
        sent@ == frame_of_render(first, settings, apps, pictures, fallback, written, filled),
        same_in_focus(second.seen, first.kept),
        second.start == (DialRuntime {
            layout_initialized: true,
            last_feedback: Some(sent),
            ..first.finished
        }),
        is_dynamic_render(second, apps, ids, confirmed, pictures, fallback),
        second.finished.prediction == first.finished.prediction,
        second.finished.mute_prediction == first.finished.mute_prediction,
    ensures
        feedback::step_of(
            generation,
            generation,
            second.finished.layout_initialized,
            feedback::seen_of(second.finished.last_feedback),
            frame_of_render(second, settings, apps, pictures, fallback, written, filled),
        ) == RenderStep::Unchanged,
{
    if let Some(seen) = first.seen {
        let targets = text::texts(seen.target_ids@);
        let current = text::text_of(seen.active_target_id);
        dial::active_target_is_sticky(targets, text::texts(ids), current);
        let target = dial::active_of(targets, text::texts(ids), current);
        dial::lemma_places(ids, target, ids.len());
        assert(second.view.members@ == first.view.members@);
        if first.view.members@.len() > 0 {
            let place = first.view.members@[0] as int;
            assert(target == Some(ids[place]@));
        }
    }
}

/// Notes the volume that a turn wishes for what is in focus, and gives the
/// number of the order.
pub fn note_turn(
    runtime: &mut DialRuntime,
    settings: &DynamicApplicationDialSettings,
    wished: u64,
    now: u64,
    focus_generation: u64,
) -> (res: u64)
    ensures
        final(runtime).prediction == Some(
            VolumePrediction {
                percent_bits: percent::target_of(
                    wished,
                    percent::highest(settings.maximum_volume),
                ),
                issued: now,
                focus_generation,
            },
        ),
        final(runtime).command_sequence == feedback::following(old(runtime).command_sequence),
        res == final(runtime).command_sequence,
        final(runtime).render == old(runtime).render,
        final(runtime).layout_initialized == old(runtime).layout_initialized,
        final(runtime).last_feedback == old(runtime).last_feedback,
        final(runtime).mute_prediction == old(runtime).mute_prediction,
{
    let target: u64 = clamp_target_percent(wished, settings.maximum());
    runtime.prediction =
    Some(VolumePrediction { percent_bits: target, issued: now, focus_generation });
    runtime.command_sequence = runtime.command_sequence.wrapping_add(1);
    runtime.command_sequence
}

/// Notes that what is in focus is about to be muted or unmuted.
pub fn note_mute(runtime: &mut DialRuntime, mute: bool, now: u64, focus_generation: u64)
    ensures
        final(runtime).mute_prediction == Some(
            MutePrediction { mute, issued: now, focus_generation },
        ),
        final(runtime).render == old(runtime).render,
        final(runtime).layout_initialized == old(runtime).layout_initialized,
        final(runtime).last_feedback == old(runtime).last_feedback,
        final(runtime).prediction == old(runtime).prediction,
        final(runtime).command_sequence == old(runtime).command_sequence,
{
    runtime.mute_prediction = Some(MutePrediction { mute, issued: now, focus_generation });
}

} // verus!
