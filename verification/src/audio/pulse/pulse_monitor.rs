//! Following what changes in the sound server.

use vstd::prelude::*;

use crate::audio;
use crate::audio::audio_system::DeviceKind;
use crate::audio::{update_application_state, update_device_state, AudioRegistry};
use crate::device_dial;
use crate::device_dial::AudioDeviceVolumeDialSettings;
use crate::icons::steam;
use crate::mixer;
use crate::mixer::{update_channel_state, MixerChannel};
use crate::text;

verus! {

/// What an event of the sound server is about.
#[derive(Clone, Copy, Debug, PartialEq, Eq, Structural)]
pub enum Facility {
    Sink,
    Source,
    SinkInput,
    Other,
}

/// What happened to it.
#[derive(Clone, Copy, Debug, PartialEq, Eq, Structural)]
pub enum Operation {
    New,
    Changed,
    Removed,
}

/// An object of the sound server whose state changed.
#[derive(Clone, Copy, Debug, PartialEq, Eq, Structural)]
pub enum ChangedObject {
    Application(u32),
    Output(u32),
    Input(u32),
}

/// What an event asks for: nothing, a look at one object, or a look at
/// everything.
#[derive(Clone, Copy, Debug, PartialEq, Eq, Structural)]
pub enum SubscriptionRoute {
    Ignore,
    Change(ChangedObject),
    Topology,
}

/// Why everything is looked at.
#[derive(Clone, Copy, Debug, PartialEq, Eq, Structural)]
pub enum RefreshReason {
    Initial,
    Topology,
    Explicit,
    Reconnect,
}

/// The name of a reason.
pub open spec fn reason_name(reason: RefreshReason) -> Seq<char> {
    match reason {
        RefreshReason::Initial => "initial"@,
        RefreshReason::Topology => "topology"@,
        RefreshReason::Explicit => "explicit"@,
        RefreshReason::Reconnect => "reconnect"@,
    }
}

impl RefreshReason {
    /// The name of the reason.
    pub fn label(self) -> (res: &'static str)
        ensures
            res@ == reason_name(self),
    {
        match self {
            RefreshReason::Initial => "initial",
            RefreshReason::Topology => "topology",
            RefreshReason::Explicit => "explicit",
            RefreshReason::Reconnect => "reconnect",
        }
    }
}

/// What an event asks for: a changed stream, sink or source is looked at by
/// itself, a new or removed one changes everything.
pub open spec fn route_of(facility: Option<Facility>, operation: Option<Operation>, index: u32) -> SubscriptionRoute {
    match operation {
        Some(Operation::Changed) => match facility {
            Some(Facility::SinkInput) => SubscriptionRoute::Change(
                ChangedObject::Application(index),
            ),
            Some(Facility::Sink) => SubscriptionRoute::Change(ChangedObject::Output(index)),
            Some(Facility::Source) => SubscriptionRoute::Change(ChangedObject::Input(index)),
            _ => SubscriptionRoute::Ignore,
        },
        Some(_) => match facility {
            Some(Facility::SinkInput) | Some(Facility::Sink) | Some(
                Facility::Source,
            ) => SubscriptionRoute::Topology,
            _ => SubscriptionRoute::Ignore,
        },
        None => SubscriptionRoute::Ignore,
    }
}

/// Tells what an event asks for.
pub fn classify_subscription_event(
    facility: Option<Facility>,
    operation: Option<Operation>,
    index: u32,
) -> (res: SubscriptionRoute)
    ensures
        res == route_of(facility, operation, index),
{
    match (facility, operation) {
        (Some(Facility::SinkInput), Some(Operation::Changed)) => SubscriptionRoute::Change(
            ChangedObject::Application(index),
        ),
        (Some(Facility::Sink), Some(Operation::Changed)) => SubscriptionRoute::Change(
            ChangedObject::Output(index),
        ),
        (Some(Facility::Source), Some(Operation::Changed)) => SubscriptionRoute::Change(
            ChangedObject::Input(index),
        ),
        (Some(Facility::Other), _) => SubscriptionRoute::Ignore,
        (Some(_), Some(_)) => SubscriptionRoute::Topology,
        _ => SubscriptionRoute::Ignore,
    }
}

/// A change of state never has everything looked at.
pub proof fn changes_are_targeted(facility: Option<Facility>, index: u32)
    ensures
        route_of(facility, Some(Operation::Changed), index) != SubscriptionRoute::Topology,
{
}

/// A stream, sink or source that changed is looked at by itself, under its own
/// kind; one that is new or gone has everything looked at; nothing else counts.
pub proof fn every_event_has_one_route(facility: Facility, operation: Operation, index: u32)
    ensures
        route_of(None, Some(operation), index) == SubscriptionRoute::Ignore,
        route_of(Some(facility), None, index) == SubscriptionRoute::Ignore,
        route_of(Some(facility), Some(operation), index) == SubscriptionRoute::Ignore <==> facility
            == Facility::Other,
        route_of(Some(facility), Some(operation), index) == SubscriptionRoute::Topology <==> facility
            != Facility::Other && operation != Operation::Changed,
        route_of(Some(facility), Some(operation), index) == SubscriptionRoute::Change(
            ChangedObject::Application(index),
        ) <==> facility == Facility::SinkInput && operation == Operation::Changed,
        route_of(Some(facility), Some(operation), index) == SubscriptionRoute::Change(
            ChangedObject::Output(index),
        ) <==> facility == Facility::Sink && operation == Operation::Changed,
        route_of(Some(facility), Some(operation), index) == SubscriptionRoute::Change(
            ChangedObject::Input(index),
        ) <==> facility == Facility::Source && operation == Operation::Changed,
{
}

/// The longest time between two attempts to reach the sound server, in
/// milliseconds.
pub const LONGEST_BACKOFF: u64 = 5000;

/// The time to wait after the next failure, in milliseconds: twice as long,
/// up to five seconds.
pub open spec fn backoff_behind(current: nat) -> nat {
    if 2 * current < LONGEST_BACKOFF {
        2 * current
    } else {
        LONGEST_BACKOFF as nat
    }
}

/// The time to wait doubles with each failure until it is five seconds, and
/// stays there.
pub proof fn backoff_doubles(current: nat)
    ensures
        backoff_behind(current) <= 5000,
        backoff_behind(current) <= 2 * current,
        backoff_behind(current) == 2 * current || backoff_behind(current) == 5000,
        backoff_behind(5000) == 5000,
{
}

/// The time to wait after the next failure, in milliseconds: twice as long,
/// up to five seconds.
pub fn next_reconnect_backoff(current: u64) -> (res: u64)
    ensures
        res == backoff_behind(current as nat),
{
    if current >= LONGEST_BACKOFF / 2 {
        LONGEST_BACKOFF
    } else {
        2 * current
    }
}

/// The time to wait after so many failures.
pub open spec fn backoff_after(start: nat, failures: nat) -> nat
    decreases failures,
{
    if failures == 0 {
        start
    } else {
        backoff_behind(backoff_after(start, (failures - 1) as nat))
    }
}

/// However often the sound server is lost, the time to wait is bounded, and
/// never shrinks while it is within the bound.
pub proof fn backoff_is_bounded(start: nat, failures: nat)
    requires
        start <= LONGEST_BACKOFF,
    ensures
        start <= backoff_after(start, failures) <= LONGEST_BACKOFF,
    decreases failures,
{
    if failures > 0 {
        backoff_is_bounded(start, (failures - 1) as nat);
    }
}

// ---------------------------------------------------------------------
// Changes that wait to be looked at
// ---------------------------------------------------------------------

/// The changed objects that wait to be looked at, each once.
#[derive(Debug)]
pub struct PendingChanges {
    objects: Vec<ChangedObject>,
}

impl View for PendingChanges {
    type V = Seq<ChangedObject>;

    closed spec fn view(&self) -> Seq<ChangedObject> {
        self.objects@
    }
}

impl Default for PendingChanges {
    fn default() -> (res: Self)
        ensures
            res@ == Seq::<ChangedObject>::empty(),
    {
        PendingChanges { objects: Vec::new() }
    }
}

impl PendingChanges {
    /// No object waits twice.
    #[verifier::type_invariant]
    spec fn distinct(&self) -> bool {
        self.objects@.no_duplicates()
    }

    /// How many objects wait.
    pub fn len(&self) -> (res: usize)
        ensures
            res == self@.len(),
            self@.no_duplicates(),
    {
        proof {
            use_type_invariant(self);
        }
        self.objects.len()
    }

    /// Has the object wait, where it does not already.
    pub fn insert(&mut self, object: ChangedObject)
        ensures
            final(self)@ == if old(self)@.contains(object) {
                old(self)@
            } else {
                old(self)@.push(object)
            },
    {
        proof {
            use_type_invariant(&*self);
        }
        let mut i: usize = 0;
        while i < self.objects.len()
            invariant
                i <= self.objects@.len(),
                self@ == old(self)@,
                self.objects@.no_duplicates(),
                forall|k: int| 0 <= k < i ==> #[trigger] self.objects@[k] != object,
            decreases self.objects@.len() - i,
        {
            if self.objects[i] == object {
                return;
            }
            i += 1;
        }
        let mut objects: Vec<ChangedObject> = Vec::new();
        std::mem::swap(&mut objects, &mut self.objects);
        objects.push(object);
        self.objects = objects;
    }

    /// Takes all objects out.
    pub fn drain(&mut self) -> (res: Vec<ChangedObject>)
        ensures
            res@ == old(self)@,
            final(self)@ == Seq::<ChangedObject>::empty(),
    {
        let mut objects: Vec<ChangedObject> = Vec::new();
        std::mem::swap(&mut objects, &mut self.objects);
        objects
    }
}

/// However often the same object changes, it waits once.
pub proof fn one_change_per_object(waiting: Seq<ChangedObject>, object: ChangedObject)
    requires
        waiting.no_duplicates(),
    ensures
        ({
            let once = if waiting.contains(object) {
                waiting
            } else {
                waiting.push(object)
            };
            once.contains(object) && once.no_duplicates()
        }),
{
    if !waiting.contains(object) {
        assert(waiting.push(object)[waiting.len() as int] == object);
    }
}

/// What is to be done about an event.
#[derive(Clone, Copy, Debug, PartialEq, Eq, Structural)]
pub enum EventAction {
    Nothing,
    LookAtChanges,
    Refresh(RefreshReason),
}

/// Takes an event: a change waits to be looked at, and a new or removed
/// object has everything looked at.
pub fn route_subscription_event(
    pending: &mut PendingChanges,
    facility: Option<Facility>,
    operation: Option<Operation>,
    index: u32,
) -> (res: EventAction)
    ensures
        match route_of(facility, operation, index) {
            SubscriptionRoute::Ignore => {
                res == EventAction::Nothing && final(pending)@ == old(pending)@
            },
            SubscriptionRoute::Change(object) => {
                &&& res == EventAction::LookAtChanges
                &&& final(pending)@ == if old(pending)@.contains(object) {
                    old(pending)@
                } else {
                    old(pending)@.push(object)
                }
            },
            SubscriptionRoute::Topology => {
                res == EventAction::Refresh(RefreshReason::Topology) && final(pending)@ == old(
                    pending,
                )@
            },
        },
{
    match classify_subscription_event(facility, operation, index) {
        SubscriptionRoute::Topology => EventAction::Refresh(RefreshReason::Topology),
        SubscriptionRoute::Change(object) => {
            pending.insert(object);
            EventAction::LookAtChanges
        },
        SubscriptionRoute::Ignore => EventAction::Nothing,
    }
}

// ---------------------------------------------------------------------
// Requests to look at everything
// ---------------------------------------------------------------------

/// A request to look at everything, where one waits. While one waits, others
/// are dropped.
#[derive(Clone, Copy, Debug, PartialEq, Eq, Structural)]
pub struct RefreshQueue {
    pub waiting: Option<RefreshReason>,
}

/// The queue after one more request.
pub open spec fn requested(queue: RefreshQueue, reason: RefreshReason) -> RefreshQueue {
    match queue.waiting {
        Some(_) => queue,
        None => RefreshQueue { waiting: Some(reason) },
    }
}

/// A request that finds the queue empty waits in it, and one that waits is not
/// replaced.
pub proof fn first_request_waits(queue: RefreshQueue, reason: RefreshReason, other: RefreshReason)
    ensures
        requested(queue, reason).waiting is Some,
        queue.waiting is None ==> requested(queue, reason).waiting == Some(reason),
        queue.waiting is Some ==> requested(queue, reason).waiting == queue.waiting,
        requested(requested(queue, reason), other) == requested(queue, reason),
{
}

impl Default for RefreshQueue {
    fn default() -> (res: Self)
        ensures
            res.waiting is None,
    {
        RefreshQueue { waiting: None }
    }
}

/// Asks for a look at everything.
pub fn request_topology_refresh(queue: &mut RefreshQueue, reason: RefreshReason)
    ensures
        *final(queue) == requested(*old(queue), reason),
{
    if queue.waiting.is_none() {
        queue.waiting = Some(reason);
    }
}

/// Asks for a look at everything on the user's behalf.
pub fn request_explicit_refresh(queue: &mut RefreshQueue)
    ensures
        *final(queue) == requested(*old(queue), RefreshReason::Explicit),
{
    request_topology_refresh(queue, RefreshReason::Explicit);
}

/// The request to serve, of one that was taken and all that came while it
/// was: the last of them.
pub fn coalesce(first: RefreshReason, later: &[RefreshReason]) -> (res: RefreshReason)
    ensures
        res == if later@.len() > 0 {
            later@.last()
        } else {
            first
        },
{
    if later.len() > 0 {
        later[later.len() - 1]
    } else {
        first
    }
}

/// The number of the next look at everything.
pub fn next_sequence(current: u64) -> (res: u64)
    ensures
        res == if current == u64::MAX {
            0
        } else {
            current + 1
        },
{
    current.wrapping_add(1)
}

// ---------------------------------------------------------------------
// What follows from a change
// ---------------------------------------------------------------------

/// Whether this is what becomes of the applications and the channels when the
/// stream with an index has a new state, and whether it is given whose it is.
pub open spec fn is_stream_change(
    apps: Seq<crate::audio::audio_system::AppInfo>,
    apps_after: Seq<crate::audio::audio_system::AppInfo>,
    channels: Seq<MixerChannel>,
    channels_after: Seq<MixerChannel>,
    index: u32,
    vol_percent_bits: u32,
    mute: bool,
    from_process: Option<Seq<char>>,
    given: Option<Seq<char>>,
) -> bool {
    let i = audio::place_of_app(apps, index);
    if i < apps.len() {
        &&& given == Some(steam::stable_id(apps[i], from_process))
        &&& apps_after == apps.update(i, audio::with_state(apps[i], vol_percent_bits, mute))
        &&& channels_after.len() == channels.len()
        &&& forall|k: int|
            0 <= k < channels.len() ==> (#[trigger] channels_after[k]) == if channels[k].uid
                == index {
                mixer::with_state(channels[k], vol_percent_bits, mute)
            } else {
                channels[k]
            }
    } else {
        given is None && apps_after == apps && channels_after == channels
    }
}

/// A stream that changed and is known has its new state from then on, in its
/// application and in every channel that shows it, and its application is
/// given; all else stays as it is. One that is not known changes nothing.
pub proof fn changed_streams_have_their_new_state(
    apps: Seq<crate::audio::audio_system::AppInfo>,
    apps_after: Seq<crate::audio::audio_system::AppInfo>,
    channels: Seq<MixerChannel>,
    channels_after: Seq<MixerChannel>,
    index: u32,
    vol_percent_bits: u32,
    mute: bool,
    from_process: Option<Seq<char>>,
    given: Option<Seq<char>>,
    i: int,
    k: int,
)
    requires
        is_stream_change(
            apps,
            apps_after,
            channels,
            channels_after,
            index,
            vol_percent_bits,
            mute,
            from_process,
            given,
        ),
        0 <= i < apps.len(),
        forall|j: int| 0 <= j < i ==> (#[trigger] apps[j]).uid != apps[i].uid,
        0 <= k < channels.len(),
    ensures
        apps_after.len() == apps.len(),
        channels_after.len() == channels.len(),
        apps[i].uid == index ==> apps_after[i].mute == mute && apps_after[i].vol_percent_bits
            == vol_percent_bits && given == Some(steam::stable_id(apps[i], from_process)),
        apps[i].uid != index ==> apps_after[i] == apps[i],
        apps_after[i].uid == apps[i].uid,
        apps_after[i].app_name == apps[i].app_name,
        channels[k].uid == index && given is Some ==> channels_after[k].mute == mute
            && channels_after[k].vol_percent_bits == vol_percent_bits && channels_after[k].uid
            == index,
        channels[k].uid != index ==> channels_after[k] == channels[k],
        given is None ==> channels_after == channels && apps_after == apps,
        given is None ==> apps[i].uid != index,
{
    audio::first_of_an_index_or_name_is_found(apps, index, Seq::empty(), Seq::empty(), i);
    let place = audio::place_of_app(apps, index);
    if apps[i].uid == index && place < i {
        assert(apps[place].uid != apps[i].uid);
    }
}

/// Takes the state of a stream that changed: the registry and the mixer note
/// it, and the id of its application is given. Where the stream is not known,
/// everything has to be looked at, and nothing is given.
pub fn process_changed_stream(
    registry: &mut AudioRegistry,
    channels: &mut Vec<MixerChannel>,
    index: u32,
    vol_percent_bits: u32,
    mute: bool,
    from_process: Option<&str>,
) -> (res: Option<String>)
    ensures
        final(registry).initialized == old(registry).initialized,
        final(registry).outputs == old(registry).outputs,
        final(registry).inputs == old(registry).inputs,
        is_stream_change(
            old(registry).applications@,
            final(registry).applications@,
            old(channels)@,
            final(channels)@,
            index,
            vol_percent_bits,
            mute,
            text::str_of(from_process),
            text::text_of(res),
        ),
        res is None ==> *final(channels) == *old(channels),
{
    let id = update_application_state(registry, index, vol_percent_bits, mute, from_process);
    if id.is_some() {
        update_channel_state(channels, index, vol_percent_bits, mute);
    }
    id
}

/// The outputs and the inputs that changed, where one device did.
pub open spec fn changed_alone(kind: DeviceKind, stable_name: Seq<char>) -> (
    Seq<Seq<char>>,
    Seq<Seq<char>>,
) {
    match kind {
        DeviceKind::Output => (seq![stable_name], Seq::empty()),
        DeviceKind::Input => (Seq::empty(), seq![stable_name]),
    }
}

/// Takes the state of a device that changed: the registry notes it, and the
/// names of the outputs and inputs that changed are given, which is this one
/// alone. Where the device is not known, everything has to be looked at, and
/// nothing is given.
pub fn process_changed_device(
    registry: &mut AudioRegistry,
    stable_name: &str,
    kind: DeviceKind,
    vol_percent_bits: u32,
    mute: bool,
) -> (res: Option<(Vec<String>, Vec<String>)>)
    ensures
        final(registry).initialized == old(registry).initialized,
        final(registry).applications == old(registry).applications,
        match kind {
            DeviceKind::Output => final(registry).inputs == old(registry).inputs,
            DeviceKind::Input => final(registry).outputs == old(registry).outputs,
        },
        ({
            let devices = audio::devices_of(*old(registry), kind);
            let i = audio::place_of_device(devices, stable_name@);
            if i < devices.len() {
                &&& audio::devices_of(*final(registry), kind) == devices.update(
                    i,
                    audio::device_with_state(devices[i], vol_percent_bits, mute),
                )
                &&& res matches Some((outputs, inputs)) && (
                    text::texts(outputs@),
                    text::texts(inputs@),
                ) == changed_alone(kind, stable_name@)
            } else {
                res is None && audio::devices_of(*final(registry), kind) == devices
            }
        }),
{
    if !update_device_state(registry, stable_name, kind, vol_percent_bits, mute) {
        return None;
    }
    let mut changed: Vec<String> = Vec::new();
    changed.push(stable_name.to_owned());
    let others: Vec<String> = Vec::new();
    assert(text::texts(changed@) =~= seq![stable_name@]);
    assert(text::texts(others@) =~= Seq::empty());
    match kind {
        DeviceKind::Output => Some((changed, others)),
        DeviceKind::Input => Some((others, changed)),
    }
}

/// A change of a device has exactly those dials shown again that are for a
/// device of its kind and name.
pub proof fn changed_device_concerns_its_dials_alone(
    kind: DeviceKind,
    stable_name: Seq<char>,
    settings: AudioDeviceVolumeDialSettings,
)
    ensures
        ({
            let (outputs, inputs) = changed_alone(kind, stable_name);
            device_dial::is_concerned(settings, Some(outputs), Some(inputs)) <==> settings.device_kind
                == kind && settings.target_id@ == stable_name
        }),
{
    assert(seq![stable_name][0] == stable_name);
}

} // verus!
