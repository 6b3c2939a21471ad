//! What is known of the sound server, and what is still to be sent to it.

pub mod audio_system;
pub mod pulse;

use vstd::prelude::*;

use crate::audio::audio_system::{AppInfo, AudioDeviceInfo, DeviceKind};
use crate::icons::steam;
use crate::icons::steam::stable_application_id;
use crate::sort;
use crate::sort::Sortable;
use crate::table::{Key, Table};
use crate::text;
use crate::text::{contains_string, same};

verus! {

// ---------------------------------------------------------------------
// Commands
// ---------------------------------------------------------------------

impl Key for Vec<(u32, bool)> {
    fn same_key(&self, other: &Self) -> (res: bool) {
        if self.len() != other.len() {
            return false;
        }
        let mut i: usize = 0;
        while i < self.len()
            invariant
                i <= self@.len(),
                self@.len() == other@.len(),
                forall|k: int| 0 <= k < i ==> #[trigger] self@[k] == other@[k],
            decreases self@.len() - i,
        {
            if self[i].0 != other[i].0 || self[i].1 != other[i].1 {
                return false;
            }
            i += 1;
        }
        assert(self@ =~= other@);
        true
    }
}

/// The name of a device together with its kind.
#[derive(Debug)]
pub struct DeviceKey {
    pub stable_name: String,
    pub kind: DeviceKind,
}

impl View for DeviceKey {
    type V = (Seq<char>, DeviceKind);

    open spec fn view(&self) -> (Seq<char>, DeviceKind) {
        (self.stable_name@, self.kind)
    }
}

impl Key for DeviceKey {
    fn same_key(&self, other: &Self) -> (res: bool) {
        self.kind == other.kind && same(self.stable_name.as_str(), other.stable_name.as_str())
    }
}

/// What is still to be sent to the sound server. A target is the index of a
/// stream, or of a device where the flag is set. Volumes are the bit patterns
/// of 64-bit floating-point percentages.
///
/// Of the volumes of one group of targets, and of one device, only the latest
/// is kept; the orders to mute keep their order.
#[derive(Debug)]
pub struct PendingCommands {
    pub volumes: Table<Vec<(u32, bool)>, u64>,
    pub mutes: Vec<(Vec<(u32, bool)>, bool)>,
    pub device_volumes: Table<DeviceKey, u64>,
    pub device_mutes: Vec<(String, DeviceKind, bool)>,
}

impl Default for PendingCommands {
    fn default() -> (res: Self)
        ensures
            res.volumes@ == Map::<Seq<(u32, bool)>, u64>::empty(),
            res.volumes.order().len() == 0,
            res.mutes@.len() == 0,
            res.device_volumes@ == Map::<(Seq<char>, DeviceKind), u64>::empty(),
            res.device_volumes.order().len() == 0,
            res.device_mutes@.len() == 0,
    {
        PendingCommands {
            volumes: Table::new(),
            mutes: Vec::new(),
            device_volumes: Table::new(),
            device_mutes: Vec::new(),
        }
    }
}

/// Orders a volume for a group of targets, in place of the one ordered
/// before.
pub fn set_application_group_volume(
    pending: &mut PendingCommands,
    targets: Vec<(u32, bool)>,
    percent_bits: u64,
)
    ensures
        final(pending).volumes@ == old(pending).volumes@.insert(targets@, percent_bits),
        final(pending).volumes.order() == if old(pending).volumes@.contains_key(targets@) {
            old(pending).volumes.order()
        } else {
            old(pending).volumes.order().push(targets@)
        },
        final(pending).mutes == old(pending).mutes,
        final(pending).device_volumes == old(pending).device_volumes,
        final(pending).device_mutes == old(pending).device_mutes,
{
    pending.volumes.insert(targets, percent_bits);
}

/// Orders a group of targets to be muted or not, behind all that was ordered
/// before.
pub fn set_application_group_mute(
    pending: &mut PendingCommands,
    targets: Vec<(u32, bool)>,
    mute: bool,
)
    ensures
        final(pending).mutes@ == old(pending).mutes@.push((targets, mute)),
        final(pending).volumes == old(pending).volumes,
        final(pending).device_volumes == old(pending).device_volumes,
        final(pending).device_mutes == old(pending).device_mutes,
{
    pending.mutes.push((targets, mute));
}

/// Orders a volume for a device, in place of the one ordered before.
pub fn set_device_volume(
    pending: &mut PendingCommands,
    stable_name: String,
    kind: DeviceKind,
    percent_bits: u64,
)
    ensures
        final(pending).device_volumes@ == old(pending).device_volumes@.insert(
            (stable_name@, kind),
            percent_bits,
        ),
        final(pending).device_volumes.order() == if old(pending).device_volumes@.contains_key(
            (stable_name@, kind),
        ) {
            old(pending).device_volumes.order()
        } else {
            old(pending).device_volumes.order().push((stable_name@, kind))
        },
        final(pending).volumes == old(pending).volumes,
        final(pending).mutes == old(pending).mutes,
        final(pending).device_mutes == old(pending).device_mutes,
{
    pending.device_volumes.insert(DeviceKey { stable_name, kind }, percent_bits);
}

/// Orders a device to be muted or not, behind all that was ordered before.
pub fn set_device_mute(
    pending: &mut PendingCommands,
    stable_name: String,
    kind: DeviceKind,
    mute: bool,
)
    ensures
        final(pending).device_mutes@ == old(pending).device_mutes@.push((stable_name, kind, mute)),
        final(pending).volumes == old(pending).volumes,
        final(pending).mutes == old(pending).mutes,
        final(pending).device_volumes == old(pending).device_volumes,
{
    pending.device_mutes.push((stable_name, kind, mute));
}

/// Of the volumes ordered one after the other for the same targets only the
/// last one is left.
pub proof fn latest_volume_is_kept(
    volumes: Map<Seq<(u32, bool)>, u64>,
    targets: Seq<(u32, bool)>,
    earlier: u64,
    later: u64,
)
    ensures
        volumes.insert(targets, earlier).insert(targets, later) == volumes.insert(targets, later),
        volumes.insert(targets, earlier).insert(targets, later)[targets] == later,
{
    assert(volumes.insert(targets, earlier).insert(targets, later) =~= volumes.insert(
        targets,
        later,
    ));
}

/// One order to the sound server.
#[derive(Debug)]
pub enum AudioCommand {
    Mute { index: u32, is_device: bool, mute: bool },
    Volume { index: u32, is_device: bool, percent_bits: u64 },
    DeviceMute { stable_name: String, kind: DeviceKind, mute: bool },
    DeviceVolume { stable_name: String, kind: DeviceKind, percent_bits: u64 },
}

/// An order, with the text of a device's name.
pub ghost enum Command {
    Mute { index: u32, is_device: bool, mute: bool },
    Volume { index: u32, is_device: bool, percent_bits: u64 },
    DeviceMute { stable_name: Seq<char>, kind: DeviceKind, mute: bool },
    DeviceVolume { stable_name: Seq<char>, kind: DeviceKind, percent_bits: u64 },
}

/// What an order stands for.
pub open spec fn command_of(command: AudioCommand) -> Command {
    match command {
        AudioCommand::Mute { index, is_device, mute } => Command::Mute { index, is_device, mute },
        AudioCommand::Volume { index, is_device, percent_bits } => Command::Volume {
            index,
            is_device,
            percent_bits,
        },
        AudioCommand::DeviceMute { stable_name, kind, mute } => Command::DeviceMute {
            stable_name: stable_name@,
            kind,
            mute,
        },
        AudioCommand::DeviceVolume { stable_name, kind, percent_bits } => Command::DeviceVolume {
            stable_name: stable_name@,
            kind,
            percent_bits,
        },
    }
}

/// What the orders of a list stand for.
pub open spec fn commands_of(list: Seq<AudioCommand>) -> Seq<Command> {
    list.map_values(|command: AudioCommand| command_of(command))
}

/// The orders that mute a group of targets or not.
pub open spec fn group_mutes(targets: Seq<(u32, bool)>, mute: bool) -> Seq<Command> {
    targets.map_values(
        |target: (u32, bool)| Command::Mute { index: target.0, is_device: target.1, mute },
    )
}

/// The orders that set the volume of a group of targets.
pub open spec fn group_volumes(targets: Seq<(u32, bool)>, percent_bits: u64) -> Seq<Command> {
    targets.map_values(
        |target: (u32, bool)| Command::Volume {
            index: target.0,
            is_device: target.1,
            percent_bits,
        },
    )
}

/// The orders that mute groups of targets or not.
pub open spec fn all_mutes(list: Seq<(Vec<(u32, bool)>, bool)>) -> Seq<Command>
    decreases list.len(),
{
    if list.len() == 0 {
        Seq::empty()
    } else {
        all_mutes(list.drop_last()) + group_mutes(list.last().0@, list.last().1)
    }
}

/// The orders that set the volumes of groups of targets.
pub open spec fn all_volumes(
    order: Seq<Seq<(u32, bool)>>,
    volumes: Map<Seq<(u32, bool)>, u64>,
) -> Seq<Command>
    decreases order.len(),
{
    if order.len() == 0 {
        Seq::empty()
    } else {
        all_volumes(order.drop_last(), volumes) + group_volumes(
            order.last(),
            volumes[order.last()],
        )
    }
}

/// The orders that mute devices or not.
pub open spec fn all_device_mutes(list: Seq<(String, DeviceKind, bool)>) -> Seq<Command> {
    list.map_values(
        |item: (String, DeviceKind, bool)| Command::DeviceMute {
            stable_name: item.0@,
            kind: item.1,
            mute: item.2,
        },
    )
}

/// The orders that set the volumes of devices.
pub open spec fn all_device_volumes(
    order: Seq<(Seq<char>, DeviceKind)>,
    volumes: Map<(Seq<char>, DeviceKind), u64>,
) -> Seq<Command> {
    order.map_values(
        |key: (Seq<char>, DeviceKind)| Command::DeviceVolume {
            stable_name: key.0,
            kind: key.1,
            percent_bits: volumes[key],
        },
    )
}

/// All that is still to be sent, in the order in which it is sent.
pub open spec fn orders_of(pending: PendingCommands) -> Seq<Command> {
    all_mutes(pending.mutes@) + all_volumes(pending.volumes.order(), pending.volumes@)
        + all_device_mutes(pending.device_mutes@) + all_device_volumes(
        pending.device_volumes.order(),
        pending.device_volumes@,
    )
}

fn push_mutes(out: &mut Vec<AudioCommand>, targets: &Vec<(u32, bool)>, mute: bool)
    ensures
        commands_of(final(out)@) == commands_of(old(out)@) + group_mutes(targets@, mute),
{
    let ghost start = commands_of(out@);
    let mut i: usize = 0;
    assert(start + group_mutes(targets@, mute).take(0) =~= start);
    while i < targets.len()
        invariant
            i <= targets@.len(),
            commands_of(out@) == start + group_mutes(targets@, mute).take(i as int),
        decreases targets@.len() - i,
    {
        let ghost before = commands_of(out@);
        let (index, is_device): (u32, bool) = targets[i];
        out.push(AudioCommand::Mute { index, is_device, mute });
        assert(commands_of(out@) =~= before.push(Command::Mute { index, is_device, mute }));
        i += 1;
        assert(commands_of(out@) =~= start + group_mutes(targets@, mute).take(i as int));
    }
    assert(group_mutes(targets@, mute).take(i as int) =~= group_mutes(targets@, mute));
}

fn push_volumes(out: &mut Vec<AudioCommand>, targets: &Vec<(u32, bool)>, percent_bits: u64)
    ensures
        commands_of(final(out)@) == commands_of(old(out)@) + group_volumes(targets@, percent_bits),
{
    let ghost start = commands_of(out@);
    let ghost wanted = group_volumes(targets@, percent_bits);
    let mut i: usize = 0;
    assert(start + wanted.take(0) =~= start);
    while i < targets.len()
        invariant
            i <= targets@.len(),
            wanted == group_volumes(targets@, percent_bits),
            commands_of(out@) == start + wanted.take(i as int),
        decreases targets@.len() - i,
    {
        let ghost before = commands_of(out@);
        let (index, is_device): (u32, bool) = targets[i];
        out.push(AudioCommand::Volume { index, is_device, percent_bits });
        assert(commands_of(out@) =~= before.push(
            Command::Volume { index, is_device, percent_bits },
        ));
        i += 1;
        assert(commands_of(out@) =~= start + wanted.take(i as int));
    }
    assert(wanted.take(i as int) =~= wanted);
}

/// The orders to send for all that is pending: first the orders to mute
/// streams, then the volumes of streams, then the same for devices. Each is
/// sent whether or not those before it succeeded.
pub fn execute_pending(pending: PendingCommands) -> (res: Vec<AudioCommand>)
    ensures
        commands_of(res@) == orders_of(pending),
{
    let mut out: Vec<AudioCommand> = Vec::new();
    assert(commands_of(out@) =~= all_mutes(pending.mutes@.take(0)));
    let mut i: usize = 0;
    while i < pending.mutes.len()
        invariant
            i <= pending.mutes@.len(),
            commands_of(out@) == all_mutes(pending.mutes@.take(i as int)),
        decreases pending.mutes@.len() - i,
    {
        push_mutes(&mut out, &pending.mutes[i].0, pending.mutes[i].1);
        assert(pending.mutes@.take(i + 1).drop_last() =~= pending.mutes@.take(i as int));
        i += 1;
    }
    assert(pending.mutes@.take(i as int) =~= pending.mutes@);
    let ghost first = commands_of(out@);
    let ghost order = pending.volumes.order();
    let ghost volumes = pending.volumes@;
    let n: usize = pending.volumes.len();
    let mut k: usize = 0;
    assert(first + all_volumes(order.take(0), volumes) =~= first);
    while k < n
        invariant
            k <= n,
            n == order.len(),
            order == pending.volumes.order(),
            volumes == pending.volumes@,
            commands_of(out@) == first + all_volumes(order.take(k as int), volumes),
        decreases n - k,
    {
        let ghost before = commands_of(out@);
        let bits: u64 = *pending.volumes.value_at(k);
        push_volumes(&mut out, pending.volumes.key_at(k), bits);
        assert(order.take(k + 1).drop_last() =~= order.take(k as int));
        k += 1;
        assert(commands_of(out@) =~= first + all_volumes(order.take(k as int), volumes));
    }
    assert(order.take(k as int) =~= order);
    let ghost second = commands_of(out@);
    let ghost mutes = all_device_mutes(pending.device_mutes@);
    let mut j: usize = 0;
    assert(second + mutes.take(0) =~= second);
    while j < pending.device_mutes.len()
        invariant
            j <= pending.device_mutes@.len(),
            mutes == all_device_mutes(pending.device_mutes@),
            commands_of(out@) == second + mutes.take(j as int),
        decreases pending.device_mutes@.len() - j,
    {
        let ghost before = commands_of(out@);
        let item = &pending.device_mutes[j];
        let command = AudioCommand::DeviceMute {
            stable_name: item.0.clone(),
            kind: item.1,
            mute: item.2,
        };
        out.push(command);
        assert(commands_of(out@) =~= before.push(command_of(command)));
        j += 1;
        assert(commands_of(out@) =~= second + mutes.take(j as int));
    }
    assert(mutes.take(j as int) =~= mutes);
    let ghost third = commands_of(out@);
    let ghost keys = pending.device_volumes.order();
    let ghost targets = all_device_volumes(keys, pending.device_volumes@);
    let m: usize = pending.device_volumes.len();
    let mut d: usize = 0;
    assert(third + targets.take(0) =~= third);
    while d < m
        invariant
            d <= m,
            m == keys.len(),
            keys == pending.device_volumes.order(),
            targets == all_device_volumes(keys, pending.device_volumes@),
            commands_of(out@) == third + targets.take(d as int),
        decreases m - d,
    {
        let ghost before = commands_of(out@);
        let key = pending.device_volumes.key_at(d);
        let command = AudioCommand::DeviceVolume {
            stable_name: key.stable_name.clone(),
            kind: key.kind,
            percent_bits: *pending.device_volumes.value_at(d),
        };
        out.push(command);
        assert(commands_of(out@) =~= before.push(command_of(command)));
        d += 1;
        assert(commands_of(out@) =~= third + targets.take(d as int));
    }
    assert(targets.take(d as int) =~= targets);
    out
}

proof fn lemma_map_contains<A, B>(list: Seq<A>, f: spec_fn(A) -> B)
    ensures
        forall|b: B| #[trigger]
            list.map_values(f).contains(b) <==> exists|i: int| 0 <= i < list.len() && f(list[i]) == b,
{
    assert forall|b: B| #[trigger] list.map_values(f).contains(b) <==> exists|i: int|
        0 <= i < list.len() && f(list[i]) == b by {
        if list.map_values(f).contains(b) {
            let i = choose|i: int| 0 <= i < list.map_values(f).len() && list.map_values(f)[i] == b;
            assert(f(list[i]) == b);
        }
        if exists|i: int| 0 <= i < list.len() && f(list[i]) == b {
            let i = choose|i: int| 0 <= i < list.len() && f(list[i]) == b;
            assert(list.map_values(f)[i] == b);
        }
    }
}

proof fn lemma_sum_contains<A>(left: Seq<A>, right: Seq<A>)
    ensures
        forall|a: A| #[trigger]
            (left + right).contains(a) <==> left.contains(a) || right.contains(a),
{
    assert forall|a: A| #[trigger] (left + right).contains(a) <==> left.contains(a)
        || right.contains(a) by {
        let both = left + right;
        if left.contains(a) {
            let i = choose|i: int| 0 <= i < left.len() && left[i] == a;
            assert(both[i] == a);
        }
        if right.contains(a) {
            let i = choose|i: int| 0 <= i < right.len() && right[i] == a;
            assert(both[left.len() + i] == a);
        }
        if both.contains(a) {
            let i = choose|i: int| 0 <= i < both.len() && both[i] == a;
            if i < left.len() {
                assert(left[i] == a);
            } else {
                assert(right[i - left.len()] == a);
            }
        }
    }
}

proof fn lemma_volume_orders(
    order: Seq<Seq<(u32, bool)>>,
    volumes: Map<Seq<(u32, bool)>, u64>,
)
    ensures
        forall|command: Command| #[trigger]
            all_volumes(order, volumes).contains(command) <==> exists|g: int, t: int|
                0 <= g < order.len() && 0 <= t < order[g].len() && command == (Command::Volume {
                    index: (#[trigger] order[g][t]).0,
                    is_device: order[g][t].1,
                    percent_bits: volumes[order[g]],
                }),
    decreases order.len(),
{
    if order.len() > 0 {
        let before = order.drop_last();
        let last = order.last();
        let bits = volumes[last];
        lemma_volume_orders(before, volumes);
        lemma_sum_contains(all_volumes(before, volumes), group_volumes(last, bits));
        lemma_map_contains(
            last,
            |target: (u32, bool)| Command::Volume {
                index: target.0,
                is_device: target.1,
                percent_bits: bits,
            },
        );
        assert forall|command: Command| #[trigger]
            all_volumes(order, volumes).contains(command) <==> exists|g: int, t: int|
                0 <= g < order.len() && 0 <= t < order[g].len() && command == (Command::Volume {
                    index: (#[trigger] order[g][t]).0,
                    is_device: order[g][t].1,
                    percent_bits: volumes[order[g]],
                }) by {
            if all_volumes(before, volumes).contains(command) {
                let (g, t) = choose|g: int, t: int|
                    0 <= g < before.len() && 0 <= t < before[g].len() && command == (
                    Command::Volume {
                        index: (#[trigger] before[g][t]).0,
                        is_device: before[g][t].1,
                        percent_bits: volumes[before[g]],
                    });
                assert(order[g] == before[g]);
                assert(order[g][t] == before[g][t]);
            }
            if group_volumes(last, bits).contains(command) {
                let list = group_volumes(last, bits);
                let t = choose|t: int| 0 <= t < list.len() && list[t] == command;
                assert(order[order.len() - 1][t] == last[t]);
            }
            if exists|g: int, t: int|
                0 <= g < order.len() && 0 <= t < order[g].len() && command == (Command::Volume {
                    index: (#[trigger] order[g][t]).0,
                    is_device: order[g][t].1,
                    percent_bits: volumes[order[g]],
                }) {
                let (g, t) = choose|g: int, t: int|
                    0 <= g < order.len() && 0 <= t < order[g].len() && command == (
                    Command::Volume {
                        index: (#[trigger] order[g][t]).0,
                        is_device: order[g][t].1,
                        percent_bits: volumes[order[g]],
                    });
                if g < before.len() {
                    assert(before[g] == order[g]);
                    assert(before[g][t] == order[g][t]);
                } else {
                    assert(group_volumes(last, bits)[t] == command);
                }
            }
        }
    }
}

proof fn lemma_mute_orders(list: Seq<(Vec<(u32, bool)>, bool)>)
    ensures
        forall|command: Command| #[trigger]
            all_mutes(list).contains(command) <==> exists|g: int, t: int|
                0 <= g < list.len() && 0 <= t < list[g].0@.len() && command == (Command::Mute {
                    index: (#[trigger] list[g].0@[t]).0,
                    is_device: list[g].0@[t].1,
                    mute: list[g].1,
                }),
    decreases list.len(),
{
    if list.len() > 0 {
        let before = list.drop_last();
        let last = list.last().0@;
        let mute = list.last().1;
        lemma_mute_orders(before);
        lemma_sum_contains(all_mutes(before), group_mutes(last, mute));
        assert forall|command: Command| #[trigger]
            all_mutes(list).contains(command) <==> exists|g: int, t: int|
                0 <= g < list.len() && 0 <= t < list[g].0@.len() && command == (Command::Mute {
                    index: (#[trigger] list[g].0@[t]).0,
                    is_device: list[g].0@[t].1,
                    mute: list[g].1,
                }) by {
            if all_mutes(before).contains(command) {
                let (g, t) = choose|g: int, t: int|
                    0 <= g < before.len() && 0 <= t < before[g].0@.len() && command == (
                    Command::Mute {
                        index: (#[trigger] before[g].0@[t]).0,
                        is_device: before[g].0@[t].1,
                        mute: before[g].1,
                    });
                assert(list[g] == before[g]);
                assert(list[g].0@[t] == before[g].0@[t]);
            }
            if group_mutes(last, mute).contains(command) {
                let all = group_mutes(last, mute);
                let t = choose|t: int| 0 <= t < all.len() && all[t] == command;
                assert(list[list.len() - 1].0@[t] == last[t]);
            }
            if exists|g: int, t: int|
                0 <= g < list.len() && 0 <= t < list[g].0@.len() && command == (Command::Mute {
                    index: (#[trigger] list[g].0@[t]).0,
                    is_device: list[g].0@[t].1,
                    mute: list[g].1,
                }) {
                let (g, t) = choose|g: int, t: int|
                    0 <= g < list.len() && 0 <= t < list[g].0@.len() && command == (
                    Command::Mute {
                        index: (#[trigger] list[g].0@[t]).0,
                        is_device: list[g].0@[t].1,
                        mute: list[g].1,
                    });
                if g < before.len() {
                    assert(before[g] == list[g]);
                    assert(before[g].0@[t] == list[g].0@[t]);
                } else {
                    assert(group_mutes(last, mute)[t] == command);
                }
            }
        }
    }
}

/// Every stream gets its own volume: an order to set the volume of a stream is
/// sent exactly where a group that holds the stream waits for that volume.
pub proof fn each_stream_gets_the_volume_of_its_group(
    pending: PendingCommands,
    sent: Seq<AudioCommand>,
    index: u32,
    is_device: bool,
    percent_bits: u64,
)
    requires
        commands_of(sent) == orders_of(pending),
    ensures
        sent.contains(AudioCommand::Volume { index, is_device, percent_bits }) <==> exists|
            group: Seq<(u32, bool)>,
        | #[trigger]
            pending.volumes@.contains_key(group) && group.contains((index, is_device))
                && pending.volumes@[group] == percent_bits,
{
    let order = pending.volumes.order();
    let volumes = pending.volumes@;
    let wanted = Command::Volume { index, is_device, percent_bits };
    pending.volumes.lemma_order();
    lemma_orders_are_sent(pending, sent);
    lemma_volume_orders(order, volumes);
    lemma_mute_orders(pending.mutes@);
    lemma_plain_order(sent, AudioCommand::Volume { index, is_device, percent_bits });
    if all_volumes(order, volumes).contains(wanted) {
        let (g, t) = choose|g: int, t: int|
            0 <= g < order.len() && 0 <= t < order[g].len() && wanted == (Command::Volume {
                index: (#[trigger] order[g][t]).0,
                is_device: order[g][t].1,
                percent_bits: volumes[order[g]],
            });
        assert(order.contains(order[g]));
        assert(order[g][t] == (index, is_device));
        assert(volumes.contains_key(order[g]));
    }
    if exists|group: Seq<(u32, bool)>| #[trigger]
        volumes.contains_key(group) && group.contains((index, is_device)) && volumes[group]
            == percent_bits {
        let group = choose|group: Seq<(u32, bool)>| #[trigger]
            volumes.contains_key(group) && group.contains((index, is_device)) && volumes[group]
                == percent_bits;
        assert(order.contains(group));
        let g = choose|g: int| 0 <= g < order.len() && order[g] == group;
        let t = choose|t: int| 0 <= t < group.len() && group[t] == (index, is_device);
        assert(order[g][t] == (index, is_device));
    }
}

/// Every stream that is to be muted or not is, and no other: such an order is
/// sent exactly where one that names the stream waits.
pub proof fn each_stream_is_muted_as_ordered(
    pending: PendingCommands,
    sent: Seq<AudioCommand>,
    index: u32,
    is_device: bool,
    mute: bool,
)
    requires
        commands_of(sent) == orders_of(pending),
    ensures
        sent.contains(AudioCommand::Mute { index, is_device, mute }) <==> exists|g: int|
            0 <= g < pending.mutes@.len() && (#[trigger] pending.mutes@[g]).1 == mute
                && pending.mutes@[g].0@.contains((index, is_device)),
{
    let list = pending.mutes@;
    let wanted = Command::Mute { index, is_device, mute };
    lemma_orders_are_sent(pending, sent);
    lemma_volume_orders(pending.volumes.order(), pending.volumes@);
    lemma_mute_orders(list);
    lemma_plain_order(sent, AudioCommand::Mute { index, is_device, mute });
    if all_mutes(list).contains(wanted) {
        let (g, t) = choose|g: int, t: int|
            0 <= g < list.len() && 0 <= t < list[g].0@.len() && wanted == (Command::Mute {
                index: (#[trigger] list[g].0@[t]).0,
                is_device: list[g].0@[t].1,
                mute: list[g].1,
            });
        assert(list[g].0@[t] == (index, is_device));
        assert(list[g].0@.contains((index, is_device)));
    }
    if exists|g: int|
        0 <= g < list.len() && (#[trigger] list[g]).1 == mute && list[g].0@.contains(
            (index, is_device),
        ) {
        let g = choose|g: int|
            0 <= g < list.len() && (#[trigger] list[g]).1 == mute && list[g].0@.contains(
                (index, is_device),
            );
        let t = choose|t: int| 0 <= t < list[g].0@.len() && list[g].0@[t] == (index, is_device);
        assert(list[g].0@[t] == (index, is_device));
    }
}

/// Every device gets its own volume and mute state, and no other device gets
/// one: an order for a device is sent exactly where one that names the device
/// and its kind waits.
pub proof fn each_device_gets_its_own_orders(
    pending: PendingCommands,
    sent: Seq<AudioCommand>,
    name: Seq<char>,
    kind: DeviceKind,
    percent_bits: u64,
    mute: bool,
)
    requires
        commands_of(sent) == orders_of(pending),
    ensures
        (exists|i: int|
            0 <= i < sent.len() && ((#[trigger] sent[i]) matches AudioCommand::DeviceVolume {
                stable_name,
                kind: of_kind,
                percent_bits: bits,
            } && stable_name@ == name && of_kind == kind && bits == percent_bits))
            <==> pending.device_volumes@.contains_key((name, kind))
            && pending.device_volumes@[(name, kind)] == percent_bits,
        (exists|i: int|
            0 <= i < sent.len() && ((#[trigger] sent[i]) matches AudioCommand::DeviceMute {
                stable_name,
                kind: of_kind,
                mute: state,
            } && stable_name@ == name && of_kind == kind && state == mute)) <==> exists|i: int|
            0 <= i < pending.device_mutes@.len() && (#[trigger] pending.device_mutes@[i]).0@
                == name && pending.device_mutes@[i].1 == kind && pending.device_mutes@[i].2 == mute,
{
    let volume = Command::DeviceVolume { stable_name: name, kind, percent_bits };
    let silence = Command::DeviceMute { stable_name: name, kind, mute };
    let order = pending.device_volumes.order();
    let volumes = pending.device_volumes@;
    let list = pending.device_mutes@;
    let all = orders_of(pending);
    pending.device_volumes.lemma_order();
    lemma_orders_are_sent(pending, sent);
    lemma_volume_orders(pending.volumes.order(), pending.volumes@);
    lemma_mute_orders(pending.mutes@);
    assert(commands_of(sent).len() == sent.len());
    assert forall|i: int| 0 <= i < sent.len() implies all[i] == command_of(#[trigger] sent[i]) by {
        assert(commands_of(sent)[i] == command_of(sent[i]));
    }
    let to_volumes = all_device_volumes(order, volumes);
    let to_mutes = all_device_mutes(list);
    if all.contains(volume) {
        let i = choose|i: int| 0 <= i < all.len() && all[i] == volume;
        assert(command_of(sent[i]) == volume);
        assert(to_volumes.contains(volume));
        let k = choose|k: int| 0 <= k < to_volumes.len() && to_volumes[k] == volume;
        assert(order[k] == (name, kind));
        assert(order.contains((name, kind)));
    }
    if volumes.contains_key((name, kind)) && volumes[(name, kind)] == percent_bits {
        assert(order.contains((name, kind)));
        let k = choose|k: int| 0 <= k < order.len() && order[k] == (name, kind);
        assert(to_volumes[k] == volume);
        assert(to_volumes.contains(volume));
        assert(all.contains(volume));
    }
    if all.contains(silence) {
        let i = choose|i: int| 0 <= i < all.len() && all[i] == silence;
        assert(command_of(sent[i]) == silence);
        assert(to_mutes.contains(silence));
        let k = choose|k: int| 0 <= k < to_mutes.len() && to_mutes[k] == silence;
        assert(list[k].0@ == name);
    }
    if exists|i: int|
        0 <= i < list.len() && (#[trigger] list[i]).0@ == name && list[i].1 == kind && list[i].2
            == mute {
        let k = choose|k: int|
            0 <= k < list.len() && (#[trigger] list[k]).0@ == name && list[k].1 == kind
                && list[k].2 == mute;
        assert(to_mutes[k] == silence);
        assert(to_mutes.contains(silence));
        assert(all.contains(silence));
    }
    if exists|i: int|
        0 <= i < sent.len() && ((#[trigger] sent[i]) matches AudioCommand::DeviceVolume {
            stable_name,
            kind: of_kind,
            percent_bits: bits,
        } && stable_name@ == name && of_kind == kind && bits == percent_bits) {
        let i = choose|i: int|
            0 <= i < sent.len() && ((#[trigger] sent[i]) matches AudioCommand::DeviceVolume {
                stable_name,
                kind: of_kind,
                percent_bits: bits,
            } && stable_name@ == name && of_kind == kind && bits == percent_bits);
        assert(all[i] == volume);
    }
    if exists|i: int|
        0 <= i < sent.len() && ((#[trigger] sent[i]) matches AudioCommand::DeviceMute {
            stable_name,
            kind: of_kind,
            mute: state,
        } && stable_name@ == name && of_kind == kind && state == mute) {
        let i = choose|i: int|
            0 <= i < sent.len() && ((#[trigger] sent[i]) matches AudioCommand::DeviceMute {
                stable_name,
                kind: of_kind,
                mute: state,
            } && stable_name@ == name && of_kind == kind && state == mute);
        assert(all[i] == silence);
    }
}

/// The orders to mute streams are sent in the order in which they were given:
/// of two that name the same stream, the later one is sent later.
pub proof fn mute_orders_keep_their_order(
    pending: PendingCommands,
    sent: Seq<AudioCommand>,
    first: int,
    second: int,
    one: (u32, bool),
    other: (u32, bool),
)
    requires
        commands_of(sent) == orders_of(pending),
        0 <= first < second < pending.mutes@.len(),
        pending.mutes@[first].0@.contains(one),
        pending.mutes@[second].0@.contains(other),
    ensures
        exists|i: int, j: int|
            0 <= i < j < sent.len() && #[trigger] sent[i] == (AudioCommand::Mute {
                index: one.0,
                is_device: one.1,
                mute: pending.mutes@[first].1,
            }) && #[trigger] sent[j] == (AudioCommand::Mute {
                index: other.0,
                is_device: other.1,
                mute: pending.mutes@[second].1,
            }),
{
    let list = pending.mutes@;
    lemma_mute_order(list, first, second, one, other);
    let all = orders_of(pending);
    let (i, j) = choose|i: int, j: int|
        0 <= i < j < all_mutes(list).len() && #[trigger] all_mutes(list)[i] == (Command::Mute {
            index: one.0,
            is_device: one.1,
            mute: list[first].1,
        }) && #[trigger] all_mutes(list)[j] == (Command::Mute {
            index: other.0,
            is_device: other.1,
            mute: list[second].1,
        });
    assert(all[i] == all_mutes(list)[i] && all[j] == all_mutes(list)[j]);
    assert(commands_of(sent).len() == sent.len());
    assert(commands_of(sent)[i] == command_of(sent[i]));
    assert(commands_of(sent)[j] == command_of(sent[j]));
    assert(sent[i] == (AudioCommand::Mute {
        index: one.0,
        is_device: one.1,
        mute: list[first].1,
    }));
    assert(sent[j] == (AudioCommand::Mute {
        index: other.0,
        is_device: other.1,
        mute: list[second].1,
    }));
}

proof fn lemma_mute_order(
    list: Seq<(Vec<(u32, bool)>, bool)>,
    first: int,
    second: int,
    one: (u32, bool),
    other: (u32, bool),
)
    requires
        0 <= first < second < list.len(),
        list[first].0@.contains(one),
        list[second].0@.contains(other),
    ensures
        exists|i: int, j: int|
            0 <= i < j < all_mutes(list).len() && #[trigger] all_mutes(list)[i] == (
            Command::Mute { index: one.0, is_device: one.1, mute: list[first].1 })
                && #[trigger] all_mutes(list)[j] == (Command::Mute {
                index: other.0,
                is_device: other.1,
                mute: list[second].1,
            }),
    decreases list.len(),
{
    let before = list.drop_last();
    let all = all_mutes(list);
    let wanted = Command::Mute { index: one.0, is_device: one.1, mute: list[first].1 };
    if second < list.len() - 1 {
        lemma_mute_order(before, first, second, one, other);
        let (i, j) = choose|i: int, j: int|
            0 <= i < j < all_mutes(before).len() && #[trigger] all_mutes(before)[i] == (
            Command::Mute { index: one.0, is_device: one.1, mute: before[first].1 })
                && #[trigger] all_mutes(before)[j] == (Command::Mute {
                index: other.0,
                is_device: other.1,
                mute: before[second].1,
            });
        assert(all[i] == all_mutes(before)[i] && all[j] == all_mutes(before)[j]);
    } else {
        lemma_mute_orders(before);
        let t = choose|t: int| 0 <= t < before[first].0@.len() && before[first].0@[t] == one;
        assert(before[first].0@[t] == one);
        assert(all_mutes(before).contains(wanted));
        let i = choose|i: int| 0 <= i < all_mutes(before).len() && all_mutes(before)[i] == wanted;
        let last = list.last().0@;
        let k = choose|k: int| 0 <= k < last.len() && last[k] == other;
        let j = all_mutes(before).len() + k;
        assert(all[i] == wanted);
        assert(all[j] == group_mutes(last, list.last().1)[k]);
    }
}

proof fn lemma_orders_are_sent(pending: PendingCommands, sent: Seq<AudioCommand>)
    requires
        commands_of(sent) == orders_of(pending),
    ensures
        forall|command: Command| #[trigger]
            commands_of(sent).contains(command) <==> all_mutes(pending.mutes@).contains(command)
                || all_volumes(pending.volumes.order(), pending.volumes@).contains(command)
                || all_device_mutes(pending.device_mutes@).contains(command)
                || all_device_volumes(
                pending.device_volumes.order(),
                pending.device_volumes@,
            ).contains(command),
{
    let a = all_mutes(pending.mutes@);
    let b = all_volumes(pending.volumes.order(), pending.volumes@);
    let c = all_device_mutes(pending.device_mutes@);
    let d = all_device_volumes(pending.device_volumes.order(), pending.device_volumes@);
    lemma_sum_contains(a, b);
    lemma_sum_contains(a + b, c);
    lemma_sum_contains(a + b + c, d);
}

proof fn lemma_plain_order(sent: Seq<AudioCommand>, command: AudioCommand)
    requires
        command is Mute || command is Volume,
    ensures
        commands_of(sent).contains(command_of(command)) <==> sent.contains(command),
{
    let all = commands_of(sent);
    if all.contains(command_of(command)) {
        let i = choose|i: int| 0 <= i < all.len() && all[i] == command_of(command);
        assert(all[i] == command_of(sent[i]));
        assert(sent[i] == command);
    }
    if sent.contains(command) {
        let i = choose|i: int| 0 <= i < sent.len() && sent[i] == command;
        assert(all[i] == command_of(command));
    }
}

// ---------------------------------------------------------------------
// The registry
// ---------------------------------------------------------------------

/// The applications and devices that the sound server was last seen with.
#[derive(Debug)]
pub struct AudioRegistry {
    pub initialized: bool,
    pub applications: Vec<AppInfo>,
    pub outputs: Vec<AudioDeviceInfo>,
    pub inputs: Vec<AudioDeviceInfo>,
}

impl Default for AudioRegistry {
    fn default() -> (res: Self)
        ensures
            !res.initialized,
            res.applications@.len() == 0,
            res.outputs@.len() == 0,
            res.inputs@.len() == 0,
    {
        AudioRegistry {
            initialized: false,
            applications: Vec::new(),
            outputs: Vec::new(),
            inputs: Vec::new(),
        }
    }
}

/// The ids of the applications and the names of the devices that changed,
/// each once.
#[derive(Debug)]
pub struct RegistryChanges {
    pub applications: Vec<String>,
    pub outputs: Vec<String>,
    pub inputs: Vec<String>,
}

impl Default for RegistryChanges {
    fn default() -> (res: Self)
        ensures
            res.applications@.len() == 0,
            res.outputs@.len() == 0,
            res.inputs@.len() == 0,
    {
        RegistryChanges { applications: Vec::new(), outputs: Vec::new(), inputs: Vec::new() }
    }
}

/// What of a stream is compared.
#[derive(Clone, Copy, Debug, PartialEq, Eq, Structural)]
pub struct StreamState {
    pub uid: u32,
    pub vol_percent_bits: u32,
    pub mute: bool,
}

impl Sortable for StreamState {
    open spec fn goes_before(&self, other: &Self) -> bool {
        self.uid < other.uid || (self.uid == other.uid && (self.vol_percent_bits
            < other.vol_percent_bits || (self.vol_percent_bits == other.vol_percent_bits
            && !self.mute && other.mute)))
    }

    fn is_before(&self, other: &Self) -> (res: bool) {
        self.uid < other.uid || (self.uid == other.uid && (self.vol_percent_bits
            < other.vol_percent_bits || (self.vol_percent_bits == other.vol_percent_bits
            && !self.mute && other.mute)))
    }

    proof fn asymmetric(a: &Self, b: &Self) {
    }

    proof fn negatively_transitive(a: &Self, b: &Self, c: &Self) {
    }
}

/// What of an application's stream is compared.
pub open spec fn state_of(app: AppInfo) -> StreamState {
    StreamState { uid: app.uid, vol_percent_bits: app.vol_percent_bits, mute: app.mute }
}

/// The streams of the application with this id. `ids` holds the id of each of
/// the applications.
pub open spec fn states_of(apps: Seq<AppInfo>, ids: Seq<String>, id: Seq<char>) -> Seq<StreamState>
    decreases apps.len(),
{
    if apps.len() == 0 {
        Seq::empty()
    } else {
        let rest = states_of(apps.drop_last(), ids, id);
        if ids[apps.len() - 1]@ == id {
            rest.push(state_of(apps.last()))
        } else {
            rest
        }
    }
}

/// Whether the streams of an application are others than before, in whatever
/// order they stand.
pub open spec fn app_changed(
    previous: Seq<AppInfo>,
    previous_ids: Seq<String>,
    next: Seq<AppInfo>,
    next_ids: Seq<String>,
    id: Seq<char>,
) -> bool {
    states_of(previous, previous_ids, id).to_multiset() != states_of(
        next,
        next_ids,
        id,
    ).to_multiset()
}

/// Whether a list of names holds exactly those that changed, each once.
pub open spec fn lists_exactly(list: Seq<Seq<char>>, changed: spec_fn(Seq<char>) -> bool) -> bool {
    &&& list.no_duplicates()
    &&& forall|id: Seq<char>| #[trigger] list.contains(id) <==> changed(id)
}

/// What changed is listed once, and nothing else is.
pub proof fn changes_are_listed_once(
    list: Seq<Seq<char>>,
    changed: spec_fn(Seq<char>) -> bool,
    i: int,
    j: int,
)
    requires
        lists_exactly(list, changed),
        0 <= i < j < list.len(),
    ensures
        list[i] != list[j],
        changed(list[i]),
{
    assert(list.contains(list[i]));
}

fn collect_states(apps: &[AppInfo], ids: &[String], id: &str) -> (res: Vec<StreamState>)
    requires
        apps@.len() == ids@.len(),
    ensures
        res@ == states_of(apps@, ids@, id@),
{
    let mut out: Vec<StreamState> = Vec::new();
    let mut i: usize = 0;
    while i < apps.len()
        invariant
            i <= apps@.len(),
            apps@.len() == ids@.len(),
            out@ == states_of(apps@.take(i as int), ids@, id@),
        decreases apps@.len() - i,
    {
        assert(apps@.take(i + 1).drop_last() =~= apps@.take(i as int));
        if same(ids[i].as_str(), id) {
            out.push(
                StreamState {
                    uid: apps[i].uid,
                    vol_percent_bits: apps[i].vol_percent_bits,
                    mute: apps[i].mute,
                },
            );
        }
        i += 1;
    }
    assert(apps@.take(i as int) =~= apps@);
    out
}

fn same_states(left: Vec<StreamState>, right: Vec<StreamState>) -> (res: bool)
    ensures
        res == (left@.to_multiset() == right@.to_multiset()),
{
    let a = sort::sort(left);
    let b = sort::sort(right);
    proof {
        broadcast use vstd::seq_lib::group_to_multiset_ensures;

        if a@.to_multiset() == b@.to_multiset() {
            let leq = |x: StreamState, y: StreamState| !y.goes_before(&x);
            assert(vstd::relations::sorted_by(a@, leq));
            assert(vstd::relations::sorted_by(b@, leq));
            vstd::seq_lib::lemma_sorted_unique(a@, b@, leq);
        }
    }
    if a.len() != b.len() {
        return false;
    }
    let mut i: usize = 0;
    while i < a.len()
        invariant
            i <= a@.len(),
            a@.len() == b@.len(),
            left@.to_multiset() == right@.to_multiset() ==> a@ == b@,
            forall|k: int| 0 <= k < i ==> #[trigger] a@[k] == b@[k],
        decreases a@.len() - i,
    {
        if a[i] != b[i] {
            return false;
        }
        i += 1;
    }
    assert(a@ =~= b@);
    true
}

proof fn lemma_no_states(apps: Seq<AppInfo>, ids: Seq<String>, id: Seq<char>)
    requires
        apps.len() <= ids.len(),
        forall|i: int| 0 <= i < apps.len() ==> (#[trigger] ids[i])@ != id,
    ensures
        states_of(apps, ids, id) == Seq::<StreamState>::empty(),
    decreases apps.len(),
{
    if apps.len() > 0 {
        lemma_no_states(apps.drop_last(), ids, id);
    }
}

/// Adds to the list those of the ids that changed.
fn add_changed_apps(
    out: &mut Vec<String>,
    ids: &[String],
    previous: &[AppInfo],
    previous_ids: &[String],
    next: &[AppInfo],
    next_ids: &[String],
)
    requires
        previous@.len() == previous_ids@.len(),
        next@.len() == next_ids@.len(),
        text::texts(old(out)@).no_duplicates(),
    ensures
        text::texts(final(out)@).no_duplicates(),
        forall|id: Seq<char>| #[trigger]
            text::texts(final(out)@).contains(id) <==> (text::texts(old(out)@).contains(id) || (
            text::texts(ids@).contains(id) && app_changed(
                previous@,
                previous_ids@,
                next@,
                next_ids@,
                id,
            ))),
{
    let ghost start = text::texts(out@);
    let ghost all = text::texts(ids@);
    let mut i: usize = 0;
    while i < ids.len()
        invariant
            i <= ids@.len(),
            all == text::texts(ids@),
            previous@.len() == previous_ids@.len(),
            next@.len() == next_ids@.len(),
            text::texts(out@).no_duplicates(),
            forall|id: Seq<char>| #[trigger]
                text::texts(out@).contains(id) <==> (start.contains(id) || (all.take(
                    i as int,
                ).contains(id) && app_changed(
                    previous@,
                    previous_ids@,
                    next@,
                    next_ids@,
                    id,
                ))),
        decreases ids@.len() - i,
    {
        let ghost before = text::texts(out@);
        let id = ids[i].as_str();
        let unchanged = same_states(
            collect_states(previous, previous_ids, id),
            collect_states(next, next_ids, id),
        );
        assert(id@ == all[i as int]);
        assert(all.take(i + 1) =~= all.take(i as int).push(id@));
        proof {
            lemma_contains_push(all.take(i as int), id@);
            lemma_contains_push(before, id@);
        }
        if !unchanged && !contains_string(out.as_slice(), id) {
            let name = ids[i].clone();
            out.push(name);
            assert(text::texts(out@) =~= before.push(id@));
        }
        i += 1;
    }
    assert(all.take(i as int) =~= all);
}

/// What a list holds with one more item, and that it holds none twice where
/// the item is new.
pub proof fn lemma_contains_push(list: Seq<Seq<char>>, item: Seq<char>)
    ensures
        forall|id: Seq<char>| #[trigger]
            list.push(item).contains(id) <==> (list.contains(id) || id == item),
        list.no_duplicates() && !list.contains(item) ==> list.push(item).no_duplicates(),
{
    let longer = list.push(item);
    assert forall|id: Seq<char>| #[trigger] longer.contains(id) <==> (list.contains(id) || id
        == item) by {
        if list.contains(id) {
            let i = choose|i: int| 0 <= i < list.len() && list[i] == id;
            assert(longer[i] == id);
        }
        if id == item {
            assert(longer[list.len() as int] == id);
        }
        if longer.contains(id) {
            let i = choose|i: int| 0 <= i < longer.len() && longer[i] == id;
            if i < list.len() {
                assert(list[i] == id);
            }
        }
    }
}

/// The ids of the applications whose streams are others than before.
pub fn changed_application_ids(
    previous: &[AppInfo],
    previous_ids: &[String],
    next: &[AppInfo],
    next_ids: &[String],
) -> (res: Vec<String>)
    requires
        previous@.len() == previous_ids@.len(),
        next@.len() == next_ids@.len(),
    ensures
        lists_exactly(
            text::texts(res@),
            |id: Seq<char>| app_changed(previous@, previous_ids@, next@, next_ids@, id),
        ),
{
    let mut out: Vec<String> = Vec::new();
    assert(text::texts(out@) =~= Seq::<Seq<char>>::empty());
    add_changed_apps(&mut out, previous_ids, previous, previous_ids, next, next_ids);
    add_changed_apps(&mut out, next_ids, previous, previous_ids, next, next_ids);
    proof {
        assert forall|id: Seq<char>| app_changed(
            previous@,
            previous_ids@,
            next@,
            next_ids@,
            id,
        ) implies text::texts(previous_ids@).contains(id) || text::texts(next_ids@).contains(
            id,
        ) by {
            if !text::texts(previous_ids@).contains(id) && !text::texts(next_ids@).contains(id) {
                assert forall|i: int| 0 <= i < previous@.len() implies (
                #[trigger] previous_ids@[i])@ != id by {
                    assert(text::texts(previous_ids@)[i] == previous_ids@[i]@);
                }
                assert forall|i: int| 0 <= i < next@.len() implies (#[trigger] next_ids@[i])@
                    != id by {
                    assert(text::texts(next_ids@)[i] == next_ids@[i]@);
                }
                lemma_no_states(previous@, previous_ids@, id);
                lemma_no_states(next@, next_ids@, id);
            }
        }
    }
    out
}

/// The volume and the mute state of the last device of a list with this name.
pub open spec fn device_state(devices: Seq<AudioDeviceInfo>, name: Seq<char>) -> Option<(u32, bool)>
    decreases devices.len(),
{
    if devices.len() == 0 {
        None
    } else if devices.last().stable_name@ == name {
        Some((devices.last().vol_percent_bits, devices.last().mute))
    } else {
        device_state(devices.drop_last(), name)
    }
}

/// Whether the state of a device is another than before.
pub open spec fn device_changed(
    previous: Seq<AudioDeviceInfo>,
    next: Seq<AudioDeviceInfo>,
    name: Seq<char>,
) -> bool {
    device_state(previous, name) != device_state(next, name)
}

fn find_device_state(devices: &[AudioDeviceInfo], name: &str) -> (res: Option<(u32, bool)>)
    ensures
        res == device_state(devices@, name@),
{
    let mut n: usize = devices.len();
    assert(devices@.take(n as int) =~= devices@);
    while n > 0
        invariant
            n <= devices@.len(),
            device_state(devices@, name@) == device_state(devices@.take(n as int), name@),
        decreases n,
    {
        assert(devices@.take(n as int).drop_last() =~= devices@.take(n - 1));
        n -= 1;
        if same(devices[n].stable_name.as_str(), name) {
            return Some((devices[n].vol_percent_bits, devices[n].mute));
        }
    }
    None
}

/// The names of the devices of a list.
pub open spec fn device_names(devices: Seq<AudioDeviceInfo>) -> Seq<Seq<char>> {
    devices.map_values(|device: AudioDeviceInfo| device.stable_name@)
}

proof fn lemma_named_device(devices: Seq<AudioDeviceInfo>, name: Seq<char>)
    requires
        device_state(devices, name) is Some,
    ensures
        device_names(devices).contains(name),
    decreases devices.len(),
{
    if devices.last().stable_name@ == name {
        assert(device_names(devices)[devices.len() - 1] == name);
    } else {
        lemma_named_device(devices.drop_last(), name);
        let shorter = device_names(devices.drop_last());
        let i = choose|i: int| 0 <= i < shorter.len() && shorter[i] == name;
        assert(device_names(devices)[i] == name);
    }
}

fn add_changed_devices(
    out: &mut Vec<String>,
    devices: &[AudioDeviceInfo],
    previous: &[AudioDeviceInfo],
    next: &[AudioDeviceInfo],
)
    requires
        text::texts(old(out)@).no_duplicates(),
    ensures
        text::texts(final(out)@).no_duplicates(),
        forall|name: Seq<char>| #[trigger]
            text::texts(final(out)@).contains(name) <==> (text::texts(old(out)@).contains(name)
                || (device_names(devices@).contains(name) && device_changed(
                previous@,
                next@,
                name,
            ))),
{
    let ghost start = text::texts(out@);
    let ghost all = device_names(devices@);
    let mut i: usize = 0;
    while i < devices.len()
        invariant
            i <= devices@.len(),
            all == device_names(devices@),
            text::texts(out@).no_duplicates(),
            forall|name: Seq<char>| #[trigger]
                text::texts(out@).contains(name) <==> (start.contains(name) || (all.take(
                    i as int,
                ).contains(name) && device_changed(previous@, next@, name))),
        decreases devices@.len() - i,
    {
        let ghost before = text::texts(out@);
        let name = devices[i].stable_name.as_str();
        let unchanged = find_device_state(previous, name) == find_device_state(next, name);
        assert(name@ == all[i as int]);
        assert(all.take(i + 1) =~= all.take(i as int).push(name@));
        proof {
            lemma_contains_push(all.take(i as int), name@);
            lemma_contains_push(before, name@);
        }
        if !unchanged && !contains_string(out.as_slice(), name) {
            let copy = devices[i].stable_name.clone();
            out.push(copy);
            assert(text::texts(out@) =~= before.push(name@));
        }
        i += 1;
    }
    assert(all.take(i as int) =~= all);
}

/// The names of the devices whose state is another than before.
pub fn changed_device_ids(previous: &[AudioDeviceInfo], next: &[AudioDeviceInfo]) -> (res: Vec<
    String,
>)
    ensures
        lists_exactly(
            text::texts(res@),
            |name: Seq<char>| device_changed(previous@, next@, name),
        ),
{
    let mut out: Vec<String> = Vec::new();
    assert(text::texts(out@) =~= Seq::<Seq<char>>::empty());
    add_changed_devices(&mut out, previous, previous, next);
    add_changed_devices(&mut out, next, previous, next);
    proof {
        assert forall|name: Seq<char>| device_changed(previous@, next@, name) implies device_names(
            previous@,
        ).contains(name) || device_names(next@).contains(name) by {
            if device_state(previous@, name) is Some {
                lemma_named_device(previous@, name);
            }
            if device_state(next@, name) is Some {
                lemma_named_device(next@, name);
            }
        }
    }
    out
}

/// Puts what the sound server was seen with in the place of what it was seen
/// with before, and tells what changed. The ids are those of the applications
/// held before and of the new ones.
pub fn update_registry(
    registry: &mut AudioRegistry,
    previous_ids: &[String],
    applications: Vec<AppInfo>,
    next_ids: &[String],
    outputs: Vec<AudioDeviceInfo>,
    inputs: Vec<AudioDeviceInfo>,
) -> (res: RegistryChanges)
    requires
        old(registry).applications@.len() == previous_ids@.len(),
        applications@.len() == next_ids@.len(),
    ensures
        *final(registry) == (AudioRegistry { initialized: true, applications, outputs, inputs }),
        lists_exactly(
            text::texts(res.applications@),
            |id: Seq<char>|
                app_changed(
                    old(registry).applications@,
                    previous_ids@,
                    applications@,
                    next_ids@,
                    id,
                ),
        ),
        lists_exactly(
            text::texts(res.outputs@),
            |name: Seq<char>| device_changed(old(registry).outputs@, outputs@, name),
        ),
        lists_exactly(
            text::texts(res.inputs@),
            |name: Seq<char>| device_changed(old(registry).inputs@, inputs@, name),
        ),
{
    let changes = RegistryChanges {
        applications: changed_application_ids(
            registry.applications.as_slice(),
            previous_ids,
            applications.as_slice(),
            next_ids,
        ),
        outputs: changed_device_ids(registry.outputs.as_slice(), outputs.as_slice()),
        inputs: changed_device_ids(registry.inputs.as_slice(), inputs.as_slice()),
    };
    *registry = AudioRegistry { initialized: true, applications, outputs, inputs };
    changes
}

/// Seeing the same again changes nothing.
pub proof fn same_again_is_no_change(
    apps: Seq<AppInfo>,
    ids: Seq<String>,
    devices: Seq<AudioDeviceInfo>,
    list: Seq<Seq<char>>,
)
    ensures
        lists_exactly(list, |id: Seq<char>| app_changed(apps, ids, apps, ids, id)) ==> list.len()
            == 0,
        lists_exactly(list, |name: Seq<char>| device_changed(devices, devices, name)) ==> list.len()
            == 0,
{
    if list.len() > 0 {
        assert(list.contains(list[0]));
    }
}

proof fn lemma_states(apps: Seq<AppInfo>, ids: Seq<String>, id: Seq<char>)
    requires
        apps.len() <= ids.len(),
    ensures
        forall|state: StreamState| #[trigger]
            states_of(apps, ids, id).contains(state) <==> exists|i: int|
                0 <= i < apps.len() && (#[trigger] ids[i])@ == id && apps[i].uid == state.uid
                    && apps[i].vol_percent_bits == state.vol_percent_bits && apps[i].mute
                    == state.mute,
    decreases apps.len(),
{
    if apps.len() > 0 {
        let before = apps.drop_last();
        lemma_states(before, ids, id);
        assert forall|state: StreamState| #[trigger]
            states_of(apps, ids, id).contains(state) <==> exists|i: int|
                0 <= i < apps.len() && (#[trigger] ids[i])@ == id && apps[i].uid == state.uid
                    && apps[i].vol_percent_bits == state.vol_percent_bits && apps[i].mute
                    == state.mute by {
            let all = states_of(apps, ids, id);
            let rest = states_of(before, ids, id);
            if all.contains(state) {
                let k = choose|k: int| 0 <= k < all.len() && all[k] == state;
                if k < rest.len() {
                    assert(rest[k] == state);
                    assert(rest.contains(state));
                    let i = choose|i: int|
                        0 <= i < before.len() && (#[trigger] ids[i])@ == id && before[i].uid
                            == state.uid && before[i].vol_percent_bits == state.vol_percent_bits
                            && before[i].mute == state.mute;
                    assert(apps[i] == before[i]);
                } else {
                    assert(ids[apps.len() - 1]@ == id);
                }
            }
            if exists|i: int|
                0 <= i < apps.len() && (#[trigger] ids[i])@ == id && apps[i].uid == state.uid
                    && apps[i].vol_percent_bits == state.vol_percent_bits && apps[i].mute
                    == state.mute {
                let i = choose|i: int|
                    0 <= i < apps.len() && (#[trigger] ids[i])@ == id && apps[i].uid == state.uid
                        && apps[i].vol_percent_bits == state.vol_percent_bits && apps[i].mute
                        == state.mute;
                if i < before.len() {
                    assert(before[i] == apps[i]);
                    assert(rest.contains(state));
                    let k = choose|k: int| 0 <= k < rest.len() && rest[k] == state;
                    assert(all[k] == state);
                } else {
                    assert(all.last() == state);
                    assert(all[all.len() - 1] == state);
                }
            }
        }
    }
}

/// Whether a list of applications holds a stream of this id with this index,
/// volume and mute state.
pub open spec fn plays(
    apps: Seq<AppInfo>,
    ids: Seq<String>,
    id: Seq<char>,
    uid: u32,
    vol_percent_bits: u32,
    mute: bool,
) -> bool {
    exists|i: int|
        0 <= i < apps.len() && (#[trigger] ids[i])@ == id && apps[i].uid == uid
            && apps[i].vol_percent_bits == vol_percent_bits && apps[i].mute == mute
}

/// An application that is not told to have changed has the same streams as
/// before, each with the same volume and mute state.
pub proof fn unlisted_applications_play_on_unchanged(
    previous: Seq<AppInfo>,
    previous_ids: Seq<String>,
    next: Seq<AppInfo>,
    next_ids: Seq<String>,
    listed: Seq<Seq<char>>,
    id: Seq<char>,
    uid: u32,
    vol_percent_bits: u32,
    mute: bool,
)
    requires
        previous.len() == previous_ids.len(),
        next.len() == next_ids.len(),
        lists_exactly(
            listed,
            |id: Seq<char>| app_changed(previous, previous_ids, next, next_ids, id),
        ),
        !listed.contains(id),
    ensures
        plays(previous, previous_ids, id, uid, vol_percent_bits, mute) <==> plays(
            next,
            next_ids,
            id,
            uid,
            vol_percent_bits,
            mute,
        ),
{
    broadcast use vstd::seq_lib::group_to_multiset_ensures;

    let state = StreamState { uid, vol_percent_bits, mute };
    lemma_states(previous, previous_ids, id);
    lemma_states(next, next_ids, id);
    let before = states_of(previous, previous_ids, id);
    let after = states_of(next, next_ids, id);
    assert(before.to_multiset() == after.to_multiset());
    assert(before.contains(state) <==> before.to_multiset().count(state) > 0);
    assert(after.contains(state) <==> after.to_multiset().count(state) > 0);
}

/// An application with one stream before and after is told to have changed
/// exactly where the stream is another one, or its volume or mute state is.
pub proof fn changed_streams_are_listed(
    previous: Seq<AppInfo>,
    previous_ids: Seq<String>,
    next: Seq<AppInfo>,
    next_ids: Seq<String>,
    listed: Seq<Seq<char>>,
    before: int,
    after: int,
)
    requires
        previous.len() == previous_ids.len(),
        next.len() == next_ids.len(),
        lists_exactly(
            listed,
            |id: Seq<char>| app_changed(previous, previous_ids, next, next_ids, id),
        ),
        0 <= before < previous.len(),
        0 <= after < next.len(),
        previous_ids[before]@ == next_ids[after]@,
        forall|i: int|
            0 <= i < previous.len() && (#[trigger] previous_ids[i])@ == previous_ids[before]@
                ==> i == before,
        forall|i: int|
            0 <= i < next.len() && (#[trigger] next_ids[i])@ == next_ids[after]@ ==> i == after,
    ensures
        listed.contains(previous_ids[before]@) <==> previous[before].uid != next[after].uid
            || previous[before].vol_percent_bits != next[after].vol_percent_bits
            || previous[before].mute != next[after].mute,
{
    let id = previous_ids[before]@;
    lemma_one_state(previous, previous_ids, id, before);
    lemma_one_state(next, next_ids, id, after);
    lemma_states(previous, previous_ids, id);
    lemma_states(next, next_ids, id);
    let a = states_of(previous, previous_ids, id);
    let b = states_of(next, next_ids, id);
    assert(a.contains(a[0]) && b.contains(b[0]));
    if a.to_multiset() == b.to_multiset() {
        broadcast use vstd::seq_lib::group_to_multiset_ensures;

        assert(a.to_multiset().count(a[0]) > 0);
        assert(b.to_multiset().count(a[0]) > 0);
        assert(b.contains(a[0]));
    }
    if a[0] == b[0] {
        assert(a =~= b);
    }
}

proof fn lemma_one_state(apps: Seq<AppInfo>, ids: Seq<String>, id: Seq<char>, at: int)
    requires
        apps.len() <= ids.len(),
        0 <= at < apps.len(),
        ids[at]@ == id,
        forall|i: int| 0 <= i < apps.len() && (#[trigger] ids[i])@ == id ==> i == at,
    ensures
        states_of(apps, ids, id).len() == 1,
    decreases apps.len(),
{
    let before = apps.drop_last();
    if at == apps.len() - 1 {
        assert forall|i: int| 0 <= i < before.len() implies (#[trigger] ids[i])@ != id by {}
        lemma_no_states(before, ids, id);
    } else {
        lemma_one_state(before, ids, id, at);
    }
}

/// An application that was not there before, or is no longer there, is told to
/// have changed.
pub proof fn coming_and_going_is_listed(
    previous: Seq<AppInfo>,
    previous_ids: Seq<String>,
    next: Seq<AppInfo>,
    next_ids: Seq<String>,
    listed: Seq<Seq<char>>,
    id: Seq<char>,
)
    requires
        previous.len() == previous_ids.len(),
        next.len() == next_ids.len(),
        lists_exactly(
            listed,
            |id: Seq<char>| app_changed(previous, previous_ids, next, next_ids, id),
        ),
        text::texts(previous_ids).contains(id) != text::texts(next_ids).contains(id),
    ensures
        listed.contains(id),
{
    lemma_states(previous, previous_ids, id);
    lemma_states(next, next_ids, id);
    let (apps, ids, others, other_ids) = if text::texts(previous_ids).contains(id) {
        (previous, previous_ids, next, next_ids)
    } else {
        (next, next_ids, previous, previous_ids)
    };
    let i = choose|i: int| 0 <= i < text::texts(ids).len() && text::texts(ids)[i] == id;
    assert(ids[i]@ == id);
    let state = StreamState {
        uid: apps[i].uid,
        vol_percent_bits: apps[i].vol_percent_bits,
        mute: apps[i].mute,
    };
    assert(states_of(apps, ids, id).contains(state));
    assert forall|k: int| 0 <= k < others.len() implies (#[trigger] other_ids[k])@ != id by {
        assert(text::texts(other_ids)[k] == other_ids[k]@);
        assert(text::texts(other_ids).contains(text::texts(other_ids)[k]));
    }
    lemma_no_states(others, other_ids, id);
    broadcast use vstd::seq_lib::group_to_multiset_ensures;

    assert(states_of(apps, ids, id).to_multiset().count(state) > 0);
    assert(states_of(others, other_ids, id).to_multiset().count(state) == 0);
}

proof fn lemma_last_named(devices: Seq<AudioDeviceInfo>, name: Seq<char>, at: int)
    requires
        0 <= at < devices.len(),
        devices[at].stable_name@ == name,
        forall|i: int| at < i < devices.len() ==> (#[trigger] devices[i]).stable_name@ != name,
    ensures
        device_state(devices, name) == Some((devices[at].vol_percent_bits, devices[at].mute)),
    decreases devices.len(),
{
    if at < devices.len() - 1 {
        lemma_last_named(devices.drop_last(), name, at);
    }
}

proof fn lemma_unnamed(devices: Seq<AudioDeviceInfo>, name: Seq<char>)
    requires
        forall|i: int| 0 <= i < devices.len() ==> (#[trigger] devices[i]).stable_name@ != name,
    ensures
        device_state(devices, name) is None,
    decreases devices.len(),
{
    if devices.len() > 0 {
        lemma_unnamed(devices.drop_last(), name);
    }
}

/// A device that is there before and after, once each, is told to have changed
/// exactly where its volume or its mute state is another; one that is there
/// only before or only after is told to have changed; one that is there
/// neither time is not.
pub proof fn changed_devices_are_listed(
    previous: Seq<AudioDeviceInfo>,
    next: Seq<AudioDeviceInfo>,
    listed: Seq<Seq<char>>,
    name: Seq<char>,
    before: int,
    after: int,
)
    requires
        lists_exactly(listed, |name: Seq<char>| device_changed(previous, next, name)),
        before == -1 || (0 <= before < previous.len() && previous[before].stable_name@ == name),
        after == -1 || (0 <= after < next.len() && next[after].stable_name@ == name),
        forall|i: int|
            0 <= i < previous.len() && (#[trigger] previous[i]).stable_name@ == name ==> i
                == before,
        forall|i: int|
            0 <= i < next.len() && (#[trigger] next[i]).stable_name@ == name ==> i == after,
    ensures
        before >= 0 && after >= 0 ==> (listed.contains(name) <==> previous[before].vol_percent_bits
            != next[after].vol_percent_bits || previous[before].mute != next[after].mute),
        (before >= 0) != (after >= 0) ==> listed.contains(name),
        before < 0 && after < 0 ==> !listed.contains(name),
{
    if before >= 0 {
        lemma_last_named(previous, name, before);
    } else {
        lemma_unnamed(previous, name);
    }
    if after >= 0 {
        lemma_last_named(next, name, after);
    } else {
        lemma_unnamed(next, name);
    }
}

/// The applications, once the sound server has been seen.
pub fn registry_applications(registry: &AudioRegistry) -> (res: Option<&Vec<AppInfo>>)
    ensures
        res == if registry.initialized {
            Some(&registry.applications)
        } else {
            None
        },
{
    if registry.initialized {
        Some(&registry.applications)
    } else {
        None
    }
}

/// The devices of a kind, once the sound server has been seen.
pub fn registry_devices(registry: &AudioRegistry, kind: DeviceKind) -> (res: Option<
    &Vec<AudioDeviceInfo>,
>)
    ensures
        res == if registry.initialized {
            match kind {
                DeviceKind::Output => Some(&registry.outputs),
                DeviceKind::Input => Some(&registry.inputs),
            }
        } else {
            None
        },
{
    if registry.initialized {
        match kind {
            DeviceKind::Output => Some(&registry.outputs),
            DeviceKind::Input => Some(&registry.inputs),
        }
    } else {
        None
    }
}

/// The place of the first application with this index, or the number of
/// applications.
pub open spec fn place_of_app(apps: Seq<AppInfo>, index: u32) -> int
    decreases apps.len(),
{
    if apps.len() == 0 || apps[0].uid == index {
        0
    } else {
        1 + place_of_app(apps.skip(1), index)
    }
}

/// The place of the first device with this name, or the number of devices.
pub open spec fn place_of_device(devices: Seq<AudioDeviceInfo>, name: Seq<char>) -> int
    decreases devices.len(),
{
    if devices.len() == 0 || devices[0].stable_name@ == name {
        0
    } else {
        1 + place_of_device(devices.skip(1), name)
    }
}

/// The place of an application or a device is that of the first one with the
/// index or the name, wherever there is one.
pub proof fn first_of_an_index_or_name_is_found(
    apps: Seq<AppInfo>,
    index: u32,
    devices: Seq<AudioDeviceInfo>,
    name: Seq<char>,
    i: int,
)
    ensures
        0 <= place_of_app(apps, index) <= apps.len(),
        place_of_app(apps, index) < apps.len() ==> apps[place_of_app(apps, index)].uid == index,
        0 <= i < apps.len() && apps[i].uid == index ==> place_of_app(apps, index) <= i,
        0 <= place_of_device(devices, name) <= devices.len(),
        place_of_device(devices, name) < devices.len() ==> devices[place_of_device(
            devices,
            name,
        )].stable_name@ == name,
        0 <= i < devices.len() && devices[i].stable_name@ == name ==> place_of_device(devices, name)
            <= i,
    decreases apps.len() + devices.len(),
{
    let rest = if apps.len() > 0 {
        apps.skip(1)
    } else {
        apps
    };
    let others = if devices.len() > 0 {
        devices.skip(1)
    } else {
        devices
    };
    if apps.len() + devices.len() > 0 {
        first_of_an_index_or_name_is_found(rest, index, others, name, i - 1);
    }
}

/// Finds the application with an index.
pub fn find_application(apps: &Vec<AppInfo>, index: u32) -> (res: Option<usize>)
    ensures
        match res {
            Some(i) => i < apps@.len() && i == place_of_app(apps@, index),
            None => place_of_app(apps@, index) == apps@.len(),
        },
{
    let mut i: usize = 0;
    assert(apps@.skip(0) =~= apps@);
    while i < apps.len()
        invariant
            i <= apps@.len(),
            place_of_app(apps@, index) == i + place_of_app(apps@.skip(i as int), index),
        decreases apps@.len() - i,
    {
        assert(apps@.skip(i as int)[0] == apps@[i as int]);
        assert(apps@.skip(i as int).skip(1) =~= apps@.skip(i + 1));
        if apps[i].uid == index {
            return Some(i);
        }
        i += 1;
    }
    None
}

/// Finds the device with a name.
pub fn find_device(devices: &Vec<AudioDeviceInfo>, name: &str) -> (res: Option<usize>)
    ensures
        match res {
            Some(i) => i < devices@.len() && i == place_of_device(devices@, name@),
            None => place_of_device(devices@, name@) == devices@.len(),
        },
{
    let mut i: usize = 0;
    assert(devices@.skip(0) =~= devices@);
    while i < devices.len()
        invariant
            i <= devices@.len(),
            place_of_device(devices@, name@) == i + place_of_device(
                devices@.skip(i as int),
                name@,
            ),
        decreases devices@.len() - i,
    {
        assert(devices@.skip(i as int)[0] == devices@[i as int]);
        assert(devices@.skip(i as int).skip(1) =~= devices@.skip(i + 1));
        if same(devices[i].stable_name.as_str(), name) {
            return Some(i);
        }
        i += 1;
    }
    None
}

/// An application with another volume and mute state.
pub open spec fn with_state(app: AppInfo, vol_percent_bits: u32, mute: bool) -> AppInfo {
    AppInfo { vol_percent_bits, mute, ..app }
}

/// A device with another volume and mute state.
pub open spec fn device_with_state(
    device: AudioDeviceInfo,
    vol_percent_bits: u32,
    mute: bool,
) -> AudioDeviceInfo {
    AudioDeviceInfo { vol_percent_bits, mute, ..device }
}

/// A new state of an application or a device is its volume and its mute state,
/// and nothing else.
pub proof fn state_is_volume_and_mute(
    app: AppInfo,
    device: AudioDeviceInfo,
    vol_percent_bits: u32,
    mute: bool,
)
    ensures
        with_state(app, vol_percent_bits, mute).vol_percent_bits == vol_percent_bits,
        with_state(app, vol_percent_bits, mute).mute == mute,
        with_state(
            with_state(app, vol_percent_bits, mute),
            app.vol_percent_bits,
            app.mute,
        ) == app,
        device_with_state(device, vol_percent_bits, mute).vol_percent_bits == vol_percent_bits,
        device_with_state(device, vol_percent_bits, mute).mute == mute,
        device_with_state(
            device_with_state(device, vol_percent_bits, mute),
            device.vol_percent_bits,
            device.mute,
        ) == device,
{
}

/// Notes the state of a stream, and tells whose it is. Where no application
/// has the index, nothing changes. `from_process` is the id of the Steam
/// application that the stream's process gave.
pub fn update_application_state(
    registry: &mut AudioRegistry,
    index: u32,
    vol_percent_bits: u32,
    mute: bool,
    from_process: Option<&str>,
) -> (res: Option<String>)
    ensures
        final(registry).initialized == old(registry).initialized,
        final(registry).outputs == old(registry).outputs,
        final(registry).inputs == old(registry).inputs,
        ({
            let apps = old(registry).applications@;
            let i = place_of_app(apps, index);
            if i < apps.len() {
                &&& final(registry).applications@ == apps.update(
                    i,
                    with_state(apps[i], vol_percent_bits, mute),
                )
                &&& text::text_of(res) == Some(
                    steam::stable_id(apps[i], text::str_of(from_process)),
                )
            } else {
                &&& final(registry).applications@ == apps
                &&& res is None
            }
        }),
{
    match find_application(&registry.applications, index) {
        Some(i) => {
            let id = stable_application_id(&registry.applications[i], from_process);
            let mut app = registry.applications.remove(i);
            app.vol_percent_bits = vol_percent_bits;
            app.mute = mute;
            registry.applications.insert(i, app);
            assert(registry.applications@ =~= old(registry).applications@.update(
                i as int,
                with_state(old(registry).applications@[i as int], vol_percent_bits, mute),
            ));
            Some(id)
        },
        None => None,
    }
}

fn set_device_state(
    devices: &mut Vec<AudioDeviceInfo>,
    stable_name: &str,
    vol_percent_bits: u32,
    mute: bool,
) -> (res: bool)
    ensures
        ({
            let i = place_of_device(old(devices)@, stable_name@);
            if i < old(devices)@.len() {
                &&& res
                &&& final(devices)@ == old(devices)@.update(
                    i,
                    device_with_state(old(devices)@[i], vol_percent_bits, mute),
                )
            } else {
                !res && *final(devices) == *old(devices)
            }
        }),
{
    match find_device(&*devices, stable_name) {
        Some(i) => {
            let mut device = devices.remove(i);
            device.vol_percent_bits = vol_percent_bits;
            device.mute = mute;
            devices.insert(i, device);
            assert(devices@ =~= old(devices)@.update(
                i as int,
                device_with_state(old(devices)@[i as int], vol_percent_bits, mute),
            ));
            true
        },
        None => false,
    }
}

/// The devices of a kind.
pub open spec fn devices_of(registry: AudioRegistry, kind: DeviceKind) -> Seq<AudioDeviceInfo> {
    match kind {
        DeviceKind::Output => registry.outputs@,
        DeviceKind::Input => registry.inputs@,
    }
}

/// Whether this is what becomes of the devices of a kind when the one with a
/// name has a new state, and whether it is known.
pub open spec fn is_device_change(
    devices: Seq<AudioDeviceInfo>,
    after: Seq<AudioDeviceInfo>,
    name: Seq<char>,
    vol_percent_bits: u32,
    mute: bool,
    known: bool,
) -> bool {
    let i = place_of_device(devices, name);
    if i < devices.len() {
        &&& known
        &&& after == devices.update(i, device_with_state(devices[i], vol_percent_bits, mute))
    } else {
        !known && after == devices
    }
}

/// A device that changed and is known has its new state from then on, and all
/// others stay as they are. One that is not known changes nothing.
pub proof fn changed_devices_have_their_new_state(
    devices: Seq<AudioDeviceInfo>,
    after: Seq<AudioDeviceInfo>,
    name: Seq<char>,
    vol_percent_bits: u32,
    mute: bool,
    known: bool,
    i: int,
)
    requires
        is_device_change(devices, after, name, vol_percent_bits, mute, known),
        0 <= i < devices.len(),
        forall|j: int| 0 <= j < i ==> (#[trigger] devices[j]).stable_name@ != devices[i].stable_name@,
    ensures
        after.len() == devices.len(),
        devices[i].stable_name@ == name ==> known && after[i].mute == mute
            && after[i].vol_percent_bits == vol_percent_bits,
        devices[i].stable_name@ != name ==> after[i] == devices[i],
        after[i].stable_name == devices[i].stable_name,
        after[i].description == devices[i].description,
        after[i].kind == devices[i].kind,
        !known ==> after == devices,
        known ==> exists|k: int|
            0 <= k < devices.len() && (#[trigger] devices[k]).stable_name@ == name,
{
    first_of_an_index_or_name_is_found(Seq::empty(), 0, devices, name, i);
    let place = place_of_device(devices, name);
    if devices[i].stable_name@ == name && place < i {
        assert(devices[place].stable_name@ != devices[i].stable_name@);
    }
    if known {
        assert(devices[place].stable_name@ == name);
    }
}

/// Notes the state of a device. Where none of that kind has the name, nothing
/// changes.
pub fn update_device_state(
    registry: &mut AudioRegistry,
    stable_name: &str,
    kind: DeviceKind,
    vol_percent_bits: u32,
    mute: bool,
) -> (res: bool)
    ensures
        final(registry).initialized == old(registry).initialized,
        final(registry).applications == old(registry).applications,
        match kind {
            DeviceKind::Output => final(registry).inputs == old(registry).inputs,
            DeviceKind::Input => final(registry).outputs == old(registry).outputs,
        },
        is_device_change(
            devices_of(*old(registry), kind),
            devices_of(*final(registry), kind),
            stable_name@,
            vol_percent_bits,
            mute,
            res,
        ),
{
    match kind {
        DeviceKind::Output => set_device_state(
            &mut registry.outputs,
            stable_name,
            vol_percent_bits,
            mute,
        ),
        DeviceKind::Input => set_device_state(
            &mut registry.inputs,
            stable_name,
            vol_percent_bits,
            mute,
        ),
    }
}

} // verus!
