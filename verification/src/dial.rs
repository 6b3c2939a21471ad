//! The dial that sets the volume of an application.

use vstd::prelude::*;

use crate::audio::audio_system::AppInfo;
use crate::feedback;
use crate::feedback::{
    build_feedback, choose_title, is_dimmed, DialFeedback, Frame, RenderStep, VolumePrediction,
};
use crate::percent;
use crate::text;
use crate::text::{contains_string, copy_option, copy_strings, holds, same};

pub use crate::percent::{clamp_target_percent, sanitize_maximum_volume};

verus! {

// ---------------------------------------------------------------------
// Configured targets
// ---------------------------------------------------------------------

/// The ids without the empty ones and those that came before.
pub open spec fn kept_ids(list: Seq<Seq<char>>) -> Seq<Seq<char>>
    decreases list.len(),
{
    if list.len() == 0 {
        list
    } else {
        let kept = kept_ids(list.drop_last());
        if list.last().len() == 0 || kept.contains(list.last()) {
            kept
        } else {
            kept.push(list.last())
        }
    }
}

/// The targets that a user chose: the list, or the single target of older
/// settings where the list is empty.
pub open spec fn chosen_ids(target_ids: Seq<Seq<char>>, target_id: Seq<char>) -> Seq<Seq<char>> {
    if target_ids.len() == 0 && target_id.len() > 0 {
        kept_ids(seq![target_id])
    } else {
        kept_ids(target_ids)
    }
}

fn keep_ids(list: &[String]) -> (res: Vec<String>)
    ensures
        text::texts(res@) == kept_ids(text::texts(list@)),
{
    let ghost all = text::texts(list@);
    let mut out: Vec<String> = Vec::new();
    let mut i: usize = 0;
    assert(text::texts(out@) =~= kept_ids(all.take(0)));
    while i < list.len()
        invariant
            i <= list@.len(),
            all == text::texts(list@),
            text::texts(out@) == kept_ids(all.take(i as int)),
        decreases list@.len() - i,
    {
        let ghost before = text::texts(out@);
        assert(all.take(i + 1).drop_last() =~= all.take(i as int));
        assert(all[i as int] == list@[i as int]@);
        let id = list[i].as_str();
        if !is_blank(id) && !contains_string(out.as_slice(), id) {
            let id = list[i].clone();
            out.push(id);
            assert(text::texts(out@) =~= before.push(id@));
        }
        i += 1;
    }
    assert(all.take(i as int) =~= all);
    out
}

/// Whether a text is empty.
pub fn is_blank(value: &str) -> (res: bool)
    ensures
        res == (value@.len() == 0),
{
    proof {
        reveal_strlit("");
        assert(value@.len() == 0 ==> value@ =~= ""@);
    }
    same(value, "")
}

/// The targets that a user chose, each once and in order.
pub fn normalized_ids(target_ids: &[String], target_id: &str) -> (res: Vec<String>)
    ensures
        text::texts(res@) == chosen_ids(text::texts(target_ids@), target_id@),
{
    if target_ids.len() == 0 && !is_blank(target_id) {
        let mut single: Vec<String> = Vec::new();
        single.push(target_id.to_owned());
        assert(text::texts(single@) =~= seq![target_id@]);
        keep_ids(single.as_slice())
    } else {
        keep_ids(target_ids)
    }
}

/// The targets that a user chose hold no empty id and none twice, all of them
/// come from the list, and choosing from them again changes nothing.
pub proof fn chosen_ids_are_distinct(list: Seq<Seq<char>>)
    ensures
        kept_ids(list).no_duplicates(),
        forall|i: int|
            0 <= i < kept_ids(list).len() ==> (#[trigger] kept_ids(list)[i]).len() > 0
                && list.contains(kept_ids(list)[i]),
        forall|i: int|
            0 <= i < list.len() && (#[trigger] list[i]).len() > 0 ==> kept_ids(list).contains(
                list[i],
            ),
        kept_ids(kept_ids(list)) == kept_ids(list),
    decreases list.len(),
{
    if list.len() > 0 {
        let shorter = list.drop_last();
        let kept = kept_ids(shorter);
        let item = list.last();
        chosen_ids_are_distinct(shorter);
        assert forall|i: int| 0 <= i < kept_ids(list).len() implies (
        #[trigger] kept_ids(list)[i]).len() > 0 && list.contains(kept_ids(list)[i]) by {
            if i < kept.len() {
                assert(kept_ids(list)[i] == kept[i]);
                let k = choose|k: int| 0 <= k < shorter.len() && shorter[k] == kept[i];
                assert(list[k] == kept[i]);
            } else {
                assert(list[list.len() - 1] == item);
            }
        }
        assert forall|i: int|
            0 <= i < list.len() && (#[trigger] list[i]).len() > 0 implies kept_ids(list).contains(
            list[i],
        ) by {
            if i < shorter.len() {
                assert(shorter[i] == list[i]);
                let k = choose|k: int| 0 <= k < kept.len() && kept[k] == list[i];
                assert(kept_ids(list)[k] == list[i]);
            } else if !kept.contains(item) {
                assert(kept_ids(list)[kept.len() as int] == item);
            }
        }
        if item.len() > 0 && !kept.contains(item) {
            assert(kept.push(item).drop_last() =~= kept);
        }
    }
}

/// The targets that a user chose keep the order of the list: of two different
/// ids, the one that comes first in the list comes first.
pub proof fn chosen_ids_keep_their_order(list: Seq<Seq<char>>, i: int, j: int)
    requires
        0 <= i < j < list.len(),
        list[i].len() > 0,
        list[j].len() > 0,
        forall|k: int| 0 <= k < j ==> #[trigger] list[k] != list[j],
    ensures
        exists|a: int, b: int|
            0 <= a < b < kept_ids(list).len() && #[trigger] kept_ids(list)[a] == list[i]
                && #[trigger] kept_ids(list)[b] == list[j],
    decreases list.len(),
{
    let before = list.drop_last();
    let kept = kept_ids(before);
    chosen_ids_are_distinct(before);
    if j < list.len() - 1 {
        chosen_ids_keep_their_order(before, i, j);
        let (a, b) = choose|a: int, b: int|
            0 <= a < b < kept.len() && #[trigger] kept[a] == before[i] && #[trigger] kept[b]
                == before[j];
        assert(kept_ids(list)[a] == list[i] && kept_ids(list)[b] == list[j]);
    } else {
        assert(before[i] == list[i]);
        assert(kept.contains(list[i]));
        let a = choose|a: int| 0 <= a < kept.len() && kept[a] == list[i];
        if kept.contains(list[j]) {
            let k = choose|k: int| 0 <= k < kept.len() && kept[k] == list[j];
            assert(before.contains(kept[k]));
            let m = choose|m: int| 0 <= m < before.len() && before[m] == list[j];
            assert(list[m] == list[j]);
        }
        assert(kept_ids(list)[a] == list[i]);
        assert(kept_ids(list)[kept.len() as int] == list[j]);
    }
}

/// The single target of older settings counts exactly where there is no list:
/// then it is the only target, unless it is empty too.
pub proof fn older_target_counts_without_a_list(list: Seq<Seq<char>>, one: Seq<char>, other: Seq<char>)
    ensures
        list.len() > 0 ==> chosen_ids(list, one) == chosen_ids(list, other),
        list.len() == 0 && one.len() > 0 ==> chosen_ids(list, one) == seq![one],
        list.len() == 0 && one.len() == 0 ==> chosen_ids(list, one).len() == 0,
{
    let single = seq![one];
    assert(single.drop_last() =~= Seq::<Seq<char>>::empty());
    assert(kept_ids(single.drop_last()) =~= Seq::<Seq<char>>::empty());
    if list.len() == 0 && one.len() > 0 {
        assert(!kept_ids(single.drop_last()).contains(one));
        assert(chosen_ids(list, one) =~= seq![one]);
    }
}

// ---------------------------------------------------------------------
// The active target
// ---------------------------------------------------------------------

/// The first of the configured targets that is available.
pub open spec fn first_available(configured: Seq<Seq<char>>, available: Seq<Seq<char>>) -> Option<
    Seq<char>,
>
    decreases configured.len(),
{
    if configured.len() == 0 {
        None
    } else if available.contains(configured[0]) {
        Some(configured[0])
    } else {
        first_available(configured.skip(1), available)
    }
}

/// The target that is active: the current one as long as it is configured and
/// available, else the first configured one that is available.
pub open spec fn active_of(
    configured: Seq<Seq<char>>,
    available: Seq<Seq<char>>,
    current: Option<Seq<char>>,
) -> Option<Seq<char>> {
    if current is Some && configured.contains(current->0) && available.contains(current->0) {
        current
    } else {
        first_available(configured, available)
    }
}

/// Chooses the active target. `available` holds the ids of the applications
/// that play.
pub fn arbitrate_active(configured: &[String], available: &[String], current: Option<&str>) -> (res:
    Option<String>)
    ensures
        text::text_of(res) == active_of(
            text::texts(configured@),
            text::texts(available@),
            text::str_of(current),
        ),
{
    if let Some(id) = current {
        if contains_string(configured, id) && contains_string(available, id) {
            return Some(id.to_owned());
        }
    }
    let ghost all = text::texts(configured@);
    let ghost here = text::texts(available@);
    let mut i: usize = 0;
    assert(all.skip(0) =~= all);
    while i < configured.len()
        invariant
            i <= configured@.len(),
            all == text::texts(configured@),
            here == text::texts(available@),
            active_of(all, here, text::str_of(current)) == first_available(all, here),
            first_available(all, here) == first_available(all.skip(i as int), here),
        decreases configured@.len() - i,
    {
        assert(all.skip(i as int)[0] == configured@[i as int]@);
        assert(all.skip(i as int).skip(1) =~= all.skip(i + 1));
        if contains_string(available, configured[i].as_str()) {
            return Some(configured[i].clone());
        }
        i += 1;
    }
    None
}

proof fn lemma_first_available(configured: Seq<Seq<char>>, available: Seq<Seq<char>>)
    ensures
        match first_available(configured, available) {
            Some(id) => exists|i: int|
                {
                    &&& 0 <= i < configured.len()
                    &&& #[trigger] configured[i] == id
                    &&& available.contains(id)
                    &&& forall|j: int| 0 <= j < i ==> !available.contains(#[trigger] configured[j])
                },
            None => forall|j: int|
                0 <= j < configured.len() ==> !available.contains(#[trigger] configured[j]),
        },
    decreases configured.len(),
{
    if configured.len() > 0 && !available.contains(configured[0]) {
        let rest = configured.skip(1);
        lemma_first_available(rest, available);
        match first_available(rest, available) {
            Some(id) => {
                let i = choose|i: int|
                    {
                        &&& 0 <= i < rest.len()
                        &&& #[trigger] rest[i] == id
                        &&& available.contains(id)
                        &&& forall|j: int| 0 <= j < i ==> !available.contains(#[trigger] rest[j])
                    };
                assert(configured[i + 1] == id);
                assert forall|j: int| 0 <= j < i + 1 implies !available.contains(
                    #[trigger] configured[j],
                ) by {
                    if j > 0 {
                        assert(rest[j - 1] == configured[j]);
                    }
                }
            },
            None => {
                assert forall|j: int| 0 <= j < configured.len() implies !available.contains(
                    #[trigger] configured[j],
                ) by {
                    if j > 0 {
                        assert(rest[j - 1] == configured[j]);
                    }
                }
            },
        }
    }
}

/// The active target is configured and available; there is one as soon as a
/// configured target is available; and it does not give way to another while
/// it stays available, whatever else becomes available.
pub proof fn active_target_is_sticky(
    configured: Seq<Seq<char>>,
    available: Seq<Seq<char>>,
    current: Option<Seq<char>>,
)
    ensures
        active_of(configured, available, current) matches Some(id) ==> configured.contains(id)
            && available.contains(id),
        active_of(configured, available, current) is None ==> forall|i: int|
            0 <= i < configured.len() ==> !available.contains(#[trigger] configured[i]),
        current is Some && configured.contains(current->0) && available.contains(current->0)
            ==> active_of(configured, available, current) == current,
        active_of(configured, available, active_of(configured, available, current)) == active_of(
            configured,
            available,
            current,
        ),
{
    lemma_first_available(configured, available);
}

/// When the active target goes away, the first of the configured ones that is
/// left takes over.
pub proof fn failover_follows_the_configured_order(
    configured: Seq<Seq<char>>,
    available: Seq<Seq<char>>,
    current: Seq<char>,
    i: int,
)
    requires
        !available.contains(current),
        0 <= i < configured.len(),
        available.contains(configured[i]),
        forall|j: int| 0 <= j < i ==> !available.contains(#[trigger] configured[j]),
    ensures
        active_of(configured, available, Some(current)) == Some(configured[i]),
{
    lemma_first_available(configured, available);
}

/// Whether a change of one of these applications concerns a dial.
pub open spec fn is_concerned(
    configured: Seq<Seq<char>>,
    active: Option<Seq<char>>,
    changed: Seq<Seq<char>>,
) -> bool {
    ||| exists|i: int| 0 <= i < configured.len() && changed.contains(#[trigger] configured[i])
    ||| active is Some && changed.contains(active->0)
}

/// Whether a change of one of these applications concerns a dial.
pub fn should_refresh_for(configured: &[String], active: Option<&str>, changed: &[String]) -> (res:
    bool)
    ensures
        res == is_concerned(
            text::texts(configured@),
            text::str_of(active),
            text::texts(changed@),
        ),
{
    let any = shares_id(configured, changed);
    let current = match active {
        Some(id) => contains_string(changed, id),
        None => false,
    };
    any || current
}

/// Whether one of the ids stands in the other list.
pub fn shares_id(ids: &[String], changed: &[String]) -> (res: bool)
    ensures
        res == exists|i: int|
            0 <= i < text::texts(ids@).len() && text::texts(changed@).contains(
                #[trigger] text::texts(ids@)[i],
            ),
{
    let ghost all = text::texts(ids@);
    let mut i: usize = 0;
    while i < ids.len()
        invariant
            i <= ids@.len(),
            all == text::texts(ids@),
            forall|k: int| 0 <= k < i ==> !text::texts(changed@).contains(#[trigger] all[k]),
        decreases ids@.len() - i,
    {
        assert(all[i as int] == ids@[i as int]@);
        if contains_string(changed, ids[i].as_str()) {
            return true;
        }
        i += 1;
    }
    false
}

/// A dial is concerned exactly by a change of one of its own targets: one that
/// is neither configured nor active does not concern it, and more changes
/// concern no fewer dials.
pub proof fn only_own_targets_concern_a_dial(
    configured: Seq<Seq<char>>,
    active: Option<Seq<char>>,
    changed: Seq<Seq<char>>,
    id: Seq<char>,
)
    ensures
        changed.contains(id) && (configured.contains(id) || active == Some(id)) ==> is_concerned(
            configured,
            active,
            changed,
        ),
        !configured.contains(id) && active != Some(id) ==> (is_concerned(
            configured,
            active,
            changed.push(id),
        ) <==> is_concerned(configured, active, changed)),
        !is_concerned(configured, active, Seq::empty()),
{
    let more = changed.push(id);
    crate::audio::lemma_contains_push(changed, id);
    if changed.contains(id) && configured.contains(id) {
        let i = choose|i: int| 0 <= i < configured.len() && configured[i] == id;
        assert(changed.contains(configured[i]));
    }
    if is_concerned(configured, active, changed) {
        if exists|i: int| 0 <= i < configured.len() && changed.contains(#[trigger] configured[i]) {
            let i = choose|i: int|
                0 <= i < configured.len() && changed.contains(#[trigger] configured[i]);
            assert(more.contains(configured[i]));
        }
    }
    if !configured.contains(id) && is_concerned(configured, active, more) {
        if exists|i: int| 0 <= i < configured.len() && more.contains(#[trigger] configured[i]) {
            let i = choose|i: int|
                0 <= i < configured.len() && more.contains(#[trigger] configured[i]);
            assert(configured.contains(configured[i]));
            assert(changed.contains(configured[i]));
        }
    }
}

// ---------------------------------------------------------------------
// The streams of a target
// ---------------------------------------------------------------------

/// The places of the applications with this id, of the first `n`.
pub open spec fn places_of(ids: Seq<String>, id: Option<Seq<char>>, n: nat) -> Seq<usize>
    decreases n,
{
    if n == 0 {
        Seq::empty()
    } else {
        let before = places_of(ids, id, (n - 1) as nat);
        if id == Some(ids[n - 1]@) {
            before.push((n - 1) as usize)
        } else {
            before
        }
    }
}

/// The places of the applications with this id.
pub open spec fn member_places(ids: Seq<String>, id: Option<Seq<char>>) -> Seq<usize> {
    places_of(ids, id, ids.len())
}

/// The applications at the places of an id have that id.
pub proof fn lemma_places(ids: Seq<String>, id: Option<Seq<char>>, n: nat)
    requires
        n <= ids.len(),
        ids.len() <= usize::MAX,
    ensures
        forall|k: int|
            0 <= k < places_of(ids, id, n).len() ==> (#[trigger] places_of(ids, id, n)[k]) < n
                && id == Some(ids[places_of(ids, id, n)[k] as int]@),
    decreases n,
{
    if n > 0 {
        lemma_places(ids, id, (n - 1) as nat);
        let before = places_of(ids, id, (n - 1) as nat);
        assert forall|k: int| 0 <= k < places_of(ids, id, n).len() implies (
        #[trigger] places_of(ids, id, n)[k]) < n && id == Some(
            ids[places_of(ids, id, n)[k] as int]@,
        ) by {
            if k < before.len() {
                assert(places_of(ids, id, n)[k] == before[k]);
            }
        }
    }
}

/// The places of the applications with an id. `ids` holds the id of each
/// application.
pub fn members_of(ids: &[String], id: &Option<String>) -> (res: Vec<usize>)
    ensures
        res@ == member_places(ids@, text::text_of(*id)),
        forall|k: int|
            0 <= k < res@.len() ==> (#[trigger] res@[k]) < ids@.len() && text::text_of(*id)
                == Some(ids@[res@[k] as int]@),
{
    let mut out: Vec<usize> = Vec::new();
    let mut i: usize = 0;
    while i < ids.len()
        invariant
            i <= ids@.len(),
            out@ == places_of(ids@, text::text_of(*id), i as nat),
        decreases ids@.len() - i,
    {
        if holds(id, ids[i].as_str()) {
            out.push(i);
        }
        i += 1;
    }
    proof {
        lemma_places(ids@, text::text_of(*id), ids@.len());
    }
    out
}

proof fn lemma_all_places(ids: Seq<String>, id: Option<Seq<char>>, n: nat)
    requires
        n <= ids.len(),
        ids.len() <= usize::MAX,
    ensures
        forall|i: int|
            0 <= i < n && id == Some((#[trigger] ids[i])@) ==> places_of(ids, id, n).contains(
                i as usize,
            ),
        forall|a: int, b: int|
            0 <= a < b < places_of(ids, id, n).len() ==> #[trigger] places_of(ids, id, n)[a]
                < #[trigger] places_of(ids, id, n)[b],
    decreases n,
{
    if n > 0 {
        lemma_all_places(ids, id, (n - 1) as nat);
        lemma_places(ids, id, (n - 1) as nat);
        let before = places_of(ids, id, (n - 1) as nat);
        let all = places_of(ids, id, n);
        assert forall|i: int| 0 <= i < n && id == Some(
            (#[trigger] ids[i])@,
        ) implies all.contains(i as usize) by {
            if i < n - 1 {
                assert(before.contains(i as usize));
                let k = choose|k: int| 0 <= k < before.len() && before[k] == i as usize;
                assert(all[k] == i as usize);
            } else {
                assert(all.last() == i as usize);
                assert(all[all.len() - 1] == i as usize);
            }
        }
    }
}

/// The members of a target are all applications with its id, each once and in
/// their order, and no others.
pub proof fn members_are_all_streams_of_the_target(
    ids: Seq<String>,
    id: Option<Seq<char>>,
    i: int,
    a: int,
    b: int,
)
    requires
        ids.len() <= usize::MAX,
        0 <= i < ids.len(),
    ensures
        member_places(ids, id).contains(i as usize) <==> id == Some(ids[i]@),
        0 <= a < b < member_places(ids, id).len() ==> member_places(ids, id)[a] < member_places(
            ids,
            id,
        )[b],
        0 <= a < member_places(ids, id).len() ==> member_places(ids, id)[a] < ids.len(),
{
    lemma_places(ids, id, ids.len());
    lemma_all_places(ids, id, ids.len());
    let all = member_places(ids, id);
    if all.contains(i as usize) {
        let k = choose|k: int| 0 <= k < all.len() && all[k] == i as usize;
        assert(id == Some(ids[all[k] as int]@));
    }
}

/// Whether all streams at these places are muted.
pub open spec fn all_muted(apps: Seq<AppInfo>, members: Seq<usize>) -> bool {
    forall|k: int| 0 <= k < members.len() ==> apps[(#[trigger] members[k]) as int].mute
}

/// The targets of an order for the streams at these places.
pub open spec fn targets_of(apps: Seq<AppInfo>, members: Seq<usize>) -> Seq<(u32, bool)> {
    members.map_values(|i: usize| (apps[i as int].uid, apps[i as int].is_device))
}

/// Whether all streams at these places are muted.
pub fn is_all_muted(apps: &[AppInfo], members: &[usize]) -> (res: bool)
    requires
        forall|k: int| 0 <= k < members@.len() ==> (#[trigger] members@[k]) < apps@.len(),
    ensures
        res == all_muted(apps@, members@),
{
    let mut i: usize = 0;
    while i < members.len()
        invariant
            i <= members@.len(),
            forall|k: int| 0 <= k < members@.len() ==> (#[trigger] members@[k]) < apps@.len(),
            forall|k: int| 0 <= k < i ==> apps@[(#[trigger] members@[k]) as int].mute,
        decreases members@.len() - i,
    {
        if !apps[members[i]].mute {
            assert(!apps@[members@[i as int] as int].mute);
            return false;
        }
        i += 1;
    }
    true
}

/// The targets of an order for the streams at these places.
pub fn group_targets(apps: &[AppInfo], members: &[usize]) -> (res: Vec<(u32, bool)>)
    requires
        forall|k: int| 0 <= k < members@.len() ==> (#[trigger] members@[k]) < apps@.len(),
    ensures
        res@ == targets_of(apps@, members@),
{
    let mut out: Vec<(u32, bool)> = Vec::new();
    let mut i: usize = 0;
    while i < members.len()
        invariant
            i <= members@.len(),
            forall|k: int| 0 <= k < members@.len() ==> (#[trigger] members@[k]) < apps@.len(),
            out@ == targets_of(apps@, members@).take(i as int),
        decreases members@.len() - i,
    {
        let app = &apps[members[i]];
        out.push((app.uid, app.is_device));
        i += 1;
        assert(out@ =~= targets_of(apps@, members@).take(i as int));
    }
    assert(targets_of(apps@, members@).take(i as int) =~= targets_of(apps@, members@));
    out
}

/// The mute state to order for a group of streams: they are unmuted where all
/// are muted, else all of them are muted.
pub fn toggled_group_mute(apps: &[AppInfo], members: &[usize]) -> (res: bool)
    requires
        forall|k: int| 0 <= k < members@.len() ==> (#[trigger] members@[k]) < apps@.len(),
    ensures
        res == !all_muted(apps@, members@),
{
    !is_all_muted(apps, members)
}

/// Streams that are not all muted are muted together, and streams that are
/// all muted are unmuted together, so a second toggle undoes what the first
/// did to a group.
pub proof fn mute_toggles_the_whole_group(
    apps: Seq<AppInfo>,
    after: Seq<AppInfo>,
    members: Seq<usize>,
)
    requires
        members.len() > 0,
        forall|k: int|
            0 <= k < members.len() ==> after[(#[trigger] members[k]) as int].mute == !all_muted(
                apps,
                members,
            ),
    ensures
        all_muted(after, members) == !all_muted(apps, members),
{
    assert(after[members[0] as int].mute == !all_muted(apps, members));
}

/// An order for a target reaches exactly the streams with its id.
pub proof fn orders_reach_every_stream_of_the_target(
    apps: Seq<AppInfo>,
    ids: Seq<String>,
    id: Option<Seq<char>>,
    target: (u32, bool),
)
    requires
        apps.len() == ids.len() <= usize::MAX,
    ensures
        targets_of(apps, member_places(ids, id)).contains(target) <==> exists|i: int|
            0 <= i < ids.len() && id == Some((#[trigger] ids[i])@) && apps[i].uid == target.0
                && apps[i].is_device == target.1,
{
    lemma_places(ids, id, ids.len());
    lemma_all_places(ids, id, ids.len());
    let members = member_places(ids, id);
    let targets = targets_of(apps, members);
    if targets.contains(target) {
        let k = choose|k: int| 0 <= k < targets.len() && targets[k] == target;
        let i = members[k] as int;
        assert(id == Some(ids[i]@));
    }
    if exists|i: int|
        0 <= i < ids.len() && id == Some((#[trigger] ids[i])@) && apps[i].uid == target.0
            && apps[i].is_device == target.1 {
        let i = choose|i: int|
            0 <= i < ids.len() && id == Some((#[trigger] ids[i])@) && apps[i].uid == target.0
                && apps[i].is_device == target.1;
        assert(members.contains(i as usize));
        let k = choose|k: int| 0 <= k < members.len() && members[k] == i as usize;
        assert(targets[k] == target);
    }
}

/// What holds of the active target of a group and of its streams, seen from
/// the application at `i`: the target is configured and plays; it is there as
/// soon as one plays; it stays while it plays; and its members are its streams.
pub proof fn lemma_active_streams(
    targets: Seq<Seq<char>>,
    current: Option<Seq<char>>,
    apps: Seq<AppInfo>,
    ids: Seq<String>,
    i: int,
)
    requires
        apps.len() == ids.len() <= usize::MAX,
        0 <= i < ids.len(),
    ensures
        ({
            let active = active_of(targets, text::texts(ids), current);
            let members = member_places(ids, active);
            &&& active matches Some(id) ==> targets.contains(id) && text::texts(ids).contains(id)
            &&& targets.contains(ids[i]@) ==> active is Some
            &&& current == Some(ids[i]@) && targets.contains(ids[i]@) ==> active == Some(ids[i]@)
            &&& members.contains(i as usize) <==> active == Some(ids[i]@)
            &&& members.len() > 0 <==> active is Some
            &&& active == Some(ids[i]@) && !apps[i].mute ==> !all_muted(apps, members)
            &&& (forall|k: int|
                0 <= k < ids.len() && active == Some((#[trigger] ids[k])@) ==> apps[k].mute)
                ==> all_muted(apps, members)
            &&& (active == Some(ids[i]@) && forall|k: int|
                0 <= k < i ==> (#[trigger] ids[k])@ != ids[i]@) ==> members[0] == i
        }),
{
    let playing = text::texts(ids);
    let active = active_of(targets, playing, current);
    let members = member_places(ids, active);
    active_target_is_sticky(targets, playing, current);
    lemma_places(ids, active, ids.len());
    lemma_all_places(ids, active, ids.len());
    members_are_all_streams_of_the_target(ids, active, i, 0, 0);
    assert(playing[i] == ids[i]@);
    assert(playing.contains(ids[i]@));
    if targets.contains(ids[i]@) {
        let t = choose|t: int| 0 <= t < targets.len() && targets[t] == ids[i]@;
        assert(playing.contains(targets[t]));
    }
    if active is Some {
        let k = choose|k: int| 0 <= k < playing.len() && playing[k] == active->0;
        assert(active == Some(ids[k]@));
        assert(members.contains(k as usize));
    }
    if members.len() > 0 {
        assert(active == Some(ids[members[0] as int]@));
    }
    if members.contains(i as usize) {
        let k = choose|k: int| 0 <= k < members.len() && members[k] == i as usize;
        assert(all_muted(apps, members) ==> apps[members[k] as int].mute);
        if k > 0 && forall|q: int| 0 <= q < i ==> (#[trigger] ids[q])@ != ids[i]@ {
            assert(members[0] < members[k]);
            assert(ids[members[0] as int]@ != ids[i]@);
        }
    }
}

// ---------------------------------------------------------------------
// Settings
// ---------------------------------------------------------------------

/// The settings of a dial.
#[derive(Debug)]
pub struct ApplicationVolumeDialSettings {
    pub target_ids: Vec<String>,
    pub custom_title: String,
    pub target_id: String,
    pub target_name: String,
    pub volume_step: u8,
    pub maximum_volume: u16,
}

impl Default for ApplicationVolumeDialSettings {
    fn default() -> (res: Self)
        ensures
            res.target_ids@.len() == 0,
            res.custom_title@.len() == 0,
            res.target_id@.len() == 0,
            res.target_name@.len() == 0,
            res.volume_step == 2,
            res.maximum_volume == 100,
    {
        ApplicationVolumeDialSettings {
            target_ids: Vec::new(),
            custom_title: String::new(),
            target_id: String::new(),
            target_name: String::new(),
            volume_step: 2,
            maximum_volume: 100,
        }
    }
}

impl Clone for ApplicationVolumeDialSettings {
    fn clone(&self) -> (res: Self)
        ensures
            text::texts(res.target_ids@) == text::texts(self.target_ids@),
            res.custom_title == self.custom_title,
            res.target_id == self.target_id,
            res.target_name == self.target_name,
            res.volume_step == self.volume_step,
            res.maximum_volume == self.maximum_volume,
    {
        ApplicationVolumeDialSettings {
            target_ids: copy_strings(self.target_ids.as_slice()),
            custom_title: self.custom_title.clone(),
            target_id: self.target_id.clone(),
            target_name: self.target_name.clone(),
            volume_step: self.volume_step,
            maximum_volume: self.maximum_volume,
        }
    }
}

/// The percentage of one tick of a dial: the setting, within one and ten.
pub open spec fn step_size(volume_step: u8) -> u8 {
    if volume_step < 1 {
        1
    } else if volume_step > 10 {
        10
    } else {
        volume_step
    }
}

/// A tick is never less than one percent nor more than ten, and a setting
/// within these bounds is taken as it is; a higher setting never gives a
/// smaller tick.
pub proof fn step_is_bounded(volume_step: u8, higher: u8)
    ensures
        1 <= step_size(volume_step) <= 10,
        1 <= volume_step <= 10 ==> step_size(volume_step) == volume_step,
        volume_step <= higher ==> step_size(volume_step) <= step_size(higher),
{
}

/// The percentage of one tick of a dial.
pub fn clamp_step(volume_step: u8) -> (res: u8)
    ensures
        res == step_size(volume_step),
{
    if volume_step < 1 {
        1
    } else if volume_step > 10 {
        10
    } else {
        volume_step
    }
}

impl ApplicationVolumeDialSettings {
    /// The percentage of one tick.
    pub fn step(&self) -> (res: u8)
        ensures
            res == step_size(self.volume_step),
            1 <= res <= 10,
    {
        clamp_step(self.volume_step)
    }

    /// The highest volume.
    pub fn maximum(&self) -> (res: u16)
        ensures
            res == percent::highest(self.maximum_volume),
    {
        sanitize_maximum_volume(self.maximum_volume)
    }

    /// The targets that the user chose, each once and in order.
    pub open spec fn targets(&self) -> Seq<Seq<char>> {
        chosen_ids(text::texts(self.target_ids@), self.target_id@)
    }

    /// The targets that the user chose, each once and in order.
    pub fn normalized_target_ids(&self) -> (res: Vec<String>)
        ensures
            text::texts(res@) == self.targets(),
    {
        normalized_ids(self.target_ids.as_slice(), self.target_id.as_str())
    }

    /// The title to show: the user's own, or else the automatic one.
    pub fn title<'a>(&'a self, automatic: &'a str) -> (res: &'a str)
        ensures
            res@ == feedback::title_of(self.custom_title@, automatic@),
    {
        choose_title(self.custom_title.as_str(), automatic)
    }
}

// ---------------------------------------------------------------------
// The state of a dial
// ---------------------------------------------------------------------

/// What a dial remembers.
#[derive(Debug)]
pub struct ApplicationDialRuntime {
    pub active_target_id: Option<String>,
    pub last_active_target_id: Option<String>,
    pub last_display_name: Option<String>,
    pub last_icon: Option<String>,
    pub icon_target_id: Option<String>,
    pub layout_initialized: bool,
    pub last_feedback: Option<DialFeedback>,
    pub prediction: Option<VolumePrediction>,
    pub command_sequence: u64,
}

impl Default for ApplicationDialRuntime {
    fn default() -> (res: Self)
        ensures
            res.active_target_id is None,
            res.last_active_target_id is None,
            res.last_display_name is None,
            res.last_icon is None,
            res.icon_target_id is None,
            !res.layout_initialized,
            res.last_feedback is None,
            res.prediction is None,
            res.command_sequence == 0,
    {
        ApplicationDialRuntime {
            active_target_id: None,
            last_active_target_id: None,
            last_display_name: None,
            last_icon: None,
            icon_target_id: None,
            layout_initialized: false,
            last_feedback: None,
            prediction: None,
            command_sequence: 0,
        }
    }
}

/// Whether two states differ in nothing but the active target.
pub open spec fn differs_in_target_only(a: ApplicationDialRuntime, b: ApplicationDialRuntime) -> bool {
    &&& a.last_display_name == b.last_display_name
    &&& a.last_icon == b.last_icon
    &&& a.icon_target_id == b.icon_target_id
    &&& a.layout_initialized == b.layout_initialized
    &&& a.last_feedback == b.last_feedback
    &&& a.prediction == b.prediction
    &&& a.command_sequence == b.command_sequence
}

/// Chooses the active target, and gives the places of its streams. `ids`
/// holds the id of each application that plays.
pub fn selected(
    state: &mut ApplicationDialRuntime,
    settings: &ApplicationVolumeDialSettings,
    ids: &[String],
) -> (res: Vec<usize>)
    ensures
        ({
            let active = active_of(
                settings.targets(),
                text::texts(ids@),
                text::text_of(old(state).active_target_id),
            );
            &&& text::text_of(final(state).active_target_id) == active
            &&& text::text_of(final(state).last_active_target_id) == if active is Some {
                active
            } else {
                text::text_of(old(state).last_active_target_id)
            }
            &&& res@ == member_places(ids@, active)
        }),
        differs_in_target_only(*final(state), *old(state)),
        forall|k: int| 0 <= k < res@.len() ==> (#[trigger] res@[k]) < ids@.len(),
{
    let configured = settings.normalized_target_ids();
    let current: Option<&str> = match &state.active_target_id {
        Some(id) => Some(id.as_str()),
        None => None,
    };
    let active = arbitrate_active(configured.as_slice(), ids, current);
    if active.is_some() {
        state.last_active_target_id = copy_option(&active);
    }
    let members = members_of(ids, &active);
    state.active_target_id = active;
    members
}

/// Where the icon of a dial comes from.
#[derive(Debug)]
pub enum IconNeed {
    /// It is known already.
    Known(String),
    /// It is the icon of the application at this place.
    Resolve(usize),
    /// There is none but the one that stands for all.
    Fallback,
}

/// What is shown of a group of streams, but for its volume.
#[derive(Debug)]
pub struct DialView {
    pub members: Vec<usize>,
    pub available: bool,
    pub muted: bool,
    pub title: String,
    pub icon: IconNeed,
}

/// The title that a dial shows where the user has given none: the name of the
/// application, else the last one shown.
pub open spec fn automatic_title(name: Option<Seq<char>>, last: Option<Seq<char>>) -> Seq<char> {
    match name {
        Some(name) => if name.len() > 0 {
            name
        } else {
            match last {
                Some(last) => last,
                None => "No active app"@,
            }
        },
        None => match last {
            Some(last) => last,
            None => "No active app"@,
        },
    }
}

/// Whether this is where the icon of a group of streams comes from: the icon
/// shown last stays while it is that of the active target, or while there is
/// no active target.
pub open spec fn is_icon_need(
    need: IconNeed,
    members: Seq<usize>,
    target: Option<Seq<char>>,
    last_icon: Option<Seq<char>>,
    icon_target: Option<Seq<char>>,
) -> bool {
    if members.len() > 0 && (icon_target != target || last_icon is None) {
        need == IconNeed::Resolve(members[0])
    } else {
        match last_icon {
            Some(icon) => need matches IconNeed::Known(known) && known@ == icon,
            None => need == IconNeed::Fallback,
        }
    }
}

/// Where the icon of a group of streams comes from.
pub fn icon_need(
    members: &[usize],
    target: &Option<String>,
    last_icon: &Option<String>,
    icon_target: &Option<String>,
) -> (res: IconNeed)
    requires
        members@.len() > 0 ==> *target is Some,
    ensures
        is_icon_need(
            res,
            members@,
            text::text_of(*target),
            text::text_of(*last_icon),
            text::text_of(*icon_target),
        ),
{
    if members.len() > 0 {
        let same_target = match target {
            Some(id) => holds(icon_target, id.as_str()),
            None => false,
        };
        if !same_target || last_icon.is_none() {
            return IconNeed::Resolve(members[0]);
        }
    }
    match last_icon {
        Some(icon) => IconNeed::Known(icon.clone()),
        None => IconNeed::Fallback,
    }
}

/// Whether this is what is shown of the applications that the settings choose,
/// and what the dial remembers then.
pub open spec fn is_prepared(
    before: ApplicationDialRuntime,
    after: ApplicationDialRuntime,
    view: DialView,
    settings: ApplicationVolumeDialSettings,
    apps: Seq<AppInfo>,
    ids: Seq<String>,
) -> bool {
    let active = active_of(
        settings.targets(),
        text::texts(ids),
        text::text_of(before.active_target_id),
    );
    &&& text::text_of(after.active_target_id) == active
    &&& text::text_of(after.last_active_target_id) == if active is Some {
        active
    } else {
        text::text_of(before.last_active_target_id)
    }
    &&& view.members@ == member_places(ids, active)
    &&& is_icon_need(
        view.icon,
        view.members@,
        active,
        text::text_of(before.last_icon),
        text::text_of(before.icon_target_id),
    )
    &&& differs_in_target_only(after, before)
    &&& forall|k: int|
        0 <= k < view.members@.len() ==> (#[trigger] view.members@[k]) < apps.len()
    &&& view.available == (view.members@.len() > 0)
    &&& view.muted == (view.members@.len() > 0 && all_muted(apps, view.members@))
    &&& view.title@ == feedback::title_of(
        settings.custom_title@,
        automatic_title(
            if view.members@.len() > 0 {
                Some(apps[view.members@[0] as int].app_name@)
            } else {
                None
            },
            text::text_of(before.last_display_name),
        ),
    )
}

/// What a dial shows is of one application, its active target: this is a
/// configured target that plays, there is one as soon as any of them plays,
/// and it stays while it plays. All of its streams are shown, and no other.
pub proof fn dial_follows_one_active_target(
    before: ApplicationDialRuntime,
    after: ApplicationDialRuntime,
    view: DialView,
    settings: ApplicationVolumeDialSettings,
    apps: Seq<AppInfo>,
    ids: Seq<String>,
    i: int,
)
    requires
        apps.len() == ids.len() <= usize::MAX,
        is_prepared(before, after, view, settings, apps, ids),
        0 <= i < ids.len(),
    ensures
        after.active_target_id matches Some(id) ==> settings.targets().contains(id@)
            && text::texts(ids).contains(id@),
        settings.targets().contains(ids[i]@) ==> after.active_target_id is Some && view.available,
        before.active_target_id matches Some(id) && settings.targets().contains(id@) && ids[i]@
            == id@ ==> text::text_of(after.active_target_id) == Some(ids[i]@),
        view.members@.contains(i as usize) <==> text::text_of(after.active_target_id) == Some(
            ids[i]@,
        ),
        view.available <==> after.active_target_id is Some,
        view.muted ==> view.available,
        view.available && text::text_of(after.active_target_id) == Some(ids[i]@)
            && !apps[i].mute ==> !view.muted,
        (view.available && forall|k: int|
            0 <= k < ids.len() && text::text_of(after.active_target_id) == Some(
                (#[trigger] ids[k])@,
            ) ==> apps[k].mute) ==> view.muted,
{
    let targets = settings.targets();
    let playing = text::texts(ids);
    let current = text::text_of(before.active_target_id);
    let active = active_of(targets, playing, current);
    active_target_is_sticky(targets, playing, current);
    lemma_places(ids, active, ids.len());
    lemma_all_places(ids, active, ids.len());
    members_are_all_streams_of_the_target(ids, active, i, 0, 0);
    assert(playing[i] == ids[i]@);
    assert(playing.contains(ids[i]@));
    if targets.contains(ids[i]@) {
        let t = choose|t: int| 0 <= t < targets.len() && targets[t] == ids[i]@;
        assert(playing.contains(targets[t]));
    }
    if active is Some {
        let k = choose|k: int| 0 <= k < playing.len() && playing[k] == active->0;
        assert(active == Some(ids[k]@));
        assert(view.members@.contains(k as usize));
    }
    if view.members@.len() > 0 {
        assert(active == Some(ids[view.members@[0] as int]@));
    }
    if view.members@.contains(i as usize) {
        let k = choose|k: int| 0 <= k < view.members@.len() && view.members@[k] == i as usize;
        assert(view.muted ==> apps[view.members@[k] as int].mute);
    }
}

/// While an application is available, the icon shown is its own: the icon
/// shown last stays only where it was found for the active target, and else
/// that of the target's first stream is asked for. While none is available,
/// the icon shown last stays.
pub proof fn icon_belongs_to_the_active_target(
    before: ApplicationDialRuntime,
    after: ApplicationDialRuntime,
    view: DialView,
    settings: ApplicationVolumeDialSettings,
    apps: Seq<AppInfo>,
    ids: Seq<String>,
    first: int,
)
    requires
        apps.len() == ids.len() <= usize::MAX,
        is_prepared(before, after, view, settings, apps, ids),
        0 <= first < ids.len(),
        text::text_of(after.active_target_id) == Some(ids[first]@),
        forall|k: int| 0 <= k < first ==> (#[trigger] ids[k])@ != ids[first]@,
    ensures
        match view.icon {
            IconNeed::Known(icon) => {
                &&& text::text_of(before.icon_target_id) == Some(ids[first]@)
                &&& text::text_of(before.last_icon) == Some(icon@)
            },
            IconNeed::Resolve(place) => place == first,
            IconNeed::Fallback => false,
        },
        text::text_of(before.icon_target_id) != Some(ids[first]@) ==> view.icon
            == IconNeed::Resolve(first as usize),
        text::text_of(before.icon_target_id) == Some(ids[first]@) && before.last_icon is Some
            ==> view.icon is Known,
{
    let active = text::text_of(after.active_target_id);
    lemma_places(ids, active, ids.len());
    lemma_all_places(ids, active, ids.len());
    let members = member_places(ids, active);
    assert(members.contains(first as usize));
    let k = choose|k: int| 0 <= k < members.len() && members[k] == first as usize;
    assert(active == Some(ids[members[0] as int]@));
    if k > 0 {
        assert(members[0] < members[k]);
        assert(ids[members[0] as int]@ != ids[first]@);
    }
}

/// While no configured target plays, the icon shown last stays, and there is
/// only the one that stands for all where none was shown.
pub proof fn icon_stays_while_nothing_plays(
    before: ApplicationDialRuntime,
    after: ApplicationDialRuntime,
    view: DialView,
    settings: ApplicationVolumeDialSettings,
    apps: Seq<AppInfo>,
    ids: Seq<String>,
)
    requires
        apps.len() == ids.len() <= usize::MAX,
        is_prepared(before, after, view, settings, apps, ids),
        after.active_target_id is None,
    ensures
        match before.last_icon {
            Some(icon) => view.icon matches IconNeed::Known(known) && known@ == icon@,
            None => view.icon is Fallback,
        },
{
    lemma_places(ids, None, ids.len());
    if view.members@.len() > 0 {
        assert(None::<Seq<char>> == Some(ids[view.members@[0] as int]@));
    }
}

/// The title of a dial is the user's own wherever there is one. Else it is the
/// name of the application shown; without a name, or while none plays, the
/// name shown last; and without that, that no application is active.
pub proof fn title_names_the_application(
    before: ApplicationDialRuntime,
    after: ApplicationDialRuntime,
    view: DialView,
    settings: ApplicationVolumeDialSettings,
    apps: Seq<AppInfo>,
    ids: Seq<String>,
)
    requires
        is_prepared(before, after, view, settings, apps, ids),
    ensures
        settings.custom_title@.len() > 0 ==> view.title@ == settings.custom_title@,
        settings.custom_title@.len() == 0 && view.available
            && apps[view.members@[0] as int].app_name@.len() > 0 ==> view.title@
            == apps[view.members@[0] as int].app_name@,
        settings.custom_title@.len() == 0 && !view.available ==> match before.last_display_name {
            Some(name) => view.title@ == name@,
            None => view.title@ == "No active app"@,
        },
{
}

/// Chooses what a dial shows.
pub fn prepare_render(
    state: &mut ApplicationDialRuntime,
    settings: &ApplicationVolumeDialSettings,
    apps: &[AppInfo],
    ids: &[String],
) -> (res: DialView)
    requires
        apps@.len() == ids@.len(),
    ensures
        is_prepared(*old(state), *final(state), res, *settings, apps@, ids@),
{
    let members = selected(state, settings, ids);
    let available = members.len() > 0;
    let muted = available && is_all_muted(apps, members.as_slice());
    let last = match &state.last_display_name {
        Some(name) => name.clone(),
        None => "No active app".to_owned(),
    };
    let automatic = if available && !is_blank(apps[members[0]].app_name.as_str()) {
        apps[members[0]].app_name.clone()
    } else {
        last
    };
    let title = settings.title(automatic.as_str()).to_owned();
    proof {
        if members@.len() > 0 {
            lemma_places(ids@, text::text_of(state.active_target_id), ids@.len());
            assert(members@[0] < ids@.len());
        }
    }
    let icon = icon_need(
        members.as_slice(),
        &state.active_target_id,
        &state.last_icon,
        &state.icon_target_id,
    );
    DialView { members, available, muted, title, icon }
}

/// Whether a dial remembers this icon and name for a target, and else what it
/// did before.
pub open spec fn is_icon_noted(
    before: ApplicationDialRuntime,
    after: ApplicationDialRuntime,
    app_name: Seq<char>,
    icon: Seq<char>,
    target_id: Seq<char>,
) -> bool {
    &&& text::text_of(after.last_display_name) == Some(app_name)
    &&& text::text_of(after.last_icon) == Some(icon)
    &&& text::text_of(after.icon_target_id) == Some(target_id)
    &&& after.active_target_id == before.active_target_id
    &&& after.last_active_target_id == before.last_active_target_id
    &&& after.layout_initialized == before.layout_initialized
    &&& after.last_feedback == before.last_feedback
    &&& after.prediction == before.prediction
    &&& after.command_sequence == before.command_sequence
}

/// Notes the icon that was found for the application shown.
pub fn icon_resolved(
    state: &mut ApplicationDialRuntime,
    app_name: String,
    icon: String,
    target_id: String,
)
    ensures
        is_icon_noted(*old(state), *final(state), app_name@, icon@, target_id@),
{
    state.last_display_name = Some(app_name);
    state.last_icon = Some(icon);
    state.icon_target_id = Some(target_id);
}

/// The value that a dial shows: that the application is not there or muted,
/// or else its volume, written as `shown`.
pub open spec fn value_of(available: bool, muted: bool, shown: Seq<char>) -> Seq<char> {
    if !available {
        "Unavailable"@
    } else if muted {
        "Muted"@
    } else {
        shown
    }
}

/// The value that a dial shows.
pub fn value_text(available: bool, muted: bool, shown: &str) -> (res: String)
    ensures
        res@ == value_of(available, muted, shown@),
{
    if !available {
        "Unavailable".to_owned()
    } else if muted {
        "Muted".to_owned()
    } else {
        shown.to_owned()
    }
}

/// What is seen of a dial that shows this of an application, with this icon,
/// the volume written as `shown` and so much of the bar filled.
pub open spec fn dial_frame(
    view: DialView,
    icon: Seq<char>,
    shown: Seq<char>,
    progress: u8,
) -> Frame {
    feedback::frame_with(
        icon,
        view.title@,
        value_of(view.available, view.muted, shown),
        progress,
        !view.available || view.muted,
    )
}

/// What a dial shows of an application.
pub fn dial_feedback(view: &DialView, icon: String, shown: &str, progress: u8) -> (res:
    DialFeedback)
    ensures
        res@ == dial_frame(*view, icon@, shown@, progress),
{
    build_feedback(
        icon,
        view.title.clone(),
        value_text(view.available, view.muted, shown),
        progress,
        is_dimmed(view.available, view.muted),
    )
}

/// A dial shows the icon, the title and the part of the bar that it is given.
/// Its value is the volume while an application plays unmuted, and only then is
/// nothing dimmed; else it tells what is missing.
pub proof fn dial_tells_the_state_of_the_application(
    view: DialView,
    icon: Seq<char>,
    shown: Seq<char>,
    progress: u8,
    feedback: DialFeedback,
)
    requires
        feedback@ == dial_frame(view, icon, shown, progress),
    ensures
        feedback.icon.value@ == icon,
        feedback.title.value@ == view.title@,
        feedback.indicator.value == progress,
        view.available && !view.muted ==> feedback.value.value@ == shown,
        view.available && view.muted ==> feedback.value.value@ == "Muted"@,
        !view.available ==> feedback.value.value@ == "Unavailable"@,
        feedback.icon.dimmed <==> !(view.available && !view.muted),
        feedback.title.dimmed <==> !(view.available && !view.muted),
        feedback.value.dimmed <==> !(view.available && !view.muted),
        feedback.indicator.dimmed <==> !(view.available && !view.muted),
{
}

/// The icon that is shown, where `pictures` gives the icon of an application,
/// and `fallback` is the one that stands for all.
pub open spec fn icon_shown(
    icon: IconNeed,
    apps: Seq<AppInfo>,
    pictures: spec_fn(AppInfo) -> Seq<char>,
    fallback: Seq<char>,
) -> Seq<char> {
    match icon {
        IconNeed::Known(known) => known@,
        IconNeed::Resolve(place) => pictures(apps[place as int]),
        IconNeed::Fallback => fallback,
    }
}

/// Looking at the applications changes what a dial follows and nothing else
/// that it remembers; an icon that was found is remembered with its application
/// and the application's name, and changes nothing else.
pub proof fn dial_remembers_the_rest(
    before: ApplicationDialRuntime,
    after: ApplicationDialRuntime,
    view: DialView,
    settings: ApplicationVolumeDialSettings,
    apps: Seq<AppInfo>,
    ids: Seq<String>,
    noted: ApplicationDialRuntime,
    app_name: Seq<char>,
    icon: Seq<char>,
    target_id: Seq<char>,
)
    requires
        is_prepared(before, after, view, settings, apps, ids),
        is_icon_noted(after, noted, app_name, icon, target_id),
    ensures
        after == (ApplicationDialRuntime {
            active_target_id: after.active_target_id,
            last_active_target_id: after.last_active_target_id,
            ..before
        }),
        after.active_target_id is Some ==> text::text_of(after.last_active_target_id)
            == text::text_of(after.active_target_id),
        after.active_target_id is None ==> text::text_of(after.last_active_target_id)
            == text::text_of(before.last_active_target_id),
        noted == (ApplicationDialRuntime {
            last_display_name: noted.last_display_name,
            last_icon: noted.last_icon,
            icon_target_id: noted.icon_target_id,
            ..after
        }),
        text::text_of(noted.last_display_name) == Some(app_name),
        text::text_of(noted.last_icon) == Some(icon),
        text::text_of(noted.icon_target_id) == Some(target_id),
{
}

/// One run through all that shows an application: what the dial remembers at
/// the start, once the view is chosen, once its icon is noted and once the
/// volume is reconciled, with the view and the volume that come of it.
pub struct DialRender {
    pub start: ApplicationDialRuntime,
    pub prepared: ApplicationDialRuntime,
    pub noted: ApplicationDialRuntime,
    pub finished: ApplicationDialRuntime,
    pub view: DialView,
    pub volume: u64,
    pub finished_at: u64,
    pub difference: u64,
}

/// Whether this is a run through [`prepare_render`], [`icon_resolved`] where
/// the icon was looked for, and [`feedback::reconcile_optimistic_volume`].
pub open spec fn is_dial_render(
    run: DialRender,
    settings: ApplicationVolumeDialSettings,
    apps: Seq<AppInfo>,
    ids: Seq<String>,
    confirmed: u64,
    pictures: spec_fn(AppInfo) -> Seq<char>,
) -> bool {
    &&& is_prepared(run.start, run.prepared, run.view, settings, apps, ids)
    &&& match run.view.icon {
        IconNeed::Resolve(place) => is_icon_noted(
            run.prepared,
            run.noted,
            apps[place as int].app_name@,
            pictures(apps[place as int]),
            ids[place as int]@,
        ),
        _ => run.noted == run.prepared,
    }
    &&& (run.finished.prediction, run.volume) == feedback::reconciled_volume(
        run.noted.prediction,
        confirmed,
        run.difference,
        0,
        run.finished_at,
    )
    &&& run.finished == (ApplicationDialRuntime {
        prediction: run.finished.prediction,
        ..run.noted
    })
}

/// What is seen after a run, where `written` gives the text of a volume and
/// `filled` the part of the bar that it fills below a highest volume.
pub open spec fn frame_of_render(
    run: DialRender,
    settings: ApplicationVolumeDialSettings,
    apps: Seq<AppInfo>,
    pictures: spec_fn(AppInfo) -> Seq<char>,
    fallback: Seq<char>,
    written: spec_fn(u64) -> Seq<char>,
    filled: spec_fn(u64, u16) -> u8,
) -> Frame {
    dial_frame(
        run.view,
        icon_shown(run.view.icon, apps, pictures, fallback),
        written(run.volume),
        filled(run.volume, percent::highest(settings.maximum_volume)),
    )
}

/// Whether a run forgets the name that it shows: the application has none, the
/// user has given none, and the one shown in its place is replaced.
pub open spec fn forgets_its_title(
    run: DialRender,
    settings: ApplicationVolumeDialSettings,
    apps: Seq<AppInfo>,
) -> bool {
    &&& run.view.icon matches IconNeed::Resolve(place) && apps[place as int].app_name@.len() == 0
    &&& settings.custom_title@.len() == 0
    &&& text::text_of(run.start.last_display_name) != Some(Seq::<char>::empty())
}

/// Once what a dial shows of an application was sent, showing it again sends
/// nothing, as long as the applications, the settings and what was predicted
/// stay the same, unless an application without a name took the place of the
/// name that was shown.
pub proof fn unchanged_application_is_not_sent_again(
    first: DialRender,
    sent: DialFeedback,
    second: DialRender,
    settings: ApplicationVolumeDialSettings,
    apps: Seq<AppInfo>,
    ids: Seq<String>,
    confirmed: u64,
    pictures: spec_fn(AppInfo) -> Seq<char>,
    fallback: Seq<char>,
    written: spec_fn(u64) -> Seq<char>,
    filled: spec_fn(u64, u16) -> u8,
    generation: u64,
)
    requires
        apps.len() == ids.len() <= usize::MAX,
        is_dial_render(first, settings, apps, ids, confirmed, pictures),
        !forgets_its_title(first, settings, apps),
        sent@ == frame_of_render(first, settings, apps, pictures, fallback, written, filled),
        second.start == (ApplicationDialRuntime {
            layout_initialized: true,
            last_feedback: Some(sent),
            ..first.finished
        }),
        is_dial_render(second, settings, apps, ids, confirmed, pictures),
        second.finished.prediction == first.finished.prediction,
    ensures
        feedback::step_of(
            generation,
            generation,
            second.finished.layout_initialized,
            feedback::seen_of(second.finished.last_feedback),
            frame_of_render(second, settings, apps, pictures, fallback, written, filled),
        ) == RenderStep::Unchanged,
{
    let target = text::text_of(first.start.active_target_id);
    active_target_is_sticky(settings.targets(), text::texts(ids), target);
    let active = active_of(settings.targets(), text::texts(ids), target);
    lemma_places(ids, active, ids.len());
    assert(second.view.members@ == first.view.members@);
    if first.view.members@.len() > 0 {
        let place = first.view.members@[0] as int;
        assert(active == Some(ids[place]@));
        let name = apps[place].app_name@;
        if name.len() == 0 {
            assert(name =~= Seq::<char>::empty());
        }
    }
}

/// What a turn of a dial asks for.
#[derive(Clone, Copy, Debug, PartialEq, Eq, Structural)]
pub enum TurnAction {
    /// There is nothing to turn: warn the user.
    Alert,
    /// Only show the dial again.
    Show,
    /// Order another volume.
    Adjust,
}

/// What a turn of a dial asks for, with so many streams to turn.
pub fn turn_action(members: usize, ticks: i16) -> (res: TurnAction)
    ensures
        res == if members == 0 {
            TurnAction::Alert
        } else if ticks == 0 {
            TurnAction::Show
        } else {
            TurnAction::Adjust
        },
{
    if members == 0 {
        TurnAction::Alert
    } else if ticks == 0 {
        TurnAction::Show
    } else {
        TurnAction::Adjust
    }
}

/// The volume that a turn starts from: the predicted one, where there is one,
/// else the confirmed one.
pub fn turned_from(prediction: &Option<VolumePrediction>, confirmed: u64) -> (res: u64)
    ensures
        res == match *prediction {
            Some(predicted) => predicted.percent_bits,
            None => confirmed,
        },
{
    match prediction {
        Some(predicted) => predicted.percent_bits,
        None => confirmed,
    }
}

/// Notes the volume that a turn wishes for, and gives the number of the order.
pub fn note_turn(
    state: &mut ApplicationDialRuntime,
    settings: &ApplicationVolumeDialSettings,
    wished: u64,
    now: u64,
) -> (res: u64)
    ensures
        final(state).prediction == Some(
            VolumePrediction {
                percent_bits: percent::target_of(
                    wished,
                    percent::highest(settings.maximum_volume),
                ),
                issued: now,
                focus_generation: 0,
            },
        ),
        final(state).command_sequence == feedback::following(old(state).command_sequence),
        res == final(state).command_sequence,
        final(state).active_target_id == old(state).active_target_id,
        final(state).last_active_target_id == old(state).last_active_target_id,
        final(state).last_display_name == old(state).last_display_name,
        final(state).last_icon == old(state).last_icon,
        final(state).icon_target_id == old(state).icon_target_id,
        final(state).layout_initialized == old(state).layout_initialized,
        final(state).last_feedback == old(state).last_feedback,
{
    let target: u64 = clamp_target_percent(wished, settings.maximum());
    state.prediction =
    Some(VolumePrediction { percent_bits: target, issued: now, focus_generation: 0 });
    state.command_sequence = state.command_sequence.wrapping_add(1);
    state.command_sequence
}

/// Whether the order of this number is still the latest of a dial.
pub open spec fn is_latest(state: Option<ApplicationDialRuntime>, sequence: u64) -> bool {
    match state {
        Some(state) => state.command_sequence == sequence,
        None => sequence == 0,
    }
}

/// Whether the order of this number is still the latest of a dial.
pub fn is_latest_order(state: Option<&ApplicationDialRuntime>, sequence: u64) -> (res: bool)
    ensures
        res == is_latest(
            match state {
                Some(state) => Some(*state),
                None => None,
            },
            sequence,
        ),
{
    match state {
        Some(state) => state.command_sequence == sequence,
        None => sequence == 0,
    }
}

/// The volume to send for a dial, where one is still predicted.
pub fn volume_to_send(state: Option<&ApplicationDialRuntime>) -> (res: Option<u64>)
    ensures
        res == match state {
            Some(state) => match state.prediction {
                Some(predicted) => Some(predicted.percent_bits),
                None => None,
            },
            None => None,
        },
{
    match state {
        Some(state) => match state.prediction {
            Some(predicted) => Some(predicted.percent_bits),
            None => None,
        },
        None => None,
    }
}

/// Once a dial was turned again, as often as may be short of a whole round of
/// the numbers, the order of the earlier turn is no longer the latest.
pub proof fn earlier_turn_is_not_sent(sequence: u64, turns: nat, after: ApplicationDialRuntime)
    requires
        0 < turns <= u64::MAX,
        after.command_sequence == feedback::following_by(sequence, turns),
    ensures
        !is_latest(Some(after), sequence),
        is_latest(Some(after), after.command_sequence),
{
    feedback::lemma_following_by(sequence, turns);
}

} // verus!
