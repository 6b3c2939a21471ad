//! Keys, their pictures and their titles.

use vstd::prelude::*;
#[allow(unused_imports)]
use vstd::utf8;

use crate::icons;
use crate::icons::encode_base64;
use crate::mixer::MixerChannel;
use crate::path;
use crate::path::extension_of;
use crate::table::Table;
use crate::text;
use crate::text::{
    characters, contains, find, from_characters, join, reads, replace, utf8_text,
};
use vstd::slice::slice_subrange;

verus! {

// ---------------------------------------------------------------------
// Presses
// ---------------------------------------------------------------------

/// Which key is held, and since when, in milliseconds.
#[derive(Debug)]
pub struct ButtonPressControl {
    pub action_id: Option<String>,
    pub time_ms: Option<u128>,
}

impl ButtonPressControl {
    /// No key is held.
    pub fn new() -> (res: Self)
        ensures
            res.action_id is None,
            res.time_ms is None,
    {
        ButtonPressControl { action_id: None, time_ms: None }
    }

    /// Notes that a key is pressed.
    pub fn set_press_time(&mut self, action_id: String, now_ms: u128)
        ensures
            final(self).action_id == Some(action_id),
            final(self).time_ms == Some(now_ms),
    {
        self.action_id = Some(action_id);
        self.time_ms = Some(now_ms);
    }

    /// Notes that the key is released, and gives how long it was held, where
    /// one was.
    pub fn get_release_time(&mut self, now_ms: u128) -> (res: Option<u128>)
        requires
            old(self).action_id is Some && old(self).time_ms is Some ==> old(self).time_ms->0
                <= now_ms,
        ensures
            old(self).action_id is None ==> res is None && *final(self) == *old(self),
            old(self).action_id is Some ==> {
                &&& final(self).action_id is None
                &&& final(self).time_ms is None
                &&& res == match old(self).time_ms {
                    Some(pressed) => Some((now_ms - pressed) as u128),
                    None => None,
                }
            },
    {
        if self.action_id.is_none() {
            return None;
        }
        self.action_id = None;
        let pressed = self.time_ms;
        self.time_ms = None;
        match pressed {
            Some(pressed) => Some(now_ms - pressed),
            None => None,
        }
    }
}

// ---------------------------------------------------------------------
// Whether the device that all play on is shown
// ---------------------------------------------------------------------

/// Whether the device that all play on is shown among the applications.
#[derive(Clone, Copy, Debug, PartialEq, Eq, Structural)]
pub struct SystemMixer {
    pub shown: bool,
}

impl Default for SystemMixer {
    fn default() -> (res: Self)
        ensures
            !res.shown,
    {
        SystemMixer { shown: false }
    }
}

/// Whether the device that all play on is shown.
pub fn should_show_system_mixer(mixer: &SystemMixer) -> (res: bool)
    ensures
        res == mixer.shown,
{
    mixer.shown
}

/// Says whether the device that all play on is shown.
pub fn set_show_system_mixer(mixer: &mut SystemMixer, value: bool)
    ensures
        final(mixer).shown == value,
{
    mixer.shown = value;
}

// ---------------------------------------------------------------------
// Keys of the mixer
// ---------------------------------------------------------------------

/// The last row that has a key, where the rows of some keys are known.
pub open spec fn last_row(rows: Seq<Option<u8>>) -> Option<u8>
    decreases rows.len(),
{
    if rows.len() == 0 {
        None
    } else {
        match (last_row(rows.drop_last()), rows.last()) {
            (Some(a), Some(b)) => Some(
                if a >= b {
                    a
                } else {
                    b
                },
            ),
            (Some(a), None) => Some(a),
            (None, row) => row,
        }
    }
}

/// The last row is the highest of those that are known.
pub proof fn last_row_is_the_highest(rows: Seq<Option<u8>>, i: int)
    requires
        0 <= i < rows.len(),
    ensures
        rows[i] matches Some(row) ==> (last_row(rows) matches Some(last) && row <= last),
        last_row(rows) matches Some(last) ==> rows.contains(Some(last)),
    decreases rows.len(),
{
    let before = rows.drop_last();
    if i < before.len() {
        last_row_is_the_highest(before, i);
    } else if before.len() > 0 {
        last_row_is_the_highest(before, 0);
    }
    assert(rows[rows.len() - 1] == rows.last());
    if let Some(last) = last_row(before) {
        if before.len() > 0 {
            let k = choose|k: int| 0 <= k < before.len() && before[k] == Some(last);
            assert(rows[k] == Some(last));
        }
    }
}

/// How many rows of keys there are, from the rows of the keys that are shown.
/// Nothing is known where no key has a row.
pub fn get_device_row_count(rows: &[Option<u8>]) -> (res: Option<u8>)
    requires
        last_row(rows@) matches Some(row) ==> row < 255,
    ensures
        res == match last_row(rows@) {
            Some(row) => Some((row + 1) as u8),
            None => None,
        },
{
    let mut last: Option<u8> = None;
    let mut i: usize = 0;
    while i < rows.len()
        invariant
            i <= rows@.len(),
            last == last_row(rows@.take(i as int)),
        decreases rows@.len() - i,
    {
        assert(rows@.take(i + 1).drop_last() =~= rows@.take(i as int));
        if let Some(row) = rows[i] {
            last = match last {
                Some(held) => if held >= row {
                    Some(held)
                } else {
                    Some(row)
                },
                None => Some(row),
            };
        }
        i += 1;
    }
    assert(rows@.take(i as int) =~= rows@);
    match last {
        Some(row) => Some(row + 1),
        None => None,
    }
}

/// What becomes of a key of the mixer.
#[derive(Clone, Copy, Debug, PartialEq, Eq, Structural)]
pub enum KeyUpdate {
    /// It stays as it is.
    Keep,
    /// It shows nothing.
    Clear,
    /// It shows its part of this channel.
    Show(u8),
}

/// What becomes of a key in a column when the channels changed: devices with
/// fewer than three rows are left alone.
pub open spec fn update_of(
    columns: Map<u8, u8>,
    channels: nat,
    column: u8,
    row_count: Option<u8>,
) -> KeyUpdate {
    if !columns.contains_key(column) || row_count is None || row_count->0 < 3 {
        KeyUpdate::Keep
    } else if columns[column] < channels {
        KeyUpdate::Show(columns[column])
    } else {
        KeyUpdate::Clear
    }
}

/// A key shows a channel exactly where its column has that channel, there are
/// so many channels, and the device has three rows of keys or more. It is
/// cleared only where the channels ran out, and left alone on smaller devices.
pub proof fn keys_show_the_channel_of_their_column(
    columns: Map<u8, u8>,
    channels: nat,
    column: u8,
    row_count: Option<u8>,
    channel: u8,
)
    ensures
        update_of(columns, channels, column, row_count) == KeyUpdate::Show(channel) <==> {
            &&& row_count is Some
            &&& row_count->0 > 2
            &&& columns.contains_key(column)
            &&& columns[column] == channel
            &&& channel < channels
        },
        update_of(columns, channels, column, row_count) == KeyUpdate::Clear <==> {
            &&& row_count is Some
            &&& row_count->0 > 2
            &&& columns.contains_key(column)
            &&& columns[column] >= channels
        },
{
}

/// What becomes of a key in a column when the channels changed. `columns`
/// holds the channel of each column.
pub fn update_stream_deck_button(
    columns: &Table<u8, u8>,
    channels: &[MixerChannel],
    column: u8,
    row_count: Option<u8>,
) -> (res: KeyUpdate)
    ensures
        res == update_of(columns@, channels@.len(), column, row_count),
{
    let channel: u8 = match columns.get(&column) {
        Some(channel) => *channel,
        None => return KeyUpdate::Keep,
    };
    let rows: u8 = match row_count {
        Some(rows) => rows,
        None => return KeyUpdate::Keep,
    };
    if rows < 3 {
        KeyUpdate::Keep
    } else if (channel as usize) < channels.len() {
        KeyUpdate::Show(channel)
    } else {
        KeyUpdate::Clear
    }
}

/// The channel that a key shows again when the streams with these indices
/// changed, where its column shows one of them.
pub open spec fn shown_again(
    columns: Map<u8, u8>,
    channels: Seq<MixerChannel>,
    column: u8,
    uids: Seq<u32>,
) -> Option<u8> {
    if columns.contains_key(column) && columns[column] < channels.len() && uids.contains(
        channels[columns[column] as int].uid,
    ) {
        Some(columns[column])
    } else {
        None
    }
}

/// A key is shown again exactly where its column shows a stream that changed.
pub proof fn only_changed_channels_are_shown_again(
    columns: Map<u8, u8>,
    channels: Seq<MixerChannel>,
    column: u8,
    uids: Seq<u32>,
    channel: u8,
)
    requires
        columns.contains_key(column),
        columns[column] == channel,
        channel < channels.len(),
    ensures
        shown_again(columns, channels, column, uids) == Some(channel) <==> exists|i: int|
            0 <= i < uids.len() && #[trigger] uids[i] == channels[channel as int].uid,
        shown_again(columns, channels, column, uids) is None || shown_again(
            columns,
            channels,
            column,
            uids,
        ) == Some(channel),
{
}

/// The channel that a key shows again when the streams with these indices
/// changed, where its column shows one of them.
pub fn update_stream_deck_button_for(
    columns: &Table<u8, u8>,
    channels: &[MixerChannel],
    column: u8,
    uids: &[u32],
) -> (res: Option<u8>)
    ensures
        res == shown_again(columns@, channels@, column, uids@),
{
    let channel: u8 = match columns.get(&column) {
        Some(channel) => *channel,
        None => return None,
    };
    if (channel as usize) >= channels.len() {
        return None;
    }
    let uid: u32 = channels[channel as usize].uid;
    let mut i: usize = 0;
    while i < uids.len()
        invariant
            i <= uids@.len(),
            columns@.contains_key(column),
            channel == columns@[column],
            channel < channels@.len(),
            uid == channels@[channel as int].uid,
            forall|k: int| 0 <= k < i ==> #[trigger] uids@[k] != uid,
        decreases uids@.len() - i,
    {
        if uids[i] == uid {
            assert(uids@[i as int] == uid);
            return Some(channel);
        }
        i += 1;
    }
    None
}

/// What the key of a row shows of a channel.
#[derive(Clone, Copy, Debug, PartialEq, Eq, Structural)]
pub enum KeyFace {
    Header,
    UpperBar,
    LowerBar,
    Nothing,
}

/// What the key of a row shows of a channel.
pub fn key_face(row: u8) -> (res: KeyFace)
    ensures
        res == if row == 0 {
            KeyFace::Header
        } else if row == 1 {
            KeyFace::UpperBar
        } else if row == 2 {
            KeyFace::LowerBar
        } else {
            KeyFace::Nothing
        },
{
    match row {
        0 => KeyFace::Header,
        1 => KeyFace::UpperBar,
        2 => KeyFace::LowerBar,
        _ => KeyFace::Nothing,
    }
}

/// The picture of a channel: gray where it is muted.
pub fn header_icon(channel: &MixerChannel) -> (res: String)
    ensures
        res == if channel.mute {
            channel.icon_uri_mute
        } else {
            channel.icon_uri
        },
{
    if channel.mute {
        channel.icon_uri_mute.clone()
    } else {
        channel.icon_uri.clone()
    }
}

/// The longest title that is shown whole, in bytes, and the characters that
/// are shown of a longer one.
pub const MAX_TITLE_CHARS_BEFORE_TRUNCATION: usize = 8;

/// The title, cut where it is too long.
pub open spec fn cut_title(name: Seq<char>) -> Seq<char> {
    if utf8::encode_utf8(name).len() > MAX_TITLE_CHARS_BEFORE_TRUNCATION {
        (if name.len() > MAX_TITLE_CHARS_BEFORE_TRUNCATION {
            name.take(MAX_TITLE_CHARS_BEFORE_TRUNCATION as int)
        } else {
            name
        }) + "..."@
    } else {
        name
    }
}

/// A title that is short enough is shown whole; of any other the first eight
/// characters are shown, followed by three dots.
pub proof fn long_titles_are_cut(name: Seq<char>, i: int)
    ensures
        utf8::encode_utf8(name).len() <= 8 ==> cut_title(name) == name,
        utf8::encode_utf8(name).len() > 8 ==> {
            let shown: int = if name.len() > 8 {
                8
            } else {
                name.len() as int
            };
            &&& cut_title(name).len() == shown + 3
            &&& 0 <= i < shown ==> cut_title(name)[i] == name[i]
            &&& shown <= i < shown + 3 ==> cut_title(name)[i] == '.'
        },
{
    reveal_strlit("...");
}

/// The title, cut where it is too long.
pub fn shorten_title(name: &str) -> (res: String)
    ensures
        res@ == cut_title(name@),
{
    if name.as_bytes().len() > MAX_TITLE_CHARS_BEFORE_TRUNCATION {
        let chars = characters(name);
        if chars.len() > MAX_TITLE_CHARS_BEFORE_TRUNCATION {
            assert(chars@.subrange(0, 8) =~= chars@.take(8));
            let first = slice_subrange(chars.as_slice(), 0, MAX_TITLE_CHARS_BEFORE_TRUNCATION);
            join(from_characters(first).as_str(), "...")
        } else {
            join(name, "...")
        }
    } else {
        name.to_owned()
    }
}

/// The title of a channel, where it has one.
pub open spec fn title_of(channel: MixerChannel) -> Option<Seq<char>> {
    if channel.is_multi_sink_app {
        match channel.sink_name {
            Some(name) => Some(cut_title(name@)),
            None => None,
        }
    } else if channel.uses_default_icon {
        Some(channel.app_name@)
    } else {
        Some(Seq::empty())
    }
}

/// The streams of an application with several are told apart by their titles,
/// as far as these are short enough; any other application needs a title only
/// where it has no icon of its own, and then it is its name.
pub proof fn titles_tell_channels_apart(channel: MixerChannel, stream: String)
    ensures
        channel.is_multi_sink_app && channel.sink_name == Some(stream) && utf8::encode_utf8(
            stream@,
        ).len() <= 8 ==> title_of(channel) == Some(stream@),
        channel.is_multi_sink_app ==> (title_of(channel) is None <==> channel.sink_name is None),
        !channel.is_multi_sink_app && channel.uses_default_icon ==> title_of(channel) == Some(
            channel.app_name@,
        ),
        !channel.is_multi_sink_app && !channel.uses_default_icon ==> title_of(channel) is Some
            && title_of(channel)->0.len() == 0,
{
}

/// The title of a channel: the stream of an application with several, else
/// the name of an application without an icon of its own, else nothing. Where
/// it is `None`, the title is taken away.
pub fn header_title(channel: &MixerChannel) -> (res: Option<String>)
    ensures
        text::text_of(res) == title_of(*channel),
{
    if channel.is_multi_sink_app {
        match &channel.sink_name {
            Some(name) => Some(shorten_title(name.as_str())),
            None => None,
        }
    } else if channel.uses_default_icon {
        Some(channel.app_name.clone())
    } else {
        let empty = String::new();
        assert(empty@ =~= Seq::empty());
        Some(empty)
    }
}

// ---------------------------------------------------------------------
// Pictures
// ---------------------------------------------------------------------

/// The picture that stands for all applications without an icon.
pub const DEFAULT_ICON: &'static str = "img/wave-sound.png";

/// The file of an application's icon, and whether the application has none:
/// without a name for its icon it gets the picture that stands for all. With
/// one, `named` is the file of that icon and `fallback` that of the other name
/// that was looked for, and only without either does it get that picture.
pub open spec fn icon_file(
    has_name: bool,
    named: Option<Seq<char>>,
    fallback: Option<Seq<char>>,
) -> (Seq<char>, bool) {
    if !has_name {
        (DEFAULT_ICON@, true)
    } else if named is Some {
        (named->0, false)
    } else if fallback is Some {
        (fallback->0, false)
    } else {
        (DEFAULT_ICON@, false)
    }
}

/// The file of the icon that was asked for goes first, then that of the other
/// name, and only without both the picture that stands for all. An application
/// counts as one without an icon exactly where it names none.
pub proof fn named_icons_go_first(
    has_name: bool,
    named: Option<Seq<char>>,
    fallback: Option<Seq<char>>,
    file: Seq<char>,
)
    ensures
        icon_file(has_name, named, fallback).1 <==> !has_name,
        has_name ==> icon_file(has_name, Some(file), fallback).0 == file,
        has_name ==> icon_file(has_name, None, Some(file)).0 == file,
        icon_file(has_name, None, None).0 == "img/wave-sound.png"@,
        icon_file(false, named, fallback).0 == "img/wave-sound.png"@,
{
}

/// Chooses the file of an application's icon.
pub fn choose_icon_path(has_name: bool, named: Option<String>, fallback: Option<String>) -> (res: (
    String,
    bool,
))
    ensures
        (res.0@, res.1) == icon_file(has_name, text::text_of(named), text::text_of(fallback)),
{
    if !has_name {
        return (DEFAULT_ICON.to_owned(), true);
    }
    match named {
        Some(path) => (path, false),
        None => match fallback {
            Some(path) => (path, false),
            None => (DEFAULT_ICON.to_owned(), false),
        },
    }
}

/// The type of the picture in a file.
pub open spec fn mime_type_of(file: Seq<char>) -> Seq<char> {
    match path::extension(file) {
        Some(ending) => if ending == "svg"@ {
            "image/svg+xml"@
        } else if ending == "xpm"@ {
            "image/x-xpm"@
        } else {
            "image/png"@
        },
        None => "image/png"@,
    }
}

/// The type of a picture is told by the ending of its file alone: drawings and
/// X pixmaps have types of their own, and everything else counts as PNG.
pub proof fn mime_types_follow_the_ending(file: Seq<char>)
    ensures
        mime_type_of(file) == "image/svg+xml"@ <==> path::extension(file) == Some("svg"@),
        mime_type_of(file) == "image/x-xpm"@ <==> path::extension(file) == Some("xpm"@),
        mime_type_of(file) == "image/png"@ <==> path::extension(file) != Some("svg"@)
            && path::extension(file) != Some("xpm"@),
{
    reveal_strlit("image/svg+xml");
    reveal_strlit("image/x-xpm");
    reveal_strlit("image/png");
    reveal_strlit("svg");
    reveal_strlit("xpm");
    assert("svg"@[0] == 's' && "xpm"@[0] == 'x');
    assert("image/svg+xml"@.len() == 13 && "image/x-xpm"@.len() == 11 && "image/png"@.len() == 9);
}

/// The type of the picture in a file.
pub fn mime_type(file: &str) -> (res: &'static str)
    ensures
        res@ == mime_type_of(file@),
{
    let chars = characters(file);
    match extension_of(chars.as_slice()) {
        Some(ending) => if reads(ending.as_slice(), "svg") {
            "image/svg+xml"
        } else if reads(ending.as_slice(), "xpm") {
            "image/x-xpm"
        } else {
            "image/png"
        },
        None => "image/png",
    }
}

/// A drawing with less opacity: its first tag gets the attribute, where it
/// does not have one.
pub open spec fn faded(svg: Seq<char>) -> Seq<char> {
    let end = text::first_index(svg, '>');
    if end >= svg.len() || text::occurs(svg.take(end + 1), "opacity="@) {
        svg
    } else {
        text::replaced(svg.take(end + 1), "<svg"@, "<svg opacity=\"0.4\""@) + svg.skip(end + 1)
    }
}

/// Fades a drawing.
pub fn add_grayscale_filter_to_svg(svg: String) -> (res: String)
    ensures
        res@ == faded(svg@),
{
    let chars = characters(svg.as_str());
    let end: usize = find(chars.as_slice(), '>');
    if end >= chars.len() {
        return svg;
    }
    assert(chars@.subrange(0, end + 1) =~= chars@.take(end + 1));
    assert(chars@.subrange(end + 1, chars@.len() as int) =~= chars@.skip(end + 1));
    let first = slice_subrange(chars.as_slice(), 0, end + 1);
    let rest = slice_subrange(chars.as_slice(), end + 1, chars.len());
    let attribute = characters("opacity=");
    if contains(first, attribute.as_slice()) {
        return svg;
    }
    let from = characters("<svg");
    proof {
        reveal_strlit("<svg");
    }
    let to = characters("<svg opacity=\"0.4\"");
    let changed = replace(first, from.as_slice(), to.as_slice());
    join(
        from_characters(changed.as_slice()).as_str(),
        from_characters(rest).as_str(),
    )
}

proof fn lemma_faded_tag(tag: Seq<char>)
    requires
        tag.len() > 0,
        text::first_index(tag, '>') == tag.len() - 1,
    ensures
        ({
            let changed = text::replaced(tag, "<svg"@, "<svg opacity=\"0.4\""@);
            &&& changed.len() > 0
            &&& text::first_index(changed, '>') == changed.len() - 1
            &&& changed == tag || text::occurs(changed, "opacity="@)
        }),
    decreases tag.len(),
{
    reveal_strlit("<svg");
    reveal_strlit("<svg opacity=\"0.4\"");
    reveal_strlit("opacity=");
    let from = "<svg"@;
    let to = "<svg opacity=\"0.4\""@;
    let part = "opacity="@;
    let changed = text::replaced(tag, from, to);
    text::lemma_first_index(tag, '>');
    text::lemma_first_index(changed, '>');
    if text::starts(tag, from) {
        let rest = tag.skip(4);
        assert(tag.take(4)[3] == tag[3]);
        assert(rest.last() == '>');
        text::lemma_first_index(rest, '>');
        assert forall|k: int| 0 <= k < rest.len() - 1 implies rest[k] != '>' by {
            assert(rest[k] == tag[k + 4]);
        }
        lemma_faded_tag(rest);
        let tail = text::replaced(rest, from, to);
        text::lemma_first_index(tail, '>');
        assert(changed == to + tail);
        assert(changed.last() == tail.last());
        assert forall|k: int| 0 <= k < changed.len() - 1 implies changed[k] != '>' by {
            if k >= to.len() {
                assert(changed[k] == tail[k - to.len()]);
            }
        }
        assert(changed.subrange(5, 13) =~= part);
        assert(text::occurs_at(changed, part, 5));
    } else if tag.len() == 1 {
        assert(text::replaced(tag.skip(1), from, to) =~= Seq::empty());
        assert(changed =~= tag);
    } else {
        let rest = tag.skip(1);
        assert(rest.last() == '>');
        text::lemma_first_index(rest, '>');
        assert forall|k: int| 0 <= k < rest.len() - 1 implies rest[k] != '>' by {
            assert(rest[k] == tag[k + 1]);
        }
        lemma_faded_tag(rest);
        let tail = text::replaced(rest, from, to);
        text::lemma_first_index(tail, '>');
        assert(changed == seq![tag[0]] + tail);
        assert(changed.last() == tail.last());
        assert forall|k: int| 0 <= k < changed.len() - 1 implies changed[k] != '>' by {
            if k >= 1 {
                assert(changed[k] == tail[k - 1]);
            } else {
                assert(tag[0] != '>');
            }
        }
        if tail == rest {
            assert(changed =~= tag);
        } else {
            let at = choose|at: int| text::occurs_at(tail, part, at);
            assert(changed.subrange(at + 1, at + 1 + part.len()) =~= tail.subrange(
                at,
                at + part.len(),
            ));
            assert(text::occurs_at(changed, part, at + 1));
        }
    }
}

/// A drawing that was faded is not faded again.
pub proof fn fading_twice_is_fading_once(svg: Seq<char>)
    ensures
        faded(faded(svg)) == faded(svg),
{
    let end = text::first_index(svg, '>');
    text::lemma_first_index(svg, '>');
    if end < svg.len() {
        let tag = svg.take(end + 1);
        let rest = svg.skip(end + 1);
        text::lemma_first_index(tag, '>');
        assert(tag.last() == '>');
        lemma_faded_tag(tag);
        let changed = text::replaced(tag, "<svg"@, "<svg opacity=\"0.4\""@);
        if changed == tag {
            assert(changed + rest =~= svg);
        } else {
            let after = changed + rest;
            text::lemma_first_index(changed, '>');
            text::lemma_first_index(after, '>');
            let last = changed.len() - 1;
            assert(after[last] == '>');
            assert forall|k: int| 0 <= k < last implies after[k] != '>' by {
                assert(after[k] == changed[k]);
            }
            assert(after.take(last + 1) =~= changed);
        }
    }
}

/// Fading changes the first tag of a drawing alone: what follows it stays, and
/// a drawing whose first tag has an opacity stays as it is. A drawing that
/// begins with its tag begins with the faded tag.
pub proof fn fading_changes_the_first_tag(tag: Seq<char>, rest: Seq<char>)
    requires
        tag.len() > 0,
        text::first_index(tag, '>') == tag.len() - 1,
    ensures
        text::occurs(tag, "opacity="@) ==> faded(tag + rest) == tag + rest,
        faded(tag + rest).len() >= rest.len(),
        faded(tag + rest).skip(faded(tag + rest).len() - rest.len()) == rest,
        text::starts(tag, "<svg"@) && !text::occurs(tag, "opacity="@) ==> text::starts(
            faded(tag + rest),
            "<svg opacity=\"0.4\""@,
        ),
{
    let svg = tag + rest;
    let end = tag.len() - 1;
    text::lemma_first_index(tag, '>');
    text::lemma_first_index(svg, '>');
    assert(svg[end] == '>');
    assert(svg.contains('>'));
    let found = text::first_index(svg, '>');
    if found < end {
        assert(tag[found] == '>');
    }
    assert(found == end);
    assert(svg.take(end + 1) =~= tag);
    assert(svg.skip(end + 1) =~= rest);
    reveal_strlit("<svg");
    reveal_strlit("<svg opacity=\"0.4\"");
    let all = faded(svg);
    let changed = text::replaced(tag, "<svg"@, "<svg opacity=\"0.4\""@);
    if text::occurs(tag, "opacity="@) {
        assert(svg.skip(svg.len() - rest.len()) =~= rest);
    } else {
        assert(all == changed + rest);
        assert(all.skip(all.len() - rest.len()) =~= rest);
        if text::starts(tag, "<svg"@) {
            let new = "<svg opacity=\"0.4\""@;
            let tail = text::replaced(tag.skip(4), "<svg"@, new);
            assert(changed == new + tail);
            assert(all.take(new.len() as int) =~= new);
        }
    }
}

/// What optional bytes hold.
pub open spec fn bytes_of(value: Option<Vec<u8>>) -> Option<Seq<u8>> {
    match value {
        Some(bytes) => Some(bytes@),
        None => None,
    }
}

/// Makes a picture gray with the crate `image`: `load_from_memory` decodes
/// it, `DynamicImage::to_luma8` maps it to shades of gray, and
/// `DynamicImage::write_to` encodes it as PNG. Nothing is claimed of what
/// comes out, or of whether something does: besides the bytes it rests on the
/// decoders that are registered in the process.
#[verifier::external_body]
fn grayscale_png(data: &[u8]) -> (res: Option<Vec<u8>>) {
    let picture = image::load_from_memory(data).ok()?;
    let gray = image::DynamicImage::ImageLuma8(picture.to_luma8());
    let mut buffer = std::io::Cursor::new(Vec::new());
    gray.write_to(&mut buffer, image::ImageFormat::Png).ok()?;
    Some(buffer.into_inner())
}

/// A data URI.
pub open spec fn data_uri(mime: Seq<char>, data: Seq<u8>) -> Seq<char> {
    "data:"@ + mime + ";base64,"@ + icons::base64_text(data)
}

fn write_data_uri(mime: &str, data: &[u8]) -> (res: String)
    requires
        icons::fits_as_base64(data@.len()),
    ensures
        res@ == data_uri(mime@, data@),
{
    let start = join(join("data:", mime).as_str(), ";base64,");
    join(start.as_str(), encode_base64(data).as_str())
}

/// The picture to show while an application is muted: a faded drawing, a gray
/// picture, or the picture itself where neither can be made. `gray` is what
/// became of the picture in shades of gray.
pub open spec fn muted_picture(
    mime: Seq<char>,
    data: Seq<u8>,
    gray: Option<Seq<u8>>,
) -> (Seq<char>, Seq<u8>) {
    if mime == "image/svg+xml"@ {
        if utf8::valid_utf8(data) {
            (mime, utf8::encode_utf8(faded(utf8::decode_utf8(data))))
        } else {
            (mime, data)
        }
    } else {
        match gray {
            Some(bytes) => ("image/png"@, bytes),
            None => (mime, data),
        }
    }
}

/// While an application is muted, a drawing stays a drawing, and is faded
/// where it can be read; of any other picture the gray one is shown, as PNG,
/// where there is one, and the picture itself else.
pub proof fn muted_pictures_are_faded_or_gray(
    mime: Seq<char>,
    data: Seq<u8>,
    gray: Option<Seq<u8>>,
    bytes: Seq<u8>,
)
    ensures
        mime == "image/svg+xml"@ ==> muted_picture(mime, data, gray).0 == mime,
        mime == "image/svg+xml"@ ==> muted_picture(mime, data, gray) == muted_picture(
            mime,
            data,
            None,
        ),
        mime == "image/svg+xml"@ && utf8::valid_utf8(data) ==> muted_picture(mime, data, gray).1
            == utf8::encode_utf8(faded(utf8::decode_utf8(data))),
        mime == "image/svg+xml"@ && !utf8::valid_utf8(data) ==> muted_picture(mime, data, gray).1
            == data,
        mime != "image/svg+xml"@ ==> muted_picture(mime, data, Some(bytes)) == ("image/png"@, bytes),
        mime != "image/svg+xml"@ ==> muted_picture(mime, data, None) == (mime, data),
{
}

/// The data URI of the picture to show while an application is muted, where
/// it fits into memory.
pub fn muted_uri(mime: &str, data: &[u8], gray: &Option<Vec<u8>>) -> (res: Option<String>)
    ensures
        ({
            let (kind, bytes) = muted_picture(mime@, data@, bytes_of(*gray));
            match res {
                Some(uri) => icons::fits_as_base64(bytes.len()) && uri@ == data_uri(kind, bytes),
                None => !icons::fits_as_base64(bytes.len()),
            }
        }),
{
    if text::same(mime, "image/svg+xml") {
        if let Some(svg) = utf8_text(data) {
            let drawing = add_grayscale_filter_to_svg(svg);
            return checked_uri(mime, drawing.as_str().as_bytes());
        }
        return checked_uri(mime, data);
    }
    match gray {
        Some(bytes) => checked_uri("image/png", bytes.as_slice()),
        None => checked_uri(mime, data),
    }
}

/// The data URI of some bytes, where it fits into memory.
pub fn checked_uri(mime: &str, data: &[u8]) -> (res: Option<String>)
    ensures
        match res {
            Some(uri) => icons::fits_as_base64(data@.len()) && uri@ == data_uri(mime@, data@),
            None => !icons::fits_as_base64(data@.len()),
        },
{
    let groups: usize = data.len() / 3;
    let all: usize = if data.len() % 3 == 0 {
        groups
    } else {
        groups + 1
    };
    proof {
        let n = data@.len() as int;
        assert(all == (n + 2) / 3);
    }
    if all > (isize::MAX as usize) / 4 {
        return None;
    }
    Some(write_data_uri(mime, data))
}

/// Whether these are the data URIs of a picture, as it is and muted, where
/// `gray` is what became of it in shades of gray. Nothing is given where one
/// does not fit into memory.
pub open spec fn are_icon_uris(
    uris: Option<(String, String)>,
    mime: Seq<char>,
    data: Seq<u8>,
    gray: Option<Seq<u8>>,
) -> bool {
    let (kind, bytes) = muted_picture(mime, data, gray);
    match uris {
        Some((normal, muted)) => {
            &&& icons::fits_as_base64(data.len())
            &&& icons::fits_as_base64(bytes.len())
            &&& normal@ == data_uri(mime, data)
            &&& muted@ == data_uri(kind, bytes)
        },
        None => !icons::fits_as_base64(data.len()) || !icons::fits_as_base64(bytes.len()),
    }
}

/// The first URI holds the picture as it is, under its own type, and the second
/// what is shown while it is muted: a drawing that can be read faded, any other
/// picture gray where it could be made so. Both are given exactly where both
/// fit into memory.
pub proof fn uris_hold_the_picture_and_its_muted_form(
    uris: Option<(String, String)>,
    mime: Seq<char>,
    data: Seq<u8>,
    gray: Seq<u8>,
)
    requires
        are_icon_uris(uris, mime, data, Some(gray)),
    ensures
        uris matches Some((normal, muted)) ==> normal@ == "data:"@ + mime + ";base64,"@
            + icons::base64_text(data),
        mime != "image/svg+xml"@ ==> (uris is Some <==> icons::fits_as_base64(data.len())
            && icons::fits_as_base64(gray.len())),
        mime != "image/svg+xml"@ ==> (uris matches Some((normal, muted)) ==> muted@ == "data:"@
            + "image/png"@ + ";base64,"@ + icons::base64_text(gray)),
        mime == "image/svg+xml"@ && utf8::valid_utf8(data) ==> (uris matches Some((normal, muted))
            ==> muted@ == "data:"@ + mime + ";base64,"@ + icons::base64_text(
            utf8::encode_utf8(faded(utf8::decode_utf8(data))),
        )),
        mime == "image/svg+xml"@ && !utf8::valid_utf8(data) ==> (uris matches Some((normal, muted))
            ==> muted@ == normal@),
{
}

/// The data URIs of a picture, as it is and muted.
pub fn icon_uris(mime: &str, data: &[u8], gray: &Option<Vec<u8>>) -> (res: Option<(String, String)>)
    ensures
        are_icon_uris(res, mime@, data@, bytes_of(*gray)),
{
    let normal = match checked_uri(mime, data) {
        Some(uri) => uri,
        None => return None,
    };
    match muted_uri(mime, data, gray) {
        Some(muted) => Some((normal, muted)),
        None => None,
    }
}

proof fn lemma_default_icon()
    ensures
        mime_type_of(DEFAULT_ICON@) == "image/png"@,
{
    reveal_strlit("img/wave-sound.png");
    reveal_strlit("wave-sound.png");
    reveal_strlit("img");
    reveal_strlit(".");
    reveal_strlit("..");
    reveal_strlit("/");
    reveal_strlit("svg");
    reveal_strlit("xpm");
    let file = "img/wave-sound.png"@;
    let name = "wave-sound.png"@;
    text::lemma_first_index(file, '/');
    assert(file[3] == '/');
    assert(text::first_index(file, '/') == 3);
    assert(file.take(3) =~= "img"@);
    assert(file.skip(4) =~= name);
    text::lemma_first_index(name, '/');
    assert(text::split_at_char(name, '/') == seq![name]);
    let parts = text::split_at_char(file, '/');
    assert(parts =~= seq!["img"@, name]);
    let is_name = |part: Seq<char>| path::names(part);
    assert(parts.last() == name && is_name(name));
    reveal(Seq::filter);
    assert(path::path_names(file).last() == name);
    assert(parts[0] == "img"@);
    assert("img"@[0] != "."@[0]);
    assert(name[0] != '/' && name[0] != '.');
    assert(path::file_name(file) == Some(name));
    let ending = name.skip(11);
    assert(name.drop_last().drop_last().drop_last().last() == '.');
    assert(path::last_dot(name.drop_last().drop_last().drop_last()) == 10);
    assert(path::last_dot(name.drop_last().drop_last()) == 10);
    assert(path::last_dot(name.drop_last()) == 10);
    assert(path::last_dot(name) == 10);
    assert(path::extension(file) == Some(ending));
    assert(ending[0] == 'p' && "svg"@[0] == 's' && "xpm"@[0] == 'x');
}

/// An application without a name for its icon counts as one without, and is
/// shown with the picture that stands for all, as a PNG file, whatever other
/// name was looked for.
pub proof fn nameless_applications_show_the_default_icon(
    named: Option<Seq<char>>,
    fallback: Option<Seq<char>>,
    data: Seq<u8>,
    gray: Option<Seq<u8>>,
    uris: (String, String),
)
    requires
        are_icon_uris(Some(uris), mime_type_of(icon_file(false, named, fallback).0), data, gray),
    ensures
        icon_file(false, named, fallback) == (DEFAULT_ICON@, true),
        uris.0@ == "data:"@ + "image/png"@ + ";base64,"@ + icons::base64_text(data),
{
    lemma_default_icon();
}

/// The data URIs of an application's icon, as it is and muted, from the file
/// that holds it and its bytes. Nothing is given where one does not fit into
/// memory. What is shown of a drawing while it is muted follows from its bytes
/// alone; of another picture it is whatever it became in shades of gray, where
/// that fits into memory, or the picture itself.
pub fn app_icon_uris(file: &str, data: &[u8]) -> (res: Option<(String, String)>)
    ensures
        mime_type_of(file@) == "image/svg+xml"@ ==> are_icon_uris(
            res,
            mime_type_of(file@),
            data@,
            None,
        ),
        mime_type_of(file@) != "image/svg+xml"@ ==> (res is Some <==> icons::fits_as_base64(
            data@.len(),
        )),
        res is Some ==> (res->0).0@ == data_uri(mime_type_of(file@), data@),
        exists|gray: Option<Seq<u8>>| #[trigger]
            are_icon_uris(res, mime_type_of(file@), data@, gray) && (gray is Some
                ==> icons::fits_as_base64(gray->0.len())),
{
    let mime = mime_type(file);
    if text::same(mime, "image/svg+xml") {
        return icon_uris(mime, data, &None);
    }
    let gray = match grayscale_png(data) {
        Some(bytes) => if checked_uri("image/png", bytes.as_slice()).is_some() {
            Some(bytes)
        } else {
            None
        },
        None => None,
    };
    icon_uris(mime, data, &gray)
}

} // verus!
